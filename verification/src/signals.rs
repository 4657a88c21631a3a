use vstd::prelude::*;
use vstd::utf8::{decode_utf8, valid_utf8};
use crate::cursor::ByteCursor;
use crate::dec::{dec_of_text, is_dec_text, parse_dec};
use crate::errors::{EdfError, ErrKind};
use crate::scale::Bounds;
use crate::text::{is_uint_text, parse_uint, string_from_utf8, subvec, trim, trim_spec, uint_val};

verus! {

/// One recorded channel: its label, its physical unit, its calibration,
/// and how many of its samples each record holds.
#[derive(Debug)]
pub struct Signal {
    pub label: String,
    pub dimension: String,
    pub bounds: Bounds,
    pub num_samples: usize,
}

// The per-channel metadata block is field-major over ten slots of widths
// 16, 80, 8, 8, 8, 8, 8, 80, 8, 32: label, transducer, unit, physical
// minimum, physical maximum, digital minimum, digital maximum,
// prefiltering, samples per record, reserved. The transducer,
// prefiltering and reserved slots are consumed and discarded. The byte
// offsets below are the prefix sums of the widths.

/// The trimmed bytes of channel `k`'s field in the slot that starts
/// `off` widths-sums into the table and is `w` bytes wide.
pub open spec fn sig_field(data: Seq<u8>, pos: int, ns: int, off: int, w: int, k: int) -> Seq<u8> {
    trim_spec(data.subrange(pos + off * ns + k * w, pos + off * ns + k * w + w))
}

pub open spec fn label_text(data: Seq<u8>, pos: int, ns: int, k: int) -> Seq<u8> {
    sig_field(data, pos, ns, 0, 16, k)
}

pub open spec fn unit_text(data: Seq<u8>, pos: int, ns: int, k: int) -> Seq<u8> {
    sig_field(data, pos, ns, 96, 8, k)
}

pub open spec fn pmin_text(data: Seq<u8>, pos: int, ns: int, k: int) -> Seq<u8> {
    sig_field(data, pos, ns, 104, 8, k)
}

pub open spec fn pmax_text(data: Seq<u8>, pos: int, ns: int, k: int) -> Seq<u8> {
    sig_field(data, pos, ns, 112, 8, k)
}

pub open spec fn dmin_text(data: Seq<u8>, pos: int, ns: int, k: int) -> Seq<u8> {
    sig_field(data, pos, ns, 120, 8, k)
}

pub open spec fn dmax_text(data: Seq<u8>, pos: int, ns: int, k: int) -> Seq<u8> {
    sig_field(data, pos, ns, 128, 8, k)
}

pub open spec fn nsamp_text(data: Seq<u8>, pos: int, ns: int, k: int) -> Seq<u8> {
    sig_field(data, pos, ns, 216, 8, k)
}

/// All reads of the table succeed: it is not truncated and every kept
/// field decodes as UTF-8. Reading happens before any parsing, so a
/// failure here comes before any parse failure.
pub open spec fn spec_signals_io_ok(data: Seq<u8>, pos: int, ns: int) -> bool {
    &&& pos + 256 * ns <= data.len()
    &&& forall|k: int|
        0 <= k < ns ==> valid_utf8(#[trigger] label_text(data, pos, ns, k)) && valid_utf8(
            unit_text(data, pos, ns, k),
        ) && valid_utf8(pmin_text(data, pos, ns, k)) && valid_utf8(pmax_text(data, pos, ns, k))
            && valid_utf8(dmin_text(data, pos, ns, k)) && valid_utf8(dmax_text(data, pos, ns, k))
            && valid_utf8(nsamp_text(data, pos, ns, k))
}

/// The first parse failure of channel `k`, in the order the fields are
/// parsed: the sample count, then the four calibration bounds.
pub open spec fn spec_channel_err(data: Seq<u8>, pos: int, ns: int, k: int) -> Option<ErrKind> {
    if !is_uint_text(nsamp_text(data, pos, ns, k)) {
        Some(ErrKind::ParseInt)
    } else if !is_dec_text(pmin_text(data, pos, ns, k)) {
        Some(ErrKind::ParseFloat)
    } else if !is_dec_text(pmax_text(data, pos, ns, k)) {
        Some(ErrKind::ParseFloat)
    } else if !is_dec_text(dmin_text(data, pos, ns, k)) {
        Some(ErrKind::ParseFloat)
    } else if !is_dec_text(dmax_text(data, pos, ns, k)) {
        Some(ErrKind::ParseFloat)
    } else {
        None
    }
}

/// What channel `k` decodes to, stated field by field.
pub open spec fn spec_signal_matches(s: &Signal, data: Seq<u8>, pos: int, ns: int, k: int) -> bool {
    &&& s.label@ == decode_utf8(label_text(data, pos, ns, k))
    &&& s.dimension@ == decode_utf8(unit_text(data, pos, ns, k))
    &&& s.bounds == (Bounds {
        digital_min: dec_of_text(dmin_text(data, pos, ns, k)),
        digital_max: dec_of_text(dmax_text(data, pos, ns, k)),
        physical_min: dec_of_text(pmin_text(data, pos, ns, k)),
        physical_max: dec_of_text(pmax_text(data, pos, ns, k)),
    })
    &&& s.bounds.wf()
    &&& s.num_samples == uint_val(nsamp_text(data, pos, ns, k))
    &&& s.num_samples < 100_000_000
}

/// Decode the channel table: `num_signals` channels stored field-major.
#[verifier::loop_isolation(false)]
#[verifier::rlimit(100)]
pub fn get_signals(data: &Vec<u8>, cursor: &mut ByteCursor, num_signals: usize) -> (r: Result<
    Vec<Signal>,
    EdfError,
>)
    requires
        num_signals < 100_000_000,
    ensures
        ({
            let pos = old(cursor).pos as int;
            let ns = num_signals as int;
            match r {
                Ok(v) => spec_signals_io_ok(data@, pos, ns) && v@.len() == ns && (forall|k: int|
                    0 <= k < ns ==> spec_channel_err(data@, pos, ns, k) is None) && (forall|k: int|
                    0 <= k < ns ==> spec_signal_matches(&v@[k], data@, pos, ns, k))
                    && final(cursor).pos == old(cursor).pos + 256 * num_signals,
                Err(e) => if !spec_signals_io_ok(data@, pos, ns) {
                    e.kind() == ErrKind::Io
                } else {
                    exists|k: int|
                        0 <= k < ns && (#[trigger] spec_channel_err(data@, pos, ns, k)) == Some(
                            e.kind(),
                        ) && (forall|j: int| 0 <= j < k ==> spec_channel_err(data@, pos, ns, j) is None)
                },
            }
        }),
{
    let ghost pos0 = old(cursor).pos as int;
    let ghost nsg = num_signals as int;
    let need64: u64 = 256u64 * (num_signals as u64);
    let avail: usize = data.len() - if cursor.pos <= data.len() {
        cursor.pos
    } else {
        data.len()
    };
    if (avail as u64) < need64 {
        proof {
            assert(pos0 + 256 * nsg > data@.len());
        }
        return Err(EdfError::Io(String::from_str("unexpected end of stream")));
    }
    let need: usize = need64 as usize;
    let table: Vec<u8> = match cursor.take(data, need) {
        Ok(v) => v,
        Err(_) => { return Err(EdfError::Io(String::from_str("unexpected end of stream"))) },
    };
    // first pass: every kept field is cut out, trimmed, and checked as
    // text, in table order
    let mut labels: Vec<String> = Vec::new();
    let mut units: Vec<String> = Vec::new();
    let mut pmins: Vec<Vec<u8>> = Vec::new();
    let mut pmaxs: Vec<Vec<u8>> = Vec::new();
    let mut dmins: Vec<Vec<u8>> = Vec::new();
    let mut dmaxs: Vec<Vec<u8>> = Vec::new();
    let mut nsamps: Vec<Vec<u8>> = Vec::new();
    let ns: usize = num_signals;
    let tlen: usize = table.len();
    let mut k: usize = 0;
    while k < ns
        invariant
            ns == nsg,
            ns < 100_000_000,
            tlen == table@.len(),
            table@.len() == 256 * nsg,
            table@ == data@.subrange(pos0, pos0 + 256 * nsg),
            forall|t: int| 0 <= t < 256 * nsg ==> #[trigger] table@[t] == data@[pos0 + t],
            pos0 + 256 * nsg <= data@.len(),
            0 <= k <= ns,
            labels@.len() == k && units@.len() == k && pmins@.len() == k && pmaxs@.len() == k
                && dmins@.len() == k && dmaxs@.len() == k && nsamps@.len() == k,
            forall|j: int|
                0 <= j < k ==> valid_utf8(#[trigger] label_text(data@, pos0, nsg, j)) && valid_utf8(
                    unit_text(data@, pos0, nsg, j),
                ) && valid_utf8(pmin_text(data@, pos0, nsg, j)) && valid_utf8(
                    pmax_text(data@, pos0, nsg, j),
                ) && valid_utf8(dmin_text(data@, pos0, nsg, j)) && valid_utf8(
                    dmax_text(data@, pos0, nsg, j),
                ) && valid_utf8(nsamp_text(data@, pos0, nsg, j)),
            forall|j: int|
                0 <= j < k ==> (#[trigger] labels@[j])@ == decode_utf8(
                    label_text(data@, pos0, nsg, j),
                ),
            forall|j: int|
                0 <= j < k ==> (#[trigger] units@[j])@ == decode_utf8(
                    unit_text(data@, pos0, nsg, j),
                ),
            forall|j: int|
                0 <= j < k ==> (#[trigger] pmins@[j])@ == pmin_text(data@, pos0, nsg, j),
            forall|j: int|
                0 <= j < k ==> (#[trigger] pmaxs@[j])@ == pmax_text(data@, pos0, nsg, j),
            forall|j: int|
                0 <= j < k ==> (#[trigger] dmins@[j])@ == dmin_text(data@, pos0, nsg, j),
            forall|j: int|
                0 <= j < k ==> (#[trigger] dmaxs@[j])@ == dmax_text(data@, pos0, nsg, j),
            forall|j: int|
                0 <= j < k ==> (#[trigger] nsamps@[j])@ == nsamp_text(data@, pos0, nsg, j),
        decreases ns - k,
    {
        proof {
            assert(16 * (nsg as int) + (k as int) * 16 + 16 <= 256 * nsg) by (nonlinear_arith)
                requires
                    0 <= k < nsg,
            ;
            assert(224 * (nsg as int) + (k as int) * 8 + 8 <= 256 * nsg) by (nonlinear_arith)
                requires
                    0 <= k < nsg,
            ;
        }
        let lab_b = trim(&subvec(&table, 16 * k, 16));
        proof {
            let a = 16 * (k as int);
            assert(0 <= a && a + 16 <= 256 * nsg);
            assert forall|t: int|
                0 <= t < 16 implies #[trigger] table@.subrange(a, a + 16)[t] == data@.subrange(
                pos0 + a,
                pos0 + a + 16,
            )[t] by {
                assert(table@.subrange(a, a + 16)[t] == table@[a + t]);
                assert(table@[a + t] == data@[pos0 + a + t]);
                assert(data@.subrange(pos0 + a, pos0 + a + 16)[t] == data@[pos0 + a + t]);
            }
            assert(table@.subrange(a, a + 16) =~= data@.subrange(pos0 + a, pos0 + a + 16));
            assert(a == 0 * nsg + (k as int) * 16);
            assert(lab_b@ == label_text(data@, pos0, nsg, k as int));
        }
        let lab = match string_from_utf8(lab_b) {
            Some(s) => s,
            None => {
                proof {
                    assert(!valid_utf8(label_text(data@, pos0, nsg, k as int)));
                }
                return Err(EdfError::Io(String::from_str("stream did not contain valid UTF-8")));
            },
        };
        let unit_b = trim(&subvec(&table, 96 * ns + 8 * k, 8));
        proof {
            assert(table@.subrange(
                96 * nsg + 8 * k as int,
                96 * nsg + 8 * k as int + 8,
            ) =~= data@.subrange(
                pos0 + 96 * nsg + (k as int) * 8,
                pos0 + 96 * nsg + (k as int) * 8 + 8,
            ));
        }
        let unit = match string_from_utf8(unit_b) {
            Some(s) => s,
            None => {
                proof {
                    assert(!valid_utf8(unit_text(data@, pos0, nsg, k as int)));
                }
                return Err(EdfError::Io(String::from_str("stream did not contain valid UTF-8")));
            },
        };
        let pmin_b = trim(&subvec(&table, 104 * ns + 8 * k, 8));
        proof {
            assert(table@.subrange(
                104 * nsg + 8 * k as int,
                104 * nsg + 8 * k as int + 8,
            ) =~= data@.subrange(
                pos0 + 104 * nsg + (k as int) * 8,
                pos0 + 104 * nsg + (k as int) * 8 + 8,
            ));
        }
        if string_from_utf8(pmin_b.clone()).is_none() {
            proof {
                assert(!valid_utf8(pmin_text(data@, pos0, nsg, k as int)));
            }
            return Err(EdfError::Io(String::from_str("stream did not contain valid UTF-8")));
        }
        let pmax_b = trim(&subvec(&table, 112 * ns + 8 * k, 8));
        proof {
            assert(table@.subrange(
                112 * nsg + 8 * k as int,
                112 * nsg + 8 * k as int + 8,
            ) =~= data@.subrange(
                pos0 + 112 * nsg + (k as int) * 8,
                pos0 + 112 * nsg + (k as int) * 8 + 8,
            ));
        }
        if string_from_utf8(pmax_b.clone()).is_none() {
            proof {
                assert(!valid_utf8(pmax_text(data@, pos0, nsg, k as int)));
            }
            return Err(EdfError::Io(String::from_str("stream did not contain valid UTF-8")));
        }
        let dmin_b = trim(&subvec(&table, 120 * ns + 8 * k, 8));
        proof {
            assert(table@.subrange(
                120 * nsg + 8 * k as int,
                120 * nsg + 8 * k as int + 8,
            ) =~= data@.subrange(
                pos0 + 120 * nsg + (k as int) * 8,
                pos0 + 120 * nsg + (k as int) * 8 + 8,
            ));
        }
        if string_from_utf8(dmin_b.clone()).is_none() {
            proof {
                assert(!valid_utf8(dmin_text(data@, pos0, nsg, k as int)));
            }
            return Err(EdfError::Io(String::from_str("stream did not contain valid UTF-8")));
        }
        let dmax_b = trim(&subvec(&table, 128 * ns + 8 * k, 8));
        proof {
            assert(table@.subrange(
                128 * nsg + 8 * k as int,
                128 * nsg + 8 * k as int + 8,
            ) =~= data@.subrange(
                pos0 + 128 * nsg + (k as int) * 8,
                pos0 + 128 * nsg + (k as int) * 8 + 8,
            ));
        }
        if string_from_utf8(dmax_b.clone()).is_none() {
            proof {
                assert(!valid_utf8(dmax_text(data@, pos0, nsg, k as int)));
            }
            return Err(EdfError::Io(String::from_str("stream did not contain valid UTF-8")));
        }
        let nsamp_b = trim(&subvec(&table, 216 * ns + 8 * k, 8));
        proof {
            assert(table@.subrange(
                216 * nsg + 8 * k as int,
                216 * nsg + 8 * k as int + 8,
            ) =~= data@.subrange(
                pos0 + 216 * nsg + (k as int) * 8,
                pos0 + 216 * nsg + (k as int) * 8 + 8,
            ));
        }
        if string_from_utf8(nsamp_b.clone()).is_none() {
            proof {
                assert(!valid_utf8(nsamp_text(data@, pos0, nsg, k as int)));
            }
            return Err(EdfError::Io(String::from_str("stream did not contain valid UTF-8")));
        }
        labels.push(lab);
        units.push(unit);
        pmins.push(pmin_b);
        pmaxs.push(pmax_b);
        dmins.push(dmin_b);
        dmaxs.push(dmax_b);
        nsamps.push(nsamp_b);
        k = k + 1;
    }
    // second pass: parse each channel's numeric fields, channel by
    // channel, the sample count before the bounds
    let mut signals: Vec<Signal> = Vec::new();
    let mut i: usize = 0;
    while i < ns
        invariant
            ns == nsg,
            ns < 100_000_000,
            pos0 + 256 * nsg <= data@.len(),
            0 <= i <= ns,
            labels@.len() == ns && units@.len() == ns && pmins@.len() == ns && pmaxs@.len() == ns
                && dmins@.len() == ns && dmaxs@.len() == ns && nsamps@.len() == ns,
            forall|j: int|
                0 <= j < ns ==> (#[trigger] labels@[j])@ == decode_utf8(
                    label_text(data@, pos0, nsg, j),
                ),
            forall|j: int|
                0 <= j < ns ==> (#[trigger] units@[j])@ == decode_utf8(
                    unit_text(data@, pos0, nsg, j),
                ),
            forall|j: int|
                0 <= j < ns ==> (#[trigger] pmins@[j])@ == pmin_text(data@, pos0, nsg, j),
            forall|j: int|
                0 <= j < ns ==> (#[trigger] pmaxs@[j])@ == pmax_text(data@, pos0, nsg, j),
            forall|j: int|
                0 <= j < ns ==> (#[trigger] dmins@[j])@ == dmin_text(data@, pos0, nsg, j),
            forall|j: int|
                0 <= j < ns ==> (#[trigger] dmaxs@[j])@ == dmax_text(data@, pos0, nsg, j),
            forall|j: int|
                0 <= j < ns ==> (#[trigger] nsamps@[j])@ == nsamp_text(data@, pos0, nsg, j),
            signals@.len() == i,
            forall|j: int| 0 <= j < i ==> spec_channel_err(data@, pos0, nsg, j) is None,
            forall|j: int|
                0 <= j < i ==> spec_signal_matches(&(#[trigger] signals@[j]), data@, pos0, nsg, j),
        decreases ns - i,
    {
        proof {
            assert(nsamps@[i as int]@ == nsamp_text(data@, pos0, nsg, i as int));
            assert(pos0 + 216 * nsg + (i as int) * 8 + 8 <= data@.len());
            crate::text::lemma_trim_len(data@.subrange(
                pos0 + 216 * nsg + (i as int) * 8,
                pos0 + 216 * nsg + (i as int) * 8 + 8,
            ));
            crate::text::lemma_trim_len(data@.subrange(
                pos0 + 104 * nsg + (i as int) * 8,
                pos0 + 104 * nsg + (i as int) * 8 + 8,
            ));
            crate::text::lemma_trim_len(data@.subrange(
                pos0 + 112 * nsg + (i as int) * 8,
                pos0 + 112 * nsg + (i as int) * 8 + 8,
            ));
            crate::text::lemma_trim_len(data@.subrange(
                pos0 + 120 * nsg + (i as int) * 8,
                pos0 + 120 * nsg + (i as int) * 8 + 8,
            ));
            crate::text::lemma_trim_len(data@.subrange(
                pos0 + 128 * nsg + (i as int) * 8,
                pos0 + 128 * nsg + (i as int) * 8 + 8,
            ));
        }
        let num_samples64 = match parse_uint(&nsamps[i]) {
            Some(v) => v,
            None => {
                proof {
                    assert(spec_channel_err(data@, pos0, nsg, i as int) == Some(ErrKind::ParseInt));
                }
                return Err(
                    EdfError::ParseInt(String::from_str("invalid digit found in string")),
                );
            },
        };
        let physical_min = match parse_dec(&pmins[i]) {
            Some(v) => v,
            None => {
                proof {
                    assert(spec_channel_err(data@, pos0, nsg, i as int) == Some(
                        ErrKind::ParseFloat,
                    ));
                }
                return Err(EdfError::ParseFloat(String::from_str("invalid float literal")));
            },
        };
        let physical_max = match parse_dec(&pmaxs[i]) {
            Some(v) => v,
            None => {
                proof {
                    assert(spec_channel_err(data@, pos0, nsg, i as int) == Some(
                        ErrKind::ParseFloat,
                    ));
                }
                return Err(EdfError::ParseFloat(String::from_str("invalid float literal")));
            },
        };
        let digital_min = match parse_dec(&dmins[i]) {
            Some(v) => v,
            None => {
                proof {
                    assert(spec_channel_err(data@, pos0, nsg, i as int) == Some(
                        ErrKind::ParseFloat,
                    ));
                }
                return Err(EdfError::ParseFloat(String::from_str("invalid float literal")));
            },
        };
        let digital_max = match parse_dec(&dmaxs[i]) {
            Some(v) => v,
            None => {
                proof {
                    assert(spec_channel_err(data@, pos0, nsg, i as int) == Some(
                        ErrKind::ParseFloat,
                    ));
                }
                return Err(EdfError::ParseFloat(String::from_str("invalid float literal")));
            },
        };
        let label = labels[i].clone();
        let dimension = units[i].clone();
        signals.push(
            Signal {
                label,
                dimension,
                bounds: Bounds { digital_min, digital_max, physical_min, physical_max },
                num_samples: num_samples64 as usize,
            },
        );
        i = i + 1;
    }
    Ok(signals)
}

} // verus!

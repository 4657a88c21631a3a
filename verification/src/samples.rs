use vstd::prelude::*;
use crate::cursor::ByteCursor;
use crate::errors::{EdfError, ErrKind};

verus! {

/// The signed 16-bit value that two little-endian bytes encode.
pub open spec fn i16_from_le_spec(lo: u8, hi: u8) -> int {
    let u = lo + 256 * hi;
    if u >= 0x8000 {
        u - 0x10000
    } else {
        u as int
    }
}

/// Decode one signed 16-bit little-endian sample from its two bytes.
pub fn i16_from_le(lo: u8, hi: u8) -> (r: i16)
    ensures
        r as int == i16_from_le_spec(lo, hi),
{
    let u: u32 = lo as u32 + 256 * (hi as u32);
    if u >= 0x8000 {
        ((u as i32) - 0x10000) as i16
    } else {
        u as i16
    }
}

/// The raw sample of channel `j`'s sample index `i` inside a
/// signal-major record that starts at `base`.
pub open spec fn spec_sample(data: Seq<u8>, off: int) -> int {
    i16_from_le_spec(data[off], data[off + 1])
}

/// Read one record: `num_signals * num_samples` signed 16-bit
/// little-endian integers, all samples of one channel together.
#[verifier::loop_isolation(false)]
pub fn read_record_samples(
    data: &Vec<u8>,
    cursor: &mut ByteCursor,
    num_signals: usize,
    num_samples: usize,
) -> (r: Result<Vec<i16>, EdfError>)
    requires
        num_signals < 100_000_000,
        num_samples < 100_000_000,
        old(cursor).pos <= data@.len(),
    ensures
        ({
            let pos = old(cursor).pos as int;
            let n = num_signals * num_samples;
            match r {
                Ok(v) => pos + 2 * n <= data@.len() && v@.len() == n && (forall|i: int|
                    0 <= i < n ==> (#[trigger] v@[i]) as int == spec_sample(data@, pos + 2 * i))
                    && final(cursor).pos == old(cursor).pos + 2 * n,
                Err(e) => pos + 2 * n > data@.len() && e.kind() == ErrKind::Io,
            }
        }),
{
    proof {
        assert((num_signals as int) * (num_samples as int) < 10_000_000_000_000_000)
            by (nonlinear_arith)
            requires
                num_signals < 100_000_000,
                num_samples < 100_000_000,
        ;
    }
    let cap: u64 = (num_signals as u64) * (num_samples as u64);
    let mut values: Vec<i16> = Vec::new();
    let mut i: u64 = 0;
    while i < cap
        invariant
            0 <= i <= cap,
            values@.len() == i,
            cursor.pos == old(cursor).pos + 2 * i,
            cursor.pos <= data@.len(),
            forall|t: int|
                0 <= t < i ==> (#[trigger] values@[t]) as int == spec_sample(
                    data@,
                    old(cursor).pos + 2 * t,
                ),
        decreases cap - i,
    {
        let b = match cursor.take(data, 2) {
            Ok(v) => v,
            Err(_) => {
                proof {
                    let p0 = old(cursor).pos as int;
                    let pc = cursor.pos as int;
                    assert(p0 + 2 * (cap as int) > data@.len()) by (nonlinear_arith)
                        requires
                            pc + 2 > data@.len(),
                            pc == p0 + 2 * (i as int),
                            0 <= i < cap,
                    ;
                }
                return Err(EdfError::Io(String::from_str("unexpected end of stream")));
            },
        };
        let v = i16_from_le(b[0], b[1]);
        values.push(v);
        i = i + 1;
    }
    Ok(values)
}

} // verus!

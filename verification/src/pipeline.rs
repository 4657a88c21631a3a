use vstd::prelude::*;
use crate::cursor::ByteCursor;
use crate::errors::{EdfError, ErrKind};
use crate::header::{
    get_num_records, get_num_signals, get_record_duration, get_start_date, get_start_time,
    spec_count_field, spec_start_date, spec_start_time, Date, Time,
};
use crate::samples::{read_record_samples, spec_sample};
use crate::scale::{scale_text, Bounds};
use crate::signals::{
    dmax_text, dmin_text, get_signals, label_text, nsamp_text, pmax_text, pmin_text,
    spec_channel_err, spec_signal_matches, spec_signals_io_ok, unit_text, Signal,
};
use crate::text::uint_val;
use crate::timestamp::{
    advance_spec, civil_to_instant, increment_timestamp, instant_of, interval_ms_spec, interval_of,
    iso_datetime_string, iso_text, TimePoint,
};
use crate::dec::dec_of_text;
use vstd::utf8::decode_utf8;

verus! {

/// What a whole conversion produced: the rows emitted so far, and the
/// failure that stopped it, if one did. A failure after rows were
/// already emitted leaves those rows in place: partial output is not
/// rolled back.
pub struct Conversion {
    pub rows: Vec<Vec<String>>,
    pub error: Option<EdfError>,
}

/// The five fixed header reads, in order, with the first failure.
pub open spec fn spec_header(data: Seq<u8>) -> Result<(Date, Time, nat, nat, nat), ErrKind> {
    match spec_start_date(data, 0) {
        Err(k) => Err(k),
        Ok(date) => match spec_start_time(data, 176) {
            Err(k) => Err(k),
            Ok(time) => match spec_count_field(data, 184, 52, 8) {
                Err(k) => Err(k),
                Ok(nrec) => match spec_count_field(data, 244, 0, 8) {
                    Err(k) => Err(k),
                    Ok(rd) => match spec_count_field(data, 252, 0, 4) {
                        Err(k) => Err(k),
                        Ok(ns) => Ok((date, time, nrec, rd, ns)),
                    },
                },
            },
        },
    }
}

/// The channels agree on samples per record when each one's count field
/// equals the first channel's.
pub open spec fn spec_mismatched(data: Seq<u8>, ns: int) -> bool {
    exists|j: int|
        1 <= j < ns && uint_val(#[trigger] nsamp_text(data, 256, ns, j)) != uint_val(
            nsamp_text(data, 256, ns, 0),
        )
}

/// Channel `j`'s calibration, as decoded from the table.
pub open spec fn bounds_of(data: Seq<u8>, ns: int, j: int) -> Bounds {
    Bounds {
        digital_min: dec_of_text(dmin_text(data, 256, ns, j)),
        digital_max: dec_of_text(dmax_text(data, 256, ns, j)),
        physical_min: dec_of_text(pmin_text(data, 256, ns, j)),
        physical_max: dec_of_text(pmax_text(data, 256, ns, j)),
    }
}

/// The text one cell carries: empty for the reserved sentinel, else the
/// scaled physical value.
pub open spec fn cell_text(data: Seq<u8>, off: int, b: Bounds) -> Seq<char> {
    let raw = spec_sample(data, off);
    if raw == -32768 {
        Seq::empty()
    } else {
        scale_text(raw, b)
    }
}

/// The instant of the `m`-th output row: the start instant advanced `m`
/// times.
pub open spec fn nth_instant(start: TimePoint, interval: u16, m: nat) -> TimePoint
    decreases m,
{
    if m == 0 {
        start
    } else {
        advance_spec(nth_instant(start, interval, (m - 1) as nat), interval)
    }
}

/// The `m`-th data row: the instant's ISO text, then one cell per
/// channel, read signal-major from the record the row falls in.
pub open spec fn data_row_ok(
    row: Seq<Seq<char>>,
    data: Seq<u8>,
    ns: int,
    cnt: int,
    t: TimePoint,
    q: int,
    i: int,
) -> bool {
    &&& row.len() == 1 + ns
    &&& row[0] == iso_text(t.seconds as int, t.millis as int)
    &&& forall|j: int|
        0 <= j < ns ==> row[j + 1] == cell_text(
            data,
            256 + 256 * ns + q * (2 * ns * cnt) + 2 * (i + j * cnt),
            #[trigger] bounds_of(data, ns, j),
        )
}

/// The start instant the header names.
pub open spec fn spec_start_instant(date: Date, time: Time) -> TimePoint {
    TimePoint {
        seconds: instant_of(
            date.year as int,
            date.month as int,
            date.day as int,
            time.hour as int,
            time.minute as int,
            time.second as int,
        ) as i64,
        millis: 0,
    }
}

/// The leading row of the output: the literal `timestamp`, then each
/// channel's label in declared order.
pub open spec fn header_row_ok(row: Seq<Seq<char>>, data: Seq<u8>, ns: int) -> bool {
    &&& row.len() == 1 + ns
    &&& row[0] == "timestamp"@
    &&& forall|j: int| 0 <= j < ns ==> row[j + 1] == decode_utf8(#[trigger] label_text(data, 256, ns, j))
}

/// The second row of the output: the literal date-time pattern, then
/// each channel's physical unit.
pub open spec fn unit_row_ok(row: Seq<Seq<char>>, data: Seq<u8>, ns: int) -> bool {
    &&& row.len() == 1 + ns
    &&& row[0] == "YYYY-MM-DD hh:mm:ss"@
    &&& forall|j: int| 0 <= j < ns ==> row[j + 1] == decode_utf8(#[trigger] unit_text(data, 256, ns, j))
}

/// How many whole records the stream holds, of the `nrec` the header
/// promises.
pub open spec fn full_records(data: Seq<u8>, ns: int, cnt: int, nrec: int) -> int {
    if 2 * ns * cnt == 0 {
        nrec
    } else if (data.len() - (256 + 256 * ns)) / (2 * ns * cnt) >= nrec {
        nrec
    } else {
        (data.len() - (256 + 256 * ns)) / (2 * ns * cnt)
    }
}

/// Convert one recording. The byte stream is decoded front to back; the
/// rows produced before a failure are kept. `source` names the input in
/// the mismatched-signals message, as the caller knows it.
#[verifier::loop_isolation(false)]
#[verifier::rlimit(100)]
pub fn parse_edf(data: &Vec<u8>, source: &str) -> (r: Conversion)
    ensures
        ({
            match spec_header(data@) {
                Err(k) => r.error matches Some(e) && e.kind() == k && r.rows@.len() == 0,
                Ok((date, time, nrec, rd, nsn)) => {
                    let ns = nsn as int;
                    let cnt = if ns > 0 {
                        uint_val(nsamp_text(data@, 256, ns, 0)) as int
                    } else {
                        0
                    };
                    if !spec_signals_io_ok(data@, 256, ns) {
                        r.error matches Some(e) && e.kind() == ErrKind::Io && r.rows@.len() == 0
                    } else if exists|k: int| 0 <= k < ns && (#[trigger] spec_channel_err(data@, 256, ns, k)) is Some {
                        r.error matches Some(e) && r.rows@.len() == 0 && (exists|k: int|
                            0 <= k < ns && (#[trigger] spec_channel_err(data@, 256, ns, k)) == Some(
                                e.kind(),
                            ) && (forall|j: int|
                                0 <= j < k ==> spec_channel_err(data@, 256, ns, j) is None))
                    } else if spec_mismatched(data@, ns) {
                        r.error matches Some(e) && e.kind() == ErrKind::MismatchedSignals
                            && e.context_spec() == source@
                            + ": Not all signals have the same number of samples per record!"@
                            && r.rows@.len() == 0
                    } else {
                        let interval = interval_ms_spec(rd, cnt as nat) as u16;
                        let start = spec_start_instant(date, time);
                        let full = full_records(data@, ns, cnt, nrec as int);
                        &&& r.rows@.len() == 2 + full * cnt
                        &&& header_row_ok(r.rows@[0].deep_view(), data@, ns)
                        &&& unit_row_ok(r.rows@[1].deep_view(), data@, ns)
                        &&& (forall|m: int|
                            0 <= m < full * cnt ==> data_row_ok(
                                (#[trigger] r.rows@[2 + m]).deep_view(),
                                data@,
                                ns,
                                cnt,
                                nth_instant(start, interval, m as nat),
                                m / cnt,
                                m % cnt,
                            ))
                        &&& if full == nrec as int {
                            r.error is None
                        } else {
                            r.error matches Some(e) && e.kind() == ErrKind::Io
                        }
                    }
                },
            }
        }),
{
    let mut cursor = ByteCursor::new();
    let mut rows: Vec<Vec<String>> = Vec::new();
    let date: Date = match get_start_date(data, &mut cursor) {
        Ok(d) => d,
        Err(e) => { return Conversion { rows, error: Some(e) } },
    };
    let time: Time = match get_start_time(data, &mut cursor) {
        Ok(t) => t,
        Err(e) => { return Conversion { rows, error: Some(e) } },
    };
    let num_records: u64 = match get_num_records(data, &mut cursor) {
        Ok(n) => n,
        Err(e) => { return Conversion { rows, error: Some(e) } },
    };
    let record_duration: u64 = match get_record_duration(data, &mut cursor) {
        Ok(n) => n,
        Err(e) => { return Conversion { rows, error: Some(e) } },
    };
    let num_signals64: u64 = match get_num_signals(data, &mut cursor) {
        Ok(n) => n,
        Err(e) => { return Conversion { rows, error: Some(e) } },
    };
    let num_signals: usize = num_signals64 as usize;
    let signals: Vec<Signal> = match get_signals(data, &mut cursor, num_signals) {
        Ok(v) => v,
        Err(e) => { return Conversion { rows, error: Some(e) } },
    };
    // every channel must agree with the first on samples per record
    let num_samples: usize = if num_signals > 0 {
        signals[0].num_samples
    } else {
        0
    };
    let mut j: usize = 1;
    while j < num_signals
        invariant
            1 <= j <= num_signals || (num_signals == 0 && j == 1),
            forall|t: int|
                1 <= t < j ==> uint_val(#[trigger] nsamp_text(data@, 256, num_signals as int, t))
                    == uint_val(nsamp_text(data@, 256, num_signals as int, 0)),
        decreases num_signals - j,
    {
        if signals[j].num_samples != num_samples {
            let msg = String::from_str(source).concat(
                ": Not all signals have the same number of samples per record!",
            );
            proof {
                assert(uint_val(nsamp_text(data@, 256, num_signals as int, j as int)) != uint_val(
                    nsamp_text(data@, 256, num_signals as int, 0),
                ));
            }
            return Conversion { rows, error: Some(EdfError::MismatchedSignals(msg)) };
        }
        j = j + 1;
    }
    proof {
        assert(!spec_mismatched(data@, num_signals as int));
    }
    // the sample interval and the start instant
    let interval: u16 = interval_of(record_duration, num_samples as u64);
    proof {
        crate::text::lemma_int2_range(data@.subrange(174, 176));
    }
    let start_sec: i64 = civil_to_instant(
        date.year,
        date.month,
        date.day,
        time.hour,
        time.minute,
        time.second,
    );
    let mut t = TimePoint { seconds: start_sec, millis: 0 };
    let ghost start = t;
    // the header row and the unit row
    let mut row: Vec<String> = Vec::new();
    row.push(String::from_str("timestamp"));
    let mut h: usize = 0;
    while h < num_signals
        invariant
            0 <= h <= num_signals,
            signals@.len() == num_signals,
            row@.len() == 1 + h,
            row@[0]@ == "timestamp"@,
            forall|v: int|
                0 <= v < h ==> (#[trigger] row@[v + 1])@ == decode_utf8(
                    label_text(data@, 256, num_signals as int, v),
                ),
        decreases num_signals - h,
    {
        row.push(signals[h].label.clone());
        h = h + 1;
    }
    rows.push(row);
    let mut row2: Vec<String> = Vec::new();
    row2.push(String::from_str("YYYY-MM-DD hh:mm:ss"));
    let mut u: usize = 0;
    while u < num_signals
        invariant
            0 <= u <= num_signals,
            signals@.len() == num_signals,
            row2@.len() == 1 + u,
            row2@[0]@ == "YYYY-MM-DD hh:mm:ss"@,
            forall|v: int|
                0 <= v < u ==> (#[trigger] row2@[v + 1])@ == decode_utf8(
                    unit_text(data@, 256, num_signals as int, v),
                ),
        decreases num_signals - u,
    {
        row2.push(signals[u].dimension.clone());
        u = u + 1;
    }
    rows.push(row2);
    // one row per sample instant, record by record
    let ghost ns = num_signals as int;
    let ghost cnt = num_samples as int;
    let ghost nrec = num_records as int;
    let mut q: u64 = 0;
    while q < num_records
        invariant
            0 <= q <= nrec,
            signals@.len() == ns,
            cursor.pos == 256 + 256 * ns + q * (2 * ns * cnt),
            cursor.pos <= data@.len(),
            rows@.len() == 2 + q * cnt,
            t == nth_instant(start, interval, (q * cnt) as nat),
            t.wf(),
            0 <= t.seconds,
            t.seconds <= start.seconds + 33 * (q * cnt),
            header_row_ok(rows@[0].deep_view(), data@, ns),
            unit_row_ok(rows@[1].deep_view(), data@, ns),
            forall|m: int|
                0 <= m < q * cnt ==> data_row_ok(
                    (#[trigger] rows@[2 + m]).deep_view(),
                    data@,
                    ns,
                    cnt,
                    nth_instant(start, interval, m as nat),
                    m / cnt,
                    m % cnt,
                ),
        decreases nrec - q,
    {
        let values: Vec<i16> = match read_record_samples(
            data,
            &mut cursor,
            num_signals,
            num_samples,
        ) {
            Ok(v) => v,
            Err(e) => {
                proof {
                    lemma_full_records_here(data@, ns, cnt, nrec, q as int);
                }
                return Conversion { rows, error: Some(e) };
            },
        };
        proof {
            assert(2 * (ns * cnt) == 2 * ns * cnt) by (nonlinear_arith);
        }
        let ghost base = cursor.pos - 2 * ns * cnt;
        let mut i: usize = 0;
        while i < num_samples
            invariant
                0 <= i <= cnt,
                0 <= q < nrec,
                signals@.len() == ns,
                values@.len() == ns * cnt,
                base == 256 + 256 * ns + q * (2 * ns * cnt),
                forall|w: int|
                    0 <= w < ns * cnt ==> (#[trigger] values@[w]) as int == spec_sample(
                        data@,
                        base + 2 * w,
                    ),
                rows@.len() == 2 + q * cnt + i,
                t == nth_instant(start, interval, (q * cnt + i) as nat),
                t.wf(),
                0 <= t.seconds,
                t.seconds <= start.seconds + 33 * (q * cnt + i),
                header_row_ok(rows@[0].deep_view(), data@, ns),
                unit_row_ok(rows@[1].deep_view(), data@, ns),
                forall|m: int|
                    0 <= m < q * cnt + i ==> data_row_ok(
                        (#[trigger] rows@[2 + m]).deep_view(),
                        data@,
                        ns,
                        cnt,
                        nth_instant(start, interval, m as nat),
                        m / cnt,
                        m % cnt,
                    ),
            decreases cnt - i,
        {
            proof {
                assert(q * cnt + i < 10_000_000_000_000_000) by (nonlinear_arith)
                    requires
                        0 <= q < 100_000_000,
                        0 <= cnt < 100_000_000,
                        0 <= i < cnt,
                ;
                assert(start.seconds + 33 * (q * cnt + i) < 500_000_000_000_000_000)
                    by (nonlinear_arith)
                    requires
                        0 <= start.seconds <= 4_200_000_000,
                        0 <= q * cnt + i,
                        q * cnt + i < 10_000_000_000_000_000,
                ;
            }
            let mut orow: Vec<String> = Vec::new();
            orow.push(iso_datetime_string(t.seconds, t.millis));
            let mut jj: usize = 0;
            while jj < num_signals
                invariant
                    0 <= jj <= ns,
                    0 <= i < cnt,
                    signals@.len() == ns,
                    values@.len() == ns * cnt,
                    base == 256 + 256 * ns + q * (2 * ns * cnt),
                    forall|w: int|
                        0 <= w < ns * cnt ==> (#[trigger] values@[w]) as int == spec_sample(
                            data@,
                            base + 2 * w,
                        ),
                    orow@.len() == 1 + jj,
                    orow@[0]@ == iso_text(t.seconds as int, t.millis as int),
                    forall|v: int|
                        0 <= v < jj ==> (#[trigger] orow@[v + 1])@ == cell_text(
                            data@,
                            base + 2 * (i + v * cnt),
                            bounds_of(data@, ns, v),
                        ),
                decreases ns - jj,
            {
                proof {
                    assert(0 <= i + jj * cnt < ns * cnt) by (nonlinear_arith)
                        requires
                            0 <= i < cnt,
                            0 <= jj < ns,
                    ;
                }
                let idx: usize = i + jj * num_samples;
                let val: i16 = values[idx];
                match signals[jj].bounds.scale(val) {
                    Some(s) => { orow.push(s) },
                    None => { orow.push(String::new()) },
                }
                jj = jj + 1;
            }
            rows.push(orow);
            proof {
                assert((q * cnt + i) / cnt == q && (q * cnt + i) % cnt == i) by (nonlinear_arith)
                    requires
                        0 <= i < cnt,
                        0 <= q,
                ;
                assert(q * cnt + i < 10_000_000_000_000_000) by (nonlinear_arith)
                    requires
                        0 <= q < 100_000_000,
                        0 <= cnt < 100_000_000,
                        0 <= i < cnt,
                ;
                assert(start.seconds + 33 * (q * cnt + i) + 33 < 500_000_000_000_000_000)
                    by (nonlinear_arith)
                    requires
                        0 <= start.seconds <= 4_200_000_000,
                        0 <= q * cnt + i,
                        q * cnt + i < 10_000_000_000_000_000,
                ;
                crate::timestamp::lemma_advance_total(t, interval);
                assert(33 * (q * cnt + i + 1) == 33 * (q * cnt + i) + 33);
            }
            t = increment_timestamp(t, interval);
            i = i + 1;
        }
        q = q + 1;
        proof {
            assert((q - 1) * (2 * ns * cnt) + 2 * (ns * cnt) == q * (2 * ns * cnt))
                by (nonlinear_arith);
            assert((q - 1) * cnt + cnt == q * cnt) by (nonlinear_arith);
        }
    }
    proof {
        lemma_full_records_all(data@, ns, cnt, nrec);
    }
    Conversion { rows, error: None }
}

/// When a record read fails, exactly `q` whole records fitted.
proof fn lemma_full_records_here(data: Seq<u8>, ns: int, cnt: int, nrec: int, q: int)
    requires
        0 <= q < nrec,
        0 <= ns,
        0 <= cnt,
        256 + 256 * ns + q * (2 * ns * cnt) <= data.len(),
        256 + 256 * ns + q * (2 * ns * cnt) + 2 * (ns * cnt) > data.len(),
    ensures
        full_records(data, ns, cnt, nrec) == q,
{
    let step = 2 * ns * cnt;
    assert(2 * ns * cnt == 2 * (ns * cnt)) by (nonlinear_arith);
    if step == 0 {
        assert(false);
    } else {
        let rest = data.len() - (256 + 256 * ns);
        assert(q * step <= rest < q * step + step);
        vstd::arithmetic::div_mod::lemma_fundamental_div_mod_converse(
            rest,
            step,
            q,
            rest - q * step,
        );
    }
}

/// When every record was read, all `nrec` fitted.
proof fn lemma_full_records_all(data: Seq<u8>, ns: int, cnt: int, nrec: int)
    requires
        0 <= ns,
        0 <= cnt,
        0 <= nrec,
        256 + 256 * ns + nrec * (2 * ns * cnt) <= data.len(),
    ensures
        full_records(data, ns, cnt, nrec) == nrec,
{
    let step = 2 * ns * cnt;
    assert(2 * ns * cnt == 2 * (ns * cnt)) by (nonlinear_arith);
    if step != 0 {
        let rest = data.len() - (256 + 256 * ns);
        assert(nrec * step <= rest);
        assert(rest / step >= nrec) by {
            vstd::arithmetic::div_mod::lemma_div_is_ordered(nrec * step, rest, step);
            vstd::arithmetic::div_mod::lemma_div_multiples_vanish(nrec, step);
        }
    }
}

/// The first output row carries the start instant itself: the sequencer
/// advances only after a row is built.
pub proof fn lemma_first_instant_is_start(start: TimePoint, interval: u16)
    ensures
        nth_instant(start, interval, 0) == start,
{
}

/// With a positive interval the row instants climb strictly: the `m`-th
/// instant lies strictly before every later one.
pub proof fn lemma_instants_increase(start: TimePoint, interval: u16, m1: nat, m2: nat)
    requires
        start.wf(),
        0 <= start.seconds,
        start.seconds + 33 * m2 < 500_000_000_000_000_000,
        interval >= 1,
        interval <= 32767,
        m1 < m2,
    ensures
        nth_instant(start, interval, m1).total_ms() < nth_instant(start, interval, m2).total_ms(),
    decreases m2,
{
    lemma_nth_instant_wf(start, interval, (m2 - 1) as nat);
    crate::timestamp::lemma_advance_total(nth_instant(start, interval, (m2 - 1) as nat), interval);
    if m1 < m2 - 1 {
        lemma_instants_increase(start, interval, m1, (m2 - 1) as nat);
    }
}

/// Every row instant stays normalized and within the sequencer's range.
pub proof fn lemma_nth_instant_wf(start: TimePoint, interval: u16, m: nat)
    requires
        start.wf(),
        0 <= start.seconds,
        start.seconds + 33 * m < 500_000_000_000_000_000,
        interval <= 32767,
    ensures
        nth_instant(start, interval, m).wf(),
        0 <= nth_instant(start, interval, m).seconds,
        nth_instant(start, interval, m).seconds <= start.seconds + 33 * m,
        nth_instant(start, interval, m).total_ms() == start.total_ms() + m * interval,
    decreases m,
{
    if m > 0 {
        lemma_nth_instant_wf(start, interval, (m - 1) as nat);
        crate::timestamp::lemma_advance_total(
            nth_instant(start, interval, (m - 1) as nat),
            interval,
        );
        assert(33 * m == 33 * (m - 1) + 33);
        assert((m - 1) * interval + interval == m * interval) by (nonlinear_arith);
    } else {
        assert(m * interval == 0) by (nonlinear_arith)
            requires
                m == 0,
        ;
    }
}

/// Whether a directory entry is a recording to convert: a file whose
/// name carries the `edf` extension.
pub fn is_edf_file(is_file: bool, extension: &Option<String>) -> (r: bool)
    requires
        is_file ==> extension is Some,
    ensures
        r <==> (is_file && (extension matches Some(e) && e@ == "edf"@)),
{
    if is_file {
        match extension {
            Some(e) => {
                let target = String::from_str("edf");
                e.eq(&target)
            },
            None => false,
        }
    } else {
        false
    }
}

} // verus!

use edf_to_csv::cursor::ByteCursor;
use edf_to_csv::csvenc::rows_to_csv;
use edf_to_csv::dec::parse_dec;
use edf_to_csv::errors::EdfError;
use edf_to_csv::header::{
    get_num_records, get_num_signals, get_record_duration, get_start_date, get_start_time,
};
use edf_to_csv::pipeline::{is_edf_file, parse_edf};
use edf_to_csv::samples::read_record_samples;
use edf_to_csv::scale::Bounds;
use edf_to_csv::signals::get_signals;
use edf_to_csv::timestamp::{increment_timestamp, interval_of, TimePoint};

fn put(buf: &mut Vec<u8>, off: usize, text: &[u8]) {
    for (i, b) in text.iter().enumerate() {
        buf[off + i] = *b;
    }
}

/// A 256-byte fixed header with the given date, time and counts.
fn header_bytes(date: &[u8], time: &[u8], nrec: &[u8], rd: &[u8], ns: &[u8]) -> Vec<u8> {
    let mut v = vec![b' '; 256];
    put(&mut v, 168, date);
    put(&mut v, 176, time);
    put(&mut v, 236, nrec);
    put(&mut v, 244, rd);
    put(&mut v, 252, ns);
    v
}

struct Chan<'a> {
    label: &'a [u8],
    unit: &'a [u8],
    pmin: &'a [u8],
    pmax: &'a [u8],
    dmin: &'a [u8],
    dmax: &'a [u8],
    nsamp: &'a [u8],
}

/// The field-major channel table: widths 16, 80, 8, 8, 8, 8, 8, 80, 8, 32.
fn table_bytes(chans: &[Chan]) -> Vec<u8> {
    let ns = chans.len();
    let mut v = vec![b' '; 256 * ns];
    for (k, c) in chans.iter().enumerate() {
        put(&mut v, 0 * ns + 16 * k, c.label);
        put(&mut v, 96 * ns + 8 * k, c.unit);
        put(&mut v, 104 * ns + 8 * k, c.pmin);
        put(&mut v, 112 * ns + 8 * k, c.pmax);
        put(&mut v, 120 * ns + 8 * k, c.dmin);
        put(&mut v, 128 * ns + 8 * k, c.dmax);
        put(&mut v, 216 * ns + 8 * k, c.nsamp);
    }
    v
}

fn two_chan_file(samples: &[i16]) -> Vec<u8> {
    let mut data = header_bytes(b"04.03.21", b"10.20.30", b"1       ", b"1       ", b"2   ");
    data.extend(table_bytes(&[
        Chan {
            label: b"chA",
            unit: b"uV",
            pmin: b"-200",
            pmax: b"200",
            dmin: b"-32768",
            dmax: b"32767",
            nsamp: b"2       ",
        },
        Chan {
            label: b"chB",
            unit: b"mV",
            pmin: b"-200",
            pmax: b"200",
            dmin: b"-32768",
            dmax: b"32767",
            nsamp: b"2       ",
        },
    ]));
    for s in samples {
        let b = s.to_le_bytes();
        data.push(b[0]);
        data.push(b[1]);
    }
    data
}

fn bounds(dmin: &[u8], dmax: &[u8], pmin: &[u8], pmax: &[u8]) -> Bounds {
    Bounds {
        digital_min: parse_dec(&dmin.to_vec()).unwrap(),
        digital_max: parse_dec(&dmax.to_vec()).unwrap(),
        physical_min: parse_dec(&pmin.to_vec()).unwrap(),
        physical_max: parse_dec(&pmax.to_vec()).unwrap(),
    }
}

#[test]
fn scale_endpoints_are_exact() {
    let b = bounds(b"-32767", b"32767", b"-200", b"200");
    assert_eq!(b.scale(-32767).unwrap(), "-200");
    assert_eq!(b.scale(32767).unwrap(), "200");
    let b2 = bounds(b"0", b"100", b"-0.5", b"0.5");
    assert_eq!(b2.scale(0).unwrap(), "-0.5");
    assert_eq!(b2.scale(100).unwrap(), "0.5");
    assert_eq!(b2.scale(50).unwrap(), "0");
}

#[test]
fn scale_sentinel_is_missing() {
    let b = bounds(b"-32768", b"32767", b"-200", b"200");
    assert!(b.scale(i16::MIN).is_none());
    let b2 = bounds(b"0", b"0", b"-1", b"1");
    assert!(b2.scale(i16::MIN).is_none());
}

#[test]
fn scale_known_values() {
    let b = bounds(b"-32768", b"32767", b"-200", b"200");
    assert_eq!(b.scale(0).unwrap(), "0.0030518");
    assert_eq!(b.scale(16384).unwrap(), "100.0045777");
    assert_eq!(b.scale(100).unwrap(), "0.6134126");
}

#[test]
fn scale_empty_digital_range() {
    let b = bounds(b"5", b"5", b"-1", b"1");
    assert_eq!(b.scale(5).unwrap(), "NaN");
    assert_eq!(b.scale(7).unwrap(), "inf");
    assert_eq!(b.scale(3).unwrap(), "-inf");
}

#[test]
fn header_round_trip() {
    let mut data = header_bytes(b"29.02.20", b"23.59.58", b"7       ", b"30      ", b"2   ");
    data.extend(table_bytes(&[
        Chan {
            label: b"EEG Fpz",
            unit: b"uV",
            pmin: b"-440.5",
            pmax: b"510.5",
            dmin: b"-2048",
            dmax: b"2047",
            nsamp: b"10      ",
        },
        Chan {
            label: b"Temp",
            unit: b"degC",
            pmin: b"34.0",
            pmax: b"40.0",
            dmin: b"0",
            dmax: b"1000",
            nsamp: b"10      ",
        },
    ]));
    let mut cur = ByteCursor::new();
    let d = get_start_date(&data, &mut cur).unwrap();
    assert_eq!((d.year, d.month, d.day), (2020, 2, 29));
    let t = get_start_time(&data, &mut cur).unwrap();
    assert_eq!((t.hour, t.minute, t.second), (23, 59, 58));
    assert_eq!(get_num_records(&data, &mut cur).unwrap(), 7);
    assert_eq!(get_record_duration(&data, &mut cur).unwrap(), 30);
    let ns = get_num_signals(&data, &mut cur).unwrap();
    assert_eq!(ns, 2);
    let sigs = get_signals(&data, &mut cur, ns as usize).unwrap();
    assert_eq!(sigs.len(), 2);
    assert_eq!(sigs[0].label, "EEG Fpz");
    assert_eq!(sigs[0].dimension, "uV");
    assert_eq!(sigs[0].num_samples, 10);
    assert_eq!(sigs[0].bounds, bounds(b"-2048", b"2047", b"-440.5", b"510.5"));
    assert_eq!(sigs[1].label, "Temp");
    assert_eq!(sigs[1].dimension, "degC");
    assert_eq!(sigs[1].num_samples, 10);
    assert_eq!(sigs[1].bounds, bounds(b"0", b"1000", b"34.0", b"40.0"));
}

#[test]
fn sequencer_four_advances_sum_to_one_second() {
    let i = interval_of(1, 4);
    assert_eq!(i, 250);
    let t0 = TimePoint { seconds: 1000, millis: 0 };
    let t1 = increment_timestamp(t0, i);
    let t2 = increment_timestamp(t1, i);
    let t3 = increment_timestamp(t2, i);
    let t4 = increment_timestamp(t3, i);
    let total = |t: TimePoint| t.seconds * 1000 + t.millis as i64;
    assert!(total(t0) < total(t1));
    assert!(total(t1) < total(t2));
    assert!(total(t2) < total(t3));
    assert!(total(t3) < total(t4));
    assert_eq!(total(t4), total(t0) + 1000);
    assert_eq!((t4.seconds, t4.millis), (1001, 0));
}

#[test]
fn sequencer_carry_keeps_millis_below_one_thousand() {
    let t = TimePoint { seconds: 10, millis: 900 };
    let r = increment_timestamp(t, 250);
    assert_eq!((r.seconds, r.millis), (11, 150));
    let r2 = increment_timestamp(TimePoint { seconds: 10, millis: 999 }, 32767);
    assert_eq!((r2.seconds, r2.millis), (43, 766));
    assert!(r2.millis < 1000);
}

#[test]
fn interval_truncates_and_saturates() {
    assert_eq!(interval_of(1, 3), 333);
    assert_eq!(interval_of(60, 1), 32767);
    assert_eq!(interval_of(0, 0), 0);
    assert_eq!(interval_of(5, 0), 32767);
}

#[test]
fn end_to_end_two_channels() {
    let data = two_chan_file(&[0, 16384, i16::MIN, 100]);
    let c = parse_edf(&data, "demo.edf");
    assert!(c.error.is_none());
    assert_eq!(c.rows.len(), 4);
    assert_eq!(c.rows[0], vec!["timestamp", "chA", "chB"]);
    assert_eq!(c.rows[1], vec!["YYYY-MM-DD hh:mm:ss", "uV", "mV"]);
    assert_eq!(
        c.rows[2],
        vec!["2021-03-04T10:20:30.000", "0.0030518", ""]
    );
    assert_eq!(
        c.rows[3],
        vec!["2021-03-04T10:20:30.500", "100.0045777", "0.6134126"]
    );
    assert!(c.rows[2][0] < c.rows[3][0]);
}

#[test]
fn mismatched_signals_error() {
    let mut data = header_bytes(b"04.03.21", b"10.20.30", b"0       ", b"1       ", b"2   ");
    data.extend(table_bytes(&[
        Chan {
            label: b"a",
            unit: b"u",
            pmin: b"-1",
            pmax: b"1",
            dmin: b"-10",
            dmax: b"10",
            nsamp: b"2       ",
        },
        Chan {
            label: b"b",
            unit: b"u",
            pmin: b"-1",
            pmax: b"1",
            dmin: b"-10",
            dmax: b"10",
            nsamp: b"3       ",
        },
    ]));
    let c = parse_edf(&data, "x.edf");
    match c.error {
        Some(EdfError::MismatchedSignals(msg)) => {
            assert_eq!(
                msg,
                "x.edf: Not all signals have the same number of samples per record!"
            );
        }
        other => panic!("expected mismatched signals, got {:?}", other),
    }
    assert_eq!(c.rows.len(), 0);
}

#[test]
fn matching_signals_no_error() {
    let data = two_chan_file(&[0, 0, 0, 0]);
    let c = parse_edf(&data, "y.edf");
    assert!(c.error.is_none());
}

#[test]
fn truncated_stream_is_io_error() {
    let data = vec![b' '; 100];
    let c = parse_edf(&data, "t.edf");
    assert!(matches!(c.error, Some(EdfError::Io(_))));
    assert_eq!(c.rows.len(), 0);
}

#[test]
fn truncated_record_keeps_partial_rows() {
    // the header promises one record of eight bytes but only two arrive
    let data = two_chan_file(&[42]);
    let c = parse_edf(&data, "p.edf");
    assert!(matches!(c.error, Some(EdfError::Io(_))));
    assert_eq!(c.rows.len(), 2);
}

#[test]
fn bad_record_count_is_parse_int_error() {
    let data = header_bytes(b"04.03.21", b"10.20.30", b"abc     ", b"1       ", b"0   ");
    let c = parse_edf(&data, "z.edf");
    assert!(matches!(c.error, Some(EdfError::ParseInt(_))));
}

#[test]
fn bad_month_is_datetime_error() {
    let data = header_bytes(b"04.13.21", b"10.20.30", b"0       ", b"1       ", b"0   ");
    let c = parse_edf(&data, "z.edf");
    assert!(matches!(c.error, Some(EdfError::Datetime(_))));
}

#[test]
fn invalid_day_for_month_is_datetime_error() {
    let data = header_bytes(b"29.02.21", b"10.20.30", b"0       ", b"1       ", b"0   ");
    let c = parse_edf(&data, "z.edf");
    assert!(matches!(c.error, Some(EdfError::Datetime(_))));
}

#[test]
fn bad_bound_is_parse_float_error() {
    let mut data = header_bytes(b"04.03.21", b"10.20.30", b"0       ", b"1       ", b"1   ");
    data.extend(table_bytes(&[Chan {
        label: b"a",
        unit: b"u",
        pmin: b"oops",
        pmax: b"1",
        dmin: b"-10",
        dmax: b"10",
        nsamp: b"1       ",
    }]));
    let c = parse_edf(&data, "z.edf");
    assert!(matches!(c.error, Some(EdfError::ParseFloat(_))));
}

#[test]
fn no_channels_yields_only_header_rows() {
    let data = header_bytes(b"04.03.21", b"10.20.30", b"3       ", b"1       ", b"0   ");
    let c = parse_edf(&data, "e.edf");
    assert!(c.error.is_none());
    assert_eq!(c.rows.len(), 2);
    assert_eq!(c.rows[0], vec!["timestamp"]);
    assert_eq!(c.rows[1], vec!["YYYY-MM-DD hh:mm:ss"]);
}

#[test]
fn csv_quotes_only_where_needed() {
    let rows = vec![
        vec!["timestamp".to_string(), "a,b".to_string()],
        vec!["x".to_string(), "plain".to_string()],
    ];
    let bytes = rows_to_csv(&rows);
    assert_eq!(bytes, b"timestamp,\"a,b\"\nx,plain\n".to_vec());
}

#[test]
fn multibyte_label_survives() {
    let mut data = header_bytes(b"04.03.21", b"10.20.30", b"0       ", b"1       ", b"1   ");
    data.extend(table_bytes(&[Chan {
        label: "\u{00b5}V lead".as_bytes(),
        unit: "\u{00b5}V".as_bytes(),
        pmin: b"-1",
        pmax: b"1",
        dmin: b"-10",
        dmax: b"10",
        nsamp: b"1       ",
    }]));
    let c = parse_edf(&data, "u.edf");
    assert!(c.error.is_none());
    assert_eq!(c.rows[0][1], "\u{00b5}V lead");
    assert_eq!(c.rows[1][1], "\u{00b5}V");
}

#[test]
fn invalid_utf8_label_is_io_error() {
    let mut data = header_bytes(b"04.03.21", b"10.20.30", b"0       ", b"1       ", b"1   ");
    data.extend(table_bytes(&[Chan {
        label: &[0xff, 0xfe, b'x'],
        unit: b"u",
        pmin: b"-1",
        pmax: b"1",
        dmin: b"-10",
        dmax: b"10",
        nsamp: b"1       ",
    }]));
    let c = parse_edf(&data, "u.edf");
    assert!(matches!(c.error, Some(EdfError::Io(_))));
}

#[test]
fn read_record_samples_signal_major() {
    let data: Vec<u8> = vec![1, 0, 2, 0, 0xff, 0xff, 0x00, 0x80];
    let mut cur = ByteCursor::new();
    let v = read_record_samples(&data, &mut cur, 2, 2).unwrap();
    assert_eq!(v, vec![1, 2, -1, i16::MIN]);
}

#[test]
fn is_edf_file_checks_extension() {
    assert!(is_edf_file(true, &Some("edf".to_string())));
    assert!(!is_edf_file(true, &Some("csv".to_string())));
    assert!(!is_edf_file(false, &None));
    assert!(!is_edf_file(false, &Some("edf".to_string())));
}

#[test]
fn error_messages_match_kinds() {
    assert_eq!(
        EdfError::Io("ctx".to_string()).message(),
        "Can't perform I/O operation."
    );
    assert_eq!(
        EdfError::MismatchedSignals("c".to_string()).message(),
        "Number of signals in each sample don't match!"
    );
    assert_eq!(EdfError::ParseInt("c".to_string()).message(), "Can't parse value to int.");
    assert_eq!(
        EdfError::ParseFloat("c".to_string()).message(),
        "Can't parse value to float."
    );
    assert_eq!(EdfError::Datetime("c".to_string()).message(), "Can't parse datetime.");
    assert_eq!(EdfError::Csv("c".to_string()).message(), "Can't perform csv operation.");
}

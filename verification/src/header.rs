use vstd::prelude::*;
use crate::cursor::ByteCursor;
use crate::errors::{EdfError, ErrKind};
use crate::text::{int_val, is_int_text, is_uint_text, parse_int2, parse_uint, trim, trim_spec, uint_val};
use crate::timestamp::{valid_date, valid_time};

verus! {

/// The calendar date the recording started on.
#[derive(Debug, Clone, Copy, PartialEq, Eq, Structural)]
pub struct Date {
    pub year: i64,
    pub month: i8,
    pub day: i8,
}

/// The time of day the recording started at.
#[derive(Debug, Clone, Copy, PartialEq, Eq, Structural)]
pub struct Time {
    pub hour: i8,
    pub minute: i8,
    pub second: i8,
}

/// What decoding the start date from the fixed header offsets yields:
/// the day, month and year fields sit behind 168 bytes of identification
/// text, two digits each with one separator byte between them; the year
/// is of this century.
pub open spec fn spec_start_date(data: Seq<u8>, pos: int) -> Result<Date, ErrKind> {
    let day_f = data.subrange(pos + 168, pos + 170);
    let mon_f = data.subrange(pos + 171, pos + 173);
    let yr_f = data.subrange(pos + 174, pos + 176);
    if pos + 170 > data.len() {
        Err(ErrKind::Io)
    } else if !is_int_text(day_f) {
        Err(ErrKind::ParseInt)
    } else if pos + 173 > data.len() {
        Err(ErrKind::Io)
    } else if !is_int_text(mon_f) {
        Err(ErrKind::ParseInt)
    } else if !(1 <= int_val(mon_f) <= 12) {
        Err(ErrKind::Datetime)
    } else if pos + 176 > data.len() {
        Err(ErrKind::Io)
    } else if !is_int_text(yr_f) {
        Err(ErrKind::ParseInt)
    } else if !valid_date(2000 + int_val(yr_f), int_val(mon_f), int_val(day_f)) {
        Err(ErrKind::Datetime)
    } else {
        Ok(
            Date {
                year: (2000 + int_val(yr_f)) as i64,
                month: int_val(mon_f) as i8,
                day: int_val(day_f) as i8,
            },
        )
    }
}

/// Decode the start date. On success the cursor stands just past the
/// date fields.
pub fn get_start_date(data: &Vec<u8>, cursor: &mut ByteCursor) -> (r: Result<Date, EdfError>)
    ensures
        ({
            let sr = spec_start_date(data@, old(cursor).pos as int);
            match r {
                Ok(d) => sr matches Ok(sd) && d == sd && final(cursor).pos == old(cursor).pos
                    + 176,
                Err(e) => sr matches Err(k) && e.kind() == k,
            }
        }),
{
    if cursor.skip(data, 168).is_err() {
        return Err(EdfError::Io(String::from_str("unexpected end of stream")));
    }
    let day_b = match cursor.take(data, 2) {
        Ok(v) => v,
        Err(_) => { return Err(EdfError::Io(String::from_str("unexpected end of stream"))) },
    };
    let day: i8 = match parse_int2(&day_b) {
        Some(v) => v,
        None => { return Err(EdfError::ParseInt(String::from_str("invalid digit found in string"))) },
    };
    if cursor.skip(data, 1).is_err() {
        return Err(EdfError::Io(String::from_str("unexpected end of stream")));
    }
    let mon_b = match cursor.take(data, 2) {
        Ok(v) => v,
        Err(_) => { return Err(EdfError::Io(String::from_str("unexpected end of stream"))) },
    };
    let month: i8 = match parse_int2(&mon_b) {
        Some(v) => v,
        None => { return Err(EdfError::ParseInt(String::from_str("invalid digit found in string"))) },
    };
    if month < 1 || month > 12 {
        return Err(EdfError::Datetime(String::from_str("datetime field out of range")));
    }
    if cursor.skip(data, 1).is_err() {
        return Err(EdfError::Io(String::from_str("unexpected end of stream")));
    }
    let yr_b = match cursor.take(data, 2) {
        Ok(v) => v,
        Err(_) => { return Err(EdfError::Io(String::from_str("unexpected end of stream"))) },
    };
    let yv: i8 = match parse_int2(&yr_b) {
        Some(v) => v,
        None => { return Err(EdfError::ParseInt(String::from_str("invalid digit found in string"))) },
    };
    let year: i64 = 2000 + (yv as i64);
    let day_ok: bool = {
        let dim = days_in_month_exec(year, month);
        1 <= day && day <= dim
    };
    if !day_ok {
        return Err(EdfError::Datetime(String::from_str("datetime field out of range")));
    }
    Ok(Date { year, month, day })
}

/// `days_in_month` as executable code.
pub fn days_in_month_exec(year: i64, month: i8) -> (r: i8)
    requires
        1 <= month <= 12,
    ensures
        r as int == crate::timestamp::days_in_month(year as int, month as int),
{
    if month == 2 {
        if year % 400 == 0 || (year % 100 != 0 && year % 4 == 0) {
            29
        } else {
            28
        }
    } else if month == 4 || month == 6 || month == 9 || month == 11 {
        30
    } else {
        31
    }
}

/// What decoding the start time yields: three two-digit fields with a
/// separator byte between them, directly after the date.
pub open spec fn spec_start_time(data: Seq<u8>, pos: int) -> Result<Time, ErrKind> {
    let h_f = data.subrange(pos, pos + 2);
    let m_f = data.subrange(pos + 3, pos + 5);
    let s_f = data.subrange(pos + 6, pos + 8);
    if pos + 2 > data.len() {
        Err(ErrKind::Io)
    } else if !is_int_text(h_f) {
        Err(ErrKind::ParseInt)
    } else if pos + 5 > data.len() {
        Err(ErrKind::Io)
    } else if !is_int_text(m_f) {
        Err(ErrKind::ParseInt)
    } else if pos + 8 > data.len() {
        Err(ErrKind::Io)
    } else if !is_int_text(s_f) {
        Err(ErrKind::ParseInt)
    } else if !valid_time(int_val(h_f), int_val(m_f), int_val(s_f)) {
        Err(ErrKind::Datetime)
    } else {
        Ok(Time { hour: int_val(h_f) as i8, minute: int_val(m_f) as i8, second: int_val(s_f) as i8 })
    }
}

/// Decode the start time-of-day, directly after the date fields.
pub fn get_start_time(data: &Vec<u8>, cursor: &mut ByteCursor) -> (r: Result<Time, EdfError>)
    ensures
        ({
            let sr = spec_start_time(data@, old(cursor).pos as int);
            match r {
                Ok(t) => sr matches Ok(st) && t == st && final(cursor).pos == old(cursor).pos + 8,
                Err(e) => sr matches Err(k) && e.kind() == k,
            }
        }),
{
    let h_b = match cursor.take(data, 2) {
        Ok(v) => v,
        Err(_) => { return Err(EdfError::Io(String::from_str("unexpected end of stream"))) },
    };
    let hour: i8 = match parse_int2(&h_b) {
        Some(v) => v,
        None => { return Err(EdfError::ParseInt(String::from_str("invalid digit found in string"))) },
    };
    if cursor.skip(data, 1).is_err() {
        return Err(EdfError::Io(String::from_str("unexpected end of stream")));
    }
    let m_b = match cursor.take(data, 2) {
        Ok(v) => v,
        Err(_) => { return Err(EdfError::Io(String::from_str("unexpected end of stream"))) },
    };
    let minute: i8 = match parse_int2(&m_b) {
        Some(v) => v,
        None => { return Err(EdfError::ParseInt(String::from_str("invalid digit found in string"))) },
    };
    if cursor.skip(data, 1).is_err() {
        return Err(EdfError::Io(String::from_str("unexpected end of stream")));
    }
    let s_b = match cursor.take(data, 2) {
        Ok(v) => v,
        Err(_) => { return Err(EdfError::Io(String::from_str("unexpected end of stream"))) },
    };
    let second: i8 = match parse_int2(&s_b) {
        Some(v) => v,
        None => { return Err(EdfError::ParseInt(String::from_str("invalid digit found in string"))) },
    };
    let ok: bool = (0 <= hour && hour < 24 && 0 <= minute && minute < 60 && 0 <= second && second
        < 60) || (hour == 24 && minute == 0 && second == 0);
    if !ok {
        return Err(EdfError::Datetime(String::from_str("datetime field out of range")));
    }
    Ok(Time { hour, minute, second })
}

/// What decoding a trimmed count field yields: `skip` reserved bytes,
/// then `width` bytes of space-padded digits.
pub open spec fn spec_count_field(data: Seq<u8>, pos: int, skip: int, width: int) -> Result<
    nat,
    ErrKind,
> {
    let f = trim_spec(data.subrange(pos + skip, pos + skip + width));
    if pos + skip + width > data.len() {
        Err(ErrKind::Io)
    } else if !is_uint_text(f) {
        Err(ErrKind::ParseInt)
    } else {
        Ok(uint_val(f))
    }
}

fn count_field(data: &Vec<u8>, cursor: &mut ByteCursor, skip: usize, width: usize) -> (r: Result<
    u64,
    EdfError,
>)
    requires
        width <= 8,
    ensures
        ({
            let sr = spec_count_field(data@, old(cursor).pos as int, skip as int, width as int);
            match r {
                Ok(n) => sr matches Ok(sn) && n == sn && n < 100_000_000 && final(cursor).pos
                    == old(cursor).pos + skip + width,
                Err(e) => sr matches Err(k) && e.kind() == k && (e.kind() == ErrKind::ParseInt
                    ==> final(cursor).pos == old(cursor).pos + skip + width),
            }
        }),
{
    if cursor.skip(data, skip).is_err() {
        return Err(EdfError::Io(String::from_str("unexpected end of stream")));
    }
    let f = match cursor.take(data, width) {
        Ok(v) => v,
        Err(_) => { return Err(EdfError::Io(String::from_str("unexpected end of stream"))) },
    };
    let t = trim(&f);
    proof {
        crate::text::lemma_trim_len(f@);
    }
    match parse_uint(&t) {
        Some(n) => Ok(n),
        None => Err(EdfError::ParseInt(String::from_str("invalid digit found in string"))),
    }
}

/// Decode the record count: 52 reserved bytes, then eight digits.
pub fn get_num_records(data: &Vec<u8>, cursor: &mut ByteCursor) -> (r: Result<u64, EdfError>)
    ensures
        ({
            let sr = spec_count_field(data@, old(cursor).pos as int, 52, 8);
            match r {
                Ok(n) => sr matches Ok(sn) && n == sn && n < 100_000_000 && final(cursor).pos
                    == old(cursor).pos + 60,
                Err(e) => sr matches Err(k) && e.kind() == k && (e.kind() == ErrKind::ParseInt
                    ==> final(cursor).pos == old(cursor).pos + 60),
            }
        }),
{
    count_field(data, cursor, 52, 8)
}

/// Decode the record duration in seconds: the next eight digits.
pub fn get_record_duration(data: &Vec<u8>, cursor: &mut ByteCursor) -> (r: Result<u64, EdfError>)
    ensures
        ({
            let sr = spec_count_field(data@, old(cursor).pos as int, 0, 8);
            match r {
                Ok(n) => sr matches Ok(sn) && n == sn && n < 100_000_000 && final(cursor).pos
                    == old(cursor).pos + 8,
                Err(e) => sr matches Err(k) && e.kind() == k && (e.kind() == ErrKind::ParseInt
                    ==> final(cursor).pos == old(cursor).pos + 8),
            }
        }),
{
    count_field(data, cursor, 0, 8)
}

/// Decode the channel count: the next four digits.
pub fn get_num_signals(data: &Vec<u8>, cursor: &mut ByteCursor) -> (r: Result<u64, EdfError>)
    ensures
        ({
            let sr = spec_count_field(data@, old(cursor).pos as int, 0, 4);
            match r {
                Ok(n) => sr matches Ok(sn) && n == sn && n < 100_000_000 && final(cursor).pos
                    == old(cursor).pos + 4,
                Err(e) => sr matches Err(k) && e.kind() == k && (e.kind() == ErrKind::ParseInt
                    ==> final(cursor).pos == old(cursor).pos + 4),
            }
        }),
{
    count_field(data, cursor, 0, 4)
}

} // verus!

use vstd::prelude::*;
use datetime::ISO;

verus! {

/// An instant on the recording's local timeline: whole seconds since the
/// Unix epoch and milliseconds within the second.
#[derive(Debug, Clone, Copy, PartialEq, Eq, Structural)]
pub struct TimePoint {
    pub seconds: i64,
    pub millis: u16,
}

/// The sequencer never leaves this range: a recording starts within the
/// century the two-digit year spans, and even the longest possible file
/// advances far less than this.
pub open spec fn seconds_in_range(s: int) -> bool {
    0 <= s < 500_000_000_000_000_000
}

impl TimePoint {
    pub open spec fn wf(&self) -> bool {
        self.millis < 1000
    }

    pub open spec fn total_ms(&self) -> int {
        self.seconds * 1000 + self.millis
    }
}

/// The milliseconds between consecutive sample instants:
/// `1000 * record_duration / samples_per_record`, truncated through the
/// signed 16-bit intermediate the conversion runs it through, so capped
/// at 32767; a zero-duration record over no samples gives zero. The
/// quotient is exact integer division; evaluating it in single-precision
/// floating point instead could round the ratio up across an integer for
/// record durations in the tens of millions of seconds.
pub open spec fn interval_ms_spec(record_duration: nat, num_samples: nat) -> nat {
    if num_samples == 0 {
        if record_duration == 0 {
            0
        } else {
            32767
        }
    } else if 1000 * record_duration / num_samples > 32767 {
        32767
    } else {
        1000 * record_duration / num_samples
    }
}

/// Compute the sample interval in milliseconds.
pub fn interval_of(record_duration: u64, num_samples: u64) -> (r: u16)
    requires
        record_duration < 100_000_000,
    ensures
        r == interval_ms_spec(record_duration as nat, num_samples as nat),
        r <= 32767,
{
    if num_samples == 0 {
        if record_duration == 0 {
            0
        } else {
            32767
        }
    } else {
        let q: u64 = 1000 * record_duration / num_samples;
        if q > 32767 {
            32767
        } else {
            q as u16
        }
    }
}

/// The instant after one sample interval: milliseconds of a second carry
/// into the seconds field, so the result stays normalized.
pub open spec fn advance_spec(t: TimePoint, interval_ms: u16) -> TimePoint {
    let add_s = interval_ms as int / 1000;
    let ms = t.millis as int + interval_ms as int % 1000;
    if ms >= 1000 {
        TimePoint { seconds: (t.seconds + add_s + 1) as i64, millis: (ms - 1000) as u16 }
    } else {
        TimePoint { seconds: (t.seconds + add_s) as i64, millis: ms as u16 }
    }
}

/// Advancing adds exactly the interval and keeps the instant normalized.
pub proof fn lemma_advance_total(t: TimePoint, interval_ms: u16)
    requires
        t.wf(),
        interval_ms <= 32767,
        seconds_in_range(t.seconds as int),
    ensures
        advance_spec(t, interval_ms).wf(),
        advance_spec(t, interval_ms).total_ms() == t.total_ms() + interval_ms,
        t.seconds <= advance_spec(t, interval_ms).seconds <= t.seconds + 33,
{
    vstd::arithmetic::div_mod::lemma_fundamental_div_mod(interval_ms as int, 1000);
    vstd::arithmetic::div_mod::lemma_mod_bound(interval_ms as int, 1000);
    assert(0 <= interval_ms as int / 1000 <= 32);
}

/// Advance the current instant by the sample interval.
pub fn increment_timestamp(t: TimePoint, interval_ms: u16) -> (r: TimePoint)
    requires
        t.wf(),
        interval_ms <= 32767,
        seconds_in_range(t.seconds as int),
    ensures
        r == advance_spec(t, interval_ms),
{
    proof {
        lemma_advance_total(t, interval_ms);
    }
    let add_s: i64 = (interval_ms / 1000) as i64;
    let ms: u16 = t.millis + interval_ms % 1000;
    if ms >= 1000 {
        TimePoint { seconds: t.seconds + add_s + 1, millis: ms - 1000 }
    } else {
        TimePoint { seconds: t.seconds + add_s, millis: ms }
    }
}

/// With four samples per one-second record the interval truncates to
/// exactly 250 ms: from any start, four advances climb strictly and come
/// back to the start plus one whole second, the carry across a second
/// boundary always leaving the milliseconds below one thousand.
pub proof fn lemma_sequencer_one_second(t0: TimePoint)
    requires
        t0.wf(),
        seconds_in_range(t0.seconds as int),
        t0.seconds < 400_000_000_000_000_000,
    ensures
        ({
            let i = interval_ms_spec(1, 4);
            let t1 = advance_spec(t0, i as u16);
            let t2 = advance_spec(t1, i as u16);
            let t3 = advance_spec(t2, i as u16);
            let t4 = advance_spec(t3, i as u16);
            &&& i == 250
            &&& t1.wf() && t2.wf() && t3.wf() && t4.wf()
            &&& t0.total_ms() < t1.total_ms() < t2.total_ms() < t3.total_ms() < t4.total_ms()
            &&& t4.total_ms() == t0.total_ms() + 1000
        }),
{
    let i = interval_ms_spec(1, 4);
    assert(i == 250);
    let t1 = advance_spec(t0, i as u16);
    lemma_advance_total(t0, i as u16);
    let t2 = advance_spec(t1, i as u16);
    lemma_advance_total(t1, i as u16);
    let t3 = advance_spec(t2, i as u16);
    lemma_advance_total(t2, i as u16);
    let t4 = advance_spec(t3, i as u16);
    lemma_advance_total(t3, i as u16);
}

// ---------------------------------------------------------------------------
// The two calls the timeline needs from the `datetime` crate
// ---------------------------------------------------------------------------

/// Whether a year of this era is a leap year.
pub open spec fn is_leap_year(y: int) -> bool {
    y % 400 == 0 || (y % 100 != 0 && y % 4 == 0)
}

pub open spec fn days_in_month(y: int, m: int) -> int {
    if m == 2 {
        if is_leap_year(y) {
            29
        } else {
            28
        }
    } else if m == 4 || m == 6 || m == 9 || m == 11 {
        30
    } else {
        31
    }
}

/// A calendar date the header may carry: the day exists in that month.
pub open spec fn valid_date(y: int, m: int, d: int) -> bool {
    1 <= m <= 12 && 1 <= d <= days_in_month(y, m)
}

/// A time of day the header may carry; a midnight written as 24:00:00 is
/// also accepted.
pub open spec fn valid_time(h: int, m: int, s: int) -> bool {
    (0 <= h < 24 && 0 <= m < 60 && 0 <= s < 60) || (h == 24 && m == 0 && s == 0)
}

/// The seconds since the Unix epoch at which a valid civil date-time of
/// this era lies.
pub uninterp spec fn instant_of(year: int, month: int, day: int, hour: int, minute: int, second: int) -> int;

/// Relies on datetime's `LocalDate::ymd`, `LocalTime::hms` and
/// `LocalDateTime::to_instant`: a date-time that passes the crate's own
/// validity checks (the same checks as `valid_date` / `valid_time`) maps
/// to its count of seconds since the Unix epoch; for years 2000 through
/// 2099 that count stays within a fixed range.
#[verifier::external_body]
pub(crate) fn civil_to_instant(year: i64, month: i8, day: i8, hour: i8, minute: i8, second: i8) -> (r:
    i64)
    requires
        1990 <= year <= 2099,
        valid_date(year as int, month as int, day as int),
        valid_time(hour as int, minute as int, second as int),
    ensures
        r == instant_of(
            year as int,
            month as int,
            day as int,
            hour as int,
            minute as int,
            second as int,
        ),
        600_000_000 <= r <= 4_200_000_000,
{
    let m = datetime::Month::from_one(month).unwrap();
    let d = datetime::LocalDate::ymd(year, m, day).unwrap();
    let t = datetime::LocalTime::hms(hour, minute, second).unwrap();
    datetime::LocalDateTime::new(d, t).to_instant().seconds()
}

/// The ISO-8601 text of the instant, as the `datetime` crate formats it.
pub uninterp spec fn iso_text(seconds: int, millis: int) -> Seq<char>;

/// Relies on datetime's `LocalDateTime::from_instant` and its ISO-8601
/// formatting: the text is a function of the instant's seconds and
/// milliseconds alone. The seconds must lie in the sequencer's range:
/// far outside it, the crate's epoch adjustment would overflow.
#[verifier::external_body]
pub(crate) fn iso_datetime_string(seconds: i64, millis: u16) -> (r: String)
    requires
        millis < 1000,
        seconds_in_range(seconds as int),
    ensures
        r@ == iso_text(seconds as int, millis as int),
{
    let inst = datetime::Instant::at_ms(seconds, millis as i16);
    datetime::LocalDateTime::from_instant(inst).iso().to_string()
}

} // verus!

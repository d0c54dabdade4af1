use vstd::prelude::*;
use crate::error::Error;

verus! {

/// A point in time, counted in whole seconds on the local civil clock,
/// relative to 1970-01-01 00:00:00 local time.
///
/// Every scheduling decision in this crate compares or subtracts these
/// second counts; nothing else about a moment in time matters here.
#[derive(Clone, Copy, PartialEq, Eq, Structural, Debug)]
pub struct Timestamp {
    pub secs: i64,
}

/// A year has a 29th of February exactly when this holds.
pub open spec fn is_leap_year(y: int) -> bool {
    (y % 4 == 0 && y % 100 != 0) || y % 400 == 0
}

/// Number of days in month `m` (1 = January) of year `y`.
pub open spec fn days_in_month(y: int, m: int) -> int {
    if m == 2 {
        if is_leap_year(y) {
            29
        } else {
            28
        }
    } else if m == 4 || m == 6 || m == 9 || m == 11 {
        30
    } else {
        31
    }
}

/// True iff the components name a real moment of the proleptic
/// Gregorian calendar: a month of that year really has that day, and
/// the time of day is within range.
pub open spec fn is_valid_date_time(y: int, mo: int, d: int, h: int, mi: int, s: int) -> bool {
    &&& 1 <= mo <= 12
    &&& 1 <= d <= days_in_month(y, mo)
    &&& 0 <= h < 24
    &&& 0 <= mi < 60
    &&& 0 <= s < 60
}

/// Day number of a calendar date, with day 0 at 1970-01-01.
///
/// This is the classic era-based day count: years are grouped in
/// 400-year eras of 146097 days each, and the day-of-year is counted
/// from the 1st of March so that a leap day is the last day of its
/// year. The year is shifted by 4,000,000,000 (a multiple of 400, so
/// a whole number of eras) before dividing, so that every division
/// here acts on non-negative values; the matching number of era days,
/// 10,000,000 * 146097, is taken off again at the end.
pub open spec fn civil_day_number(y: int, mo: int, d: int) -> int {
    let yy = y + 4_000_000_000 - (if mo <= 2 { 1int } else { 0int });
    let era = yy / 400;
    let yoe = yy - era * 400;
    let mp = if mo > 2 { mo - 3 } else { mo + 9 };
    let doy = (153 * mp + 2) / 5 + d - 1;
    let doe = yoe * 365 + yoe / 4 - yoe / 100 + doy;
    era * 146097 + doe - 719468 - 1_460_970_000_000
}

/// Seconds on the local civil clock at the given calendar moment,
/// relative to 1970-01-01 00:00:00.
pub open spec fn civil_secs(y: int, mo: int, d: int, h: int, mi: int, s: int) -> int {
    civil_day_number(y, mo, d) * 86400 + h * 3600 + mi * 60 + s
}

/// True iff `year` has a 29th of February.
pub fn leap_year(year: i32) -> (r: bool)
    ensures
        r == is_leap_year(year as int),
{
    let yy: u64 = ((year as i64) + 4_000_000_000i64) as u64;
    proof {
        vstd::arithmetic::div_mod::lemma_mod_multiples_vanish(
            1_000_000_000int,
            year as int,
            4int,
        );
        vstd::arithmetic::div_mod::lemma_mod_multiples_vanish(
            40_000_000int,
            year as int,
            100int,
        );
        vstd::arithmetic::div_mod::lemma_mod_multiples_vanish(
            10_000_000int,
            year as int,
            400int,
        );
    }
    (yy % 4 == 0 && yy % 100 != 0) || yy % 400 == 0
}

/// Number of days in month `month` (1 = January) of `year`.
pub fn month_length(year: i32, month: u32) -> (r: u32)
    requires
        1 <= month <= 12,
    ensures
        r as int == days_in_month(year as int, month as int),
{
    if month == 2 {
        if leap_year(year) {
            29
        } else {
            28
        }
    } else if month == 4 || month == 6 || month == 9 || month == 11 {
        30
    } else {
        31
    }
}

/// Bound check applied when a date or time component is typed in: a
/// component is acceptable exactly when it does not exceed `limit`.
pub fn validate_date(limit: u32, value: u32) -> (r: bool)
    ensures
        r == (value <= limit),
{
    value <= limit
}

/// Builds the start timestamp of an event from calendar components,
/// rejecting any combination that is not a real calendar moment, such
/// as a 31st of April or an hour of 24.
pub fn compose_start_at(year: i32, month: u32, day: u32, hour: u32, minute: u32, second: u32) -> (r:
    Result<Timestamp, Error>)
    ensures
        r is Ok <==> is_valid_date_time(
            year as int,
            month as int,
            day as int,
            hour as int,
            minute as int,
            second as int,
        ),
        r matches Ok(t) ==> t.secs == civil_secs(
            year as int,
            month as int,
            day as int,
            hour as int,
            minute as int,
            second as int,
        ),
        r matches Err(e) ==> e == Error::InvalidDate,
{
    if month < 1 || month > 12 {
        return Err(Error::InvalidDate);
    }
    if day < 1 || day > month_length(year, month) {
        return Err(Error::InvalidDate);
    }
    if hour >= 24 || minute >= 60 || second >= 60 {
        return Err(Error::InvalidDate);
    }
    let yy: u64 = ((year as i64) + 4_000_000_000i64 - (if month <= 2 {
        1i64
    } else {
        0i64
    })) as u64;
    let era: u64 = yy / 400;
    let yoe: u64 = yy - era * 400;
    let mp: u64 = if month > 2 {
        (month - 3) as u64
    } else {
        (month + 9) as u64
    };
    let doy: u64 = (153 * mp + 2) / 5 + (day as u64) - 1;
    let doe: u64 = yoe * 365 + yoe / 4 - yoe / 100 + doy;
    proof {
        vstd::arithmetic::div_mod::lemma_fundamental_div_mod(yy as int, 400int);
        vstd::arithmetic::div_mod::lemma_fundamental_div_mod(yoe as int, 4int);
        vstd::arithmetic::div_mod::lemma_fundamental_div_mod(yoe as int, 100int);
        vstd::arithmetic::div_mod::lemma_fundamental_div_mod((153 * mp + 2) as int, 5int);
    }
    let days: i64 = (era * 146097 + doe) as i64 - 719468i64 - 1_460_970_000_000i64;
    let secs: i64 = days * 86400 + (hour as i64) * 3600 + (minute as i64) * 60 + (second as i64);
    Ok(Timestamp { secs })
}

/// Law: the 29th of February is a valid calendar day exactly in leap
/// years; the time of day plays no part in that.
pub proof fn lemma_feb_29_iff_leap_year(y: int, h: int, mi: int, s: int)
    requires
        0 <= h < 24,
        0 <= mi < 60,
        0 <= s < 60,
    ensures
        is_valid_date_time(y, 2, 29, h, mi, s) <==> is_leap_year(y),
{
}

/// Law: no year has a 31st of April.
pub proof fn lemma_no_april_31(y: int, h: int, mi: int, s: int)
    ensures
        !is_valid_date_time(y, 4, 31, h, mi, s),
{
}

} // verus!

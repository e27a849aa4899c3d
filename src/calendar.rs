use vstd::prelude::*;

verus! {

/// Days between 0000-03-01 (the start of the algorithm's internal calendar) and 1970-01-01.
pub const EPOCH_SHIFT: i64 = 719468;

/// Days in one 400-year Gregorian era.
pub const DAYS_PER_ERA: i64 = 146097;

pub const MICROS_PER_SECOND: i64 = 1_000_000;

pub const SECONDS_PER_DAY: i64 = 86400;

/// Largest magnitude of a day count accepted by `days_to_civil`.
pub const MAX_ABS_DAYS: i64 = 0x100_0000_0000;

pub open spec fn is_leap_year(year: int) -> bool {
    (year % 4 == 0 && year % 100 != 0) || year % 400 == 0
}

pub open spec fn days_in_month(year: int, month: int) -> int {
    if month == 2 {
        if is_leap_year(year) { 29 } else { 28 }
    } else if month == 4 || month == 6 || month == 9 || month == 11 {
        30
    } else {
        31
    }
}

/// A proleptic-Gregorian calendar date.
pub open spec fn is_valid_date(year: int, month: int, day: int) -> bool {
    1 <= month <= 12 && 1 <= day <= days_in_month(year, month)
}

/// Month index counted from March (March is 0, February is 11).
pub open spec fn march_month(month: int) -> int {
    if month > 2 { month - 3 } else { month + 9 }
}

/// Day of the March-based year on which the March-based month `mp` starts.
pub open spec fn march_month_start(mp: int) -> int {
    (153 * mp + 2) / 5
}

/// Day of the 400-year era on which its year `yoe` starts.
pub open spec fn year_of_era_start(yoe: int) -> int {
    365 * yoe + yoe / 4 - yoe / 100
}

/// Day number (days since 1970-01-01) of a calendar date.
pub open spec fn days_from_civil(year: int, month: int, day: int) -> int {
    let y = if month <= 2 { year - 1 } else { year };
    let era = y / 400;
    let yoe = y - era * 400;
    let doy = march_month_start(march_month(month)) + day - 1;
    era * 146097 + year_of_era_start(yoe) + doy - 719468
}

/// Year of era that holds day `doe` of a 400-year era.
pub open spec fn year_of_era(doe: int) -> int {
    (doe - doe / 1460 + doe / 36524 - doe / 146096) / 365
}

/// Calendar date `(year, month, day)` of a day number (days since 1970-01-01).
pub open spec fn civil_from_days(z: int) -> (int, int, int) {
    let zs = z + 719468;
    let era = zs / 146097;
    let doe = zs % 146097;
    let yoe = year_of_era(doe);
    let doy = doe - year_of_era_start(yoe);
    let mp = (5 * doy + 2) / 153;
    let day = doy - march_month_start(mp) + 1;
    let month = if mp < 10 { mp + 3 } else { mp - 9 };
    let y = yoe + era * 400;
    (if month <= 2 { y + 1 } else { y }, month, day)
}

/// Splits a year of era into centuries, four-year cycles and years.
proof fn lemma_year_of_era_inverse(c: int, q: int, r: int, doy: int)
    requires
        0 <= c <= 3,
        0 <= q <= 24,
        0 <= r <= 3,
        0 <= doy <= 364 || (doy == 365 && r == 3 && (q != 24 || c == 3)),
    ensures
        year_of_era_start(100 * c + 4 * q + r) == 36524 * c + 1461 * q + 365 * r,
        year_of_era(36524 * c + 1461 * q + 365 * r + doy) == 100 * c + 4 * q + r,
{
    let yoe = 100 * c + 4 * q + r;
    assert(yoe / 4 == 25 * c + q);
    assert(yoe / 100 == c);
    let doe = 36524 * c + 1461 * q + 365 * r + doy;
    let t = 24 * c + q + 365 * r + doy;
    assert(doe == 1460 * (25 * c + q) + t);
    let k: int = if t >= 1460 { 1 } else { 0 };
    assert(doe / 1460 == 25 * c + q + k);
    if doe == 146096 {
        assert(doe / 36524 == 4);
        assert(doe / 146096 == 1);
    } else {
        assert(doe / 36524 == c);
        assert(doe / 146096 == 0);
    }
    assert(doe - doe / 1460 + doe / 36524 - doe / 146096 == 365 * yoe + (doy - k));
    assert(0 <= doy - k < 365);
}

proof fn lemma_year_of_era_bounds(doe: int)
    requires
        0 <= doe < 146097,
    ensures
        0 <= year_of_era(doe) <= 399,
        0 <= doe - year_of_era_start(year_of_era(doe)) <= 365,
        doe - year_of_era_start(year_of_era(doe)) == 365 ==> year_of_era(doe) % 4 == 3 && (
        year_of_era(doe) % 100 != 99 || year_of_era(doe) == 399),
{
    let c0 = doe / 36524;
    let c = if c0 > 3 { 3 } else { c0 };
    let r1 = doe - 36524 * c;
    let q0 = r1 / 1461;
    let q = if q0 > 24 { 24 } else { q0 };
    let r2 = r1 - 1461 * q;
    let rr = r2 / 365;
    let r = if rr > 3 { 3 } else { rr };
    let doy = r2 - 365 * r;
    lemma_year_of_era_inverse(c, q, r, doy);
}

/// Length of the March-based month `mp` (February, the last, in a leap year when `leap`).
pub open spec fn march_month_len(mp: int, leap: bool) -> int {
    if mp == 11 {
        if leap { 29 } else { 28 }
    } else {
        march_month_start(mp + 1) - march_month_start(mp)
    }
}

proof fn lemma_march_month_of_day(doy: int)
    requires
        0 <= doy <= 365,
    ensures
        0 <= (5 * doy + 2) / 153 <= 11,
        1 <= doy - march_month_start((5 * doy + 2) / 153) + 1 <= march_month_len(
            (5 * doy + 2) / 153,
            doy == 365,
        ),
{
    let mp = (5 * doy + 2) / 153;
    assert(153 * mp <= 5 * doy + 2 < 153 * mp + 153);
    assert(0 <= mp <= 11);
    assert(march_month_start(mp) <= doy);
    if mp < 11 {
        assert(doy < march_month_start(mp + 1));
    }
}

proof fn lemma_march_month_inverse(mp: int, day: int, leap: bool)
    requires
        0 <= mp <= 11,
        1 <= day <= march_month_len(mp, leap),
    ensures
        (5 * (march_month_start(mp) + day - 1) + 2) / 153 == mp,
        march_month_start(mp) + day - 1 <= 364 || (leap && mp == 11 && day == 29),
{
    let doy = march_month_start(mp) + day - 1;
    assert(153 * mp <= 5 * doy + 2 < 153 * mp + 153);
}

proof fn lemma_split_era_day(zs: int, era: int, doe: int)
    requires
        zs == era * 146097 + doe,
        0 <= doe < 146097,
    ensures
        zs / 146097 == era,
        zs % 146097 == doe,
{
    vstd::arithmetic::div_mod::lemma_fundamental_div_mod_converse(zs, 146097, era, doe);
}

/// Every day number names a valid calendar date, and converting that date back
/// gives the same day number.
pub proof fn lemma_days_round_trip(z: int)
    ensures
        is_valid_date(civil_from_days(z).0, civil_from_days(z).1, civil_from_days(z).2),
        days_from_civil(civil_from_days(z).0, civil_from_days(z).1, civil_from_days(z).2) == z,
{
    let zs = z + 719468;
    let era = zs / 146097;
    let doe = zs % 146097;
    lemma_year_of_era_bounds(doe);
    let yoe = year_of_era(doe);
    let doy = doe - year_of_era_start(yoe);
    lemma_march_month_of_day(doy);
    let mp = (5 * doy + 2) / 153;
    let (year, month, day) = civil_from_days(z);
    let y = yoe + era * 400;
    assert(march_month(month) == mp);
    let yy = if month <= 2 { year - 1 } else { year };
    assert(yy == y);
    vstd::arithmetic::div_mod::lemma_fundamental_div_mod_converse(y, 400, era, yoe);
    assert(y / 400 == era);
    if mp == 11 {
        assert(month == 2);
        if doy == 365 {
            assert(is_leap_year(year));
        }
    }
    assert(day <= days_in_month(year, month));
}

/// Converting a valid calendar date to its day number and back gives the same date.
pub proof fn lemma_civil_round_trip(year: int, month: int, day: int)
    requires
        is_valid_date(year, month, day),
    ensures
        civil_from_days(days_from_civil(year, month, day)) == (year, month, day),
{
    let y = if month <= 2 { year - 1 } else { year };
    let era = y / 400;
    let yoe = y - era * 400;
    let mp = march_month(month);
    let leap = is_leap_year(year);
    lemma_march_month_inverse(mp, day, leap);
    let doy = march_month_start(mp) + day - 1;
    let c = yoe / 100;
    let q = (yoe % 100) / 4;
    let r = yoe % 4;
    assert(yoe == 100 * c + 4 * q + r);
    if doy == 365 {
        assert(month == 2 && leap);
        assert(r == 3);
        assert(q != 24 || c == 3);
    }
    lemma_year_of_era_inverse(c, q, r, doy);
    let doe = year_of_era_start(yoe) + doy;
    let z = days_from_civil(year, month, day);
    lemma_split_era_day(z + 719468, era, doe);
}

/// Wall-clock components `(year, month, day, hour, minute, second, microsecond)` of a
/// count of microseconds since 1970-01-01T00:00:00, by floor division.
pub open spec fn timestamp_components(micros: int) -> (int, int, int, int, int, int, int) {
    let secs = micros / 1_000_000;
    let tod = secs % 86400;
    let date = civil_from_days(secs / 86400);
    (date.0, date.1, date.2, tod / 3600, (tod % 3600) / 60, tod % 60, micros % 1_000_000)
}

/// Microseconds since 1970-01-01T00:00:00 of a wall-clock instant.
pub open spec fn timestamp_micros(
    year: int,
    month: int,
    day: int,
    hour: int,
    minute: int,
    second: int,
    micro: int,
) -> int {
    ((days_from_civil(year, month, day) * 86400 + hour * 3600 + minute * 60 + second)
        * 1_000_000) + micro
}

/// Components in their ranges: a valid date, a time of day and a microsecond.
pub open spec fn is_valid_timestamp(
    year: int,
    month: int,
    day: int,
    hour: int,
    minute: int,
    second: int,
    micro: int,
) -> bool {
    is_valid_date(year, month, day) && 0 <= hour < 24 && 0 <= minute < 60 && 0 <= second < 60
        && 0 <= micro < 1_000_000
}

/// Every microsecond count, before 1970 too, decodes to valid components, and
/// encoding them gives the same count back.
pub proof fn lemma_timestamp_round_trip(micros: int)
    ensures
        ({
            let c = timestamp_components(micros);
            &&& is_valid_timestamp(c.0, c.1, c.2, c.3, c.4, c.5, c.6)
            &&& timestamp_micros(c.0, c.1, c.2, c.3, c.4, c.5, c.6) == micros
        }),
{
    let secs = micros / 1_000_000;
    let days = secs / 86400;
    let tod = secs % 86400;
    lemma_days_round_trip(days);
    vstd::arithmetic::div_mod::lemma_fundamental_div_mod(micros, 1_000_000);
    vstd::arithmetic::div_mod::lemma_fundamental_div_mod(secs, 86400);
    assert(tod == (tod / 3600) * 3600 + ((tod % 3600) / 60) * 60 + tod % 60);
}

/// Valid wall-clock components, encoded to microseconds and decoded again, come back unchanged.
pub proof fn lemma_components_round_trip(
    year: int,
    month: int,
    day: int,
    hour: int,
    minute: int,
    second: int,
    micro: int,
)
    requires
        is_valid_timestamp(year, month, day, hour, minute, second, micro),
    ensures
        timestamp_components(timestamp_micros(year, month, day, hour, minute, second, micro)) == (
            year,
            month,
            day,
            hour,
            minute,
            second,
            micro,
        ),
{
    let days = days_from_civil(year, month, day);
    let tod = hour * 3600 + minute * 60 + second;
    let secs = days * 86400 + tod;
    let micros = timestamp_micros(year, month, day, hour, minute, second, micro);
    assert(micros == secs * 1_000_000 + micro);
    vstd::arithmetic::div_mod::lemma_fundamental_div_mod_converse(micros, 1_000_000, secs, micro);
    vstd::arithmetic::div_mod::lemma_fundamental_div_mod_converse(secs, 86400, days, tod);
    vstd::arithmetic::div_mod::lemma_fundamental_div_mod_converse(tod, 3600, hour, minute * 60 + second);
    vstd::arithmetic::div_mod::lemma_fundamental_div_mod_converse(minute * 60 + second, 60, minute, second);
    lemma_civil_round_trip(year, month, day);
}

pub(crate) fn floor_div(x: i128, d: i128) -> (q: i128)
    requires
        d > 0,
    ensures
        q == x / d,
{
    if x >= 0 {
        x / d
    } else {
        let n: i128 = -(x + 1);
        let t: i128 = n / d;
        proof {
            assert(t * d <= n < t * d + d) by (nonlinear_arith)
                requires
                    t == n / d,
                    d > 0,
                    n >= 0,
            ;
            assert((-t - 1) * d <= x < (-t - 1) * d + d) by (nonlinear_arith)
                requires
                    t * d <= n < t * d + d,
                    n == -(x + 1),
            ;
            vstd::arithmetic::div_mod::lemma_fundamental_div_mod_converse_div(
                x as int,
                d as int,
                -t - 1,
                x - (-t - 1) * d,
            );
        }
        -t - 1
    }
}

/// Calendar date of a day number (days since 1970-01-01).
pub fn days_to_civil(days: i64) -> (r: (i64, u32, u32))
    requires
        -MAX_ABS_DAYS <= days <= MAX_ABS_DAYS,
    ensures
        (r.0 as int, r.1 as int, r.2 as int) == civil_from_days(days as int),
        r.0 * 146097 <= (days + 719468) * 400 + 146097 * 400,
        r.0 * 146097 >= (days + 719468) * 400 - 146097 * 400,
{
    let zs = days + EPOCH_SHIFT;
    let era = floor_div(zs as i128, DAYS_PER_ERA as i128) as i64;
    proof {
        vstd::arithmetic::div_mod::lemma_fundamental_div_mod(zs as int, 146097);
    }
    let doe = zs - era * DAYS_PER_ERA;
    proof {
        lemma_year_of_era_bounds(doe as int);
    }
    let yoe = (doe - doe / 1460 + doe / 36524 - doe / 146096) / 365;
    let doy = doe - (365 * yoe + yoe / 4 - yoe / 100);
    proof {
        lemma_march_month_of_day(doy as int);
    }
    let mp = (5 * doy + 2) / 153;
    let day = doy - (153 * mp + 2) / 5 + 1;
    let month = if mp < 10 { mp + 3 } else { mp - 9 };
    let y = yoe + era * 400;
    let year = if month <= 2 { y + 1 } else { y };
    (year, month as u32, day as u32)
}

/// Splits microseconds since 1970-01-01T00:00:00 into wall-clock components.
pub fn micros_to_components(micros: i128) -> (r: (i32, u32, u32, u32, u32, u32, u32))
    requires
        -0x1_0000_0000_0000_0000 <= micros <= 0x1_0000_0000_0000_0000,
    ensures
        (r.0 as int, r.1 as int, r.2 as int, r.3 as int, r.4 as int, r.5 as int, r.6 as int)
            == timestamp_components(micros as int),
{
    let total_secs = floor_div(micros, MICROS_PER_SECOND as i128) as i64;
    proof {
        vstd::arithmetic::div_mod::lemma_fundamental_div_mod(micros as int, 1_000_000);
        assert(total_secs * 1_000_000 <= micros < total_secs * 1_000_000 + 1_000_000);
    }
    let remaining_micros = (micros - total_secs as i128 * 1_000_000) as i64;
    let days = floor_div(total_secs as i128, SECONDS_PER_DAY as i128) as i64;
    proof {
        vstd::arithmetic::div_mod::lemma_fundamental_div_mod(total_secs as int, 86400);
        assert(days * 86400 <= total_secs < days * 86400 + 86400);
    }
    let time_of_day = total_secs - days * SECONDS_PER_DAY;
    let tod = time_of_day as u32;
    let hour = tod / 3600;
    let minute = (tod % 3600) / 60;
    let second = tod % 60;
    let (year, month, day) = days_to_civil(days);
    (year as i32, month, day, hour, minute, second, remaining_micros as u32)
}

} // verus!

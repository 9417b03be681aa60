//! Dates and times of day in UTC.
use crate::text;
use crate::text::{chars_of, decimal_text, push_chars};
use vstd::prelude::*;

verus! {

/// Leap years of the Gregorian calendar.
pub open spec fn is_leap(y: int) -> bool {
    y % 4 == 0 && (y % 100 != 0 || y % 400 == 0)
}

/// Days of a month, January being 1.
pub open spec fn days_in_month(y: int, m: int) -> int {
    if m == 2 {
        if is_leap(y) {
            29
        } else {
            28
        }
    } else if m == 4 || m == 6 || m == 9 || m == 11 {
        30
    } else {
        31
    }
}

/// Days of a year before a month.
pub open spec fn days_before_month(y: int, m: int) -> int
    decreases m,
{
    if m <= 1 {
        0
    } else {
        days_before_month(y, m - 1) + days_in_month(y, m - 1)
    }
}

/// Leap years from year 1 up to year `y`.
pub open spec fn leaps_through(y: int) -> int {
    y / 4 - y / 100 + y / 400
}

/// Days from 1 January 1970 to 1 January of a year.
pub open spec fn days_before_year(y: int) -> int {
    365 * (y - 1970) + leaps_through(y - 1) - 477
}

/// Days from 1 January 1970 to a date.
pub open spec fn day_number(y: int, m: int, d: int) -> int {
    days_before_year(y) + days_before_month(y, m) + d - 1
}

/// Whether a date exists.
pub open spec fn is_date(y: int, m: int, d: int) -> bool {
    1 <= m <= 12 && 1 <= d <= days_in_month(y, m)
}

/// One year after another: the days of a year are those of its months.
pub proof fn year_is_its_months(y: int)
    ensures
        days_before_month(y, 13) == (if is_leap(y) {
            366int
        } else {
            365
        }),
        days_before_year(y + 1) == days_before_year(y) + days_before_month(y, 13),
{
    reveal_with_fuel(days_before_month, 14);
    let z = y - 1;
    if y % 4 == 0 {
        assert(y / 4 == z / 4 + 1);
    } else {
        assert(y / 4 == z / 4);
    }
    if y % 100 == 0 {
        assert(y / 100 == z / 100 + 1);
        assert(y % 4 == 0);
    } else {
        assert(y / 100 == z / 100);
    }
    if y % 400 == 0 {
        assert(y / 400 == z / 400 + 1);
        assert(y % 100 == 0);
    } else {
        assert(y / 400 == z / 400);
    }
}

/// Days before a month, month by month.
proof fn month_table(y: int)
    ensures
        ({
            let f = if is_leap(y) {
                1int
            } else {
                0
            };
            &&& days_before_month(y, 1) == 0
            &&& days_before_month(y, 2) == 31
            &&& days_before_month(y, 3) == 59 + f
            &&& days_before_month(y, 4) == 90 + f
            &&& days_before_month(y, 5) == 120 + f
            &&& days_before_month(y, 6) == 151 + f
            &&& days_before_month(y, 7) == 181 + f
            &&& days_before_month(y, 8) == 212 + f
            &&& days_before_month(y, 9) == 243 + f
            &&& days_before_month(y, 10) == 273 + f
            &&& days_before_month(y, 11) == 304 + f
            &&& days_before_month(y, 12) == 334 + f
        }),
{
    reveal_with_fuel(days_before_month, 13);
}

/// Years of four centuries, counted from March: the first day of year `yoe`.
spec fn march_start(yoe: int) -> int {
    365 * yoe + yoe / 4 - yoe / 100
}

/// The year of four centuries that a day falls in, counted from March.
proof fn year_of_era(doe: int) -> (yoe: int)
    requires
        0 <= doe < 146097,
    ensures
        yoe == (doe - doe / 1460 + doe / 36524 - doe / 146096) / 365,
        0 <= yoe < 400,
        march_start(yoe) <= doe,
        doe - march_start(yoe) <= 365,
        doe - march_start(yoe) == 365 ==> is_leap(yoe + 1),
{
    let yoe = (doe - doe / 1460 + doe / 36524 - doe / 146096) / 365;
    let c = doe / 36524;
    assert(0 <= c <= 4);
    let q = doe / 1460;
    assert(0 <= q <= 100);
    assert(c == 0 || c == 1 || c == 2 || c == 3 || c == 4);
    yoe
}

/// Month and day of a day of the year, counted from March.
proof fn march_day(doy: int) -> (r: (int, int))
    requires
        0 <= doy <= 365,
    ensures
        r.0 == (5 * doy + 2) / 153,
        r.1 == doy - (153 * r.0 + 2) / 5 + 1,
        0 <= r.0 <= 11,
        1 <= r.1,
        (r.0 == 1 || r.0 == 3 || r.0 == 6 || r.0 == 8) ==> r.1 <= 30,
        (r.0 == 0 || r.0 == 2 || r.0 == 4 || r.0 == 5 || r.0 == 7 || r.0 == 9 || r.0 == 10)
            ==> r.1 <= 31,
        r.0 == 11 ==> r.1 <= 29 && (r.1 == 29 ==> doy == 365),
        (153 * r.0 + 2) / 5 == (if r.0 == 0 {
            0int
        } else if r.0 == 1 {
            31
        } else if r.0 == 2 {
            61
        } else if r.0 == 3 {
            92
        } else if r.0 == 4 {
            122
        } else if r.0 == 5 {
            153
        } else if r.0 == 6 {
            184
        } else if r.0 == 7 {
            214
        } else if r.0 == 8 {
            245
        } else if r.0 == 9 {
            275
        } else if r.0 == 10 {
            306
        } else {
            337
        }),
{
    let mp = (5 * doy + 2) / 153;
    assert(0 <= mp <= 11);
    (mp, doy - (153 * mp + 2) / 5 + 1)
}

proof fn leaps_step(y: int)
    ensures
        leaps_through(y) == leaps_through(y - 1) + (if is_leap(y) {
            1int
        } else {
            0
        }),
{
    year_is_its_months(y);
}

proof fn leaps_of_era(yoe: int, era: int)
    requires
        0 <= yoe < 400,
    ensures
        leaps_through(yoe + 400 * era) == yoe / 4 - yoe / 100 + 97 * era,
        is_leap(yoe + 400 * era + 1) == is_leap(yoe + 1),
{
    let y = yoe + 400 * era;
    vstd::arithmetic::div_mod::lemma_fundamental_div_mod_converse(y, 4, yoe / 4 + 100 * era, yoe % 4);
    vstd::arithmetic::div_mod::lemma_fundamental_div_mod_converse(y, 100, yoe / 100 + 4 * era, yoe % 100);
    vstd::arithmetic::div_mod::lemma_fundamental_div_mod_converse(y, 400, era, yoe);
    let next = yoe + 1;
    vstd::arithmetic::div_mod::lemma_fundamental_div_mod_converse(y + 1, 4, next / 4 + 100 * era, next % 4);
    vstd::arithmetic::div_mod::lemma_fundamental_div_mod_converse(y + 1, 100, next / 100 + 4 * era, next % 100);
    vstd::arithmetic::div_mod::lemma_fundamental_div_mod_converse(y + 1, 400, next / 400 + era, next % 400);
}

/// The date that the parts of the computation make.
proof fn civil_date(era: int, doe: int, yoe: int, doy: int, mp: int, d: int)
    requires
        0 <= doe < 146097,
        yoe == (doe - doe / 1460 + doe / 36524 - doe / 146096) / 365,
        doy == doe - march_start(yoe),
        mp == (5 * doy + 2) / 153,
        d == doy - (153 * mp + 2) / 5 + 1,
    ensures
        ({
            let y = yoe + era * 400;
            let m = if mp < 10 {
                mp + 3
            } else {
                mp - 9
            };
            let year = if m <= 2 {
                y + 1
            } else {
                y
            };
            &&& 0 <= yoe < 400
            &&& 0 <= doy <= 365
            &&& 0 <= mp <= 11
            &&& 1 <= d <= 31
            &&& is_date(year, m, d)
            &&& day_number(year, m, d) == era * 146097 + doe - 719468
        }),
{
    let _ = year_of_era(doe);
    let y = yoe + era * 400;
    let _ = march_day(doy);
    leaps_of_era(yoe, era);
    leaps_step(y);
    month_table(y);
    month_table(y + 1);
    year_is_its_months(y);
    assert(days_before_year(y) + 59 + (if is_leap(y) {
        1int
    } else {
        0
    }) + doy == era * 146097 + doe - 719468);
    let m = if mp < 10 {
        mp + 3
    } else {
        mp - 9
    };
    if mp < 10 {
        assert(days_before_month(y, m) + d - 1 == 59 + (if is_leap(y) {
            1int
        } else {
            0
        }) + doy);
    } else {
        assert(days_before_month(y + 1, m) + d - 1 == doy - 306);
    }
}

/// The civil date of a number of days since 1 January 1970.
pub fn civil_from_days(z: i64) -> (r: (i64, u32, u32))
    requires
        z <= i64::MAX - 719468,
    ensures
        is_date(r.0 as int, r.1 as int, r.2 as int),
        day_number(r.0 as int, r.1 as int, r.2 as int) == z,
{
    let shifted: i64 = z + 719468;
    let era: i64 = if shifted >= 0 {
        shifted / 146097
    } else {
        (shifted - 146096) / 146097
    };
    assert(0 <= shifted - era * 146097 < 146097);
    let doe: i64 = shifted - era * 146097;
    let yoe: i64 = (doe - doe / 1460 + doe / 36524 - doe / 146096) / 365;
    proof {
        let _ = year_of_era(doe as int);
        let doy = doe - march_start(yoe as int);
        let mp = (5 * doy + 2) / 153;
        civil_date(era as int, doe as int, yoe as int, doy, mp, doy - (153 * mp + 2) / 5 + 1);
    }
    let y: i64 = yoe + era * 400;
    let doy: i64 = doe - (365 * yoe + yoe / 4 - yoe / 100);
    let mp: i64 = (5 * doy + 2) / 153;
    let d: i64 = doy - (153 * mp + 2) / 5 + 1;
    let m: i64 = if mp < 10 {
        mp + 3
    } else {
        mp - 9
    };
    let year: i64 = if m <= 2 {
        y + 1
    } else {
        y
    };
    (year, m as u32, d as u32)
}

/// Later years start later.
proof fn years_are_ordered(a: int, b: int)
    requires
        a <= b,
    ensures
        days_before_year(a) <= days_before_year(b),
    decreases b - a,
{
    if a < b {
        years_are_ordered(a, b - 1);
        year_is_its_months(b - 1);
    }
}

/// A date lies inside its year.
proof fn date_is_in_its_year(y: int, m: int, d: int)
    requires
        is_date(y, m, d),
    ensures
        days_before_year(y) <= day_number(y, m, d) < days_before_year(y + 1),
{
    month_table(y);
    year_is_its_months(y);
}

/// Different dates are different days, so that a day has one date.
pub proof fn a_day_has_one_date(y1: int, m1: int, d1: int, y2: int, m2: int, d2: int)
    requires
        is_date(y1, m1, d1),
        is_date(y2, m2, d2),
        day_number(y1, m1, d1) == day_number(y2, m2, d2),
    ensures
        y1 == y2,
        m1 == m2,
        d1 == d2,
{
    date_is_in_its_year(y1, m1, d1);
    date_is_in_its_year(y2, m2, d2);
    if y1 < y2 {
        years_are_ordered(y1 + 1, y2);
    }
    if y2 < y1 {
        years_are_ordered(y2 + 1, y1);
    }
    month_table(y1);
}

/// A number in decimal, filled up with zeros on the left to a width.
pub open spec fn padded(n: nat, width: nat) -> Seq<char> {
    let d = text::decimal(n);
    if d.len() < width {
        Seq::new((width - d.len()) as nat, |i: int| '0') + d
    } else {
        d
    }
}

/// Appends a number in decimal, filled up with zeros to a width.
pub fn push_padded(out: &mut String, n: u64, width: usize)
    ensures
        final(out)@ == old(out)@ + padded(n as nat, width as nat),
{
    let digits = chars_of(&decimal_text(n));
    let d: usize = digits.len();
    let mut k: usize = d;
    let ghost start = out@;
    while k < width
        invariant
            d == text::decimal(n as nat).len(),
            d <= k,
            k <= width || k == d,
            out@ == start + Seq::new((k - d) as nat, |i: int| '0'),
        decreases width - k,
    {
        out.push('0');
        k = k + 1;
        assert(out@ =~= start + Seq::new((k - d) as nat, |i: int| '0'));
    }
    push_chars(out, &digits);
    assert(out@ =~= start + padded(n as nat, width as nat));
}

/// The date and time of day of a number of seconds since 1 January 1970.
pub open spec fn is_moment(secs: int, y: int, mo: int, d: int, h: int, mi: int, s: int) -> bool {
    is_date(y, mo, d) && day_number(y, mo, d) == secs / 86400 && h == secs % 86400 / 3600 && mi
        == secs % 3600 / 60 && s == secs % 60
}

/// `YYYY-MM-DD HH:MM:SS`.
pub open spec fn time_text(y: int, mo: int, d: int, h: int, mi: int, s: int) -> Seq<char> {
    padded(y as nat, 4).push('-') + padded(mo as nat, 2).push('-') + padded(d as nat, 2).push(' ')
        + padded(h as nat, 2).push(':') + padded(mi as nat, 2).push(':') + padded(s as nat, 2)
}

/// Year, month, day, hour, minute and second of a number of seconds since 1 January
/// 1970.
pub open spec fn moment(secs: int) -> (int, int, int, int, int, int) {
    choose|t: (int, int, int, int, int, int)| #[trigger]
        is_moment(secs, t.0, t.1, t.2, t.3, t.4, t.5)
}

/// A moment has the date and the time of day that it has, and no other.
pub proof fn moment_is_unique(secs: int, y: int, mo: int, d: int, h: int, mi: int, s: int)
    requires
        is_moment(secs, y, mo, d, h, mi, s),
    ensures
        moment(secs) == (y, mo, d, h, mi, s),
{
    let t = moment(secs);
    let u = (y, mo, d, h, mi, s);
    assert(is_moment(secs, u.0, u.1, u.2, u.3, u.4, u.5));
    assert(is_moment(secs, t.0, t.1, t.2, t.3, t.4, t.5));
    a_day_has_one_date(t.0, t.1, t.2, y, mo, d);
}

/// A moment as `YYYY-MM-DD HH:MM:SS`.
pub open spec fn moment_text(secs: int) -> Seq<char> {
    let t = moment(secs);
    time_text(t.0, t.1, t.2, t.3, t.4, t.5)
}

/// A moment as `DDHHMM`.
pub open spec fn day_hour_minute(secs: int) -> Seq<char> {
    let t = moment(secs);
    padded(t.2 as nat, 2) + padded(t.3 as nat, 2) + padded(t.4 as nat, 2)
}

/// A time in milliseconds since 1 January 1970 as `YYYY-MM-DD HH:MM:SS` in UTC.
pub fn fmt_ts(ms: u64) -> (r: String)
    ensures
        r@ == moment_text(ms as int / 1000),
{
    let secs: u64 = ms / 1000;
    let days: u64 = secs / 86400;
    let (y, mo, d) = civil_from_days(days as i64);
    let tod: u64 = secs % 86400;
    let h: u64 = tod / 3600;
    let mi: u64 = tod % 3600 / 60;
    let s: u64 = tod % 60;
    proof {
        date_is_in_its_year(y as int, mo as int, d as int);
        if y < 1970 {
            years_are_ordered(y + 1, 1970);
        }
        assert(tod % 3600 == secs % 3600) by (nonlinear_arith)
            requires
                tod == secs % 86400,
        ;
        assert(tod % 60 == secs % 60) by (nonlinear_arith)
            requires
                tod == secs % 86400,
        ;
    }
    let mut out = String::new();
    push_padded(&mut out, y as u64, 4);
    out.push('-');
    push_padded(&mut out, mo as u64, 2);
    out.push('-');
    push_padded(&mut out, d as u64, 2);
    out.push(' ');
    push_padded(&mut out, h, 2);
    out.push(':');
    push_padded(&mut out, mi, 2);
    out.push(':');
    push_padded(&mut out, s, 2);
    proof {
        moment_is_unique(
            ms as int / 1000,
            y as int,
            mo as int,
            d as int,
            h as int,
            mi as int,
            s as int,
        );
        assert(out@ =~= time_text(
            y as int,
            mo as int,
            d as int,
            h as int,
            mi as int,
            s as int,
        ));
    }
    out
}

/// Day of the month, hour and minute of a time in seconds since 1 January 1970,
/// as `DDHHMM` in UTC.
pub fn aprs_dhm_timestamp(secs: u64) -> (r: String)
    ensures
        r@ == day_hour_minute(secs as int),
{
    let days: u64 = secs / 86400;
    let (y, mo, d) = civil_from_days(days as i64);
    let tod: u64 = secs % 86400;
    let h: u64 = tod / 3600;
    let mi: u64 = tod % 3600 / 60;
    proof {
        assert(tod % 3600 == secs % 3600) by (nonlinear_arith)
            requires
                tod == secs % 86400,
        ;
    }
    let mut out = String::new();
    push_padded(&mut out, d as u64, 2);
    push_padded(&mut out, h, 2);
    push_padded(&mut out, mi, 2);
    proof {
        moment_is_unique(
            secs as int,
            y as int,
            mo as int,
            d as int,
            h as int,
            mi as int,
            secs as int % 60,
        );
        assert(out@ =~= padded(d as nat, 2) + padded(h as nat, 2) + padded(mi as nat, 2));
    }
    out
}

/// Days follow one another: a date is the day after the one before it in its month, the
/// first of a month the day after the last of the month before, New Year the day after the
/// last of December, and 1 January 1970 is day zero.
pub proof fn days_follow_one_another(y: int, m: int, d: int)
    requires
        is_date(y, m, d),
    ensures
        day_number(1970, 1, 1) == 0,
        is_date(y, m, d + 1) ==> day_number(y, m, d + 1) == day_number(y, m, d) + 1,
        !is_date(y, m, d + 1) && m < 12 ==> is_date(y, m + 1, 1) && day_number(y, m + 1, 1)
            == day_number(y, m, d) + 1,
        m == 12 && d == 31 ==> day_number(y + 1, 1, 1) == day_number(y, m, d) + 1,
        m == 12 ==> (is_date(y, m, d + 1) <==> d < 31),
{
    year_is_its_months(y);
    month_table(y);
    assert(days_before_month(y, m + 1) == days_before_month(y, m) + days_in_month(y, m));
    assert(days_before_month(1970, 1) == 0);
    assert(days_before_month(y + 1, 1) == 0);
}

/// February has 29 days in leap years, which are those divisible by four, but not the
/// centuries that are not divisible by four hundred; four centuries are 146097 days.
pub proof fn leap_years_make_up_the_calendar(y: int, m: int, d: int)
    requires
        is_date(y, m, d),
    ensures
        y % 4 != 0 ==> !is_date(y, 2, 29),
        y % 4 == 0 && y % 100 != 0 ==> is_date(y, 2, 29),
        y % 100 == 0 && y % 400 != 0 ==> !is_date(y, 2, 29),
        y % 400 == 0 ==> is_date(y, 2, 29),
        is_date(y, 2, 28),
        !is_date(y, 2, 30),
        is_date(y, 1, 31) && is_date(y, 3, 31) && is_date(y, 5, 31) && is_date(y, 7, 31) && is_date(
            y,
            8,
            31,
        ) && is_date(y, 10, 31) && is_date(y, 12, 31),
        !is_date(y, 4, 31) && !is_date(y, 6, 31) && !is_date(y, 9, 31) && !is_date(y, 11, 31),
        is_date(y, 4, 30) && is_date(y, 6, 30) && is_date(y, 9, 30) && is_date(y, 11, 30),
        day_number(y + 400, m, d) == day_number(y, m, d) + 146097,
{
    month_table(y);
    month_table(y + 400);
    assert((y + 400) % 4 == y % 4 && (y + 400) % 100 == y % 100 && (y + 400) % 400 == y % 400);
    assert((y + 399) / 4 == (y - 1) / 4 + 100 && (y + 399) / 100 == (y - 1) / 100 + 4 && (y + 399)
        / 400 == (y - 1) / 400 + 1);
}

proof fn padded_to_two(n: nat)
    requires
        n < 100,
    ensures
        padded(n, 2).len() == 2,
        text::all_digits(padded(n, 2)),
        text::digits_value(padded(n, 2)) == n,
{
    text::decimal_round_trip(n);
    if n < 10 {
        let p = padded(n, 2);
        assert(p =~= seq!['0', text::digit_char(n as int)]);
        reveal_with_fuel(text::digits_value, 3);
        assert(p.drop_last() =~= seq!['0']);
        assert(seq!['0'].drop_last() =~= Seq::<char>::empty());
    } else {
        assert(text::decimal(n / 10).len() == 1);
        assert(text::decimal(n).len() == 2);
    }
}

proof fn padded_to_four(n: nat)
    requires
        1000 <= n < 10000,
    ensures
        padded(n, 4) == text::decimal(n),
        text::decimal(n).len() == 4,
        text::digits_value(text::decimal(n)) == n,
{
    text::decimal_round_trip(n);
    reveal_with_fuel(text::decimal, 5);
}

/// The text of a moment has the year in its first four places, and month, day, hour,
/// minute and second in two places each, parted by dashes, a blank and colons.
pub proof fn moments_are_spelled_out(y: int, mo: int, d: int, h: int, mi: int, s: int)
    requires
        1000 <= y < 10000,
        0 <= mo < 100,
        0 <= d < 100,
        0 <= h < 100,
        0 <= mi < 100,
        0 <= s < 100,
    ensures
        ({
            let t = time_text(y, mo, d, h, mi, s);
            &&& t.len() == 19
            &&& text::digits_value(t.subrange(0, 4)) == y
            &&& text::digits_value(t.subrange(5, 7)) == mo
            &&& text::digits_value(t.subrange(8, 10)) == d
            &&& text::digits_value(t.subrange(11, 13)) == h
            &&& text::digits_value(t.subrange(14, 16)) == mi
            &&& text::digits_value(t.subrange(17, 19)) == s
            &&& t[4] == '-' && t[7] == '-' && t[10] == ' ' && t[13] == ':' && t[16] == ':'
        }),
{
    padded_to_four(y as nat);
    padded_to_two(mo as nat);
    padded_to_two(d as nat);
    padded_to_two(h as nat);
    padded_to_two(mi as nat);
    padded_to_two(s as nat);
    let t = time_text(y, mo, d, h, mi, s);
    assert(t.subrange(0, 4) =~= padded(y as nat, 4));
    assert(t.subrange(5, 7) =~= padded(mo as nat, 2));
    assert(t.subrange(8, 10) =~= padded(d as nat, 2));
    assert(t.subrange(11, 13) =~= padded(h as nat, 2));
    assert(t.subrange(14, 16) =~= padded(mi as nat, 2));
    assert(t.subrange(17, 19) =~= padded(s as nat, 2));
}

/// The time of day of a moment is what is left of it over whole days, in hours, minutes
/// and seconds; the day is the number of whole days.
pub proof fn moments_add_up(secs: int, y: int, mo: int, d: int, h: int, mi: int, s: int)
    requires
        is_moment(secs, y, mo, d, h, mi, s),
    ensures
        secs == 86400 * day_number(y, mo, d) + 3600 * h + 60 * mi + s,
        0 <= h < 24,
        0 <= mi < 60,
        0 <= s < 60,
{
    let q = secs / 86400;
    let day = secs % 86400;
    let t = day % 3600;
    assert(secs == 86400 * q + day);
    assert(day == 3600 * h + t);
    vstd::arithmetic::div_mod::lemma_fundamental_div_mod_converse(secs, 3600, 24 * q + h, t);
    assert(t == 60 * mi + t % 60);
    vstd::arithmetic::div_mod::lemma_fundamental_div_mod_converse(
        secs,
        60,
        1440 * q + 60 * h + mi,
        t % 60,
    );
}

/// The time of a report is the day of the month, the hour and the minute, two digits each.
pub proof fn report_times_are_spelled_out(secs: int, y: int, mo: int, d: int, h: int, mi: int, s: int)
    requires
        is_moment(secs, y, mo, d, h, mi, s),
    ensures
        day_hour_minute(secs).len() == 6,
        text::digits_value(day_hour_minute(secs).subrange(0, 2)) == d,
        text::digits_value(day_hour_minute(secs).subrange(2, 4)) == h,
        text::digits_value(day_hour_minute(secs).subrange(4, 6)) == mi,
{
    moment_is_unique(secs, y, mo, d, h, mi, s);
    moments_add_up(secs, y, mo, d, h, mi, s);
    padded_to_two(d as nat);
    padded_to_two(h as nat);
    padded_to_two(mi as nat);
    let t = day_hour_minute(secs);
    assert(t.subrange(0, 2) =~= padded(d as nat, 2));
    assert(t.subrange(2, 4) =~= padded(h as nat, 2));
    assert(t.subrange(4, 6) =~= padded(mi as nat, 2));
}

} // verus!

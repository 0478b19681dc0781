//! Calendar time: conversion between epoch seconds and a civil UTC
//! date-time, and the fixed-width `YYYY-MM-DDTHH:MM:SSZ` timestamp form the
//! cache metadata file carries.
//!
//! The supported range runs from the epoch to the last second of year 9999,
//! the largest a four-digit year can hold.

use vstd::prelude::*;

verus! {

/// The last representable second: 9999-12-31T23:59:59Z.
pub const MAX_EPOCH: i64 = 253402300799;

/// A civil UTC date-time: 1-based month and day, 0-based clock fields.
pub struct DateTime {
    pub year: i64,
    pub month: i64,
    pub day: i64,
    pub hour: i64,
    pub minute: i64,
    pub second: i64,
}

/// A Gregorian leap year.
pub open spec fn is_leap_year(y: int) -> bool {
    (y % 4 == 0 && y % 100 != 0) || y % 400 == 0
}

/// Days in year `y`.
pub open spec fn days_in_year(y: int) -> int {
    if is_leap_year(y) {
        366
    } else {
        365
    }
}

/// Days in month `m` of year `y`, for `m` in 1 to 12.
pub open spec fn days_in_month(y: int, m: int) -> int {
    if m == 2 {
        if is_leap_year(y) {
            29
        } else {
            28
        }
    } else if m == 4 || m == 6 || m == 9 || m == 11 {
        30
    } else {
        31
    }
}

/// Days from the epoch to the first day of year `y`, for `y >= 1970`.
pub open spec fn days_before_year(y: int) -> int
    recommends
        y >= 1970,
    decreases y,
{
    if y <= 1970 {
        0
    } else {
        days_before_year(y - 1) + days_in_year(y - 1)
    }
}

/// Days from the first day of year `y` to the first day of month `m`.
pub open spec fn days_before_month(y: int, m: int) -> int
    recommends
        1 <= m <= 13,
    decreases m,
{
    if m <= 1 {
        0
    } else {
        days_before_month(y, m - 1) + days_in_month(y, m - 1)
    }
}

/// A date-time the timestamp form can carry.
pub open spec fn valid_datetime(dt: DateTime) -> bool {
    &&& 1970 <= dt.year <= 9999
    &&& 1 <= dt.month <= 12
    &&& 1 <= dt.day <= days_in_month(dt.year as int, dt.month as int)
    &&& 0 <= dt.hour <= 23
    &&& 0 <= dt.minute <= 59
    &&& 0 <= dt.second <= 59
}

/// The epoch seconds of a civil date-time.
pub open spec fn epoch_of_datetime(dt: DateTime) -> int {
    (days_before_year(dt.year as int) + days_before_month(dt.year as int, dt.month as int)
        + (dt.day - 1)) * 86400 + dt.hour * 3600 + dt.minute * 60 + dt.second
}

/// The leap years up to (excluding) year `y`, counted from year 1.
pub open spec fn leap_count(y: int) -> int {
    (y - 1) / 4 - (y - 1) / 100 + (y - 1) / 400
}

/// Crossing from `n - 1` to `n` raises `n / k` exactly when `k` divides `n`.
proof fn lemma_div_step(n: int, k: int)
    requires
        n >= 1,
        k >= 2,
    ensures
        n / k == (n - 1) / k + if n % k == 0 {
            1int
        } else {
            0int
        },
        n % k == 0 <==> (n - 1) % k == k - 1,
{
    vstd::arithmetic::div_mod::lemma_fundamental_div_mod(n - 1, k);
    let q = (n - 1) / k;
    let r = (n - 1) % k;
    if r == k - 1 {
        assert(n == (q + 1) * k + 0) by (nonlinear_arith)
            requires
                n - 1 == k * q + r,
                r == k - 1,
        ;
        vstd::arithmetic::div_mod::lemma_fundamental_div_mod_converse(n, k, q + 1, 0);
    } else {
        assert(n == q * k + (r + 1)) by (nonlinear_arith)
            requires
                n - 1 == k * q + r,
        ;
        vstd::arithmetic::div_mod::lemma_fundamental_div_mod_converse(n, k, q, r + 1);
    }
}

/// A multiple of `k * m` is a multiple of `k`.
proof fn lemma_divides_coarser(n: int, k: int, m: int)
    requires
        k >= 1,
        m >= 1,
        n % (k * m) == 0,
        n >= 0,
    ensures
        n % k == 0,
{
    assert(k * m >= 1) by (nonlinear_arith)
        requires
            k >= 1,
            m >= 1,
    ;
    vstd::arithmetic::div_mod::lemma_fundamental_div_mod(n, k * m);
    let q = n / (k * m);
    assert(n == (k * m) * q);
    assert((k * m) * q == (m * q) * k) by (nonlinear_arith);
    vstd::arithmetic::div_mod::lemma_fundamental_div_mod_converse(n, k, m * q, 0);
}

/// The recursive day count agrees with the closed leap-count form.
proof fn lemma_days_before_year_closed(y: int)
    requires
        1970 <= y <= 10000,
    ensures
        days_before_year(y) == 365 * (y - 1970) + leap_count(y) - leap_count(1970),
    decreases y,
{
    if y > 1970 {
        lemma_days_before_year_closed(y - 1);
        lemma_div_step(y - 1, 4);
        lemma_div_step(y - 1, 100);
        lemma_div_step(y - 1, 400);
        if (y - 1) % 400 == 0 {
            lemma_divides_coarser(y - 1, 100, 4);
            lemma_divides_coarser(y - 1, 4, 100);
        }
        if (y - 1) % 100 == 0 {
            lemma_divides_coarser(y - 1, 4, 25);
        }
        assert(leap_count(y) - leap_count(y - 1) == if is_leap_year(y - 1) {
            1int
        } else {
            0int
        });
    }
}

/// The day count up to year 10000, one past the supported years.
pub proof fn lemma_days_before_year_10000()
    ensures
        days_before_year(10000) == 2932897,
{
    lemma_days_before_year_closed(10000);
    assert(leap_count(10000) == 2499 - 99 + 24);
    assert(leap_count(1970) == 492 - 19 + 4);
}

/// `days_before_year` grows with the year.
pub proof fn lemma_days_before_year_le(a: int, b: int)
    requires
        1970 <= a <= b,
    ensures
        days_before_year(a) <= days_before_year(b),
    decreases b - a,
{
    if a < b {
        lemma_days_before_year_le(a, b - 1);
    }
}

/// A whole year of months: the days before a thirteenth month equal the
/// days of the year.
pub proof fn lemma_days_before_month_full(y: int)
    ensures
        days_before_month(y, 13) == days_in_year(y),
{
    reveal_with_fuel(days_before_month, 13);
}

/// The days before a month never pass the days of the year.
pub proof fn lemma_days_before_month_le(y: int, m: int)
    requires
        1 <= m <= 12,
    ensures
        days_before_month(y, m) + days_in_month(y, m) <= days_in_year(y),
    decreases 13 - m,
{
    if m == 12 {
        lemma_days_before_month_full(y);
    } else {
        lemma_days_before_month_le(y, m + 1);
    }
}

/// Exec mirror of `is_leap_year`.
pub fn is_leap_year_x(y: i64) -> (r: bool)
    requires
        0 <= y,
    ensures
        r == is_leap_year(y as int),
{
    (y % 4 == 0 && y % 100 != 0) || y % 400 == 0
}

/// Exec mirror of `days_in_year`.
pub fn days_in_year_x(y: i64) -> (r: i64)
    requires
        0 <= y,
    ensures
        r == days_in_year(y as int),
{
    if is_leap_year_x(y) {
        366
    } else {
        365
    }
}

/// Exec mirror of `days_in_month`.
pub fn days_in_month_x(y: i64, m: i64) -> (r: i64)
    requires
        0 <= y,
        1 <= m <= 12,
    ensures
        r == days_in_month(y as int, m as int),
{
    if m == 2 {
        if is_leap_year_x(y) {
            29
        } else {
            28
        }
    } else if m == 4 || m == 6 || m == 9 || m == 11 {
        30
    } else {
        31
    }
}

/// Exec mirror of `days_before_year`.
pub fn days_before_year_x(y: i64) -> (r: i64)
    requires
        1970 <= y <= 10000,
    ensures
        r == days_before_year(y as int),
{
    let mut acc: i64 = 0;
    let mut yy: i64 = 1970;
    while yy < y
        invariant
            1970 <= yy <= y <= 10000,
            acc == days_before_year(yy as int),
            acc <= (yy - 1970) * 366,
        decreases y - yy,
    {
        acc = acc + days_in_year_x(yy);
        yy = yy + 1;
    }
    acc
}

/// Exec mirror of `days_before_month`.
pub fn days_before_month_x(y: i64, m: i64) -> (r: i64)
    requires
        0 <= y,
        1 <= m <= 13,
    ensures
        r == days_before_month(y as int, m as int),
{
    let mut acc: i64 = 0;
    let mut mm: i64 = 1;
    while mm < m
        invariant
            0 <= y,
            1 <= mm <= m <= 13,
            acc == days_before_month(y as int, mm as int),
            acc <= (mm - 1) * 31,
        decreases m - mm,
    {
        acc = acc + days_in_month_x(y, mm);
        mm = mm + 1;
    }
    acc
}

/// The civil date-time of a second count, by scanning years and then
/// months from the epoch.
pub fn datetime_of_epoch(e: i64) -> (r: DateTime)
    requires
        0 <= e <= MAX_EPOCH,
    ensures
        valid_datetime(r),
        epoch_of_datetime(r) == e,
{
    let days: i64 = e / 86400;
    let rem: i64 = e % 86400;
    let hour: i64 = rem / 3600;
    let r2: i64 = rem % 3600;
    let minute: i64 = r2 / 60;
    let second: i64 = r2 % 60;
    proof {
        assert(e == days * 86400 + hour * 3600 + minute * 60 + second);
        assert(0 <= days <= 2932896);
        lemma_days_before_year_10000();
    }
    let mut y: i64 = 1970;
    let mut d: i64 = days;
    let mut diy: i64 = days_in_year_x(y);
    while d >= diy
        invariant
            1970 <= y <= 9999,
            0 <= d,
            diy == days_in_year(y as int),
            days_before_year(y as int) + d == days,
            days <= 2932896,
            days_before_year(10000) == 2932897,
        decreases d,
    {
        proof {
            if y == 9999 {
                assert(days_before_year(10000) <= days);
                assert(false);
            }
        }
        d = d - diy;
        y = y + 1;
        diy = days_in_year_x(y);
    }
    let mut m: i64 = 1;
    let mut dim: i64 = days_in_month_x(y, m);
    while d >= dim
        invariant
            1970 <= y <= 9999,
            1 <= m <= 12,
            0 <= d,
            dim == days_in_month(y as int, m as int),
            days_before_month(y as int, m as int) + d < days_in_year(y as int),
            days_before_year(y as int) + days_before_month(y as int, m as int) + d == days,
        decreases 12 - m,
    {
        proof {
            if m == 12 {
                lemma_days_before_month_full(y as int);
                assert(false);
            }
        }
        d = d - dim;
        m = m + 1;
        dim = days_in_month_x(y, m);
    }
    let dt = DateTime { year: y, month: m, day: d + 1, hour, minute, second };
    proof {
        assert(valid_datetime(dt));
        assert(days_before_year(y as int) + days_before_month(y as int, m as int) + d == days);
        assert(epoch_of_datetime(dt) == days * 86400 + hour * 3600 + minute * 60 + second);
    }
    dt
}

/// The days before any month are never negative.
proof fn lemma_days_before_month_nonneg(y: int, m: int)
    requires
        1 <= m <= 13,
    ensures
        days_before_month(y, m) >= 0,
    decreases m,
{
    if m > 1 {
        lemma_days_before_month_nonneg(y, m - 1);
    }
}

/// The second count of a civil date-time.
pub fn epoch_seconds(dt: &DateTime) -> (r: i64)
    requires
        valid_datetime(*dt),
    ensures
        r == epoch_of_datetime(*dt),
        0 <= r <= MAX_EPOCH,
{
    let dby = days_before_year_x(dt.year);
    let dbm = days_before_month_x(dt.year, dt.month);
    proof {
        lemma_days_before_year_10000();
        lemma_days_before_year_le(1970, dt.year as int);
        assert(days_before_year(dt.year as int + 1) == days_before_year(dt.year as int)
            + days_in_year(dt.year as int));
        lemma_days_before_year_le(dt.year as int + 1, 10000);
        lemma_days_before_month_nonneg(dt.year as int, dt.month as int);
        lemma_days_before_month_le(dt.year as int, dt.month as int);
        assert(0 <= dby <= 2932897);
        assert(0 <= dbm <= 366);
    }
    let days: i64 = dby + dbm + (dt.day - 1);
    proof {
        assert(days_before_month(dt.year as int, dt.month as int) + (dt.day - 1)
            < days_in_year(dt.year as int));
        assert(days_before_year(dt.year as int) + days_in_year(dt.year as int)
            <= days_before_year(10000));
        assert(days <= 2932896);
    }
    days * 86400 + dt.hour * 3600 + dt.minute * 60 + dt.second
}


/// The two-digit zero-padded decimal form of `n`, for `n` below 100.
pub open spec fn two_digits(n: int) -> Seq<u8> {
    seq![(48 + n / 10) as u8, (48 + n % 10) as u8]
}

/// The four-digit zero-padded decimal form of `n`, for `n` below 10000.
pub open spec fn four_digits(n: int) -> Seq<u8> {
    seq![
        (48 + n / 1000) as u8,
        (48 + (n / 100) % 10) as u8,
        (48 + (n / 10) % 10) as u8,
        (48 + n % 10) as u8,
    ]
}

/// The canonical timestamp form `YYYY-MM-DDTHH:MM:SSZ` of a date-time.
pub open spec fn ts_render(dt: DateTime) -> Seq<u8> {
    four_digits(dt.year as int) + seq![45u8] + two_digits(dt.month as int) + seq![45u8]
        + two_digits(dt.day as int) + seq![84u8] + two_digits(dt.hour as int) + seq![58u8]
        + two_digits(dt.minute as int) + seq![58u8] + two_digits(dt.second as int) + seq![90u8]
}

/// Composing two decimal digits gives back the digits.
proof fn lemma_compose2(a: int, b: int)
    requires
        0 <= a <= 9,
        0 <= b <= 9,
    ensures
        (10 * a + b) / 10 == a,
        (10 * a + b) % 10 == b,
        0 <= 10 * a + b < 100,
{
    vstd::arithmetic::div_mod::lemma_fundamental_div_mod_converse(10 * a + b, 10, a, b);
}

/// Composing four decimal digits gives back the digits.
proof fn lemma_compose4(a: int, b: int, c: int, d: int)
    requires
        0 <= a <= 9,
        0 <= b <= 9,
        0 <= c <= 9,
        0 <= d <= 9,
    ensures
        (1000 * a + 100 * b + 10 * c + d) / 1000 == a,
        ((1000 * a + 100 * b + 10 * c + d) / 100) % 10 == b,
        ((1000 * a + 100 * b + 10 * c + d) / 10) % 10 == c,
        (1000 * a + 100 * b + 10 * c + d) % 10 == d,
        0 <= 1000 * a + 100 * b + 10 * c + d < 10000,
{
    let n = 1000 * a + 100 * b + 10 * c + d;
    vstd::arithmetic::div_mod::lemma_fundamental_div_mod_converse(
        n,
        1000,
        a,
        100 * b + 10 * c + d,
    );
    vstd::arithmetic::div_mod::lemma_fundamental_div_mod_converse(
        n,
        100,
        10 * a + b,
        10 * c + d,
    );
    vstd::arithmetic::div_mod::lemma_fundamental_div_mod_converse(10 * a + b, 10, a, b);
    vstd::arithmetic::div_mod::lemma_fundamental_div_mod_converse(n, 10, 100 * a + 10 * b + c, d);
    vstd::arithmetic::div_mod::lemma_fundamental_div_mod_converse(100 * a + 10 * b + c, 10,
        10 * a + b, c);
}

/// Splitting a number below 10000 into its four digits and composing them
/// gives it back.
proof fn lemma_digits4(n: int)
    requires
        0 <= n < 10000,
    ensures
        0 <= n / 1000 <= 9,
        0 <= (n / 100) % 10 <= 9,
        0 <= (n / 10) % 10 <= 9,
        0 <= n % 10 <= 9,
        n == 1000 * (n / 1000) + 100 * ((n / 100) % 10) + 10 * ((n / 10) % 10) + n % 10,
{
    vstd::arithmetic::div_mod::lemma_fundamental_div_mod(n, 1000);
    vstd::arithmetic::div_mod::lemma_fundamental_div_mod(n % 1000, 100);
    vstd::arithmetic::div_mod::lemma_fundamental_div_mod(n % 1000 % 100, 10);
    let a = n / 1000;
    let b = (n % 1000) / 100;
    let c = (n % 1000 % 100) / 10;
    let d = n % 1000 % 100 % 10;
    lemma_compose4(a, b, c, d);
}

/// Splitting a number below 100 into its two digits and composing them
/// gives it back.
proof fn lemma_digits2(n: int)
    requires
        0 <= n < 100,
    ensures
        0 <= n / 10 <= 9,
        0 <= n % 10 <= 9,
        n == 10 * (n / 10) + n % 10,
{
    vstd::arithmetic::div_mod::lemma_fundamental_div_mod(n, 10);
}

/// The byte at each position of a rendered timestamp.
proof fn lemma_ts_render_bytes(dt: DateTime)
    ensures
        ts_render(dt).len() == 20,
        ts_render(dt)[0] == (48 + dt.year as int / 1000) as u8,
        ts_render(dt)[1] == (48 + (dt.year as int / 100) % 10) as u8,
        ts_render(dt)[2] == (48 + (dt.year as int / 10) % 10) as u8,
        ts_render(dt)[3] == (48 + dt.year as int % 10) as u8,
        ts_render(dt)[4] == 45u8,
        ts_render(dt)[5] == (48 + dt.month as int / 10) as u8,
        ts_render(dt)[6] == (48 + dt.month as int % 10) as u8,
        ts_render(dt)[7] == 45u8,
        ts_render(dt)[8] == (48 + dt.day as int / 10) as u8,
        ts_render(dt)[9] == (48 + dt.day as int % 10) as u8,
        ts_render(dt)[10] == 84u8,
        ts_render(dt)[11] == (48 + dt.hour as int / 10) as u8,
        ts_render(dt)[12] == (48 + dt.hour as int % 10) as u8,
        ts_render(dt)[13] == 58u8,
        ts_render(dt)[14] == (48 + dt.minute as int / 10) as u8,
        ts_render(dt)[15] == (48 + dt.minute as int % 10) as u8,
        ts_render(dt)[16] == 58u8,
        ts_render(dt)[17] == (48 + dt.second as int / 10) as u8,
        ts_render(dt)[18] == (48 + dt.second as int % 10) as u8,
        ts_render(dt)[19] == 90u8,
{
}

/// On a valid date-time, a rendered timestamp determines every field.
proof fn lemma_fields_from_render(dt: DateTime, s: Seq<u8>)
    requires
        valid_datetime(dt),
        s == ts_render(dt),
    ensures
        s.len() == 20,
        s[4] == 45 && s[7] == 45 && s[10] == 84 && s[13] == 58 && s[16] == 58 && s[19] == 90,
        48 <= s[0] <= 57 && 48 <= s[1] <= 57 && 48 <= s[2] <= 57 && 48 <= s[3] <= 57,
        48 <= s[5] <= 57 && 48 <= s[6] <= 57 && 48 <= s[8] <= 57 && 48 <= s[9] <= 57,
        48 <= s[11] <= 57 && 48 <= s[12] <= 57 && 48 <= s[14] <= 57 && 48 <= s[15] <= 57,
        48 <= s[17] <= 57 && 48 <= s[18] <= 57,
        dt.year as int == 1000 * (s[0] as int - 48) + 100 * (s[1] as int - 48) + 10 * (s[2] as int
            - 48) + (s[3] as int - 48),
        dt.month as int == 10 * (s[5] as int - 48) + (s[6] as int - 48),
        dt.day as int == 10 * (s[8] as int - 48) + (s[9] as int - 48),
        dt.hour as int == 10 * (s[11] as int - 48) + (s[12] as int - 48),
        dt.minute as int == 10 * (s[14] as int - 48) + (s[15] as int - 48),
        dt.second as int == 10 * (s[17] as int - 48) + (s[18] as int - 48),
{
    lemma_ts_render_bytes(dt);
    lemma_digits4(dt.year as int);
    lemma_digits2(dt.month as int);
    lemma_digits2(dt.day as int);
    lemma_digits2(dt.hour as int);
    lemma_digits2(dt.minute as int);
    lemma_digits2(dt.second as int);
}


/// A rendered timestamp is always 20 bytes.
pub proof fn lemma_ts_render_len(dt: DateTime)
    ensures
        ts_render(dt).len() == 20,
{
}

/// Two valid date-times with the same rendering mark the same second.
pub proof fn lemma_render_injective(dt1: DateTime, dt2: DateTime)
    requires
        valid_datetime(dt1),
        valid_datetime(dt2),
        ts_render(dt1) == ts_render(dt2),
    ensures
        epoch_of_datetime(dt1) == epoch_of_datetime(dt2),
{
    lemma_fields_from_render(dt1, ts_render(dt1));
    lemma_fields_from_render(dt2, ts_render(dt2));
    assert(dt1 == dt2);
}

/// Appends the two-digit form of `n`.
fn push_two_digits(v: &mut Vec<u8>, n: i64)
    requires
        0 <= n < 100,
    ensures
        final(v)@ == old(v)@ + two_digits(n as int),
{
    v.push(48 + ((n / 10) as u8));
    v.push(48 + ((n % 10) as u8));
    proof {
        assert(v@ =~= old(v)@ + two_digits(n as int));
    }
}

/// Appends the four-digit form of `n`.
fn push_four_digits(v: &mut Vec<u8>, n: i64)
    requires
        0 <= n < 10000,
    ensures
        final(v)@ == old(v)@ + four_digits(n as int),
{
    v.push(48 + ((n / 1000) as u8));
    v.push(48 + (((n / 100) % 10) as u8));
    v.push(48 + (((n / 10) % 10) as u8));
    v.push(48 + ((n % 10) as u8));
    proof {
        assert(v@ =~= old(v)@ + four_digits(n as int));
    }
}

/// Renders a second count in the canonical `YYYY-MM-DDTHH:MM:SSZ` form.
pub fn render_timestamp(e: i64) -> (r: Vec<u8>)
    requires
        0 <= e <= MAX_EPOCH,
    ensures
        r@.len() == 20,
        exists|dt: DateTime|
            valid_datetime(dt) && epoch_of_datetime(dt) == e && r@ == ts_render(dt),
{
    let dt = datetime_of_epoch(e);
    let mut v: Vec<u8> = Vec::new();
    push_four_digits(&mut v, dt.year);
    v.push(45);
    push_two_digits(&mut v, dt.month);
    v.push(45);
    push_two_digits(&mut v, dt.day);
    v.push(84);
    push_two_digits(&mut v, dt.hour);
    v.push(58);
    push_two_digits(&mut v, dt.minute);
    v.push(58);
    push_two_digits(&mut v, dt.second);
    v.push(90);
    proof {
        assert(v@ =~= ts_render(dt));
    }
    v
}

/// Reads a canonical `YYYY-MM-DDTHH:MM:SSZ` timestamp back into its second
/// count. Succeeds exactly on the strings that `ts_render` gives some valid
/// date-time of the supported range.
pub fn parse_timestamp(s: &Vec<u8>) -> (r: Option<i64>)
    ensures
        match r {
            Some(e) => 0 <= e <= MAX_EPOCH && exists|dt: DateTime|
                valid_datetime(dt) && epoch_of_datetime(dt) == e && s@ == ts_render(dt),
            None => forall|dt: DateTime| valid_datetime(dt) ==> s@ != ts_render(dt),
        },
{
    if s.len() != 20 {
        proof {
            assert forall|dt: DateTime| valid_datetime(dt) implies s@ != ts_render(dt) by {
                lemma_ts_render_bytes(dt);
            }
        }
        return None;
    }
    if s[4] != 45 || s[7] != 45 || s[10] != 84 || s[13] != 58 || s[16] != 58 || s[19] != 90 {
        proof {
            assert forall|dt: DateTime| valid_datetime(dt) implies s@ != ts_render(dt) by {
                if s@ == ts_render(dt) {
                    lemma_fields_from_render(dt, s@);
                }
            }
        }
        return None;
    }
    let digits_ok = is_digit(s[0]) && is_digit(s[1]) && is_digit(s[2]) && is_digit(s[3])
        && is_digit(s[5]) && is_digit(s[6]) && is_digit(s[8]) && is_digit(s[9]) && is_digit(s[11])
        && is_digit(s[12]) && is_digit(s[14]) && is_digit(s[15]) && is_digit(s[17]) && is_digit(
        s[18],
    );
    if !digits_ok {
        proof {
            assert forall|dt: DateTime| valid_datetime(dt) implies s@ != ts_render(dt) by {
                if s@ == ts_render(dt) {
                    lemma_fields_from_render(dt, s@);
                }
            }
        }
        return None;
    }
    let year: i64 = 1000 * ((s[0] - 48) as i64) + 100 * ((s[1] - 48) as i64) + 10 * ((s[2]
        - 48) as i64) + ((s[3] - 48) as i64);
    let month: i64 = 10 * ((s[5] - 48) as i64) + ((s[6] - 48) as i64);
    let day: i64 = 10 * ((s[8] - 48) as i64) + ((s[9] - 48) as i64);
    let hour: i64 = 10 * ((s[11] - 48) as i64) + ((s[12] - 48) as i64);
    let minute: i64 = 10 * ((s[14] - 48) as i64) + ((s[15] - 48) as i64);
    let second: i64 = 10 * ((s[17] - 48) as i64) + ((s[18] - 48) as i64);
    if year < 1970 || month < 1 || month > 12 || hour > 23 || minute > 59 || second > 59 {
        proof {
            assert forall|dt: DateTime| valid_datetime(dt) implies s@ != ts_render(dt) by {
                if s@ == ts_render(dt) {
                    lemma_fields_from_render(dt, s@);
                }
            }
        }
        return None;
    }
    let dim = days_in_month_x(year, month);
    if day < 1 || day > dim {
        proof {
            assert forall|dt: DateTime| valid_datetime(dt) implies s@ != ts_render(dt) by {
                if s@ == ts_render(dt) {
                    lemma_fields_from_render(dt, s@);
                }
            }
        }
        return None;
    }
    let dt = DateTime { year, month, day, hour, minute, second };
    let e = epoch_seconds(&dt);
    proof {
        lemma_compose4(
            s@[0] as int - 48,
            s@[1] as int - 48,
            s@[2] as int - 48,
            s@[3] as int - 48,
        );
        lemma_compose2(s@[5] as int - 48, s@[6] as int - 48);
        lemma_compose2(s@[8] as int - 48, s@[9] as int - 48);
        lemma_compose2(s@[11] as int - 48, s@[12] as int - 48);
        lemma_compose2(s@[14] as int - 48, s@[15] as int - 48);
        lemma_compose2(s@[17] as int - 48, s@[18] as int - 48);
        lemma_ts_render_bytes(dt);
        assert(s@ =~= ts_render(dt));
    }
    Some(e)
}

/// A decimal digit byte.
fn is_digit(b: u8) -> (r: bool)
    ensures
        r == (48 <= b <= 57),
{
    48 <= b && b <= 57
}

} // verus!

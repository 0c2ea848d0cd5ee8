//! Calendar arithmetic and timestamp rendering (`YYYY-MM-DD HH:MM:SS`, UTC).

use vstd::prelude::*;
use crate::text::{dec, dec_chars, pad_left_vec, pad_left_with, string_of};

verus! {

/// Gregorian leap year.
pub open spec fn is_leap_spec(y: int) -> bool {
    (y % 4 == 0 && y % 100 != 0) || y % 400 == 0
}

/// Number of days of year `y`.
pub open spec fn year_len(y: int) -> int {
    if is_leap_spec(y) {
        366
    } else {
        365
    }
}

/// Days from 1970-01-01 to the first day of year `y` (negative before 1970).
pub open spec fn days_before_year(y: int) -> int
    decreases (if y >= 1970 { y - 1970 } else { 1970 - y }),
{
    if y == 1970 {
        0
    } else if y > 1970 {
        days_before_year(y - 1) + year_len(y - 1)
    } else {
        days_before_year(y + 1) - year_len(y)
    }
}

/// Days of the months before month `m` (1-based, up to 13) in year `y`.
pub open spec fn days_before_month(y: int, m: int) -> int {
    let base: int = if m <= 1 {
        0
    } else if m == 2 {
        31
    } else if m == 3 {
        59
    } else if m == 4 {
        90
    } else if m == 5 {
        120
    } else if m == 6 {
        151
    } else if m == 7 {
        181
    } else if m == 8 {
        212
    } else if m == 9 {
        243
    } else if m == 10 {
        273
    } else if m == 11 {
        304
    } else if m == 12 {
        334
    } else {
        365
    };
    base + if m > 2 && is_leap_spec(y) {
        1int
    } else {
        0int
    }
}

/// Length of month `m` (1-based) of year `y`.
pub open spec fn month_len(y: int, m: int) -> int {
    days_before_month(y, m + 1) - days_before_month(y, m)
}

/// `(y, m, d)` is a calendar date.
pub open spec fn valid_date(y: int, m: int, d: int) -> bool {
    1 <= m <= 12 && 1 <= d <= month_len(y, m)
}

/// Day number (days since 1970-01-01) of the date `(y, m, d)`.
pub open spec fn day_number(y: int, m: int, d: int) -> int {
    days_before_year(y) + days_before_month(y, m) + d - 1
}

/// Two-digit, zero-padded decimal text.
pub open spec fn two(n: nat) -> Seq<char> {
    pad_left_with(dec(n), 2, '0')
}

/// `{:04}` text of a signed year: the sign, then digits zero-padded so that
/// the whole is at least four characters.
pub open spec fn year_text(y: int) -> Seq<char> {
    if y < 0 {
        seq!['-'] + pad_left_with(dec((-y) as nat), 3, '0')
    } else {
        pad_left_with(dec(y as nat), 4, '0')
    }
}

/// `YYYY-MM-DD HH:MM:SS` built from its six fields.
pub open spec fn stamp(y: int, mo: nat, d: nat, h: nat, mi: nat, s: nat) -> Seq<char> {
    year_text(y) + seq!['-'] + two(mo) + seq!['-'] + two(d) + seq![' '] + two(h) + seq![':'] + two(mi) + seq![':']
        + two(s)
}

/// Quotient of `a / b` rounded toward zero (Rust integer division).
pub open spec fn tdiv(a: int, b: int) -> int {
    if a >= 0 {
        a / b
    } else {
        -((-a) / b)
    }
}

proof fn lemma_dby_step(y: int)
    ensures
        days_before_year(y + 1) == days_before_year(y) + year_len(y),
{
    if y >= 1970 {
    } else if y + 1 == 1970 {
        assert(days_before_year(y) == days_before_year(y + 1) - year_len(y));
    } else {
    }
}

proof fn lemma_dby_mono(a: int, b: int)
    requires
        a < b,
    ensures
        days_before_year(a) + year_len(a) <= days_before_year(b),
    decreases b - a,
{
    lemma_dby_step(a);
    if a + 1 < b {
        lemma_dby_mono(a + 1, b);
        lemma_dby_step(a + 1);
    }
}

/// Day numbers name dates uniquely.
pub proof fn lemma_day_number_unique(y1: int, m1: int, d1: int, y2: int, m2: int, d2: int)
    requires
        valid_date(y1, m1, d1),
        valid_date(y2, m2, d2),
        day_number(y1, m1, d1) == day_number(y2, m2, d2),
    ensures
        y1 == y2 && m1 == m2 && d1 == d2,
{
    assert(days_before_month(y1, m1) + d1 - 1 < year_len(y1)) by {
        lemma_month_bounds(y1, m1);
    }
    assert(days_before_month(y2, m2) + d2 - 1 < year_len(y2)) by {
        lemma_month_bounds(y2, m2);
    }
    if y1 < y2 {
        lemma_dby_mono(y1, y2);
        assert(false);
    } else if y2 < y1 {
        lemma_dby_mono(y2, y1);
        assert(false);
    }
    lemma_month_bounds(y1, m1);
    lemma_month_bounds(y1, m2);
    if m1 < m2 {
        lemma_dbm_mono(y1, m1 + 1, m2);
        assert(false);
    } else if m2 < m1 {
        lemma_dbm_mono(y1, m2 + 1, m1);
        assert(false);
    }
}

proof fn lemma_month_bounds(y: int, m: int)
    requires
        1 <= m <= 12,
    ensures
        days_before_month(y, m) + month_len(y, m) <= year_len(y),
        month_len(y, m) >= 28,
        days_before_month(y, m) >= 0,
        days_before_month(y, 13) == year_len(y),
{
}

proof fn lemma_dbm_mono(y: int, a: int, b: int)
    requires
        1 <= a <= b <= 13,
    ensures
        days_before_month(y, a) <= days_before_month(y, b),
{
}

/// Leap-year rule of the Gregorian calendar.
pub fn is_leap(y: i64) -> (r: bool)
    ensures
        r == is_leap_spec(y as int),
{
    let m: u64 = if y >= 0 {
        y as u64
    } else if y == i64::MIN {
        9223372036854775808u64
    } else {
        (-y) as u64
    };
    proof {
        lemma_divisible_abs(y as int, m as int, 4);
        lemma_divisible_abs(y as int, m as int, 100);
        lemma_divisible_abs(y as int, m as int, 400);
    }
    (m % 4 == 0 && m % 100 != 0) || m % 400 == 0
}

proof fn lemma_divisible_abs(y: int, m: int, k: int)
    requires
        k > 0,
        m == y || m == -y,
    ensures
        (y % k == 0) == (m % k == 0),
{
    if m == -y && y != 0 {
        vstd::arithmetic::div_mod::lemma_fundamental_div_mod(y, k);
        vstd::arithmetic::div_mod::lemma_fundamental_div_mod(m, k);
        if y % k == 0 {
            let q = y / k;
            assert(m == k * (-q)) by (nonlinear_arith)
                requires
                    m == -y,
                    y == k * q + y % k,
                    y % k == 0,
            ;
            assert(m % k == 0) by (nonlinear_arith)
                requires
                    m == k * (-q),
                    k > 0,
            ;
        }
        if m % k == 0 {
            let q = m / k;
            assert(y == k * (-q)) by (nonlinear_arith)
                requires
                    m == -y,
                    m == k * q + m % k,
                    m % k == 0,
            ;
            assert(y % k == 0) by (nonlinear_arith)
                requires
                    y == k * (-q),
                    k > 0,
            ;
        }
    }
}

fn two_digits(n: u64) -> (r: Vec<char>)
    ensures
        r@ == two(n as nat),
{
    let d = dec_chars(n);
    pad_left_vec(d.as_slice(), 2, '0')
}

fn year_digits(y: i64) -> (r: Vec<char>)
    ensures
        r@ == year_text(y as int),
{
    if y < 0 {
        let m: u64 = if y == i64::MIN {
            9223372036854775808u64
        } else {
            (-y) as u64
        };
        let d = dec_chars(m);
        let p = pad_left_vec(d.as_slice(), 3, '0');
        let mut r: Vec<char> = Vec::new();
        r.push('-');
        let mut i: usize = 0;
        while i < p.len()
            invariant
                i <= p.len(),
                r@ == seq!['-'] + p@.subrange(0, i as int),
            decreases p.len() - i,
        {
            r.push(p[i]);
            i += 1;
        }
        assert(p@.subrange(0, p.len() as int) =~= p@);
        r
    } else {
        let d = dec_chars(y as u64);
        pad_left_vec(d.as_slice(), 4, '0')
    }
}

fn append(r: &mut Vec<char>, s: &Vec<char>)
    ensures
        final(r)@ == old(r)@ + s@,
{
    let mut i: usize = 0;
    while i < s.len()
        invariant
            i <= s.len(),
            r@ == old(r)@ + s@.subrange(0, i as int),
        decreases s.len() - i,
    {
        r.push(s[i]);
        i += 1;
    }
    assert(s@.subrange(0, s.len() as int) =~= s@);
}

fn render(y: i64, mo: u64, d: u64, h: u64, mi: u64, s: u64) -> (r: String)
    ensures
        r@ == stamp(y as int, mo as nat, d as nat, h as nat, mi as nat, s as nat),
{
    let mut v = year_digits(y);
    v.push('-');
    append(&mut v, &two_digits(mo));
    v.push('-');
    append(&mut v, &two_digits(d));
    v.push(' ');
    append(&mut v, &two_digits(h));
    v.push(':');
    append(&mut v, &two_digits(mi));
    v.push(':');
    append(&mut v, &two_digits(s));
    assert(v@ =~= stamp(y as int, mo as nat, d as nat, h as nat, mi as nat, s as nat));
    string_of(v.as_slice())
}

fn year_days(y: i64) -> (r: i64)
    ensures
        r == year_len(y as int),
{
    if is_leap(y) {
        366
    } else {
        365
    }
}

fn month_days(y: i64, mo: u64) -> (r: i64)
    requires
        1 <= mo <= 12,
    ensures
        r == month_len(y as int, mo as int),
{
    if mo == 2 {
        if is_leap(y) {
            29
        } else {
            28
        }
    } else if mo == 4 || mo == 6 || mo == 9 || mo == 11 {
        30
    } else {
        31
    }
}

/// Finds the date of a non-negative day number: returns `(y, m, d)`.
fn civil_forward(days: i64) -> (r: (i64, u64, u64))
    requires
        0 <= days <= 0x1_0000_0000_0000,
    ensures
        valid_date(r.0 as int, r.1 as int, r.2 as int),
        day_number(r.0 as int, r.1 as int, r.2 as int) == days,
        1970 <= r.0 <= 1970 + days,
{
    let mut y: i64 = 1970;
    let mut d: i64 = days;
    while d >= year_days(y)
        invariant
            0 <= d <= days,
            days <= 0x1_0000_0000_0000,
            1970 <= y <= 1970 + (days - d),
            days_before_year(y as int) + d == days,
        decreases d,
    {
        proof {
            lemma_dby_step(y as int);
        }
        d -= year_days(y);
        y += 1;
    }
    let ghost yl = year_len(y as int);
    let mut mo: u64 = 1;
    while d >= month_days(y, mo)
        invariant
            1 <= mo <= 12,
            0 <= d,
            days_before_month(y as int, mo as int) + d == days - days_before_year(y as int),
            d < yl - days_before_month(y as int, mo as int),
            yl == year_len(y as int),
        decreases 12 - mo,
    {
        proof {
            lemma_month_bounds(y as int, mo as int);
        }
        d -= month_days(y, mo);
        mo += 1;
    }
    (y, mo, (d + 1) as u64)
}

/// A point in time of the system clock.
#[verifier::external_type_specification]
#[verifier::external_body]
pub struct ExSystemTime(std::time::SystemTime);

/// Why a time lies before another.
#[verifier::external_type_specification]
#[verifier::external_body]
pub struct ExSystemTimeError(std::time::SystemTimeError);

/// Calls `SystemTime::now`: the clock's current time (nothing is known of
/// it).
#[verifier::external_body]
fn system_now() -> std::time::SystemTime {
    std::time::SystemTime::now()
}

/// Calls `SystemTime::duration_since` with the Unix epoch: the time since
/// it, or an error when `t` is before it (nothing more is stated).
#[verifier::external_body]
fn since_epoch(t: &std::time::SystemTime) -> Result<std::time::Duration, std::time::SystemTimeError> {
    t.duration_since(std::time::UNIX_EPOCH)
}

/// Calls `Duration::as_secs`: the whole seconds of `d` (nothing more is
/// stated).
#[verifier::external_body]
fn whole_secs(d: &std::time::Duration) -> u64 {
    d.as_secs()
}

/// Current time as seconds since the Unix epoch (0 if the clock is before it).
fn unix_now_secs() -> u64 {
    let now = system_now();
    match since_epoch(&now) {
        Ok(d) => whole_secs(&d),
        Err(_) => 0,
    }
}

/// Renders seconds since the Unix epoch as `YYYY-MM-DD HH:MM:SS` (UTC).
pub fn format_unix(secs: u64) -> (r: String)
    ensures
        exists|y: int, m: int, d: int|
            valid_date(y, m, d) && day_number(y, m, d) == secs / 86400 && r@ == stamp(
                y,
                m as nat,
                d as nat,
                ((secs % 86400) / 3600) as nat,
                ((secs % 86400) % 3600 / 60) as nat,
                (secs % 60) as nat,
            ),
{
    let days = secs / 86400;
    let remaining = secs % 86400;
    let h = remaining / 3600;
    let m = (remaining % 3600) / 60;
    let s = remaining % 60;
    assert(s == secs % 60) by (nonlinear_arith)
        requires
            remaining == secs % 86400,
            s == remaining % 60,
    ;
    let (y, mo, d) = civil_forward(days as i64);
    render(y, mo, d, h, m, s)
}

/// Current UTC time as `YYYY-MM-DD HH:MM:SS`.
pub fn chrono_now() -> (r: String)
    ensures
        exists|secs: u64| #[trigger] format_unix_spec(secs, r@),
{
    let secs = unix_now_secs();
    let r = format_unix(secs);
    assert(format_unix_spec(secs, r@));
    r
}

/// Current UTC time as `YYYY-MM-DD HH:MM:SS`.
pub fn now_str() -> (r: String)
    ensures
        exists|secs: u64| #[trigger] format_unix_spec(secs, r@),
{
    chrono_now()
}

/// `text` is what [`format_unix`] renders for `secs`.
pub open spec fn format_unix_spec(secs: u64, text: Seq<char>) -> bool {
    exists|y: int, m: int, d: int|
        valid_date(y, m, d) && day_number(y, m, d) == secs / 86400 && text == stamp(
            y,
            m as nat,
            d as nat,
            ((secs % 86400) / 3600) as nat,
            ((secs % 86400) % 3600 / 60) as nat,
            (secs % 60) as nat,
        )
}

/// What [`format_timestamp`] renders for `secs`: the UTC civil date and
/// time of that second, the day number and the time of day taken by floor
/// division (so one second before the epoch is `1969-12-31 23:59:59`).
pub open spec fn timestamp_spec(secs: int, text: Seq<char>) -> bool {
    let days = secs / 86400;
    let tod = secs % 86400;
    exists|y: int, m: int, d: int|
        valid_date(y, m, d) && day_number(y, m, d) == days && text == stamp(
            y,
            m as nat,
            d as nat,
            (tod / 3600) as nat,
            (tod % 3600 / 60) as nat,
            (tod % 60) as nat,
        )
}

fn div_t(a: i64, b: i64) -> (r: i64)
    requires
        b > 0,
    ensures
        r == tdiv(a as int, b as int),
{
    if a >= 0 {
        ((a as u64) / (b as u64)) as i64
    } else {
        let m: u64 = if a == i64::MIN {
            9223372036854775808u64
        } else {
            (-a) as u64
        };
        let q = m / (b as u64);
        assert(q <= m) by (nonlinear_arith)
            requires
                q == m / (b as u64),
                b > 0,
        ;
        assert(q <= 9223372036854775808u64);
        if q == 9223372036854775808u64 {
            i64::MIN
        } else {
            -(q as i64)
        }
    }
}

/// Finds the date of a negative day number.
fn civil_backward(days: i64) -> (r: (i64, u64, u64))
    requires
        -0x1_0000_0000_0000 <= days < 0,
    ensures
        valid_date(r.0 as int, r.1 as int, r.2 as int),
        day_number(r.0 as int, r.1 as int, r.2 as int) == days,
{
    let mut d: i64 = -days - 1;
    let mut year: i64 = 1969;
    proof {
        lemma_dby_step(1969);
    }
    while d >= year_days(year)
        invariant
            0 <= d <= -days - 1,
            days >= -0x1_0000_0000_0000,
            1970 - (-days - d) <= year <= 1969,
            days == days_before_year(year as int) + year_len(year as int) - 1 - d,
        decreases d,
    {
        proof {
            lemma_dby_step(year - 1);
        }
        d -= year_days(year);
        year -= 1;
    }
    let ghost doy = year_len(year as int) - 1 - d;
    let mut mo: u64 = 12;
    proof {
        lemma_month_bounds(year as int, 12);
    }
    while d >= month_days(year, mo)
        invariant
            1 <= mo <= 12,
            0 <= d,
            doy == days_before_month(year as int, mo + 1) - 1 - d,
            0 <= doy,
        decreases mo,
    {
        d -= month_days(year, mo);
        mo -= 1;
    }
    let len = month_days(year, mo);
    (year, mo, (len - d) as u64)
}

/// Day number and time of day of `secs` by floor division.
fn floor_split(secs: i64) -> (r: (i64, u64))
    ensures
        r.0 == secs as int / 86400,
        r.1 == secs as int % 86400,
{
    let q = div_t(secs, 86400);
    let ghost a = secs as int;
    proof {
        if a >= 0 {
            assert(a - 86400 * (a / 86400) == a % 86400) by (nonlinear_arith);
            assert(0 <= a % 86400 < 86400);
        } else {
            let m = -a;
            assert(m - 86400 * (m / 86400) == m % 86400) by (nonlinear_arith);
            assert(0 <= m % 86400 < 86400);
            assert(a - 86400 * q == -(m % 86400)) by (nonlinear_arith)
                requires
                    m == -a,
                    q == -(m / 86400),
                    m - 86400 * (m / 86400) == m % 86400,
            ;
        }
        assert(-86400 < a - 86400 * q < 86400);
        assert(-0x1_0000_0000_0000 <= q <= 0x1_0000_0000_0000) by (nonlinear_arith)
            requires
                -86400 < a - 86400 * q < 86400,
                i64::MIN <= a <= i64::MAX,
        ;
    }
    let rem: i128 = secs as i128 - (q as i128) * 86400;
    if rem < 0 {
        proof {
            vstd::arithmetic::div_mod::lemma_fundamental_div_mod_converse(a, 86400, q - 1, rem + 86400);
        }
        (q - 1, (rem + 86400) as u64)
    } else {
        proof {
            vstd::arithmetic::div_mod::lemma_fundamental_div_mod_converse(a, 86400, q as int, rem as int);
        }
        (q, rem as u64)
    }
}

/// Renders seconds since the Unix epoch (possibly negative) as the UTC
/// civil time `YYYY-MM-DD HH:MM:SS`.
pub fn format_timestamp(secs: i64) -> (r: String)
    ensures
        timestamp_spec(secs as int, r@),
{
    let (days, tod) = floor_split(secs);
    let hour = tod / 3600;
    let min = tod % 3600 / 60;
    let sec = tod % 60;
    assert(-0x1_0000_0000_0000 <= days <= 0x1_0000_0000_0000) by (nonlinear_arith)
        requires
            days == secs as int / 86400,
            i64::MIN <= secs <= i64::MAX,
    ;
    if days >= 0 {
        let (y, mo, d) = civil_forward(days);
        render(y, mo, d, hour, min, sec)
    } else {
        let (y, mo, d) = civil_backward(days);
        render(y, mo, d, hour, min, sec)
    }
}

} // verus!

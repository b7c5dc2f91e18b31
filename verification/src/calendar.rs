//! Proleptic Gregorian calendar arithmetic: the civil date of a day count
//! and the UTC rendering of an epoch timestamp.
use crate::outside::{system_time_now, whole_seconds_since_epoch};
use crate::text::{decimal, push_decimal};
use vstd::prelude::*;

verus! {

/// `y` is a leap year of the proleptic Gregorian calendar.
pub open spec fn is_leap_year(y: int) -> bool {
    y % 4 == 0 && (y % 100 != 0 || y % 400 == 0)
}

/// 1 for a leap year, 0 otherwise.
pub open spec fn leap_day(y: int) -> int {
    if is_leap_year(y) {
        1
    } else {
        0
    }
}

/// Number of days in month `m` (1-based) of year `y`.
pub open spec fn days_in_month(y: int, m: int) -> int {
    if m == 2 {
        28 + leap_day(y)
    } else if m == 4 || m == 6 || m == 9 || m == 11 {
        30
    } else {
        31
    }
}

/// Days in the months of year `y` that come before month `m`.
pub open spec fn days_before_month(y: int, m: int) -> int
    decreases m,
{
    if m <= 1 {
        0
    } else {
        days_before_month(y, m - 1) + days_in_month(y, m - 1)
    }
}

/// Days from 0000-01-01 to the first day of year `y` (negative for years
/// before it): 365 per year plus one per leap year in between.
pub open spec fn days_before_year(y: int) -> int {
    365 * y + (y + 3) / 4 - (y + 99) / 100 + (y + 399) / 400
}

/// Days from 1970-01-01 to the date `y-m-d`.
pub open spec fn days_from_civil(y: int, m: int, d: int) -> int {
    days_before_year(y) - days_before_year(1970) + days_before_month(y, m) + d - 1
}

/// `y-m-d` is a date of the calendar.
pub open spec fn valid_date(y: int, m: int, d: int) -> bool {
    1 <= m <= 12 && 1 <= d <= days_in_month(y, m)
}

/// Consecutive years start 365 days apart, or 366 after a leap year.
pub proof fn lemma_days_before_year_step(y: int)
    ensures
        days_before_year(y + 1) == days_before_year(y) + 365 + leap_day(y),
        days_before_year(0) == 0,
{
    lemma_div_succ(y + 3, 4);
    lemma_div_succ(y + 99, 100);
    lemma_div_succ(y + 399, 400);
    assert((y + 4) % 4 == 0 <==> y % 4 == 0);
    assert((y + 100) % 100 == 0 <==> y % 100 == 0);
    assert((y + 400) % 400 == 0 <==> y % 400 == 0);
}

proof fn lemma_div_succ(x: int, k: int)
    requires
        k > 0,
    ensures
        (x + 1) / k == x / k + (if (x + 1) % k == 0 {
            1int
        } else {
            0int
        }),
{
    let q = x / k;
    let r = x % k;
    vstd::arithmetic::div_mod::lemma_fundamental_div_mod(x, k);
    vstd::arithmetic::div_mod::lemma_mod_bound(x, k);
    if r + 1 < k {
        assert(q * k == k * q) by (nonlinear_arith);
        vstd::arithmetic::div_mod::lemma_fundamental_div_mod_converse(x + 1, k, q, r + 1);
    } else {
        assert((q + 1) * k == k * q + k) by (nonlinear_arith);
        vstd::arithmetic::div_mod::lemma_fundamental_div_mod_converse(x + 1, k, q + 1, 0);
    }
}

proof fn lemma_year_of_era(doe: u32)
    by (bit_vector)
    requires
        doe < 146097,
    ensures
        doe / 1460 <= doe,
        doe / 146096 <= doe - doe / 1460 + doe / 36524,
        ({
            let yoe = (doe - doe / 1460 + doe / 36524 - doe / 146096) / 365;
            &&& 365 * yoe + yoe / 4 - yoe / 100 <= doe
            &&& doe < 365 * (yoe + 1) + (yoe + 1) / 4 - (yoe + 1) / 100 + (yoe + 1) / 400
            &&& yoe < 400
            &&& doe - (365 * yoe + yoe / 4 - yoe / 100) <= 365
        }),
{
}

proof fn lemma_month_of_year(doy: u32)
    by (bit_vector)
    requires
        doy <= 365,
    ensures
        ({
            let mp = (5 * doy + 2) / 153;
            &&& mp <= 11
            &&& (153 * mp + 2) / 5 <= doy
            &&& (mp < 11 ==> doy < (153 * (mp + 1) + 2) / 5)
        }),
{
}

proof fn lemma_march_year_start(t: u32)
    by (bit_vector)
    requires
        t < 400,
    ensures
        (t % 4 == 0u32 && (t % 100 != 0u32 || t % 400 == 0u32)) ==> (t + 3) / 4 + (t + 399) / 400
            + 1 + t / 100 == t / 4 + t / 400 + 1 + (t + 99) / 100,
        !(t % 4 == 0u32 && (t % 100 != 0u32 || t % 400 == 0u32)) ==> (t + 3) / 4 + (t + 399) / 400
            + t / 100 == t / 4 + t / 400 + 1 + (t + 99) / 100,
{
}

proof fn lemma_march_year_length(t: u32, s: u32)
    by (bit_vector)
    requires
        t < 400,
        s == t + 1,
    ensures
        (s % 4 == 0u32 && (s % 100 != 0u32 || s % 400 == 0u32)) ==> s / 4 + t / 100 + s / 400 == t
            / 4 + s / 100 + t / 400 + 1,
        !(s % 4 == 0u32 && (s % 100 != 0u32 || s % 400 == 0u32)) ==> s / 4 + t / 100 + s / 400
            == t / 4 + s / 100 + t / 400,
{
}

/// Days from March 1 of year 0 of a 400-year era to March 1 of its year `t`.
spec fn era_year_start(t: int) -> int {
    365 * t + t / 4 - t / 100 + t / 400
}

/// Days from March 1 to the first day of the `mp`-th month counted from
/// March (0 for March, 11 for February).
spec fn march_month_start(mp: int) -> int {
    (153 * mp + 2) / 5
}

proof fn lemma_div_shift(j: int, x: int, k: int)
    requires
        k > 0,
    ensures
        (k * j + x) / k == j + x / k,
        (k * j + x) % k == x % k,
{
    vstd::arithmetic::div_mod::lemma_fundamental_div_mod(x, k);
    vstd::arithmetic::div_mod::lemma_mod_bound(x, k);
    let q = x / k;
    let r = x % k;
    assert(k * j + x == (j + q) * k + r) by (nonlinear_arith)
        requires
            x == k * q + r,
    ;
    vstd::arithmetic::div_mod::lemma_fundamental_div_mod_converse(k * j + x, k, j + q, r);
}

proof fn lemma_era_shift(e: int, t: int)
    ensures
        days_before_year(400 * e + t) == 146097 * e + days_before_year(t),
        leap_day(400 * e + t) == leap_day(t),
{
    lemma_div_shift(100 * e, t + 3, 4);
    lemma_div_shift(4 * e, t + 99, 100);
    lemma_div_shift(e, t + 399, 400);
    lemma_div_shift(100 * e, t, 4);
    lemma_div_shift(4 * e, t, 100);
    lemma_div_shift(e, t, 400);
    assert(4 * (100 * e) + (t + 3) == 400 * e + t + 3);
    assert(100 * (4 * e) + (t + 99) == 400 * e + t + 99);
    assert(4 * (100 * e) + t == 400 * e + t);
    assert(100 * (4 * e) + t == 400 * e + t);
}

proof fn lemma_months_from_march(y: int)
    ensures
        days_before_month(y, 1) == 0,
        days_before_month(y, 2) == 31,
        forall|m: int| 3 <= m <= 12 ==> #[trigger] days_before_month(y, m) == 59 + leap_day(y) + march_month_start(m - 3),
{
    reveal_with_fuel(days_before_month, 13);
    assert(march_month_start(0) == 0);
    assert(march_month_start(1) == 31);
    assert(march_month_start(2) == 61);
    assert(march_month_start(3) == 92);
    assert(march_month_start(4) == 122);
    assert(march_month_start(5) == 153);
    assert(march_month_start(6) == 184);
    assert(march_month_start(7) == 214);
    assert(march_month_start(8) == 245);
    assert(march_month_start(9) == 275);
}

/// The day `doe` of a 400-year era `e`, already split into its year `t`
/// (counted from March), day of that year `doy`, month `mp` (counted from
/// March) and day of month `d`, is the civil date built from them.
proof fn lemma_civil_of_era_day(e: int, t: u32, doe: int, doy: u32, mp: u32, d: int)
    requires
        t < 400,
        era_year_start(t as int) <= doe < era_year_start(t + 1),
        doy == doe - era_year_start(t as int),
        mp <= 11,
        march_month_start(mp as int) <= doy,
        mp < 11 ==> doy < march_month_start(mp + 1),
        d == doy - march_month_start(mp as int) + 1,
    ensures
        ({
            let m = if mp < 10 { mp + 3 } else { mp - 9 };
            let y = 400 * e + t + (if m <= 2 { 1int } else { 0int });
            valid_date(y, m as int, d) && days_from_civil(y, m as int, d) == 146097 * e + doe - 719468
        }),
{
    let ti = t as int;
    let big_y = 400 * e + ti;
    lemma_march_year_start(t);
    lemma_march_year_length(t, (t + 1) as u32);
    lemma_era_shift(e, ti);
    lemma_era_shift(e, ti + 1);
    lemma_days_before_year_step(big_y);
    lemma_months_from_march(big_y);
    lemma_months_from_march(big_y + 1);
    assert(t / 400 == 0);
    assert(days_before_year(1970) == 719528);
    assert(days_before_year(ti) + leap_day(ti) == era_year_start(ti) + 1);
    assert(era_year_start(ti + 1) - era_year_start(ti) == 365 + leap_day(ti + 1));
    assert(march_month_start(10) == 306);
    assert(march_month_start(11) == 337);
    assert(march_month_start(0) == 0);
    assert(march_month_start(1) == 31);
    assert(march_month_start(2) == 61);
    assert(march_month_start(3) == 92);
    assert(march_month_start(4) == 122);
    assert(march_month_start(5) == 153);
    assert(march_month_start(6) == 184);
    assert(march_month_start(7) == 214);
    assert(march_month_start(8) == 245);
    assert(march_month_start(9) == 275);
}

/// The civil date (year, month, day) of the day `z` days after 1970-01-01.
pub fn civil_from_days(z: i64) -> (r: (i64, u32, u32))
    requires
        z <= i64::MAX - 719468,
    ensures
        valid_date(r.0 as int, r.1 as int, r.2 as int),
        days_from_civil(r.0 as int, r.1 as int, r.2 as int) == z,
{
    let zp: i64 = z + 719468;
    let era: i64 = if zp >= 0 {
        (zp as u64 / 146097) as i64
    } else {
        let q = ((-(zp + 1)) as u64 / 146097) as i64;
        -q - 1
    };
    assert(0 <= zp - 146097 * era < 146097);
    let doe: u32 = (zp - era * 146097) as u32;
    proof {
        lemma_year_of_era(doe);
    }
    let yoe: u32 = (doe - doe / 1460 + doe / 36524 - doe / 146096) / 365;
    let doy: u32 = doe - (365 * yoe + yoe / 4 - yoe / 100);
    proof {
        lemma_month_of_year(doy);
    }
    let mp: u32 = (5 * doy + 2) / 153;
    let d: u32 = doy - (153 * mp + 2) / 5 + 1;
    let m: u32 = if mp < 10 {
        mp + 3
    } else {
        mp - 9
    };
    let mut y: i64 = yoe as i64 + era * 400;
    if m <= 2 {
        y = y + 1;
    }
    proof {
        assert(yoe / 400 == 0);
        lemma_civil_of_era_day(era as int, yoe, doe as int, doy, mp, d as int);
    }
    (y, m, d)
}

proof fn lemma_months_increase(y: int, m1: int, m2: int)
    requires
        1 <= m1 < m2,
    ensures
        days_before_month(y, m1) + days_in_month(y, m1) <= days_before_month(y, m2),
    decreases m2 - m1,
{
    if m2 > m1 + 1 {
        lemma_months_increase(y, m1, m2 - 1);
        assert(days_in_month(y, m2 - 1) > 0);
    }
}

proof fn lemma_year_length(y: int)
    ensures
        days_before_month(y, 13) == 365 + leap_day(y),
{
    reveal_with_fuel(days_before_month, 13);
}

proof fn lemma_years_increase(y1: int, y2: int)
    requires
        y1 < y2,
    ensures
        days_before_year(y1) + 365 + leap_day(y1) <= days_before_year(y2),
    decreases y2 - y1,
{
    lemma_days_before_year_step(y1);
    if y2 > y1 + 1 {
        lemma_years_increase(y1 + 1, y2);
    }
}

proof fn lemma_day_of_year_bounds(y: int, m: int, d: int)
    requires
        valid_date(y, m, d),
    ensures
        0 <= days_before_month(y, m) + d - 1 < 365 + leap_day(y),
{
    lemma_year_length(y);
    if m < 12 {
        lemma_months_increase(y, m, 13);
    }
    assert(days_before_month(y, m) >= 0) by {
        if m > 1 {
            lemma_months_increase(y, 1, m);
        }
    }
}

/// Later dates lie further from the epoch: on valid dates, `days_from_civil`
/// is strictly increasing in (year, month, day) order.
pub proof fn law_civil_days_increase(y1: int, m1: int, d1: int, y2: int, m2: int, d2: int)
    requires
        valid_date(y1, m1, d1),
        valid_date(y2, m2, d2),
        y1 < y2 || (y1 == y2 && (m1 < m2 || (m1 == m2 && d1 < d2))),
    ensures
        days_from_civil(y1, m1, d1) < days_from_civil(y2, m2, d2),
{
    lemma_day_of_year_bounds(y1, m1, d1);
    lemma_day_of_year_bounds(y2, m2, d2);
    if y1 < y2 {
        lemma_years_increase(y1, y2);
    } else if m1 < m2 {
        lemma_months_increase(y1, m1, m2);
    }
}

/// Distinct dates are distinct days: the civil date of a day count is
/// unique.
pub proof fn law_civil_date_unique(y1: int, m1: int, d1: int, y2: int, m2: int, d2: int)
    requires
        valid_date(y1, m1, d1),
        valid_date(y2, m2, d2),
        days_from_civil(y1, m1, d1) == days_from_civil(y2, m2, d2),
    ensures
        y1 == y2 && m1 == m2 && d1 == d2,
{
    if y1 < y2 || (y1 == y2 && (m1 < m2 || (m1 == m2 && d1 < d2))) {
        law_civil_days_increase(y1, m1, d1, y2, m2, d2);
    } else if y2 < y1 || (y1 == y2 && (m2 < m1 || (m1 == m2 && d2 < d1))) {
        law_civil_days_increase(y2, m2, d2, y1, m1, d1);
    }
}

/// `n` in decimal, left-padded with zeros to at least `w` characters.
pub open spec fn zero_pad(n: nat, w: nat) -> Seq<char> {
    let ds = decimal(n);
    if ds.len() < w {
        Seq::new((w - ds.len()) as nat, |i: int| '0') + ds
    } else {
        ds
    }
}

/// `n` zero-padded to `w` characters with its sign in front of the zeros,
/// as Rust's `{:0w}` writes a signed integer.
pub open spec fn signed_zero_pad(n: int, w: nat) -> Seq<char> {
    if n >= 0 {
        zero_pad(n as nat, w)
    } else {
        seq!['-'] + zero_pad((-n) as nat, if w >= 1 { (w - 1) as nat } else { 0 })
    }
}

/// `YYYY-MM-DD HH:MM UTC`.
pub open spec fn utc_text(y: int, mo: int, d: int, h: int, mi: int) -> Seq<char> {
    signed_zero_pad(y, 4) + seq!['-'] + zero_pad(mo as nat, 2) + seq!['-'] + zero_pad(d as nat, 2)
        + seq![' '] + zero_pad(h as nat, 2) + seq![':'] + zero_pad(mi as nat, 2) + seq![
        ' ',
        'U',
        'T',
        'C',
    ]
}

/// Number of decimal digits of `n`.
fn decimal_len(n: u64) -> (k: u64)
    ensures
        k == decimal(n as nat).len(),
        k <= n + 1,
    decreases n,
{
    if n < 10 {
        1
    } else {
        let k = decimal_len(n / 10);
        k + 1
    }
}

/// Append `n` zero-padded to `w` digits.
pub fn push_zero_padded(out: &mut String, n: u64, w: u64)
    ensures
        final(out)@ == old(out)@ + zero_pad(n as nat, w as nat),
{
    let k = decimal_len(n);
    let mut i: u64 = k;
    while i < w
        invariant
            k <= i,
            k < w ==> i <= w,
            k >= w ==> i == k,
            out@ == old(out)@ + Seq::new((i - k) as nat, |j: int| '0'),
        decreases w - i,
    {
        let ghost before = out@;
        out.push('0');
        i = i + 1;
        assert(out@ =~= old(out)@ + Seq::new((i - k) as nat, |j: int| '0'));
    }
    let ghost mid = out@;
    push_decimal(out, n);
    proof {
        if k < w {
            assert(i == w);
            assert(out@ =~= old(out)@ + zero_pad(n as nat, w as nat));
        } else {
            assert(Seq::new((i - k) as nat, |j: int| '0') =~= Seq::<char>::empty());
            assert(mid =~= old(out)@);
            assert(out@ =~= old(out)@ + zero_pad(n as nat, w as nat));
        }
    }
}

/// Append `n` as Rust's `{:0w}` writes it (`w >= 1`).
pub fn push_signed_zero_padded(out: &mut String, n: i64, w: u64)
    requires
        w >= 1,
    ensures
        final(out)@ == old(out)@ + signed_zero_pad(n as int, w as nat),
{
    if n >= 0 {
        push_zero_padded(out, n as u64, w);
    } else {
        out.push('-');
        let a: u64 = ((-(n + 1)) as u64) + 1;
        let ghost mid = out@;
        push_zero_padded(out, a, w - 1);
        assert(out@ =~= old(out)@ + signed_zero_pad(n as int, w as nat));
    }
}

/// `epoch` split into whole days since 1970-01-01 and seconds into the day.
fn split_days(epoch: i64) -> (r: (i64, i64))
    ensures
        r.0 == epoch / 86400,
        r.1 == epoch % 86400,
{
    if epoch >= 0 {
        let u = epoch as u64;
        let q = (u / 86400) as i64;
        let r = (u % 86400) as i64;
        (q, r)
    } else {
        let u: u64 = (-(epoch + 1)) as u64;
        let a = (u / 86400) as i64;
        let b = (u % 86400) as i64;
        let q = -a - 1;
        let r = 86399 - b;
        proof {
            assert(epoch == q * 86400 + r);
            vstd::arithmetic::div_mod::lemma_fundamental_div_mod_converse(epoch as int, 86400, q as int, r as int);
        }
        (q, r)
    }
}

/// `s` is the timestamp `epoch` written as `YYYY-MM-DD HH:MM UTC`: the civil
/// date of its day, then its hour and minute.
pub open spec fn is_utc_text_of(epoch: int, s: Seq<char>) -> bool {
    exists|y: int, m: int, d: int|
        valid_date(y, m, d) && days_from_civil(y, m, d) == epoch / 86400 && s == utc_text(
            y,
            m,
            d,
            (epoch % 86400) / 3600,
            (epoch % 86400) / 60 % 60,
        )
}

/// Render an epoch timestamp (seconds since 1970-01-01 UTC) as
/// `YYYY-MM-DD HH:MM UTC`.
pub fn format_epoch_utc(epoch: i64) -> (s: String)
    ensures
        is_utc_text_of(epoch as int, s@),
{
    let (days, secs) = split_days(epoch);
    let (year, month, day) = civil_from_days(days);
    let hour = secs / 3600;
    let minute = (secs / 60) % 60;
    let mut s = String::new();
    push_signed_zero_padded(&mut s, year, 4);
    s.push('-');
    push_zero_padded(&mut s, month as u64, 2);
    s.push('-');
    push_zero_padded(&mut s, day as u64, 2);
    s.push(' ');
    push_zero_padded(&mut s, hour as u64, 2);
    s.push(':');
    push_zero_padded(&mut s, minute as u64, 2);
    s.push(' ');
    s.push('U');
    s.push('T');
    s.push('C');
    assert(s@ =~= utc_text(year as int, month as int, day as int, hour as int, minute as int));
    s
}

/// Epoch seconds from a clock reading: its whole seconds since the epoch,
/// or 0 for a clock set before it.
pub fn epoch_from_clock(secs: Option<u64>) -> (r: i64)
    ensures
        r == match secs {
            Some(n) => n as i64,
            None => 0i64,
        },
{
    match secs {
        Some(n) => n as i64,
        None => 0,
    }
}

/// The current time in seconds since 1970-01-01 UTC (0 for a clock set
/// before it). What the clock reads is not known here.
pub fn now_epoch() -> (r: i64) {
    let t = system_time_now();
    epoch_from_clock(whole_seconds_since_epoch(&t))
}

} // verus!

//! The proleptic Gregorian calendar, counted in days from 1970-01-01, and
//! the conversion of Unix epoch seconds to an ISO-8601 UTC timestamp.
use vstd::prelude::*;
use crate::text::{decimal, digit_char, push_char, push_zero_padded, zero_padded};

verus! {

/// Every fourth year is a leap year, except centuries not divisible by 400.
pub open spec fn is_leap_year(y: int) -> bool {
    y % 4 == 0 && (y % 100 != 0 || y % 400 == 0)
}

/// Days in year `y`.
pub open spec fn year_length(y: int) -> int {
    if is_leap_year(y) { 366 } else { 365 }
}

/// Days in month `m` (1 = January) of year `y`.
pub open spec fn month_length(y: int, m: int) -> int {
    if m == 2 {
        if is_leap_year(y) { 29 } else { 28 }
    } else if m == 4 || m == 6 || m == 9 || m == 11 {
        30
    } else {
        31
    }
}

/// Days from 1970-01-01 to the first of January of year `y`.
pub open spec fn days_before_year(y: int) -> int
    decreases y - 1970,
{
    if y <= 1970 { 0 } else { days_before_year(y - 1) + year_length(y - 1) }
}

/// Days from the first of January of `y` to the first day of month `m`.
pub open spec fn days_before_month(y: int, m: int) -> int
    decreases m,
{
    if m <= 1 { 0 } else { days_before_month(y, m - 1) + month_length(y, m - 1) }
}

/// `y-m-d` is a valid calendar date and lies `days` days after 1970-01-01.
pub open spec fn is_date_of_day(days: int, y: int, m: int, d: int) -> bool {
    &&& y >= 1970
    &&& 1 <= m <= 12
    &&& 1 <= d <= month_length(y, m)
    &&& days_before_year(y) + days_before_month(y, m) + d - 1 == days
}

/// The calendar date `days` days after 1970-01-01.
pub open spec fn date_of_day(days: int) -> (int, int, int) {
    choose|y: int, m: int, d: int| is_date_of_day(days, y, m, d)
}

/// The ISO-8601 UTC timestamp (`YYYY-MM-DDTHH:MM:SSZ`, the year padded to at
/// least four digits) of `epoch` seconds after 1970-01-01T00:00:00Z.
pub open spec fn iso_timestamp(epoch: nat) -> Seq<char> {
    let (y, m, d) = date_of_day((epoch / 86400) as int);
    let rem = epoch % 86400;
    zero_padded(y as nat, 4) + seq!['-'] + zero_padded(m as nat, 2) + seq!['-']
        + zero_padded(d as nat, 2) + seq!['T'] + zero_padded(rem / 3600, 2) + seq![':']
        + zero_padded((rem % 3600) / 60, 2) + seq![':'] + zero_padded(rem % 60, 2) + seq!['Z']
}

// ---------------------------------------------------------------------------
// Lemmas
// ---------------------------------------------------------------------------

spec fn leap_count(n: int) -> int {
    n / 4 - n / 100 + n / 400
}

spec fn closed_days_before_year(y: int) -> int {
    365 * (y - 1970) + leap_count(y - 1) - leap_count(1969)
}

proof fn lemma_div_step(n: int, k: int)
    requires
        n >= 1,
        k > 0,
    ensures
        n / k - (n - 1) / k == (if n % k == 0 { 1int } else { 0int }),
{
    let a = n / k;
    let b = (n - 1) / k;
    let ra = n % k;
    let rb = (n - 1) % k;
    vstd::arithmetic::div_mod::lemma_fundamental_div_mod(n, k);
    vstd::arithmetic::div_mod::lemma_fundamental_div_mod(n - 1, k);
    vstd::arithmetic::div_mod::lemma_mod_bound(n, k);
    vstd::arithmetic::div_mod::lemma_mod_bound(n - 1, k);
    assert(k * (a - b) == 1 + rb - ra) by (nonlinear_arith)
        requires
            n == k * a + ra,
            n - 1 == k * b + rb,
    ;
    assert(a - b == (if ra == 0 { 1int } else { 0int })) by (nonlinear_arith)
        requires
            k * (a - b) == 1 + rb - ra,
            0 <= ra < k,
            0 <= rb < k,
            k > 0,
    ;
}

proof fn lemma_days_before_year_closed(y: int)
    requires
        y >= 1970,
    ensures
        days_before_year(y) == closed_days_before_year(y),
    decreases y - 1970,
{
    if y > 1970 {
        lemma_days_before_year_closed(y - 1);
        lemma_div_step(y - 1, 4);
        lemma_div_step(y - 1, 100);
        lemma_div_step(y - 1, 400);
    }
}

/// Four hundred consecutive years always hold 146097 days.
pub proof fn lemma_era_length(y: int)
    requires
        y >= 1970,
    ensures
        days_before_year(y + 400) == days_before_year(y) + 146097,
{
    lemma_days_before_year_closed(y);
    lemma_days_before_year_closed(y + 400);
    let n = y - 1;
    assert((n + 400) / 4 == n / 4 + 100);
    assert((n + 400) / 100 == n / 100 + 4);
    assert((n + 400) / 400 == n / 400 + 1);
}

proof fn lemma_eras(k: int)
    requires
        k >= 0,
    ensures
        days_before_year(1970 + 400 * k) == 146097 * k,
    decreases k,
{
    if k > 0 {
        lemma_eras(k - 1);
        lemma_era_length(1970 + 400 * (k - 1));
    }
}

proof fn lemma_days_before_year_monotone(y1: int, y2: int)
    requires
        y1 <= y2,
    ensures
        days_before_year(y1) <= days_before_year(y2),
    decreases y2 - y1,
{
    if y1 < y2 {
        lemma_days_before_year_monotone(y1, y2 - 1);
    }
}

proof fn lemma_days_before_month_monotone(y: int, m1: int, m2: int)
    requires
        m1 <= m2,
    ensures
        days_before_month(y, m1) <= days_before_month(y, m2),
    decreases m2 - m1,
{
    if m1 < m2 {
        lemma_days_before_month_monotone(y, m1, m2 - 1);
    }
}

proof fn lemma_months_fill_year(y: int)
    ensures
        days_before_month(y, 13) == year_length(y),
{
    reveal_with_fuel(days_before_month, 13);
}

/// A date lies between the start of its year and the start of the next, and
/// between the start of its month and the start of the next.
proof fn lemma_date_bounds(days: int, y: int, m: int, d: int)
    requires
        is_date_of_day(days, y, m, d),
    ensures
        days_before_year(y) <= days < days_before_year(y + 1),
        days_before_month(y, m) <= days - days_before_year(y) < days_before_month(y, m + 1),
{
    lemma_months_fill_year(y);
    lemma_days_before_month_monotone(y, m + 1, 13);
    lemma_days_before_month_monotone(y, 1, m);
}

/// Each day count has at most one calendar date.
pub proof fn lemma_date_unique(days: int, y1: int, m1: int, d1: int, y2: int, m2: int, d2: int)
    requires
        is_date_of_day(days, y1, m1, d1),
        is_date_of_day(days, y2, m2, d2),
    ensures
        y1 == y2 && m1 == m2 && d1 == d2,
{
    lemma_date_bounds(days, y1, m1, d1);
    lemma_date_bounds(days, y2, m2, d2);
    if y1 < y2 {
        lemma_days_before_year_monotone(y1 + 1, y2);
    } else if y2 < y1 {
        lemma_days_before_year_monotone(y2 + 1, y1);
    }
    assert(y1 == y2);
    if m1 < m2 {
        lemma_days_before_month_monotone(y1, m1 + 1, m2);
    } else if m2 < m1 {
        lemma_days_before_month_monotone(y1, m2 + 1, m1);
    }
}

// ---------------------------------------------------------------------------
// Computation
// ---------------------------------------------------------------------------

fn year_len(y: u64) -> (r: u64)
    ensures
        r == year_length(y as int),
{
    if y % 4 == 0 && (y % 100 != 0 || y % 400 == 0) { 366 } else { 365 }
}

fn month_len(y: u64, m: u64) -> (r: u64)
    ensures
        r == month_length(y as int, m as int),
{
    if m == 2 {
        if y % 4 == 0 && (y % 100 != 0 || y % 400 == 0) { 29 } else { 28 }
    } else if m == 4 || m == 6 || m == 9 || m == 11 {
        30
    } else {
        31
    }
}

/// The calendar date `days` days after 1970-01-01.
pub fn civil_from_days(days: u64) -> (r: (u64, u64, u64))
    ensures
        is_date_of_day(days as int, r.0 as int, r.1 as int, r.2 as int),
{
    let q = days / 146097;
    let r0 = days - q * 146097;
    let y0 = 1970 + q * 400;
    proof {
        lemma_eras(q as int);
    }
    assert(q <= 0xffff_ffff_ffff_ffffu64 / 146097);
    assert(y0 + 146097 <= 0xffff_ffff_ffff_ffffu64);
    let mut y = y0;
    let mut r = r0;
    while r >= year_len(y)
        invariant
            y0 == 1970 + q * 400,
            y0 + 146097 <= 0xffff_ffff_ffff_ffffu64,
            r0 < 146097,
            y0 <= y,
            y - y0 <= r0 - r,
            r <= r0,
            days == days_before_year(y as int) + r,
        decreases r,
    {
        r = r - year_len(y);
        y = y + 1;
    }
    let mut m: u64 = 1;
    proof {
        lemma_months_fill_year(y as int);
    }
    while r >= month_len(y, m)
        invariant
            1 <= m <= 12,
            r < year_length(y as int) - days_before_month(y as int, m as int),
            days_before_month(y as int, 13) == year_length(y as int),
            days == days_before_year(y as int) + days_before_month(y as int, m as int) + r,
        decreases 12 - m,
    {
        proof {
            if m == 12 {
                assert(days_before_month(y as int, 13) == days_before_month(y as int, 12) + month_length(y as int, 12));
            }
        }
        r = r - month_len(y, m);
        m = m + 1;
    }
    proof {
        assert(y >= 1970);
    }
    (y, m, r + 1)
}

/// Converts Unix epoch seconds to an ISO-8601 UTC timestamp such as
/// `2000-02-29T00:00:00Z`.
pub fn epoch_to_iso(epoch_secs: u64) -> (r: String)
    ensures
        r@ == iso_timestamp(epoch_secs as nat),
{
    let days = epoch_secs / 86400;
    let rem = epoch_secs % 86400;
    let (y, m, d) = civil_from_days(days);
    proof {
        let (cy, cm, cd) = date_of_day(days as int);
        assert(is_date_of_day(days as int, cy, cm, cd));
        lemma_date_unique(days as int, y as int, m as int, d as int, cy, cm, cd);
    }
    let mut out = String::new();
    push_zero_padded(&mut out, y, 4);
    push_char(&mut out, '-');
    push_zero_padded(&mut out, m, 2);
    push_char(&mut out, '-');
    push_zero_padded(&mut out, d, 2);
    push_char(&mut out, 'T');
    push_zero_padded(&mut out, rem / 3600, 2);
    push_char(&mut out, ':');
    push_zero_padded(&mut out, (rem % 3600) / 60, 2);
    push_char(&mut out, ':');
    push_zero_padded(&mut out, rem % 60, 2);
    push_char(&mut out, 'Z');
    proof {
        assert(out@ =~= iso_timestamp(epoch_secs as nat));
    }
    out
}

// ---------------------------------------------------------------------------
// Order of timestamps
// ---------------------------------------------------------------------------

/// `a` comes strictly before `b` in text order (by character values).
pub open spec fn text_less(a: Seq<char>, b: Seq<char>) -> bool {
    ||| exists|k: int|
        0 <= k < a.len() && k < b.len() && a.take(k) == b.take(k) && (#[trigger] a[k] as u32) < (b[k] as u32)
    ||| (a.len() < b.len() && b.take(a.len() as int) == a)
}

spec fn pow10(w: nat) -> nat
    decreases w,
{
    if w == 0 { 1 } else { 10 * pow10((w - 1) as nat) }
}

/// The last `w` decimal digits of `n`.
spec fn fixed_digits(n: nat, w: nat) -> Seq<char>
    decreases w,
{
    if w == 0 { Seq::empty() } else { fixed_digits(n / 10, (w - 1) as nat).push(digit_char(n % 10)) }
}

proof fn lemma_fixed_zero(w: nat)
    ensures
        fixed_digits(0, w) == Seq::new(w, |i: int| '0'),
    decreases w,
{
    if w > 0 {
        lemma_fixed_zero((w - 1) as nat);
        assert(fixed_digits(0, w) =~= Seq::new(w, |i: int| '0'));
    }
}

proof fn lemma_pow10_pos(w: nat)
    ensures
        pow10(w) >= 1,
    decreases w,
{
    if w > 0 {
        lemma_pow10_pos((w - 1) as nat);
    }
}

proof fn lemma_decimal_width(n: nat, k: nat)
    requires
        k >= 1,
        n < pow10(k),
    ensures
        decimal(n).len() <= k,
    decreases n,
{
    if n >= 10 {
        assert(k >= 2) by {
            if k == 1 {
                assert(pow10(1) == 10 * pow10(0));
            }
        }
        let k1 = (k - 1) as nat;
        assert(pow10(k) == 10 * pow10(k1));
        assert(n / 10 < pow10(k1)) by (nonlinear_arith)
            requires
                n < 10 * pow10(k1),
        ;
        lemma_decimal_width(n / 10, k1);
    }
}

/// A number below `10^w` padded to `w` characters is its last `w` digits.
proof fn lemma_zero_padded_fixed(n: nat, w: nat)
    requires
        w >= 1,
        n < pow10(w),
    ensures
        zero_padded(n, w) == fixed_digits(n, w),
    decreases w,
{
    let w1 = (w - 1) as nat;
    assert(pow10(w) == 10 * pow10(w1));
    if n < 10 {
        lemma_fixed_zero(w1);
        assert(n / 10 == 0 && n % 10 == n);
        assert(decimal(n) == seq![digit_char(n)]);
        assert(zero_padded(n, w) =~= fixed_digits(n, w));
    } else {
        assert(n / 10 < pow10(w1)) by (nonlinear_arith)
            requires
                n < 10 * pow10(w1),
        ;
        assert(w1 >= 1) by {
            if w1 == 0 {
                assert(pow10(0) == 1);
            }
        }
        lemma_zero_padded_fixed(n / 10, w1);
        lemma_decimal_width(n / 10, w1);
        let dq = decimal(n / 10);
        assert(decimal(n) == dq.push(digit_char(n % 10)));
        if dq.len() < w1 {
            assert(zero_padded(n, w) =~= zero_padded(n / 10, w1).push(digit_char(n % 10)));
        } else {
            assert(zero_padded(n, w) =~= zero_padded(n / 10, w1).push(digit_char(n % 10)));
        }
    }
}

proof fn lemma_digit_order(a: nat, b: nat)
    requires
        a < b < 10,
    ensures
        (digit_char(a) as u32) < (digit_char(b) as u32),
{
}

/// The last `w` digits of smaller numbers come first in text order.
proof fn lemma_fixed_less(n1: nat, n2: nat, w: nat)
    requires
        n1 < n2 < pow10(w),
    ensures
        fixed_digits(n1, w).len() == w,
        fixed_digits(n2, w).len() == w,
        text_less(fixed_digits(n1, w), fixed_digits(n2, w)),
    decreases w,
{
    lemma_fixed_len(n1, w);
    lemma_fixed_len(n2, w);
    if w == 0 {
        assert(pow10(0) == 1);
    } else {
        let w1 = (w - 1) as nat;
        assert(pow10(w) == 10 * pow10(w1));
        let a = fixed_digits(n1, w);
        let b = fixed_digits(n2, w);
        let pa = fixed_digits(n1 / 10, w1);
        let pb = fixed_digits(n2 / 10, w1);
        assert(a == pa.push(digit_char(n1 % 10)));
        assert(b == pb.push(digit_char(n2 % 10)));
        assert(n1 / 10 <= n2 / 10) by (nonlinear_arith)
            requires
                n1 < n2,
        ;
        if n1 / 10 == n2 / 10 {
            assert(n1 % 10 < n2 % 10) by (nonlinear_arith)
                requires
                    n1 < n2,
                    n1 / 10 == n2 / 10,
            ;
            lemma_digit_order(n1 % 10, n2 % 10);
            let k = w1 as int;
            assert(a.take(k) =~= pa);
            assert(b.take(k) =~= pb);
            assert((a[k] as u32) < (b[k] as u32));
        } else {
            assert(n2 / 10 < pow10(w1)) by (nonlinear_arith)
                requires
                    n2 < 10 * pow10(w1),
            ;
            lemma_fixed_less(n1 / 10, n2 / 10, w1);
            let k = choose|k: int|
                0 <= k < pa.len() && k < pb.len() && pa.take(k) == pb.take(k) && (#[trigger] pa[k] as u32) < (pb[k] as u32);
            assert(a.take(k) =~= pa.take(k));
            assert(b.take(k) =~= pb.take(k));
            assert(a[k] == pa[k] && b[k] == pb[k]);
        }
    }
}

proof fn lemma_fixed_len(n: nat, w: nat)
    ensures
        fixed_digits(n, w).len() == w,
    decreases w,
{
    if w > 0 {
        lemma_fixed_len(n / 10, (w - 1) as nat);
    }
}
proof fn lemma_year_of(days: int, y: int)
    requires
        y >= 1970,
        days_before_year(y) <= days,
    ensures
        exists|y2: int| y2 >= 1970 && days_before_year(y2) <= days < #[trigger] days_before_year(y2 + 1),
    decreases days - days_before_year(y),
{
    if days >= days_before_year(y + 1) {
        lemma_year_of(days, y + 1);
    } else {
        assert(days_before_year(y) <= days < days_before_year(y + 1));
    }
}

proof fn lemma_month_of(y: int, r: int, m: int)
    requires
        1 <= m <= 12,
        days_before_month(y, m) <= r < days_before_month(y, 13),
    ensures
        exists|m2: int| 1 <= m2 <= 12 && days_before_month(y, m2) <= r < #[trigger] days_before_month(y, m2 + 1),
    decreases 13 - m,
{
    if r >= days_before_month(y, m + 1) {
        lemma_month_of(y, r, m + 1);
    } else {
        assert(days_before_month(y, m) <= r < days_before_month(y, m + 1));
    }
}

/// Every day count from the epoch has a calendar date.
pub proof fn lemma_date_exists(days: int)
    requires
        days >= 0,
    ensures
        is_date_of_day(days, date_of_day(days).0, date_of_day(days).1, date_of_day(days).2),
{
    assert(days_before_year(1970) == 0);
    lemma_year_of(days, 1970);
    let y = choose|y2: int| y2 >= 1970 && days_before_year(y2) <= days < #[trigger] days_before_year(y2 + 1);
    let r = days - days_before_year(y);
    lemma_months_fill_year(y);
    assert(days_before_year(y + 1) == days_before_year(y) + year_length(y));
    assert(days_before_month(y, 1) == 0);
    lemma_month_of(y, r, 1);
    let m = choose|m2: int| 1 <= m2 <= 12 && days_before_month(y, m2) <= r < #[trigger] days_before_month(y, m2 + 1);
    assert(days_before_month(y, m + 1) == days_before_month(y, m) + month_length(y, m));
    let d = r - days_before_month(y, m) + 1;
    assert(is_date_of_day(days, y, m, d));
}

/// Of two day counts, the earlier has the earlier date.
proof fn lemma_date_order(d1: int, d2: int, y1: int, m1: int, e1: int, y2: int, m2: int, e2: int)
    requires
        d1 < d2,
        is_date_of_day(d1, y1, m1, e1),
        is_date_of_day(d2, y2, m2, e2),
    ensures
        y1 < y2 || (y1 == y2 && (m1 < m2 || (m1 == m2 && e1 < e2))),
{
    lemma_date_bounds(d1, y1, m1, e1);
    lemma_date_bounds(d2, y2, m2, e2);
    if y1 > y2 {
        lemma_days_before_year_monotone(y2 + 1, y1);
    } else if y1 == y2 && m1 > m2 {
        lemma_days_before_month_monotone(y1, m2 + 1, m1);
    }
}

/// Dates before 10000-01-01 have four-digit years.
proof fn lemma_year_below_10000(days: int, y: int, m: int, d: int)
    requires
        days < 2932897,
        is_date_of_day(days, y, m, d),
    ensures
        y < 10000,
{
    lemma_date_bounds(days, y, m, d);
    lemma_days_before_year_closed(10000);
    if y >= 10000 {
        lemma_days_before_year_monotone(10000, y);
    }
}

proof fn lemma_text_less_mid(p: Seq<char>, fa: Seq<char>, fb: Seq<char>, ra: Seq<char>, rb: Seq<char>)
    requires
        fa.len() == fb.len(),
        text_less(fa, fb),
    ensures
        text_less(p + fa + ra, p + fb + rb),
{
    let k = choose|k: int|
        0 <= k < fa.len() && k < fb.len() && fa.take(k) == fb.take(k) && (#[trigger] fa[k] as u32) < (fb[k] as u32);
    let a = p + fa + ra;
    let b = p + fb + rb;
    let j = p.len() + k;
    assert(a.take(j) =~= p + fa.take(k));
    assert(b.take(j) =~= p + fb.take(k));
    assert(a[j] == fa[k] && b[j] == fb[k]);
}

/// The timestamp text of a date and a time of day.
spec fn iso_of(y: nat, m: nat, d: nat, h: nat, mi: nat, s: nat) -> Seq<char> {
    zero_padded(y, 4) + seq!['-'] + zero_padded(m, 2) + seq!['-'] + zero_padded(d, 2) + seq!['T']
        + zero_padded(h, 2) + seq![':'] + zero_padded(mi, 2) + seq![':'] + zero_padded(s, 2) + seq!['Z']
}

proof fn lemma_field_less(n1: nat, n2: nat, w: nat)
    requires
        w >= 1,
        n1 < n2 < pow10(w),
    ensures
        zero_padded(n1, w).len() == w,
        zero_padded(n2, w).len() == w,
        text_less(zero_padded(n1, w), zero_padded(n2, w)),
{
    lemma_zero_padded_fixed(n1, w);
    lemma_zero_padded_fixed(n2, w);
    lemma_fixed_less(n1, n2, w);
}

proof fn lemma_field_len(n: nat, w: nat)
    requires
        w >= 1,
        n < pow10(w),
    ensures
        zero_padded(n, w).len() == w,
{
    lemma_zero_padded_fixed(n, w);
    lemma_fixed_len(n, w);
}
proof fn lemma_pow10_small()
    ensures
        pow10(2) == 100,
        pow10(4) == 10000,
{
    assert(pow10(0) == 1);
    assert(pow10(1) == 10);
    assert(pow10(2) == 100);
    assert(pow10(3) == 1000);
    assert(pow10(4) == 10000);
}

/// Where each field stands in a timestamp text.
proof fn lemma_iso_layout(y: nat, m: nat, d: nat, h: nat, mi: nat, s: nat)
    requires
        y < 10000,
        m < 100,
        d < 100,
        h < 100,
        mi < 100,
        s < 100,
    ensures
        iso_of(y, m, d, h, mi, s).len() == 20,
        iso_of(y, m, d, h, mi, s).subrange(0, 4) == zero_padded(y, 4),
        iso_of(y, m, d, h, mi, s)[4] == '-',
        iso_of(y, m, d, h, mi, s).subrange(5, 7) == zero_padded(m, 2),
        iso_of(y, m, d, h, mi, s)[7] == '-',
        iso_of(y, m, d, h, mi, s).subrange(8, 10) == zero_padded(d, 2),
        iso_of(y, m, d, h, mi, s)[10] == 'T',
        iso_of(y, m, d, h, mi, s).subrange(11, 13) == zero_padded(h, 2),
        iso_of(y, m, d, h, mi, s)[13] == ':',
        iso_of(y, m, d, h, mi, s).subrange(14, 16) == zero_padded(mi, 2),
        iso_of(y, m, d, h, mi, s)[16] == ':',
        iso_of(y, m, d, h, mi, s).subrange(17, 19) == zero_padded(s, 2),
        iso_of(y, m, d, h, mi, s)[19] == 'Z',
{
    lemma_pow10_small();
    lemma_field_len(y, 4);
    lemma_field_len(m, 2);
    lemma_field_len(d, 2);
    lemma_field_len(h, 2);
    lemma_field_len(mi, 2);
    lemma_field_len(s, 2);
    let t = iso_of(y, m, d, h, mi, s);
    assert(t.subrange(0, 4) =~= zero_padded(y, 4));
    assert(t.subrange(5, 7) =~= zero_padded(m, 2));
    assert(t.subrange(8, 10) =~= zero_padded(d, 2));
    assert(t.subrange(11, 13) =~= zero_padded(h, 2));
    assert(t.subrange(14, 16) =~= zero_padded(mi, 2));
    assert(t.subrange(17, 19) =~= zero_padded(s, 2));
}

/// Two timestamp texts that agree before position `o` and whose fields at
/// `o..o + w` are in text order are in text order.
proof fn lemma_iso_decided_at(a: Seq<char>, b: Seq<char>, o: int, w: int)
    requires
        0 <= o,
        0 <= w,
        o + w <= a.len(),
        a.len() == b.len(),
        a.take(o) == b.take(o),
        text_less(a.subrange(o, o + w), b.subrange(o, o + w)),
    ensures
        text_less(a, b),
{
    let fa = a.subrange(o, o + w);
    let fb = b.subrange(o, o + w);
    assert(a =~= a.take(o) + fa + a.skip(o + w));
    assert(b =~= b.take(o) + fb + b.skip(o + w));
    lemma_text_less_mid(a.take(o), fa, fb, a.skip(o + w), b.skip(o + w));
}

/// Earlier dates and times of day (field by field) give earlier texts.
proof fn lemma_iso_of_less(
    y1: nat, m1: nat, d1: nat, h1: nat, i1: nat, s1: nat,
    y2: nat, m2: nat, d2: nat, h2: nat, i2: nat, s2: nat,
)
    requires
        y1 < 10000 && m1 < 100 && d1 < 100 && h1 < 100 && i1 < 100 && s1 < 100,
        y2 < 10000 && m2 < 100 && d2 < 100 && h2 < 100 && i2 < 100 && s2 < 100,
        y1 < y2 || (y1 == y2 && (m1 < m2 || (m1 == m2 && (d1 < d2 || (d1 == d2 && (h1 < h2 || (h1 == h2
            && (i1 < i2 || (i1 == i2 && s1 < s2))))))))),
    ensures
        text_less(iso_of(y1, m1, d1, h1, i1, s1), iso_of(y2, m2, d2, h2, i2, s2)),
{
    lemma_pow10_small();
    lemma_iso_layout(y1, m1, d1, h1, i1, s1);
    lemma_iso_layout(y2, m2, d2, h2, i2, s2);
    let a = iso_of(y1, m1, d1, h1, i1, s1);
    let b = iso_of(y2, m2, d2, h2, i2, s2);
    if y1 < y2 {
        lemma_field_less(y1, y2, 4);
        assert(a.take(0) =~= b.take(0));
        lemma_iso_decided_at(a, b, 0, 4);
    } else if m1 < m2 {
        lemma_field_less(m1, m2, 2);
        assert forall|k: int| 0 <= k < 5 implies a[k] == b[k] by {
            if k < 4 {
                assert(a.subrange(0, 4)[k] == b.subrange(0, 4)[k]);
            }
        }
        assert(a.take(5) =~= b.take(5));
        lemma_iso_decided_at(a, b, 5, 2);
    } else if d1 < d2 {
        lemma_field_less(d1, d2, 2);
        assert forall|k: int| 0 <= k < 8 implies a[k] == b[k] by {
            if k < 4 {
                assert(a.subrange(0, 4)[k] == b.subrange(0, 4)[k]);
            } else if 5 <= k < 7 {
                assert(a.subrange(5, 7)[k - 5] == b.subrange(5, 7)[k - 5]);
            }
        }
        assert(a.take(8) =~= b.take(8));
        lemma_iso_decided_at(a, b, 8, 2);
    } else if h1 < h2 {
        lemma_field_less(h1, h2, 2);
        assert forall|k: int| 0 <= k < 11 implies a[k] == b[k] by {
            if k < 4 {
                assert(a.subrange(0, 4)[k] == b.subrange(0, 4)[k]);
            } else if 5 <= k < 7 {
                assert(a.subrange(5, 7)[k - 5] == b.subrange(5, 7)[k - 5]);
            } else if 8 <= k < 10 {
                assert(a.subrange(8, 10)[k - 8] == b.subrange(8, 10)[k - 8]);
            }
        }
        assert(a.take(11) =~= b.take(11));
        lemma_iso_decided_at(a, b, 11, 2);
    } else if i1 < i2 {
        lemma_field_less(i1, i2, 2);
        assert forall|k: int| 0 <= k < 14 implies a[k] == b[k] by {
            if k < 4 {
                assert(a.subrange(0, 4)[k] == b.subrange(0, 4)[k]);
            } else if 5 <= k < 7 {
                assert(a.subrange(5, 7)[k - 5] == b.subrange(5, 7)[k - 5]);
            } else if 8 <= k < 10 {
                assert(a.subrange(8, 10)[k - 8] == b.subrange(8, 10)[k - 8]);
            } else if 11 <= k < 13 {
                assert(a.subrange(11, 13)[k - 11] == b.subrange(11, 13)[k - 11]);
            }
        }
        assert(a.take(14) =~= b.take(14));
        lemma_iso_decided_at(a, b, 14, 2);
    } else {
        lemma_field_less(s1, s2, 2);
        assert forall|k: int| 0 <= k < 17 implies a[k] == b[k] by {
            if k < 4 {
                assert(a.subrange(0, 4)[k] == b.subrange(0, 4)[k]);
            } else if 5 <= k < 7 {
                assert(a.subrange(5, 7)[k - 5] == b.subrange(5, 7)[k - 5]);
            } else if 8 <= k < 10 {
                assert(a.subrange(8, 10)[k - 8] == b.subrange(8, 10)[k - 8]);
            } else if 11 <= k < 13 {
                assert(a.subrange(11, 13)[k - 11] == b.subrange(11, 13)[k - 11]);
            } else if 14 <= k < 16 {
                assert(a.subrange(14, 16)[k - 14] == b.subrange(14, 16)[k - 14]);
            }
        }
        assert(a.take(17) =~= b.take(17));
        lemma_iso_decided_at(a, b, 17, 2);
    }
}
proof fn lemma_time_bounds(r: nat)
    requires
        r < 86400,
    ensures
        r / 3600 < 24,
        (r % 3600) / 60 < 60,
        r % 60 < 60,
{
    vstd::arithmetic::div_mod::lemma_fundamental_div_mod(r as int, 3600);
    vstd::arithmetic::div_mod::lemma_mod_bound(r as int, 3600);
    vstd::arithmetic::div_mod::lemma_fundamental_div_mod((r % 3600) as int, 60);
    vstd::arithmetic::div_mod::lemma_mod_bound((r % 3600) as int, 60);
    let h = r / 3600;
    let q = r % 3600;
    assert(h < 24) by (nonlinear_arith)
        requires
            r == 3600 * h + q,
            0 <= q,
            r < 86400,
    ;
    assert(q / 60 < 60) by (nonlinear_arith)
        requires
            q == 60 * (q / 60) + q % 60,
            0 <= q % 60,
            q < 3600,
    ;
}

/// Of two times of day (in seconds), the earlier has the earlier hour, or
/// the same hour and an earlier minute, or the same minute and an earlier
/// second.
proof fn lemma_time_order(r1: nat, r2: nat)
    requires
        r1 < r2 < 86400,
    ensures
        r1 / 3600 < 24,
        r2 / 3600 < 24,
        (r1 % 3600) / 60 < 60,
        (r2 % 3600) / 60 < 60,
        r1 / 3600 < r2 / 3600 || (r1 / 3600 == r2 / 3600 && ((r1 % 3600) / 60 < (r2 % 3600) / 60 || ((r1
            % 3600) / 60 == (r2 % 3600) / 60 && r1 % 60 < r2 % 60))),
{
    let h1 = r1 / 3600;
    let h2 = r2 / 3600;
    let q1 = r1 % 3600;
    let q2 = r2 % 3600;
    vstd::arithmetic::div_mod::lemma_fundamental_div_mod(r1 as int, 3600);
    vstd::arithmetic::div_mod::lemma_fundamental_div_mod(r2 as int, 3600);
    vstd::arithmetic::div_mod::lemma_mod_bound(r1 as int, 3600);
    vstd::arithmetic::div_mod::lemma_mod_bound(r2 as int, 3600);
    assert(h1 < 24 && h2 < 24) by (nonlinear_arith)
        requires
            r1 == 3600 * h1 + q1,
            r2 == 3600 * h2 + q2,
            0 <= q1,
            0 <= q2,
            r1 < 86400,
            r2 < 86400,
    ;
    assert(h1 <= h2) by (nonlinear_arith)
        requires
            r1 == 3600 * h1 + q1,
            r2 == 3600 * h2 + q2,
            0 <= q1 < 3600,
            0 <= q2 < 3600,
            r1 < r2,
    ;
    let i1 = q1 / 60;
    let i2 = q2 / 60;
    vstd::arithmetic::div_mod::lemma_fundamental_div_mod(q1 as int, 60);
    vstd::arithmetic::div_mod::lemma_fundamental_div_mod(q2 as int, 60);
    vstd::arithmetic::div_mod::lemma_mod_bound(q1 as int, 60);
    vstd::arithmetic::div_mod::lemma_mod_bound(q2 as int, 60);
    assert(i1 < 60 && i2 < 60) by (nonlinear_arith)
        requires
            q1 == 60 * i1 + q1 % 60,
            q2 == 60 * i2 + q2 % 60,
            0 <= q1 % 60,
            0 <= q2 % 60,
            q1 < 3600,
            q2 < 3600,
    ;
    assert(r1 % 60 == q1 % 60 && r2 % 60 == q2 % 60) by (nonlinear_arith)
        requires
            r1 == 3600 * h1 + q1,
            r2 == 3600 * h2 + q2,
            0 <= q1,
            0 <= q2,
            h1 >= 0,
            h2 >= 0,
    ;
    if h1 == h2 {
        assert(i1 <= i2) by (nonlinear_arith)
            requires
                q1 == 60 * i1 + q1 % 60,
                q2 == 60 * i2 + q2 % 60,
                0 <= q1 % 60 < 60,
                0 <= q2 % 60 < 60,
                q1 < q2,
        ;
    }
}

/// The timestamp text grows with the time: of two times before
/// 10000-01-01T00:00:00Z, the earlier has the text that comes first in text
/// order (so the conversion is also one to one there).
pub proof fn lemma_iso_timestamp_increasing(a: nat, b: nat)
    requires
        a < b < 253402300800,
    ensures
        text_less(iso_timestamp(a), iso_timestamp(b)),
{
    let da = (a / 86400) as int;
    let db = (b / 86400) as int;
    let ra = a % 86400;
    let rb = b % 86400;
    vstd::arithmetic::div_mod::lemma_fundamental_div_mod(a as int, 86400);
    vstd::arithmetic::div_mod::lemma_fundamental_div_mod(b as int, 86400);
    vstd::arithmetic::div_mod::lemma_mod_bound(a as int, 86400);
    vstd::arithmetic::div_mod::lemma_mod_bound(b as int, 86400);
    assert(da <= db && db < 2932897) by (nonlinear_arith)
        requires
            a == 86400 * da + ra,
            b == 86400 * db + rb,
            0 <= ra < 86400,
            0 <= rb < 86400,
            a < b,
            b < 253402300800,
    ;
    assert(da >= 0) by (nonlinear_arith)
        requires
            a == 86400 * da + ra,
            ra < 86400,
    ;
    lemma_date_exists(da);
    lemma_date_exists(db);
    let (y1, m1, e1) = date_of_day(da);
    let (y2, m2, e2) = date_of_day(db);
    lemma_year_below_10000(da, y1, m1, e1);
    lemma_year_below_10000(db, y2, m2, e2);
    assert(iso_timestamp(a) == iso_of(y1 as nat, m1 as nat, e1 as nat, ra / 3600, (ra % 3600) / 60, ra % 60));
    assert(iso_timestamp(b) == iso_of(y2 as nat, m2 as nat, e2 as nat, rb / 3600, (rb % 3600) / 60, rb % 60));
    if da < db {
        lemma_date_order(da, db, y1, m1, e1, y2, m2, e2);
        lemma_time_bounds(ra);
        lemma_time_bounds(rb);
    } else {
        assert(ra < rb) by (nonlinear_arith)
            requires
                a == 86400 * da + ra,
                b == 86400 * db + rb,
                da == db,
                a < b,
        ;
        lemma_time_order(ra, rb);
    }
    lemma_iso_of_less(
        y1 as nat, m1 as nat, e1 as nat, ra / 3600, (ra % 3600) / 60, ra % 60,
        y2 as nat, m2 as nat, e2 as nat, rb / 3600, (rb % 3600) / 60, rb % 60,
    );
}
} // verus!

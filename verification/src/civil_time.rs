//! UTC calendar arithmetic and ISO-8601 timestamps.
//!
//! Graph filters and the audit reports compare timestamps as text, so the
//! text produced here must order exactly as the instants it names.
use vstd::prelude::*;
use vstd::arithmetic::div_mod::lemma_fundamental_div_mod_converse;
use crate::text::{lemma_lex_irreflexive, lemma_lex_total, lex_lt};

verus! {

/// Gregorian leap-year rule.
pub open spec fn is_leap_year(y: int) -> bool {
    (y % 4 == 0 && y % 100 != 0) || y % 400 == 0
}

pub open spec fn year_length(y: int) -> int {
    if is_leap_year(y) { 366 } else { 365 }
}

/// Number of days of month `m` (1 = January) in year `y`.
pub open spec fn month_length(y: int, m: int) -> int {
    if m == 2 {
        if is_leap_year(y) { 29 } else { 28 }
    } else if m == 4 || m == 6 || m == 9 || m == 11 {
        30
    } else {
        31
    }
}

/// Days from 1970-01-01 to the first day of year `y` (for `y >= 1970`).
pub open spec fn days_before_year(y: int) -> int
    decreases y - 1970,
{
    if y <= 1970 {
        0
    } else {
        days_before_year(y - 1) + year_length(y - 1)
    }
}

/// Days from the first of January of year `y` to the first day of month `m`.
pub open spec fn days_before_month(y: int, m: int) -> int
    decreases m,
{
    if m <= 1 {
        0
    } else {
        days_before_month(y, m - 1) + month_length(y, m - 1)
    }
}

/// A UTC calendar date and time of day, from 1970 on.
#[derive(Clone, Copy, Debug, PartialEq, Eq)]
pub struct CivilTime {
    pub year: u64,
    pub month: u64,
    pub day: u64,
    pub hour: u64,
    pub minute: u64,
    pub second: u64,
}

impl CivilTime {
    /// The fields name a real date and time of day, in or after 1970.
    pub open spec fn valid(self) -> bool {
        &&& 1970 <= self.year
        &&& 1 <= self.month <= 12
        &&& 1 <= self.day <= month_length(self.year as int, self.month as int)
        &&& self.hour < 24
        &&& self.minute < 60
        &&& self.second < 60
    }

    /// Days since 1970-01-01.
    pub open spec fn day_index(self) -> int {
        days_before_year(self.year as int) + days_before_month(self.year as int, self.month as int)
            + self.day - 1
    }

    /// Seconds since 1970-01-01T00:00:00Z.
    pub open spec fn unix_seconds(self) -> int {
        self.day_index() * 86400 + self.hour * 3600 + self.minute * 60 + self.second
    }
}

/// The calendar time of a count of seconds since the Unix epoch.
pub open spec fn civil_of(secs: int) -> CivilTime {
    choose|c: CivilTime| c.valid() && c.unix_seconds() == secs
}

pub open spec fn digit_char(d: int) -> char {
    (d + 48) as char
}

/// Decimal digits of `n`, most significant first, without leading zeros.
pub open spec fn decimal_digits(n: nat) -> Seq<char>
    decreases n,
{
    if n < 10 {
        seq![digit_char(n as int)]
    } else {
        decimal_digits(n / 10).push(digit_char((n % 10) as int))
    }
}

/// Decimal digits of `n`, left-padded with zeros to at least `width` characters.
pub open spec fn zero_padded(n: nat, width: nat) -> Seq<char> {
    let ds = decimal_digits(n);
    if ds.len() < width {
        Seq::new((width - ds.len()) as nat, |i: int| '0') + ds
    } else {
        ds
    }
}

/// `YYYY-MM-DDTHH:MM:SSZ` for a calendar time.
pub open spec fn civil_text(c: CivilTime) -> Seq<char> {
    zero_padded(c.year as nat, 4) + seq!['-'] + zero_padded(c.month as nat, 2) + seq!['-']
        + zero_padded(c.day as nat, 2) + seq!['T'] + zero_padded(c.hour as nat, 2) + seq![':']
        + zero_padded(c.minute as nat, 2) + seq![':'] + zero_padded(c.second as nat, 2) + seq!['Z']
}

/// The ISO-8601 UTC text of a count of seconds since the Unix epoch.
pub open spec fn iso8601_text(secs: int) -> Seq<char> {
    civil_text(civil_of(secs))
}

// ---------------------------------------------------------------------------
// Calendar lemmas
// ---------------------------------------------------------------------------

proof fn lemma_days_before_year_step(y: int)
    requires
        y >= 1970,
    ensures
        days_before_year(y + 1) == days_before_year(y) + year_length(y),
{
}

proof fn lemma_days_before_year_lower(y: int)
    requires
        y >= 1970,
    ensures
        days_before_year(y) >= 365 * (y - 1970),
    decreases y - 1970,
{
    if y > 1970 {
        lemma_days_before_year_lower(y - 1);
    }
}

proof fn lemma_days_before_year_mono(a: int, b: int)
    requires
        1970 <= a <= b,
    ensures
        days_before_year(a) <= days_before_year(b),
        a < b ==> days_before_year(a) + year_length(a) <= days_before_year(b),
    decreases b - a,
{
    if a < b {
        lemma_days_before_year_mono(a, b - 1);
    }
}

proof fn lemma_days_before_month_mono(y: int, a: int, b: int)
    requires
        1 <= a <= b,
    ensures
        days_before_month(y, a) <= days_before_month(y, b),
        a < b ==> days_before_month(y, a) + month_length(y, a) <= days_before_month(y, b),
    decreases b - a,
{
    if a < b {
        lemma_days_before_month_mono(y, a, b - 1);
    }
}

proof fn lemma_year_in_months(y: int)
    ensures
        days_before_month(y, 13) == year_length(y),
{
    reveal_with_fuel(days_before_month, 13);
}

proof fn lemma_day_of_year_bound(c: CivilTime)
    requires
        c.valid(),
    ensures
        0 <= days_before_month(c.year as int, c.month as int) + c.day - 1 < year_length(c.year as int),
{
    lemma_days_before_month_mono(c.year as int, 1, c.month as int);
    lemma_days_before_month_mono(c.year as int, c.month as int, 13);
    lemma_year_in_months(c.year as int);
}

proof fn lemma_time_of_day_unique(h1: int, m1: int, s1: int, h2: int, m2: int, s2: int)
    requires
        0 <= h1 < 24,
        0 <= m1 < 60,
        0 <= s1 < 60,
        0 <= h2 < 24,
        0 <= m2 < 60,
        0 <= s2 < 60,
        h1 * 3600 + m1 * 60 + s1 == h2 * 3600 + m2 * 60 + s2,
    ensures
        h1 == h2,
        m1 == m2,
        s1 == s2,
{
    let t = h1 * 3600 + m1 * 60 + s1;
    lemma_fundamental_div_mod_converse(t, 3600, h1, m1 * 60 + s1);
    lemma_fundamental_div_mod_converse(t, 3600, h2, m2 * 60 + s2);
    lemma_fundamental_div_mod_converse(m1 * 60 + s1, 60, m1, s1);
    lemma_fundamental_div_mod_converse(m2 * 60 + s2, 60, m2, s2);
}

/// A count of seconds names at most one calendar time.
pub proof fn lemma_civil_unique(a: CivilTime, b: CivilTime)
    requires
        a.valid(),
        b.valid(),
        a.unix_seconds() == b.unix_seconds(),
    ensures
        a == b,
{
    let ta = a.hour * 3600 + a.minute * 60 + a.second;
    let tb = b.hour * 3600 + b.minute * 60 + b.second;
    lemma_fundamental_div_mod_converse(a.unix_seconds(), 86400, a.day_index(), ta);
    lemma_fundamental_div_mod_converse(b.unix_seconds(), 86400, b.day_index(), tb);
    lemma_time_of_day_unique(
        a.hour as int,
        a.minute as int,
        a.second as int,
        b.hour as int,
        b.minute as int,
        b.second as int,
    );
    let ya = a.year as int;
    let yb = b.year as int;
    lemma_day_of_year_bound(a);
    lemma_day_of_year_bound(b);
    if ya < yb {
        lemma_days_before_year_mono(ya, yb);
    } else if yb < ya {
        lemma_days_before_year_mono(yb, ya);
    }
    assert(ya == yb);
    let ma = a.month as int;
    let mb = b.month as int;
    if ma < mb {
        lemma_days_before_month_mono(ya, ma, mb);
    } else if mb < ma {
        lemma_days_before_month_mono(ya, mb, ma);
    }
    assert(ma == mb);
}

// ---------------------------------------------------------------------------
// Existence of the calendar time of a count of seconds
// ---------------------------------------------------------------------------

proof fn lemma_year_exists(y: int, d: int) -> (r: (int, int))
    requires
        y >= 1970,
        d >= 0,
    ensures
        r.0 >= y,
        r.0 <= y + d,
        0 <= r.1 < year_length(r.0),
        days_before_year(r.0) + r.1 == days_before_year(y) + d,
    decreases d,
{
    if d < year_length(y) {
        (y, d)
    } else {
        lemma_days_before_year_step(y);
        lemma_year_exists(y + 1, d - year_length(y))
    }
}

proof fn lemma_month_exists(y: int, m: int, d: int) -> (r: (int, int))
    requires
        1 <= m <= 12,
        d >= 0,
        days_before_month(y, m) + d < year_length(y),
    ensures
        m <= r.0 <= 12,
        0 <= r.1 < month_length(y, r.0),
        days_before_month(y, r.0) + r.1 == days_before_month(y, m) + d,
    decreases 12 - m,
{
    lemma_year_in_months(y);
    if d < month_length(y, m) {
        (m, d)
    } else {
        if m == 12 {
            assert(days_before_month(y, 13) == days_before_month(y, 12) + month_length(y, 12));
        }
        lemma_month_exists(y, m + 1, d - month_length(y, m))
    }
}

/// Every count of seconds that fits in a `u64` has a calendar time.
pub proof fn lemma_civil_exists(secs: int)
    requires
        0 <= secs <= u64::MAX,
    ensures
        civil_of(secs).valid(),
        civil_of(secs).unix_seconds() == secs,
{
    let days = secs / 86400;
    let tod = secs % 86400;
    let hh = tod / 3600;
    let mm = (tod % 3600) / 60;
    let ss = tod % 60;
    lemma_fundamental_div_mod_converse(secs, 86400, days, tod);
    assert(tod == hh * 3600 + mm * 60 + ss && hh < 24 && mm < 60 && ss < 60 && hh >= 0 && mm >= 0 && ss >= 0) by (nonlinear_arith)
        requires
            0 <= tod < 86400,
            hh == tod / 3600,
            mm == (tod % 3600) / 60,
            ss == tod % 60,
    ;
    assert(days <= u64::MAX / 86400) by (nonlinear_arith)
        requires
            0 <= secs <= u64::MAX,
            days == secs / 86400,
    ;
    let (y, doy) = lemma_year_exists(1970, days);
    let (m, dom) = lemma_month_exists(y, 1, doy);
    let c = CivilTime {
        year: y as u64,
        month: m as u64,
        day: (dom + 1) as u64,
        hour: hh as u64,
        minute: mm as u64,
        second: ss as u64,
    };
    assert(c.valid());
    assert(c.unix_seconds() == secs);
}

// ---------------------------------------------------------------------------
// Order of calendar times and of their texts
// ---------------------------------------------------------------------------

/// Calendar times compared field by field, year first.
pub open spec fn civil_lt(a: CivilTime, b: CivilTime) -> bool {
    ||| a.year < b.year
    ||| a.year == b.year && a.month < b.month
    ||| a.year == b.year && a.month == b.month && a.day < b.day
    ||| a.year == b.year && a.month == b.month && a.day == b.day && a.hour < b.hour
    ||| a.year == b.year && a.month == b.month && a.day == b.day && a.hour == b.hour && a.minute < b.minute
    ||| a.year == b.year && a.month == b.month && a.day == b.day && a.hour == b.hour && a.minute == b.minute
        && a.second < b.second
}

proof fn lemma_unix_seconds_mono(a: CivilTime, b: CivilTime)
    requires
        a.valid(),
        b.valid(),
        civil_lt(a, b),
    ensures
        a.unix_seconds() < b.unix_seconds(),
{
    lemma_day_of_year_bound(a);
    lemma_day_of_year_bound(b);
    if a.year < b.year {
        lemma_days_before_year_mono(a.year as int, b.year as int);
        assert(a.day_index() < b.day_index());
    } else if a.month < b.month {
        lemma_days_before_month_mono(a.year as int, a.month as int, b.month as int);
        assert(a.day_index() < b.day_index());
    }
}

pub open spec fn pow10(w: nat) -> nat
    decreases w,
{
    if w == 0 { 1 } else { 10 * pow10((w - 1) as nat) }
}

/// The last `w` decimal digits of `n`.
pub open spec fn fixed_digits(n: nat, w: nat) -> Seq<char>
    decreases w,
{
    if w == 0 {
        seq![]
    } else {
        fixed_digits(n / 10, (w - 1) as nat).push(digit_char((n % 10) as int))
    }
}

pub open spec fn digit_count(n: nat) -> nat
    decreases n,
{
    if n < 10 { 1 } else { 1 + digit_count(n / 10) }
}

proof fn lemma_decimal_digits_len(n: nat)
    ensures
        decimal_digits(n).len() == digit_count(n),
    decreases n,
{
    if n >= 10 {
        lemma_decimal_digits_len(n / 10);
    }
}

proof fn lemma_digit_count_bound(n: nat, w: nat)
    requires
        w >= 1,
        n < pow10(w),
    ensures
        digit_count(n) <= w,
    decreases w,
{
    if n >= 10 {
        assert(w >= 2) by {
            if w == 1 {
                reveal_with_fuel(pow10, 2);
                assert(pow10(1) == 10);
            }
        }
        let p = pow10((w - 1) as nat);
        assert(n / 10 < p) by (nonlinear_arith)
            requires
                n < 10 * p,
        ;
        lemma_digit_count_bound(n / 10, (w - 1) as nat);
    }
}

proof fn lemma_fixed_zero(k: nat)
    ensures
        fixed_digits(0, k) =~= Seq::new(k, |i: int| '0'),
    decreases k,
{
    if k > 0 {
        lemma_fixed_zero((k - 1) as nat);
    }
}

proof fn lemma_fixed_is_padded(n: nat, w: nat)
    requires
        w >= digit_count(n),
    ensures
        fixed_digits(n, w) =~= Seq::new((w - digit_count(n)) as nat, |i: int| '0') + decimal_digits(n),
    decreases n,
{
    if n < 10 {
        lemma_fixed_zero((w - 1) as nat);
    } else {
        lemma_fixed_is_padded(n / 10, (w - 1) as nat);
    }
}

/// Zero padding to `w` digits gives exactly `w` digits for numbers below `10^w`.
proof fn lemma_padded_is_fixed(n: nat, w: nat)
    requires
        w >= 1,
        n < pow10(w),
    ensures
        zero_padded(n, w) == fixed_digits(n, w),
        fixed_digits(n, w).len() == w,
{
    lemma_digit_count_bound(n, w);
    lemma_decimal_digits_len(n);
    lemma_fixed_is_padded(n, w);
    if decimal_digits(n).len() == w {
        assert(Seq::new(0, |i: int| '0') + decimal_digits(n) =~= decimal_digits(n));
    }
}

proof fn lemma_lex_push_same(p: Seq<char>, x: char, y: char)
    requires
        (x as u32) < (y as u32),
    ensures
        lex_lt(p.push(x), p.push(y)),
    decreases p.len(),
{
    if p.len() > 0 {
        lemma_lex_push_same(p.drop_first(), x, y);
        assert(p.push(x).drop_first() =~= p.drop_first().push(x));
        assert(p.push(y).drop_first() =~= p.drop_first().push(y));
    } else {
        assert(p.push(x) =~= seq![x]);
        assert(p.push(y) =~= seq![y]);
        assert(seq![x].drop_first() =~= Seq::<char>::empty());
    }
}

/// A strict order between sequences of equal length survives appending anything.
pub proof fn lemma_lex_append(a: Seq<char>, b: Seq<char>, p: Seq<char>, q: Seq<char>)
    requires
        a.len() == b.len(),
        lex_lt(a, b),
    ensures
        lex_lt(a + p, b + q),
    decreases a.len(),
{
    assert((a + p)[0] == a[0]);
    assert((b + q)[0] == b[0]);
    if a[0] == b[0] {
        lemma_lex_append(a.drop_first(), b.drop_first(), p, q);
        assert((a + p).drop_first() =~= a.drop_first() + p);
        assert((b + q).drop_first() =~= b.drop_first() + q);
    }
}

/// A common prefix does not change the order.
pub proof fn lemma_lex_prefix(x: Seq<char>, p: Seq<char>, q: Seq<char>)
    requires
        lex_lt(p, q),
    ensures
        lex_lt(x + p, x + q),
    decreases x.len(),
{
    if x.len() > 0 {
        lemma_lex_prefix(x.drop_first(), p, q);
        assert((x + p).drop_first() =~= x.drop_first() + p);
        assert((x + q).drop_first() =~= x.drop_first() + q);
    } else {
        assert(x + p =~= p);
        assert(x + q =~= q);
    }
}

proof fn lemma_fixed_digits_order(a: nat, b: nat, w: nat)
    requires
        a < b < pow10(w),
    ensures
        lex_lt(fixed_digits(a, w), fixed_digits(b, w)),
        fixed_digits(a, w).len() == w,
    decreases w,
{
    if w == 0 {
        assert(false);
    } else {
        let p = pow10((w - 1) as nat);
        assert(a / 10 <= b / 10 < p) by (nonlinear_arith)
            requires
                a < b < 10 * p,
        ;
        lemma_fixed_len(a / 10, (w - 1) as nat);
        lemma_fixed_len(b / 10, (w - 1) as nat);
        if a / 10 < b / 10 {
            lemma_fixed_digits_order(a / 10, b / 10, (w - 1) as nat);
            lemma_lex_append(
                fixed_digits(a / 10, (w - 1) as nat),
                fixed_digits(b / 10, (w - 1) as nat),
                seq![digit_char((a % 10) as int)],
                seq![digit_char((b % 10) as int)],
            );
            assert(fixed_digits(a, w) =~= fixed_digits(a / 10, (w - 1) as nat) + seq![digit_char((a % 10) as int)]);
            assert(fixed_digits(b, w) =~= fixed_digits(b / 10, (w - 1) as nat) + seq![digit_char((b % 10) as int)]);
        } else {
            assert(a % 10 < b % 10) by (nonlinear_arith)
                requires
                    a < b,
                    a / 10 == b / 10,
            ;
            lemma_lex_push_same(fixed_digits(a / 10, (w - 1) as nat), digit_char((a % 10) as int), digit_char((b % 10) as int));
        }
        if w > 1 {
            assert(a / 10 < p) by (nonlinear_arith)
                requires
                    a < 10 * p,
            ;
        }
        lemma_fixed_len(a / 10, (w - 1) as nat);
    }
}

proof fn lemma_fixed_len(n: nat, w: nat)
    ensures
        fixed_digits(n, w).len() == w,
    decreases w,
{
    if w > 0 {
        lemma_fixed_len(n / 10, (w - 1) as nat);
    }
}

/// Padded field texts order as the numbers they show.
proof fn lemma_padded_order(a: nat, b: nat, w: nat)
    requires
        w >= 1,
        a < b < pow10(w),
    ensures
        lex_lt(zero_padded(a, w), zero_padded(b, w)),
        zero_padded(a, w).len() == w,
        zero_padded(b, w).len() == w,
{
    lemma_padded_is_fixed(a, w);
    lemma_padded_is_fixed(b, w);
    lemma_fixed_digits_order(a, b, w);
}

proof fn lemma_padded_len(n: nat, w: nat)
    requires
        w >= 1,
        n < pow10(w),
    ensures
        zero_padded(n, w).len() == w,
{
    lemma_padded_is_fixed(n, w);
}

/// Texts of calendar times before the year 10000 order as the times do.
proof fn lemma_civil_text_order(a: CivilTime, b: CivilTime)
    requires
        a.valid(),
        b.valid(),
        a.year <= 9999,
        b.year <= 9999,
        civil_lt(a, b),
    ensures
        lex_lt(civil_text(a), civil_text(b)),
{
    assert(pow10(2) == 100 && pow10(4) == 10000) by {
        reveal_with_fuel(pow10, 5);
    }
    let ya = zero_padded(a.year as nat, 4);
    let yb = zero_padded(b.year as nat, 4);
    let mo_a = zero_padded(a.month as nat, 2);
    let mo_b = zero_padded(b.month as nat, 2);
    let da = zero_padded(a.day as nat, 2);
    let db = zero_padded(b.day as nat, 2);
    let ha = zero_padded(a.hour as nat, 2);
    let hb = zero_padded(b.hour as nat, 2);
    let mia = zero_padded(a.minute as nat, 2);
    let mib = zero_padded(b.minute as nat, 2);
    let sa = zero_padded(a.second as nat, 2);
    let sb = zero_padded(b.second as nat, 2);
    lemma_padded_len(a.year as nat, 4);
    lemma_padded_len(b.year as nat, 4);
    lemma_padded_len(a.month as nat, 2);
    lemma_padded_len(b.month as nat, 2);
    lemma_padded_len(a.day as nat, 2);
    lemma_padded_len(b.day as nat, 2);
    lemma_padded_len(a.hour as nat, 2);
    lemma_padded_len(b.hour as nat, 2);
    lemma_padded_len(a.minute as nat, 2);
    lemma_padded_len(b.minute as nat, 2);
    lemma_padded_len(a.second as nat, 2);
    lemma_padded_len(b.second as nat, 2);
    let dash = seq!['-'];
    let tee = seq!['T'];
    let colon = seq![':'];
    let zed = seq!['Z'];
    // Each text is a run of pieces of fixed widths; find the first piece that differs.
    let p1a = ya + dash;
    let p1b = yb + dash;
    let p2a = p1a + mo_a + dash;
    let p2b = p1b + mo_b + dash;
    let p3a = p2a + da + tee;
    let p3b = p2b + db + tee;
    let p4a = p3a + ha + colon;
    let p4b = p3b + hb + colon;
    let p5a = p4a + mia + colon;
    let p5b = p4b + mib + colon;
    assert(civil_text(a) == p5a + sa + zed);
    assert(civil_text(b) == p5b + sb + zed);
    if a.year < b.year {
        lemma_padded_order(a.year as nat, b.year as nat, 4);
        lemma_lex_append(ya, yb, dash + mo_a + dash + da + tee + ha + colon + mia + colon + sa + zed, dash + mo_b + dash + db + tee + hb + colon + mib + colon + sb + zed);
        assert(civil_text(a) =~= ya + (dash + mo_a + dash + da + tee + ha + colon + mia + colon + sa + zed));
        assert(civil_text(b) =~= yb + (dash + mo_b + dash + db + tee + hb + colon + mib + colon + sb + zed));
    } else if a.month < b.month {
        lemma_padded_order(a.month as nat, b.month as nat, 2);
        lemma_lex_prefix(p1a, mo_a, mo_b);
        lemma_lex_append(p1a + mo_a, p1a + mo_b, dash + da + tee + ha + colon + mia + colon + sa + zed, dash + db + tee + hb + colon + mib + colon + sb + zed);
        assert(civil_text(a) =~= (p1a + mo_a) + (dash + da + tee + ha + colon + mia + colon + sa + zed));
        assert(civil_text(b) =~= (p1b + mo_b) + (dash + db + tee + hb + colon + mib + colon + sb + zed));
    } else if a.day < b.day {
        lemma_padded_order(a.day as nat, b.day as nat, 2);
        lemma_lex_prefix(p2a, da, db);
        lemma_lex_append(p2a + da, p2a + db, tee + ha + colon + mia + colon + sa + zed, tee + hb + colon + mib + colon + sb + zed);
        assert(civil_text(a) =~= (p2a + da) + (tee + ha + colon + mia + colon + sa + zed));
        assert(civil_text(b) =~= (p2b + db) + (tee + hb + colon + mib + colon + sb + zed));
    } else if a.hour < b.hour {
        lemma_padded_order(a.hour as nat, b.hour as nat, 2);
        lemma_lex_prefix(p3a, ha, hb);
        lemma_lex_append(p3a + ha, p3a + hb, colon + mia + colon + sa + zed, colon + mib + colon + sb + zed);
        assert(civil_text(a) =~= (p3a + ha) + (colon + mia + colon + sa + zed));
        assert(civil_text(b) =~= (p3b + hb) + (colon + mib + colon + sb + zed));
    } else if a.minute < b.minute {
        lemma_padded_order(a.minute as nat, b.minute as nat, 2);
        lemma_lex_prefix(p4a, mia, mib);
        lemma_lex_append(p4a + mia, p4a + mib, colon + sa + zed, colon + sb + zed);
        assert(civil_text(a) =~= (p4a + mia) + (colon + sa + zed));
        assert(civil_text(b) =~= (p4b + mib) + (colon + sb + zed));
    } else {
        lemma_padded_order(a.second as nat, b.second as nat, 2);
        lemma_lex_prefix(p5a, sa, sb);
        lemma_lex_append(p5a + sa, p5a + sb, zed, zed);
    }
}

/// Law: for instants before the year 10000, the ISO-8601 texts that
/// `unix_to_iso8601` produces compare as text exactly as the instants compare
/// in time, so "older than a cutoff" may be decided on the texts.
pub proof fn lemma_iso8601_order(s1: int, s2: int)
    requires
        0 <= s1 < s2 <= u64::MAX,
        civil_of(s2).year <= 9999,
    ensures
        lex_lt(iso8601_text(s1), iso8601_text(s2)),
{
    lemma_civil_exists(s1);
    lemma_civil_exists(s2);
    let a = civil_of(s1);
    let b = civil_of(s2);
    if !civil_lt(a, b) {
        if a == b {
        } else {
            assert(civil_lt(b, a));
            lemma_unix_seconds_mono(b, a);
        }
    }
    if a.year > b.year {
        assert(civil_lt(b, a));
        lemma_unix_seconds_mono(b, a);
    }
    lemma_civil_text_order(a, b);
}

/// Law: for instants before the year 10000, one ISO-8601 text is below
/// another exactly when its instant is earlier.
pub proof fn lemma_iso8601_lt_iff(s1: int, s2: int)
    requires
        0 <= s1 <= u64::MAX,
        0 <= s2 <= u64::MAX,
        civil_of(s1).year <= 9999,
        civil_of(s2).year <= 9999,
    ensures
        lex_lt(iso8601_text(s1), iso8601_text(s2)) <==> s1 < s2,
{
    if s1 < s2 {
        lemma_iso8601_order(s1, s2);
    } else if s1 == s2 {
        lemma_lex_irreflexive(iso8601_text(s1));
    } else {
        lemma_iso8601_order(s2, s1);
        lemma_lex_total(iso8601_text(s1), iso8601_text(s2));
    }
}

/// Leap years among the years 1 to `x` (for `x >= 0`).
pub open spec fn leap_years_through(x: int) -> int {
    x / 4 - x / 100 + x / 400
}

proof fn lemma_leap_years_step(x: int)
    requires
        x >= 1,
    ensures
        leap_years_through(x) == leap_years_through(x - 1) + if is_leap_year(x) { 1int } else { 0int },
{
    assert(x / 4 == (x - 1) / 4 + if x % 4 == 0 { 1int } else { 0int });
    assert(x / 100 == (x - 1) / 100 + if x % 100 == 0 { 1int } else { 0int });
    assert(x / 400 == (x - 1) / 400 + if x % 400 == 0 { 1int } else { 0int });
    assert(x % 100 == 0 ==> x % 4 == 0);
    assert(x % 400 == 0 ==> x % 100 == 0);
}

/// Days from 1970 to the first of January of year `y`, counted in closed form.
proof fn lemma_days_before_year_closed(y: int)
    requires
        y >= 1970,
    ensures
        days_before_year(y) == 365 * (y - 1970) + leap_years_through(y - 1) - leap_years_through(1969),
    decreases y - 1970,
{
    if y > 1970 {
        lemma_days_before_year_closed(y - 1);
        lemma_leap_years_step(y - 1);
    }
}

/// The first second of the year 10000, 10000-01-01T00:00:00Z, in seconds
/// since the Unix epoch.
pub open spec fn year_10000_secs() -> int {
    253402300800
}

/// Law: every instant before 10000-01-01T00:00:00Z lies in a year of at most
/// four digits.
pub proof fn lemma_before_year_10000(secs: int)
    requires
        0 <= secs < year_10000_secs(),
    ensures
        civil_of(secs).year <= 9999,
{
    lemma_civil_exists(secs);
    let c = civil_of(secs);
    if c.year >= 10000 {
        lemma_days_before_year_closed(10000);
        assert(days_before_year(10000) == 2932897);
        lemma_days_before_year_mono(10000, c.year as int);
        lemma_days_before_month_mono(c.year as int, 1, c.month as int);
        assert(c.day_index() >= 2932897);
        assert(c.unix_seconds() >= 2932897 * 86400);
    }
}

/// Law: before the year 10000, `unix_to_iso8601` is strictly increasing in
/// text order, so comparing the texts agrees with comparing the instants.
pub proof fn lemma_iso8601_increasing(s1: int, s2: int)
    requires
        0 <= s1 < s2 < year_10000_secs(),
    ensures
        lex_lt(iso8601_text(s1), iso8601_text(s2)),
{
    lemma_before_year_10000(s2);
    lemma_iso8601_order(s1, s2);
}

/// Law: for one clock reading `now` before the year 10000, the ISO-8601 text
/// of "`d2` days ago" is at most that of "`d1` days ago" when `d1 <= d2`, and
/// "0 days ago" is the text of `now` itself.
pub proof fn lemma_days_ago_order(now: int, d1: int, d2: int)
    requires
        0 <= now < year_10000_secs(),
        0 <= d1 <= d2,
    ensures
        iso8601_text(seconds_days_before(now, d2)) == iso8601_text(seconds_days_before(now, d1))
            || lex_lt(iso8601_text(seconds_days_before(now, d2)), iso8601_text(seconds_days_before(now, d1))),
        iso8601_text(seconds_days_before(now, 0)) == iso8601_text(now),
{
    let a = seconds_days_before(now, d2);
    let b = seconds_days_before(now, d1);
    assert(d1 * 86400 <= d2 * 86400) by (nonlinear_arith)
        requires
            0 <= d1 <= d2,
    ;
    assert(0 <= a <= b <= now);
    if a < b {
        lemma_iso8601_increasing(a, b);
    }
}

// ---------------------------------------------------------------------------
// Executable calendar arithmetic
// ---------------------------------------------------------------------------

/// Gregorian leap-year test.
pub fn is_leap(y: u64) -> (r: bool)
    ensures
        r == is_leap_year(y as int),
{
    (y % 4 == 0 && y % 100 != 0) || y % 400 == 0
}

fn days_in_month(y: u64, m: u64) -> (r: u64)
    ensures
        r == month_length(y as int, m as int),
{
    if m == 2 {
        if is_leap(y) { 29 } else { 28 }
    } else if m == 4 || m == 6 || m == 9 || m == 11 {
        30
    } else {
        31
    }
}

/// The UTC calendar time `secs` seconds after the Unix epoch.
pub fn civil_from_unix(secs: u64) -> (c: CivilTime)
    ensures
        c.valid(),
        c.unix_seconds() == secs,
{
    let days = secs / 86400;
    let time_of_day = secs % 86400;
    let hh = time_of_day / 3600;
    let mm = (time_of_day % 3600) / 60;
    let ss = time_of_day % 60;
    proof {
        lemma_fundamental_div_mod_converse(secs as int, 86400, days as int, time_of_day as int);
        assert(time_of_day == hh * 3600 + mm * 60 + ss) by (nonlinear_arith)
            requires
                time_of_day < 86400,
                hh == time_of_day / 3600,
                mm == (time_of_day % 3600) / 60,
                ss == time_of_day % 60,
        ;
        assert(hh < 24 && mm < 60 && ss < 60) by (nonlinear_arith)
            requires
                time_of_day < 86400,
                hh == time_of_day / 3600,
                mm == (time_of_day % 3600) / 60,
                ss == time_of_day % 60,
        ;
    }
    let mut y: u64 = 1970;
    let mut d: u64 = days;
    loop
        invariant
            days == secs / 86400,
            days <= u64::MAX / 86400,
            1970 <= y,
            d <= days,
            days_before_year(y as int) + d == days,
        ensures
            1970 <= y,
            d < year_length(y as int),
            days_before_year(y as int) + d == days,
        decreases d,
    {
        let diy: u64 = if is_leap(y) { 366 } else { 365 };
        if d < diy {
            break;
        }
        proof {
            lemma_days_before_year_lower(y as int);
            lemma_days_before_year_step(y as int);
        }
        d = d - diy;
        y = y + 1;
    }
    let mut mo: u64 = 1;
    proof {
        lemma_year_in_months(y as int);
    }
    while d >= days_in_month(y, mo)
        invariant
            1 <= mo <= 12,
            d < year_length(y as int),
            days_before_month(y as int, mo as int) + d < year_length(y as int),
            days_before_year(y as int) + days_before_month(y as int, mo as int) + d == days,
            days_before_month(y as int, 13) == year_length(y as int),
        decreases 12 - mo,
    {
        let ml = days_in_month(y, mo);
        proof {
            if mo == 12 {
                assert(days_before_month(y as int, 13) == days_before_month(y as int, 12) + month_length(y as int, 12));
                assert(false);
            }
        }
        d = d - ml;
        mo = mo + 1;
    }
    let c = CivilTime { year: y, month: mo, day: d + 1, hour: hh, minute: mm, second: ss };
    assert(c.day_index() == days);
    c
}

fn digit_text(d: u64) -> (r: &'static str)
    requires
        d < 10,
    ensures
        r@ == seq![digit_char(d as int)],
{
    proof {
        reveal_strlit("0");
        reveal_strlit("1");
        reveal_strlit("2");
        reveal_strlit("3");
        reveal_strlit("4");
        reveal_strlit("5");
        reveal_strlit("6");
        reveal_strlit("7");
        reveal_strlit("8");
        reveal_strlit("9");
    }
    if d == 0 {
        "0"
    } else if d == 1 {
        "1"
    } else if d == 2 {
        "2"
    } else if d == 3 {
        "3"
    } else if d == 4 {
        "4"
    } else if d == 5 {
        "5"
    } else if d == 6 {
        "6"
    } else if d == 7 {
        "7"
    } else if d == 8 {
        "8"
    } else {
        "9"
    }
}

/// Decimal text of `n`.
pub fn decimal_string(n: u64) -> (r: String)
    ensures
        r@ == decimal_digits(n as nat),
    decreases n,
{
    if n < 10 {
        let s = digit_text(n);
        s.to_owned()
    } else {
        let mut s = decimal_string(n / 10);
        s.append(digit_text(n % 10));
        s
    }
}

/// Decimal text of `n`, left-padded with zeros to at least `width` characters.
pub fn zero_padded_string(n: u64, width: usize) -> (r: String)
    ensures
        r@ == zero_padded(n as nat, width as nat),
{
    let ds = decimal_string(n);
    let len = ds.unicode_len();
    if len < width {
        let mut out = String::new();
        let mut i: usize = 0;
        proof {
            reveal_strlit("0");
        }
        while i < width - len
            invariant
                i <= width - len,
                len < width,
                out@ =~= Seq::new(i as nat, |k: int| '0'),
            decreases width - len - i,
        {
            proof {
                reveal_strlit("0");
            }
            out.append("0");
            i = i + 1;
        }
        out.append(ds.as_str());
        out
    } else {
        ds
    }
}

fn civil_to_text(c: CivilTime) -> (r: String)
    ensures
        r@ == civil_text(c),
{
    proof {
        reveal_strlit("-");
        reveal_strlit("T");
        reveal_strlit(":");
        reveal_strlit("Z");
    }
    let mut s = zero_padded_string(c.year, 4);
    s.append("-");
    s.append(zero_padded_string(c.month, 2).as_str());
    s.append("-");
    s.append(zero_padded_string(c.day, 2).as_str());
    s.append("T");
    s.append(zero_padded_string(c.hour, 2).as_str());
    s.append(":");
    s.append(zero_padded_string(c.minute, 2).as_str());
    s.append(":");
    s.append(zero_padded_string(c.second, 2).as_str());
    s.append("Z");
    s
}

/// `YYYY-MM-DDTHH:MM:SSZ` for `secs` seconds after the Unix epoch.
pub fn unix_to_iso8601(secs: u64) -> (r: String)
    ensures
        r@ == iso8601_text(secs as int),
{
    let c = civil_from_unix(secs);
    proof {
        let w = civil_of(secs as int);
        assert(w.valid() && w.unix_seconds() == secs);
        lemma_civil_unique(c, w);
    }
    civil_to_text(c)
}

/// Seconds since the Unix epoch, saturating at zero: `now - days * 86400`.
pub open spec fn seconds_days_before(now: int, days: int) -> int {
    if now >= days * 86400 { now - days * 86400 } else { 0 }
}

/// The ISO-8601 text of the instant `days` whole days before `now`
/// (seconds since the epoch), clamped at the epoch.
pub fn iso8601_days_before(now: u64, days: u64) -> (r: String)
    requires
        days * 86400 <= u64::MAX,
    ensures
        r@ == iso8601_text(seconds_days_before(now as int, days as int)),
{
    let span = days * 86400;
    let secs = if now >= span { now - span } else { 0 };
    unix_to_iso8601(secs)
}

/// Seconds since the Unix epoch of the instant `days` whole days after `now`.
pub open spec fn seconds_days_after(now: int, days: int) -> int {
    now + days * 86400
}

/// The ISO-8601 text of the instant `days` whole days after `now`, or `None`
/// when that instant does not fit in a `u64` count of seconds.
pub fn iso8601_days_after(now: u64, days: u64) -> (r: Option<String>)
    ensures
        now + days * 86400 <= u64::MAX ==> (r matches Some(t) && t@ == iso8601_text(now + days * 86400)),
        now + days * 86400 > u64::MAX ==> r is None,
{
    if days > u64::MAX / 86400 {
        return None;
    }
    let span = days * 86400;
    if now > u64::MAX - span {
        return None;
    }
    Some(unix_to_iso8601(now + span))
}

/// Reads the system clock with `std::time::SystemTime::now` and measures it
/// from the Unix epoch with `duration_since`: `Ok` with the time since the
/// epoch, or, for a clock set before it, `Err` with the time until it; each as
/// whole seconds and the nanoseconds within the second (`as_secs`,
/// `subsec_nanos`). Of the reading nothing is claimed but that the
/// nanoseconds stay below one second, as `Duration` documents.
#[verifier::external_body]
pub(crate) fn system_clock() -> (r: Result<(u64, u32), (u64, u32)>)
    ensures
        match r {
            Ok(d) => d.1 < 1_000_000_000,
            Err(d) => d.1 < 1_000_000_000,
        },
{
    match std::time::SystemTime::now().duration_since(std::time::UNIX_EPOCH) {
        Ok(d) => Ok((d.as_secs(), d.subsec_nanos())),
        Err(e) => Err((e.duration().as_secs(), e.duration().subsec_nanos())),
    }
}

/// The clock as whole seconds since the Unix epoch, 0 for a clock set before it.
fn unix_now() -> u64 {
    match system_clock() {
        Ok(d) => d.0,
        Err(_) => 0,
    }
}

/// ISO-8601 text of the current time minus `days` whole days.
pub fn approx_days_ago_iso8601(days: u64) -> (r: String)
    requires
        days * 86400 <= u64::MAX,
    ensures
        exists|now: u64| r@ == iso8601_text(seconds_days_before(now as int, days as int)),
{
    let now = unix_now();
    iso8601_days_before(now, days)
}

/// ISO-8601 text of the current time.
pub fn chrono_approx_now() -> (r: String)
    ensures
        exists|now: u64| r@ == iso8601_text(now as int),
{
    let now = unix_now();
    unix_to_iso8601(now)
}

/// ISO-8601 text of the current time plus `days` whole days; `None` when
/// that instant would not fit in a `u64` count of seconds. The clock is read
/// once, and the result is decided by that one reading.
pub fn chrono_approx_days(days: u64) -> (r: Option<String>)
    ensures
        exists|now: u64| {
            &&& now + days * 86400 <= u64::MAX ==> (r matches Some(t)
                && t@ == iso8601_text(#[trigger] seconds_days_after(now as int, days as int)))
            &&& now + days * 86400 > u64::MAX ==> r is None
        },
        days * 86400 > u64::MAX ==> r is None,
{
    let now = unix_now();
    let r = iso8601_days_after(now, days);
    assert(seconds_days_after(now as int, days as int) == now + days * 86400);
    r
}

} // verus!

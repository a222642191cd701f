//! Calendar arithmetic behind the `yyyy-mm-dd-hh:mm` stamp in output file names.
use vstd::prelude::*;
use crate::text::{
    decimal, decimal2, lemma_decimal2_padded, lemma_decimal_padded, lemma_lex_blocks,
    lemma_padded_len, lemma_padded_order, lex_le, padded, pow10, push_char, push_decimal, push_decimal2,
};

verus! {

/// Gregorian leap year: divisible by 4 and not by 100, or divisible by 400.
pub open spec fn is_leap_year(year: int) -> bool {
    (year % 4 == 0 && year % 100 != 0) || year % 400 == 0
}

/// Days in the given year.
pub open spec fn year_length(year: int) -> nat {
    if is_leap_year(year) { 366 } else { 365 }
}

/// Days in month `month` (1 = January .. 12 = December) of `year`.
pub open spec fn month_length(year: int, month: int) -> nat {
    if month == 2 {
        if is_leap_year(year) { 29 } else { 28 }
    } else if month == 4 || month == 6 || month == 9 || month == 11 {
        30
    } else {
        31
    }
}

/// Days from 1970-01-01 to the first of January of `year` (for `year >= 1970`).
pub open spec fn days_before_year(year: int) -> nat
    decreases year - 1970,
{
    if year <= 1970 {
        0
    } else {
        days_before_year(year - 1) + year_length(year - 1)
    }
}

/// Days from the first of January of `year` to the first day of `month`.
pub open spec fn days_before_month(year: int, month: int) -> nat
    decreases month,
{
    if month <= 1 {
        0
    } else {
        days_before_month(year, month - 1) + month_length(year, month - 1)
    }
}

/// Walks whole years forward from `year` while `rem` days still span one:
/// the year reached and the day of that year (counted from 0).
pub open spec fn year_and_day(rem: nat, year: int) -> (int, nat)
    decreases rem,
{
    if rem < year_length(year) {
        (year, rem)
    } else {
        year_and_day((rem - year_length(year)) as nat, year + 1)
    }
}

/// Walks whole months forward from `month` of `year` while `rem` days still span one:
/// the month reached and the day of that month (counted from 0).
pub open spec fn month_and_day(rem: nat, year: int, month: int) -> (int, nat)
    decreases 12 - month,
{
    if month >= 12 || rem < month_length(year, month) {
        (month, rem)
    } else {
        month_and_day((rem - month_length(year, month)) as nat, year, month + 1)
    }
}

/// The calendar date `(year, month, day)` that lies `days` days after 1970-01-01.
pub open spec fn civil_date(days: nat) -> (int, int, int) {
    let (year, day_of_year) = year_and_day(days, 1970);
    let (month, day0) = month_and_day(day_of_year, year, 1);
    (year, month, day0 + 1 as int)
}

/// The day count that the stamp starts from: whole days since the epoch,
/// kept modulo 2^32 as a 32-bit counter holds them.
pub open spec fn stamp_days(secs: u64) -> nat {
    ((secs / 86400) % 0x1_0000_0000) as nat
}

/// The stamp for `secs` seconds after the Unix epoch: `yyyy-mm-dd-hh:mm` in UTC,
/// month, day, hour and minute padded to two digits.
pub open spec fn stamp_text(secs: u64) -> Seq<char> {
    let (year, month, day) = civil_date(stamp_days(secs));
    decimal(year as nat) + seq!['-'] + decimal2(month as nat) + seq!['-'] + decimal2(day as nat)
        + seq!['-'] + decimal2(((secs / 3600) % 24) as nat) + seq![':'] + decimal2(
        ((secs / 60) % 60) as nat,
    )
}

/// Whether `year` is a leap year.
pub fn is_leap(year: u32) -> (r: bool)
    ensures
        r == is_leap_year(year as int),
{
    (year % 4 == 0 && year % 100 != 0) || year % 400 == 0
}

fn days_in_year(year: u32) -> (n: u32)
    ensures
        n == year_length(year as int),
{
    if is_leap(year) { 366 } else { 365 }
}

fn days_in_month(year: u32, month: u32) -> (n: u32)
    ensures
        n == month_length(year as int, month as int),
{
    if month == 2 {
        if is_leap(year) { 29 } else { 28 }
    } else if month == 4 || month == 6 || month == 9 || month == 11 {
        30
    } else {
        31
    }
}

proof fn lemma_months_fill_year(year: int)
    ensures
        days_before_month(year, 13) == year_length(year),
{
    reveal_with_fuel(days_before_month, 13);
}

proof fn lemma_year_and_day(rem: nat, year: int)
    requires
        1970 <= year,
    ensures
        ({
            let (y, r) = year_and_day(rem, year);
            &&& year <= y
            &&& r < year_length(y)
            &&& days_before_year(y) + r == days_before_year(year) + rem
        }),
    decreases rem,
{
    if rem >= year_length(year) {
        lemma_year_and_day((rem - year_length(year)) as nat, year + 1);
    }
}

proof fn lemma_month_and_day(rem: nat, year: int, month: int)
    requires
        1 <= month <= 12,
        rem + days_before_month(year, month) < year_length(year),
    ensures
        ({
            let (m, r) = month_and_day(rem, year, month);
            &&& month <= m <= 12
            &&& r < month_length(year, m)
            &&& days_before_month(year, m) + r == days_before_month(year, month) + rem
        }),
    decreases 12 - month,
{
    lemma_months_fill_year(year);
    if month < 12 && rem >= month_length(year, month) {
        lemma_month_and_day((rem - month_length(year, month)) as nat, year, month + 1);
    }
}

/// Calendar law: `civil_date(days)` is a real date (a month of the year and a day
/// within that month's length) that lies exactly `days` days after 1970-01-01.
pub proof fn lemma_civil_date(days: nat)
    ensures
        ({
            let (y, m, d) = civil_date(days);
            &&& 1970 <= y
            &&& 1 <= m <= 12
            &&& 1 <= d <= month_length(y, m)
            &&& days == days_before_year(y) + days_before_month(y, m) + d - 1
        }),
{
    lemma_year_and_day(days, 1970);
    let (y, r) = year_and_day(days, 1970);
    assert(days_before_month(y, 1) == 0);
    lemma_month_and_day(r, y, 1);
}

proof fn lemma_year_and_day_of(year: int, start: int, k: nat)
    requires
        1970 <= start <= year,
        k < year_length(year),
    ensures
        year_and_day((days_before_year(year) - days_before_year(start) + k) as nat, start) == (
            year,
            k,
        ),
    decreases year - start,
{
    if start < year {
        lemma_days_before_year_grows(start + 1, year);
        lemma_year_and_day_of(year, start + 1, k);
    }
}

proof fn lemma_days_before_year_grows(a: int, b: int)
    requires
        1970 <= a <= b,
    ensures
        days_before_year(a) <= days_before_year(b),
    decreases b - a,
{
    if a < b {
        lemma_days_before_year_grows(a, b - 1);
    }
}

proof fn lemma_month_and_day_of(year: int, month: int, start: int, k: nat)
    requires
        1 <= start <= month <= 12,
        k < month_length(year, month),
    ensures
        month_and_day(
            (days_before_month(year, month) - days_before_month(year, start) + k) as nat,
            year,
            start,
        ) == (month, k),
    decreases month - start,
{
    if start < month {
        lemma_days_before_month_grows(year, start + 1, month);
        lemma_month_and_day_of(year, month, start + 1, k);
    }
}

proof fn lemma_days_before_month_grows(year: int, a: int, b: int)
    requires
        a <= b,
    ensures
        days_before_month(year, a) <= days_before_month(year, b),
    decreases b - a,
{
    if a < b {
        lemma_days_before_month_grows(year, a, b - 1);
    }
}

/// Calendar law, converse: every real date from 1970 on is the `civil_date` of
/// its own day count, so each day count names exactly one date.
pub proof fn lemma_civil_date_of(year: int, month: int, day: int)
    requires
        1970 <= year,
        1 <= month <= 12,
        1 <= day <= month_length(year, month),
    ensures
        civil_date(
            (days_before_year(year) + days_before_month(year, month) + day - 1) as nat,
        ) == (year, month, day),
{
    lemma_months_fill_year(year);
    lemma_days_before_month_grows(year, month + 1, 13);
    assert(days_before_year(1970) == 0);
    lemma_year_and_day_of(year, 1970, (days_before_month(year, month) + day - 1) as nat);
    assert(days_before_month(year, 1) == 0);
    lemma_month_and_day_of(year, month, 1, (day - 1) as nat);
}

/// Leap years from 1970 up to (not including) `year`, counted by the
/// divisibility rules.
pub open spec fn leap_years_before(year: int) -> int {
    ((year - 1) / 4 - 492) - ((year - 1) / 100 - 19) + ((year - 1) / 400 - 4)
}

proof fn lemma_days_before_year_closed(year: int)
    requires
        1970 <= year,
    ensures
        days_before_year(year) == 365 * (year - 1970) + leap_years_before(year),
    decreases year - 1970,
{
    if year > 1970 {
        lemma_days_before_year_closed(year - 1);
        let y = year - 1;
        assert(y / 4 - (y - 1) / 4 == (if y % 4 == 0 { 1int } else { 0 }));
        assert(y / 100 - (y - 1) / 100 == (if y % 100 == 0 { 1int } else { 0 }));
        assert(y / 400 - (y - 1) / 400 == (if y % 400 == 0 { 1int } else { 0 }));
        assert(y % 400 == 0 ==> y % 100 == 0);
        assert(y % 100 == 0 ==> y % 4 == 0);
    }
}

/// The last second of the year 9999 is `STAMP_LIMIT - 1`.
pub const STAMP_LIMIT: u64 = 253402300800;

proof fn lemma_year_below_10000(days: nat)
    requires
        days < 2932897,
    ensures
        civil_date(days).0 < 10000,
{
    lemma_civil_date(days);
    let y = civil_date(days).0;
    if y >= 10000 {
        lemma_days_before_year_closed(10000);
        lemma_days_before_year_grows(10000, y);
    }
}

proof fn lemma_decimal_width(n: nat)
    ensures
        n < 10 ==> decimal(n).len() == 1,
        10 <= n < 100 ==> decimal(n).len() == 2,
        100 <= n < 1000 ==> decimal(n).len() == 3,
        1000 <= n < 10000 ==> decimal(n).len() == 4,
    decreases n,
{
    if n >= 10 {
        lemma_decimal_width(n / 10);
    }
}

/// What a stamp of a time before the year 10000 consists of: the date of its
/// day and the hour and minute within that day, all in range.
proof fn lemma_stamp_parts(secs: u64)
    requires
        secs < STAMP_LIMIT,
    ensures
        stamp_days(secs) == secs / 86400,
        ({
            let (y, m, d) = civil_date(stamp_days(secs));
            &&& 1970 <= y < 10000
            &&& 1 <= m <= 12
            &&& 1 <= d <= 31
        }),
{
    lemma_civil_date(secs as nat / 86400);
    lemma_year_below_10000(secs as nat / 86400);
}

/// Stamp law: every time before the year 10000 is stamped in exactly 16 characters.
pub proof fn lemma_stamp_length(secs: u64)
    requires
        secs < STAMP_LIMIT,
    ensures
        stamp_text(secs).len() == 16,
{
    lemma_stamp_parts(secs);
    let (y, m, d) = civil_date(stamp_days(secs));
    lemma_decimal_width(y as nat);
    lemma_decimal_width(m as nat);
    lemma_decimal_width(d as nat);
    lemma_decimal_width(((secs / 3600) % 24) as nat);
    lemma_decimal_width(((secs / 60) % 60) as nat);
}

/// What a stamp shows of `secs`: year, month, day, hour and minute.
pub open spec fn stamp_parts(secs: u64) -> (int, int, int, int, int) {
    let (y, m, d) = civil_date(stamp_days(secs));
    (y, m, d, ((secs / 3600) % 24) as int, ((secs / 60) % 60) as int)
}

/// `a` comes before `b` or equals it, comparing year, then month, day, hour, minute.
pub open spec fn parts_le(a: (int, int, int, int, int), b: (int, int, int, int, int)) -> bool {
    ||| a.0 < b.0
    ||| a.0 == b.0 && a.1 < b.1
    ||| a.0 == b.0 && a.1 == b.1 && a.2 < b.2
    ||| a.0 == b.0 && a.1 == b.1 && a.2 == b.2 && a.3 < b.3
    ||| a.0 == b.0 && a.1 == b.1 && a.2 == b.2 && a.3 == b.3 && a.4 <= b.4
}

/// The stamp text of the parts `p`, written with fixed-width fields.
pub open spec fn stamp_of(p: (int, int, int, int, int)) -> Seq<char> {
    padded(p.0 as nat, 4) + (seq!['-'] + (padded(p.1 as nat, 2) + (seq!['-'] + (padded(
        p.2 as nat,
        2,
    ) + (seq!['-'] + (padded(p.3 as nat, 2) + (seq![':'] + padded(p.4 as nat, 2))))))))
}

proof fn lemma_pow10_small()
    ensures
        pow10(1) == 10,
        pow10(2) == 100,
        pow10(3) == 1000,
        pow10(4) == 10000,
{
    reveal_with_fuel(pow10, 5);
}

proof fn lemma_stamp_text_fields(secs: u64)
    requires
        secs < STAMP_LIMIT,
    ensures
        stamp_text(secs) == stamp_of(stamp_parts(secs)),
{
    lemma_stamp_parts(secs);
    lemma_pow10_small();
    let p = stamp_parts(secs);
    lemma_decimal_padded(p.0 as nat, 4);
    lemma_decimal2_padded(p.1 as nat);
    lemma_decimal2_padded(p.2 as nat);
    lemma_decimal2_padded(p.3 as nat);
    lemma_decimal2_padded(p.4 as nat);
    assert(stamp_text(secs) =~= stamp_of(p));
}

proof fn lemma_lex_refl(a: Seq<char>)
    ensures
        lex_le(a, a),
    decreases a.len(),
{
    if a.len() > 0 {
        lemma_lex_refl(a.drop_first());
    }
}

proof fn lemma_field_order(n1: nat, n2: nat, w: nat, c: char, r1: Seq<char>, r2: Seq<char>)
    requires
        n1 <= n2 < pow10(w),
        n1 < n2 || lex_le(r1, r2),
    ensures
        lex_le(padded(n1, w) + (seq![c] + r1), padded(n2, w) + (seq![c] + r2)),
{
    lemma_lex_blocks(seq![c], r1, seq![c], r2);
    if n1 < n2 {
        lemma_padded_order(n1, n2, w);
    }
    lemma_padded_len(n1, w);
    lemma_padded_len(n2, w);
    lemma_lex_blocks(padded(n1, w), seq![c] + r1, padded(n2, w), seq![c] + r2);
}

proof fn lemma_stamp_of_order(a: (int, int, int, int, int), b: (int, int, int, int, int))
    requires
        0 <= a.0 < 10000 && 0 <= b.0 < 10000,
        0 <= a.1 < 100 && 0 <= b.1 < 100,
        0 <= a.2 < 100 && 0 <= b.2 < 100,
        0 <= a.3 < 100 && 0 <= b.3 < 100,
        0 <= a.4 < 100 && 0 <= b.4 < 100,
        parts_le(a, b),
    ensures
        lex_le(stamp_of(a), stamp_of(b)),
{
    lemma_pow10_small();
    let m1 = padded(a.4 as nat, 2);
    let m2 = padded(b.4 as nat, 2);
    if a.4 < b.4 {
        lemma_padded_order(a.4 as nat, b.4 as nat, 2);
    } else if a.4 == b.4 {
        lemma_lex_refl(m1);
    }
    let h1 = padded(a.3 as nat, 2) + (seq![':'] + m1);
    let h2 = padded(b.3 as nat, 2) + (seq![':'] + m2);
    if a.3 < b.3 || (a.3 == b.3 && a.4 <= b.4) {
        lemma_field_order(a.3 as nat, b.3 as nat, 2, ':', m1, m2);
    }
    let d1 = padded(a.2 as nat, 2) + (seq!['-'] + h1);
    let d2 = padded(b.2 as nat, 2) + (seq!['-'] + h2);
    if a.2 < b.2 || (a.2 == b.2 && (a.3 < b.3 || (a.3 == b.3 && a.4 <= b.4))) {
        lemma_field_order(a.2 as nat, b.2 as nat, 2, '-', h1, h2);
    }
    let mo1 = padded(a.1 as nat, 2) + (seq!['-'] + d1);
    let mo2 = padded(b.1 as nat, 2) + (seq!['-'] + d2);
    if a.1 < b.1 || (a.1 == b.1 && (a.2 < b.2 || (a.2 == b.2 && (a.3 < b.3 || (a.3 == b.3 && a.4
        <= b.4))))) {
        lemma_field_order(a.1 as nat, b.1 as nat, 2, '-', d1, d2);
    }
    lemma_field_order(a.0 as nat, b.0 as nat, 4, '-', mo1, mo2);
}

proof fn lemma_date_count_order(y1: int, m1: int, d1: int, y2: int, m2: int, d2: int)
    requires
        1970 <= y1,
        1 <= m1 <= 12,
        1 <= d1 <= month_length(y1, m1),
        1970 <= y2,
        1 <= m2 <= 12,
        1 <= d2 <= month_length(y2, m2),
        y1 < y2 || (y1 == y2 && m1 < m2) || (y1 == y2 && m1 == m2 && d1 < d2),
    ensures
        days_before_year(y1) + days_before_month(y1, m1) + d1 < days_before_year(y2)
            + days_before_month(y2, m2) + d2,
{
    lemma_months_fill_year(y1);
    lemma_days_before_month_grows(y1, m1 + 1, 13);
    if y1 < y2 {
        lemma_days_before_year_grows(y1 + 1, y2);
    } else if m1 < m2 {
        lemma_days_before_month_grows(y1, m1 + 1, m2);
    }
}

proof fn lemma_parts_order(s1: u64, s2: u64)
    requires
        s1 <= s2 < STAMP_LIMIT,
    ensures
        parts_le(stamp_parts(s1), stamp_parts(s2)),
{
    lemma_stamp_parts(s1);
    lemma_stamp_parts(s2);
    let n1 = s1 as nat / 86400;
    let n2 = s2 as nat / 86400;
    lemma_civil_date(n1);
    lemma_civil_date(n2);
    let (y1, m1, d1) = civil_date(n1);
    let (y2, m2, d2) = civil_date(n2);
    let p1 = stamp_parts(s1);
    let p2 = stamp_parts(s2);
    assert(n1 <= n2) by (nonlinear_arith)
        requires
            s1 <= s2,
            n1 == s1 as nat / 86400,
            n2 == s2 as nat / 86400,
    ;
    if n1 < n2 {
        if y2 < y1 || (y2 == y1 && m2 < m1) || (y2 == y1 && m2 == m1 && d2 < d1) {
            lemma_date_count_order(y2, m2, d2, y1, m1, d1);
        }
        assert(!(y1 == y2 && m1 == m2 && d1 == d2));
    } else {
        let r1 = s1 as int - 86400 * n1;
        let r2 = s2 as int - 86400 * n2;
        assert(0 <= r1 <= r2 < 86400) by (nonlinear_arith)
            requires
                s1 <= s2,
                n1 == n2,
                n1 == s1 as nat / 86400,
                n2 == s2 as nat / 86400,
                r1 == s1 as int - 86400 * n1,
                r2 == s2 as int - 86400 * n2,
        ;
        assert(p1.3 == r1 / 3600 && p1.4 == (r1 % 3600) / 60) by (nonlinear_arith)
            requires
                0 <= r1 < 86400,
                s1 == 86400 * n1 + r1,
                p1.3 == (s1 / 3600) % 24,
                p1.4 == (s1 / 60) % 60,
        ;
        assert(p2.3 == r2 / 3600 && p2.4 == (r2 % 3600) / 60) by (nonlinear_arith)
            requires
                0 <= r2 < 86400,
                s2 == 86400 * n2 + r2,
                p2.3 == (s2 / 3600) % 24,
                p2.4 == (s2 / 60) % 60,
        ;
        assert(p1.3 < p2.3 || (p1.3 == p2.3 && p1.4 <= p2.4)) by (nonlinear_arith)
            requires
                0 <= r1 <= r2 < 86400,
                p1.3 == r1 / 3600,
                p1.4 == (r1 % 3600) / 60,
                p2.3 == r2 / 3600,
                p2.4 == (r2 % 3600) / 60,
        ;
    }
}

/// Stamp law: for times before the year 10000, a later time never gets a stamp
/// that sorts (as text) before an earlier time's stamp.
pub proof fn lemma_stamp_order(s1: u64, s2: u64)
    requires
        s1 <= s2 < STAMP_LIMIT,
    ensures
        lex_le(stamp_text(s1), stamp_text(s2)),
{
    lemma_stamp_parts(s1);
    lemma_stamp_parts(s2);
    lemma_stamp_text_fields(s1);
    lemma_stamp_text_fields(s2);
    lemma_parts_order(s1, s2);
    assert((s1 / 3600) % 24 < 100 && (s1 / 60) % 60 < 100);
    assert((s2 / 3600) % 24 < 100 && (s2 / 60) % 60 < 100);
    lemma_stamp_of_order(stamp_parts(s1), stamp_parts(s2));
}

/// Formats `secs` seconds after the Unix epoch as `yyyy-mm-dd-hh:mm` (UTC).
pub fn format_timestamp(secs: u64) -> (s: String)
    ensures
        s@ == stamp_text(secs),
{
    let mins = (secs / 60) % 60;
    let hours = (secs / 3600) % 24;
    let days = secs / 86400;
    let mut remaining: u32 = #[verifier::truncate] (days as u32);
    assert(remaining as int == days % 0x1_0000_0000) by (bit_vector)
        requires
            remaining == days as u32,
    ;
    let ghost total: nat = remaining as nat;
    let mut year: u32 = 1970;
    loop
        invariant
            1970 <= year,
            (year - 1970) * 365 <= total - remaining,
            remaining <= total,
            total < 0x1_0000_0000,
            year_and_day(remaining as nat, year as int) == year_and_day(total, 1970),
        ensures
            1970 <= year,
            remaining < year_length(year as int),
            year_and_day(remaining as nat, year as int) == year_and_day(total, 1970),
        decreases remaining,
    {
        let len = days_in_year(year);
        if remaining < len {
            break;
        }
        remaining = remaining - len;
        year = year + 1;
    }
    let ghost day_of_year: nat = remaining as nat;
    assert(year_and_day(total, 1970) == (year as int, day_of_year));
    proof {
        lemma_months_fill_year(year as int);
    }
    let mut month: u32 = 1;
    loop
        invariant
            1 <= month <= 12,
            day_of_year < year_length(year as int),
            days_before_month(year as int, 13) == year_length(year as int),
            remaining + days_before_month(year as int, month as int) == day_of_year,
            month_and_day(remaining as nat, year as int, month as int) == month_and_day(
                day_of_year,
                year as int,
                1,
            ),
        ensures
            1 <= month <= 12,
            remaining < month_length(year as int, month as int),
            month_and_day(remaining as nat, year as int, month as int) == month_and_day(
                day_of_year,
                year as int,
                1,
            ),
        decreases 12 - month,
    {
        let len = days_in_month(year, month);
        if remaining < len {
            break;
        }
        assert(month < 12);
        remaining = remaining - len;
        month = month + 1;
    }
    let day = remaining + 1;
    let mut out = String::new();
    push_decimal(&mut out, year as u64);
    push_char(&mut out, '-');
    push_decimal2(&mut out, month as u64);
    push_char(&mut out, '-');
    push_decimal2(&mut out, day as u64);
    push_char(&mut out, '-');
    push_decimal2(&mut out, hours);
    push_char(&mut out, ':');
    push_decimal2(&mut out, mins);
    out
}

/// Whole seconds since the Unix epoch by the system clock
/// (`SystemTime::now` measured with `duration_since(UNIX_EPOCH)`, then `as_secs`);
/// `None` where the clock reads before the epoch. Nothing is stated of the value:
/// it is the current time.
#[verifier::external_body]
fn unix_now_secs() -> (r: Option<u64>) {
    match std::time::SystemTime::now().duration_since(std::time::UNIX_EPOCH) {
        Ok(elapsed) => Some(elapsed.as_secs()),
        Err(_) => None,
    }
}

/// The stamp of the current time, `yyyy-mm-dd-hh:mm` in UTC; `None` when the
/// system clock reads before 1970.
pub fn timestamp() -> (r: Option<String>)
    ensures
        r matches Some(s) ==> exists|secs: u64| s@ == stamp_text(secs),
{
    match unix_now_secs() {
        Some(secs) => Some(format_timestamp(secs)),
        None => None,
    }
}

} // verus!

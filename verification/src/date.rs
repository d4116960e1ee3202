//! Civil-calendar arithmetic for log rotation: the UTC date of an epoch
//! timestamp, and the date-stamped log file name built from it.

use vstd::prelude::*;
use crate::text::{dec_rep, push_decimal};

verus! {

/// The Gregorian leap-year rule.
pub open spec fn is_leap_year(y: int) -> bool {
    (y % 4 == 0 && y % 100 != 0) || y % 400 == 0
}

pub open spec fn days_in_year(y: int) -> int {
    if is_leap_year(y) {
        366
    } else {
        365
    }
}

pub open spec fn days_in_month(y: int, m: int) -> int {
    if m == 2 {
        if is_leap_year(y) {
            29
        } else {
            28
        }
    } else if m == 4 || m == 6 || m == 9 || m == 11 {
        30
    } else {
        31
    }
}

/// Days from the epoch date 1970-01-01 to `y`-01-01.
pub open spec fn days_before_year(y: int) -> int
    decreases y - 1970,
{
    if y <= 1970 {
        0
    } else {
        days_before_year(y - 1) + days_in_year(y - 1)
    }
}

/// Days from `y`-01-01 to `y`-`m`-01, for `m` between 1 and 13.
pub open spec fn days_before_month(y: int, m: int) -> int
    decreases m,
{
    if m <= 1 {
        0
    } else {
        days_before_month(y, m - 1) + days_in_month(y, m - 1)
    }
}

/// The epoch day number of a civil date.
pub open spec fn epoch_days(y: int, m: int, d: int) -> int {
    days_before_year(y) + days_before_month(y, m) + (d - 1)
}

/// A civil date the collector can meet: on or after the epoch, with a
/// month and a day in range.
pub open spec fn valid_civil(y: int, m: int, d: int) -> bool {
    y >= 1970 && 1 <= m <= 12 && 1 <= d <= days_in_month(y, m)
}

/// The months of a year sum to its length.
pub proof fn lemma_months_sum(y: int)
    ensures
        days_before_month(y, 13) == days_in_year(y),
{
    reveal_with_fuel(days_before_month, 13);
}

/// Walks years forward from `y` until the remaining day count falls
/// inside one.
pub open spec fn year_step(y: int, rem: int) -> (int, int)
    decreases rem,
{
    if rem < days_in_year(y) || rem < 0 {
        (y, rem)
    } else {
        year_step(y + 1, rem - days_in_year(y))
    }
}

/// Walks months forward inside year `y` until the remaining day count
/// falls inside one.
pub open spec fn month_step(y: int, m: int, rem: int) -> (int, int)
    decreases 12 - m,
{
    if m >= 12 || rem < days_in_month(y, m) {
        (m, rem)
    } else {
        month_step(y, m + 1, rem - days_in_month(y, m))
    }
}

/// The civil date `days` days after the epoch date.
pub open spec fn spec_civil_from_days(days: int) -> (int, int, int) {
    let (y, ry) = year_step(1970, days);
    let (m, rm) = month_step(y, 1, ry);
    (y, m, rm + 1)
}

pub proof fn lemma_year_step(y: int, rem: int)
    requires
        y >= 1970,
        rem >= 0,
    ensures
        year_step(y, rem).0 >= 1970,
        0 <= year_step(y, rem).1 < days_in_year(year_step(y, rem).0),
        days_before_year(year_step(y, rem).0) + year_step(y, rem).1 == days_before_year(y) + rem,
    decreases rem,
{
    if rem < days_in_year(y) {
    } else {
        lemma_year_step(y + 1, rem - days_in_year(y));
    }
}

pub proof fn lemma_month_step(y: int, m: int, rem: int)
    requires
        1 <= m <= 12,
        0 <= rem,
        days_before_month(y, m) + rem < days_in_year(y),
    ensures
        1 <= month_step(y, m, rem).0 <= 12,
        0 <= month_step(y, m, rem).1 < days_in_month(y, month_step(y, m, rem).0),
        days_before_month(y, month_step(y, m, rem).0) + month_step(y, m, rem).1
            == days_before_month(y, m) + rem,
    decreases 12 - m,
{
    if m >= 12 {
        lemma_months_sum(y);
    } else if rem < days_in_month(y, m) {
    } else {
        lemma_month_step(y, m + 1, rem - days_in_month(y, m));
    }
}

/// The computed date is valid and names exactly the given day number.
pub proof fn lemma_civil_from_days_props(days: int)
    requires
        days >= 0,
    ensures
        valid_civil(
            spec_civil_from_days(days).0,
            spec_civil_from_days(days).1,
            spec_civil_from_days(days).2,
        ),
        epoch_days(
            spec_civil_from_days(days).0,
            spec_civil_from_days(days).1,
            spec_civil_from_days(days).2,
        ) == days,
{
    lemma_year_step(1970, days);
    let (y, ry) = year_step(1970, days);
    lemma_month_step(y, 1, ry);
}

fn is_leap_exec(y: u64) -> (r: bool)
    ensures
        r == is_leap_year(y as int),
{
    (y % 4 == 0 && y % 100 != 0) || y % 400 == 0
}

fn days_in_year_exec(y: u64) -> (r: u64)
    ensures
        r == days_in_year(y as int),
{
    if is_leap_exec(y) {
        366
    } else {
        365
    }
}

fn days_in_month_exec(y: u64, m: u64) -> (r: u64)
    ensures
        r == days_in_month(y as int, m as int),
{
    if m == 2 {
        if is_leap_exec(y) {
            29
        } else {
            28
        }
    } else if m == 4 || m == 6 || m == 9 || m == 11 {
        30
    } else {
        31
    }
}

/// The civil date `days` days after 1970-01-01, as year, month, day.
pub fn civil_from_days(days: u64) -> (r: (u64, u64, u64))
    ensures
        (r.0 as int, r.1 as int, r.2 as int) == spec_civil_from_days(days as int),
        valid_civil(r.0 as int, r.1 as int, r.2 as int),
        epoch_days(r.0 as int, r.1 as int, r.2 as int) == days as int,
{
    let mut y: u64 = 1970;
    let mut rem: u64 = days;
    while rem >= days_in_year_exec(y)
        invariant
            y >= 1970,
            365 * (y - 1970) <= days - rem,
            rem <= days,
            year_step(1970, days as int) == year_step(y as int, rem as int),
        decreases rem,
    {
        let len = days_in_year_exec(y);
        proof {
            assert(365 * (y + 1 - 1970) <= days - (rem - len));
            assert(y + 1 - 1970 <= days) by {
                assert(365 * (y + 1 - 1970) >= y + 1 - 1970);
            }
        }
        rem = rem - len;
        y = y + 1;
    }
    let ghost rem_year = rem as int;
    proof {
        assert(year_step(y as int, rem as int) == (y as int, rem as int));
        lemma_civil_from_days_props(days as int);
        lemma_year_step(1970, days as int);
    }
    let mut m: u64 = 1;
    while m < 12
        invariant_except_break
            1 <= m <= 12,
            rem <= days,
            y >= 1970,
            rem_year < days_in_year(y as int),
            month_step(y as int, 1, rem_year) == month_step(y as int, m as int, rem as int),
            days_before_month(y as int, m as int) + rem == rem_year,
        ensures
            1 <= m <= 12,
            month_step(y as int, 1, rem_year) == (m as int, rem as int),
            days_before_month(y as int, m as int) + rem == rem_year,
            m == 12 || rem < days_in_month(y as int, m as int),
            rem <= days,
        decreases 12 - m,
    {
        let dim = days_in_month_exec(y, m);
        if rem < dim {
            break ;
        }
        rem = rem - dim;
        m = m + 1;
    }
    proof {
        if m == 12 {
            lemma_months_sum(y as int);
        }
        lemma_month_step(y as int, 1, rem_year);
    }
    (y, m, rem + 1)
}

/// The bytes of `events_`, the log file name's stem.
pub open spec fn file_prefix() -> Seq<u8> {
    seq![0x65u8, 0x76u8, 0x65u8, 0x6eu8, 0x74u8, 0x73u8, 0x5fu8]
}

/// The bytes of `.log`, the log file name's ending.
pub open spec fn file_suffix() -> Seq<u8> {
    seq![0x2eu8, 0x6cu8, 0x6fu8, 0x67u8]
}

/// A zero-padded two-digit decimal field.
pub open spec fn two_digits(n: int) -> Seq<u8> {
    seq![(0x30 + n / 10) as u8, (0x30 + n % 10) as u8]
}

/// The log file name for a civil date: `events_` then the date as
/// year, two-digit month and two-digit day separated by `-`, then
/// `.log`.
pub open spec fn spec_file_name(y: int, m: int, d: int) -> Seq<u8> {
    file_prefix() + dec_rep(y as nat) + seq![0x2du8] + two_digits(m) + seq![0x2du8] + two_digits(d)
        + file_suffix()
}

/// The log file name for the UTC day an epoch millisecond stamp falls
/// in.
pub open spec fn spec_file_name_for_millis(millis: int) -> Seq<u8> {
    spec_file_name(
        spec_civil_from_days(millis / 86400000).0,
        spec_civil_from_days(millis / 86400000).1,
        spec_civil_from_days(millis / 86400000).2,
    )
}

/// Builds the log file name for a civil date.
pub fn file_name_for(y: u64, m: u64, d: u64) -> (r: Vec<u8>)
    requires
        1 <= m <= 12,
        1 <= d <= 31,
    ensures
        r@ == spec_file_name(y as int, m as int, d as int),
{
    let mut out: Vec<u8> = Vec::new();
    out.push(0x65);  // e
    out.push(0x76);  // v
    out.push(0x65);  // e
    out.push(0x6e);  // n
    out.push(0x74);  // t
    out.push(0x73);  // s
    out.push(0x5f);  // _
    proof {
        assert(out@ =~= file_prefix());
    }
    push_decimal(&mut out, y);
    out.push(0x2d);  // -
    out.push(0x30 + (m / 10) as u8);
    out.push(0x30 + (m % 10) as u8);
    out.push(0x2d);  // -
    out.push(0x30 + (d / 10) as u8);
    out.push(0x30 + (d % 10) as u8);
    out.push(0x2e);  // .
    out.push(0x6c);  // l
    out.push(0x6f);  // o
    out.push(0x67);  // g
    proof {
        assert(out@ =~= spec_file_name(y as int, m as int, d as int));
    }
    out
}

/// Builds the log file name for the UTC day of an epoch millisecond
/// stamp.
pub fn file_name_for_millis(millis: i64) -> (r: Vec<u8>)
    requires
        millis >= 0,
    ensures
        r@ == spec_file_name_for_millis(millis as int),
{
    let days = (millis as u64) / 86400000;
    let (y, m, d) = civil_from_days(days);
    file_name_for(y, m, d)
}

/// The decimal digits of equal numbers only are equal.
proof fn lemma_dec_rep_injective(a: nat, b: nat)
    requires
        dec_rep(a) == dec_rep(b),
    ensures
        a == b,
    decreases a,
{
    if a < 10 && b < 10 {
        assert(dec_rep(a)[0] == 0x30 + a);
        assert(dec_rep(b)[0] == 0x30 + b);
    } else if a < 10 {
        assert(dec_rep(a).len() == 1);
        assert(dec_rep(b).len() == dec_rep(b / 10).len() + 1);
        assert(dec_rep(b / 10).len() >= 1) by {
            lemma_dec_rep_len_pos(b / 10);
        }
    } else if b < 10 {
        assert(dec_rep(b).len() == 1);
        assert(dec_rep(a).len() == dec_rep(a / 10).len() + 1);
        assert(dec_rep(a / 10).len() >= 1) by {
            lemma_dec_rep_len_pos(a / 10);
        }
    } else {
        assert(dec_rep(a).last() == 0x30 + a % 10);
        assert(dec_rep(b).last() == 0x30 + b % 10);
        assert(dec_rep(a).drop_last() =~= dec_rep(a / 10));
        assert(dec_rep(b).drop_last() =~= dec_rep(b / 10));
        lemma_dec_rep_injective(a / 10, b / 10);
    }
}

proof fn lemma_dec_rep_len_pos(n: nat)
    ensures
        dec_rep(n).len() >= 1,
    decreases n,
{
    if n >= 10 {
        lemma_dec_rep_len_pos(n / 10);
    }
}

/// Years of equal-length decimal representations line the name's fields
/// up, so equal names can only come from equal dates.
pub proof fn lemma_file_name_injective(y1: int, m1: int, d1: int, y2: int, m2: int, d2: int)
    requires
        valid_civil(y1, m1, d1),
        valid_civil(y2, m2, d2),
        spec_file_name(y1, m1, d1) == spec_file_name(y2, m2, d2),
    ensures
        y1 == y2 && m1 == m2 && d1 == d2,
{
    let n1 = spec_file_name(y1, m1, d1);
    let n2 = spec_file_name(y2, m2, d2);
    let l1 = dec_rep(y1 as nat).len() as int;
    let l2 = dec_rep(y2 as nat).len() as int;
    assert(n1.len() == 7 + l1 + 1 + 2 + 1 + 2 + 4);
    assert(n2.len() == 7 + l2 + 1 + 2 + 1 + 2 + 4);
    assert(l1 == l2);
    assert(dec_rep(y1 as nat) =~= n1.subrange(7, 7 + l1)) by {
        assert(forall|i: int| 0 <= i < l1 ==> #[trigger] n1[7 + i] == dec_rep(y1 as nat)[i]);
    }
    assert(dec_rep(y2 as nat) =~= n2.subrange(7, 7 + l2)) by {
        assert(forall|i: int| 0 <= i < l2 ==> #[trigger] n2[7 + i] == dec_rep(y2 as nat)[i]);
    }
    lemma_dec_rep_injective(y1 as nat, y2 as nat);
    assert(n1[7 + l1 + 1] == 0x30 + m1 / 10);
    assert(n1[7 + l1 + 2] == 0x30 + m1 % 10);
    assert(n1[7 + l1 + 4] == 0x30 + d1 / 10);
    assert(n1[7 + l1 + 5] == 0x30 + d1 % 10);
    assert(n2[7 + l2 + 1] == 0x30 + m2 / 10);
    assert(n2[7 + l2 + 2] == 0x30 + m2 % 10);
    assert(n2[7 + l2 + 4] == 0x30 + d2 / 10);
    assert(n2[7 + l2 + 5] == 0x30 + d2 % 10);
    assert(m1 / 10 == m2 / 10 && m1 % 10 == m2 % 10);
    assert(d1 / 10 == d2 / 10 && d1 % 10 == d2 % 10);
}

/// Timestamps falling on different UTC days name different log files,
/// and timestamps of one day name the same file.
pub proof fn lemma_rotation_names(millis1: int, millis2: int)
    requires
        millis1 >= 0,
        millis2 >= 0,
    ensures
        (spec_file_name_for_millis(millis1) == spec_file_name_for_millis(millis2)) == (millis1
            / 86400000 == millis2 / 86400000),
{
    let days1 = millis1 / 86400000;
    let days2 = millis2 / 86400000;
    lemma_civil_from_days_props(days1);
    lemma_civil_from_days_props(days2);
    if spec_file_name_for_millis(millis1) == spec_file_name_for_millis(millis2) {
        lemma_file_name_injective(
            spec_civil_from_days(days1).0,
            spec_civil_from_days(days1).1,
            spec_civil_from_days(days1).2,
            spec_civil_from_days(days2).0,
            spec_civil_from_days(days2).1,
            spec_civil_from_days(days2).2,
        );
    }
}

} // verus!

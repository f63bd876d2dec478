//! ISO-8601 second-precision UTC rendering of unix-millisecond timestamps,
//! e.g. `1778702400000` → `"2026-05-13T20:00:00Z"`.
//!
//! The calendar is the proleptic Gregorian one. A date is specified by how
//! many days separate it from 0000-01-01; the rendering walks 400-year eras
//! (146 097 days each), then single years, then months.

use vstd::prelude::*;
use crate::text::{lemma_padded_decimal, padded_decimal, push_char, push_padded2, push_padded4};

verus! {

pub open spec fn is_leap(y: int) -> bool {
    (y % 4 == 0 && y % 100 != 0) || y % 400 == 0
}

pub open spec fn year_len(y: int) -> int {
    if is_leap(y) { 366 } else { 365 }
}

/// Number of leap years in `[0, y)`.
pub open spec fn leaps_before(y: int) -> int {
    (y + 3) / 4 - (y + 99) / 100 + (y + 399) / 400
}

/// Days from 0000-01-01 to the first day of year `y`.
pub open spec fn days_to_year(y: int) -> int {
    365 * y + leaps_before(y)
}

pub open spec fn month_len(y: int, m: int) -> int {
    if m == 2 {
        if is_leap(y) { 29 } else { 28 }
    } else if m == 4 || m == 6 || m == 9 || m == 11 {
        30
    } else {
        31
    }
}

/// Days from the first of January of year `y` to the first day of month `m`.
pub open spec fn days_to_month(y: int, m: int) -> int
    decreases m,
{
    if m <= 1 {
        0
    } else {
        days_to_month(y, m - 1) + month_len(y, m - 1)
    }
}

/// Days from 0000-01-01 to 1970-01-01.
pub open spec fn epoch_offset() -> int {
    719_528
}

/// `y` is the calendar year of the day `n` days after 1970-01-01.
pub open spec fn is_civil_year(n: int, y: int) -> bool {
    &&& 0 <= y
    &&& days_to_year(y) <= n + epoch_offset() < days_to_year(y + 1)
}

/// `m` is the month, within year `y`, of the day `n` days after 1970-01-01.
pub open spec fn is_civil_month(n: int, y: int, m: int) -> bool {
    let r = n + epoch_offset() - days_to_year(y);
    &&& 1 <= m <= 12
    &&& days_to_month(y, m) <= r < days_to_month(y, m + 1)
}

/// `(y, m, d)` is the calendar date of the day `n` days after 1970-01-01.
pub open spec fn is_civil_date(n: int, y: int, m: int, d: int) -> bool {
    &&& is_civil_year(n, y)
    &&& is_civil_month(n, y, m)
    &&& d == n + epoch_offset() - days_to_year(y) - days_to_month(y, m) + 1
}

pub open spec fn civil_year(n: int) -> int {
    choose|y: int| #[trigger] is_civil_year(n, y)
}

pub open spec fn civil_month(n: int) -> int {
    choose|m: int| #[trigger] is_civil_month(n, civil_year(n), m)
}

pub open spec fn civil_day(n: int) -> int {
    n + epoch_offset() - days_to_year(civil_year(n)) - days_to_month(civil_year(n), civil_month(n)) + 1
}

/// The text `format_iso8601_utc` produces for a unix-millisecond timestamp:
/// `YYYY-MM-DDTHH:MM:SSZ`, sub-second fraction dropped, year padded to four digits.
pub open spec fn iso8601_text(millis: int) -> Seq<char> {
    let secs = millis / 1000;
    let n = secs / 86_400;
    let sod = secs % 86_400;
    padded_decimal(civil_year(n) as nat, 4) + seq!['-'] + padded_decimal(civil_month(n) as nat, 2)
        + seq!['-'] + padded_decimal(civil_day(n) as nat, 2) + seq!['T']
        + padded_decimal((sod / 3600) as nat, 2) + seq![':'] + padded_decimal(
        ((sod % 3600) / 60) as nat,
        2,
    ) + seq![':'] + padded_decimal((sod % 60) as nat, 2) + seq!['Z']
}

proof fn lemma_leaps_step(y: int)
    requires
        y >= 0,
    ensures
        leaps_before(y + 1) == leaps_before(y) + (if is_leap(y) { 1int } else { 0int }),
{
}

proof fn lemma_year_step(y: int)
    requires
        y >= 0,
    ensures
        days_to_year(y + 1) == days_to_year(y) + year_len(y),
{
    lemma_leaps_step(y);
}

proof fn lemma_days_to_year_monotone(a: int, b: int)
    requires
        0 <= a <= b,
    ensures
        days_to_year(a) + 365 * (b - a) <= days_to_year(b),
    decreases b - a,
{
    if a < b {
        lemma_days_to_year_monotone(a, b - 1);
        lemma_year_step(b - 1);
    }
}

proof fn lemma_era(e: int)
    requires
        e >= 0,
    ensures
        days_to_year(400 * e) == 146_097 * e,
{
}

proof fn lemma_month_step(y: int, m: int)
    requires
        1 <= m,
    ensures
        days_to_month(y, m + 1) == days_to_month(y, m) + month_len(y, m),
{
}

proof fn lemma_months_total(y: int)
    ensures
        days_to_month(y, 13) == year_len(y),
        days_to_month(y, 1) == 0,
{
    reveal_with_fuel(days_to_month, 13);
}

proof fn lemma_days_to_month_monotone(y: int, a: int, b: int)
    requires
        1 <= a <= b,
    ensures
        days_to_month(y, a) + 28 * (b - a) <= days_to_month(y, b),
    decreases b - a,
{
    if a < b {
        lemma_days_to_month_monotone(y, a, b - 1);
    }
}

/// The calendar date of a day count is unique.
pub proof fn lemma_civil_date_unique(n: int, y1: int, m1: int, d1: int, y2: int, m2: int, d2: int)
    requires
        is_civil_date(n, y1, m1, d1),
        is_civil_date(n, y2, m2, d2),
    ensures
        y1 == y2 && m1 == m2 && d1 == d2,
{
    if y1 < y2 {
        lemma_days_to_year_monotone(y1 + 1, y2);
    } else if y2 < y1 {
        lemma_days_to_year_monotone(y2 + 1, y1);
    }
    assert(y1 == y2);
    if m1 < m2 {
        lemma_days_to_month_monotone(y1, m1 + 1, m2);
    } else if m2 < m1 {
        lemma_days_to_month_monotone(y1, m2 + 1, m1);
    }
}

proof fn lemma_civil_fns(n: int, y: int, m: int, d: int)
    requires
        is_civil_date(n, y, m, d),
    ensures
        civil_year(n) == y,
        civil_month(n) == m,
        civil_day(n) == d,
{
    assert(is_civil_year(n, y));
    let cy = civil_year(n);
    assert(is_civil_year(n, cy));
    if cy < y {
        lemma_days_to_year_monotone(cy + 1, y);
    } else if y < cy {
        lemma_days_to_year_monotone(y + 1, cy);
    }
    assert(is_civil_month(n, cy, m));
    let cm = civil_month(n);
    assert(is_civil_month(n, cy, cm));
    if cm < m {
        lemma_days_to_month_monotone(y, cm + 1, m);
    } else if m < cm {
        lemma_days_to_month_monotone(y, m + 1, cm);
    }
}

proof fn lemma_year_from(n: int, y: int)
    requires
        0 <= y,
        days_to_year(y) <= n + epoch_offset(),
    ensures
        exists|z: int| is_civil_year(n, z),
    decreases n + epoch_offset() - days_to_year(y),
{
    lemma_year_step(y);
    if n + epoch_offset() < days_to_year(y + 1) {
        assert(is_civil_year(n, y));
    } else {
        lemma_year_from(n, y + 1);
    }
}

proof fn lemma_month_from(n: int, y: int, m: int)
    requires
        is_civil_year(n, y),
        1 <= m <= 12,
        days_to_month(y, m) <= n + epoch_offset() - days_to_year(y),
    ensures
        exists|k: int| is_civil_month(n, y, k),
    decreases 12 - m,
{
    lemma_month_step(y, m);
    lemma_months_total(y);
    lemma_year_step(y);
    if n + epoch_offset() - days_to_year(y) < days_to_month(y, m + 1) {
        assert(is_civil_month(n, y, m));
    } else {
        lemma_month_from(n, y, m + 1);
    }
}

/// Every day on or after 1970-01-01 has a calendar date, and the date
/// functions give it.
pub proof fn lemma_civil_date_exists(n: int)
    requires
        n >= 0,
    ensures
        is_civil_date(n, civil_year(n), civil_month(n), civil_day(n)),
        civil_year(n) >= 0,
        1 <= civil_month(n) <= 12,
        1 <= civil_day(n) <= 31,
{
    assert(days_to_year(0) == 0);
    lemma_year_from(n, 0);
    let y = civil_year(n);
    assert(is_civil_year(n, y));
    lemma_months_total(y);
    lemma_month_from(n, y, 1);
    let m = civil_month(n);
    assert(is_civil_month(n, y, m));
    lemma_month_step(y, m);
}

/// Timestamps in different seconds format differently: the text fixes
/// the second.
pub proof fn lemma_iso8601_distinct_seconds(a: u64, b: u64)
    requires
        a / 1000 != b / 1000,
    ensures
        iso8601_text(a as int) != iso8601_text(b as int),
{
    if iso8601_text(a as int) == iso8601_text(b as int) {
        let (ya, ma, da, ha, ia, sa, na, oa) = iso_fields(a);
        let (yb, mb, db, hb, ib, sb, nb, ob) = iso_fields(b);
        let pa = padded_decimal(ya, 4);
        let pb = padded_decimal(yb, 4);
        let xa = iso_suffix(ma, da, ha, ia, sa);
        let xb = iso_suffix(mb, db, hb, ib, sb);
        lemma_suffix_len(ma, da, ha, ia, sa);
        lemma_suffix_len(mb, db, hb, ib, sb);
        assert(pa =~= (pa + xa).subrange(0, pa.len() as int));
        assert(pb =~= (pb + xb).subrange(0, pb.len() as int));
        assert(xa =~= (pa + xa).subrange(pa.len() as int, (pa + xa).len() as int));
        assert(xb =~= (pb + xb).subrange(pb.len() as int, (pb + xb).len() as int));
        lemma_padded_decimal(ya, yb, 4);
        lemma_suffix_fields(ma, da, ha, ia, sa, mb, db, hb, ib, sb);
        assert(na == nb);
        assert(oa == ob);
    }
}

/// The sixteen characters after the year: `-MM-DDTHH:MM:SSZ`.
pub open spec fn iso_suffix(mo: nat, d: nat, h: nat, mi: nat, s: nat) -> Seq<char> {
    seq!['-'] + padded_decimal(mo, 2) + seq!['-'] + padded_decimal(d, 2) + seq!['T'] + padded_decimal(h, 2)
        + seq![':'] + padded_decimal(mi, 2) + seq![':'] + padded_decimal(s, 2) + seq!['Z']
}

proof fn lemma_suffix_len(mo: nat, d: nat, h: nat, mi: nat, s: nat)
    requires
        mo < 100 && d < 100 && h < 100 && mi < 100 && s < 100,
    ensures
        iso_suffix(mo, d, h, mi, s).len() == 16,
        iso_suffix(mo, d, h, mi, s).subrange(1, 3) == padded_decimal(mo, 2),
        iso_suffix(mo, d, h, mi, s).subrange(4, 6) == padded_decimal(d, 2),
        iso_suffix(mo, d, h, mi, s).subrange(7, 9) == padded_decimal(h, 2),
        iso_suffix(mo, d, h, mi, s).subrange(10, 12) == padded_decimal(mi, 2),
        iso_suffix(mo, d, h, mi, s).subrange(13, 15) == padded_decimal(s, 2),
{
    lemma_padded_decimal(mo, mo, 2);
    lemma_padded_decimal(d, d, 2);
    lemma_padded_decimal(h, h, 2);
    lemma_padded_decimal(mi, mi, 2);
    lemma_padded_decimal(s, s, 2);
    let x = iso_suffix(mo, d, h, mi, s);
    assert(x.subrange(1, 3) =~= padded_decimal(mo, 2));
    assert(x.subrange(4, 6) =~= padded_decimal(d, 2));
    assert(x.subrange(7, 9) =~= padded_decimal(h, 2));
    assert(x.subrange(10, 12) =~= padded_decimal(mi, 2));
    assert(x.subrange(13, 15) =~= padded_decimal(s, 2));
}

proof fn lemma_suffix_fields(mo1: nat, d1: nat, h1: nat, mi1: nat, s1: nat, mo2: nat, d2: nat, h2: nat, mi2: nat, s2: nat)
    requires
        mo1 < 100 && d1 < 100 && h1 < 100 && mi1 < 100 && s1 < 100,
        mo2 < 100 && d2 < 100 && h2 < 100 && mi2 < 100 && s2 < 100,
        iso_suffix(mo1, d1, h1, mi1, s1) == iso_suffix(mo2, d2, h2, mi2, s2),
    ensures
        mo1 == mo2 && d1 == d2 && h1 == h2 && mi1 == mi2 && s1 == s2,
{
    lemma_suffix_len(mo1, d1, h1, mi1, s1);
    lemma_suffix_len(mo2, d2, h2, mi2, s2);
    lemma_padded_decimal(mo1, mo2, 2);
    lemma_padded_decimal(d1, d2, 2);
    lemma_padded_decimal(h1, h2, 2);
    lemma_padded_decimal(mi1, mi2, 2);
    lemma_padded_decimal(s1, s2, 2);
}

/// The fields of the text of `millis`: year, month, day, hour, minute,
/// second as rendered, then the day count and the second of the day. The
/// text is the year followed by sixteen characters of the other fields.
proof fn iso_fields(millis: u64) -> (r: (nat, nat, nat, nat, nat, nat, int, int))
    ensures
        ({
            let (y, mo, d, h, mi, s, n, sod) = r;
            &&& n == (millis as int / 1000) / 86_400
            &&& sod == (millis as int / 1000) % 86_400
            &&& 0 <= sod < 86_400
            &&& y == civil_year(n)
            &&& mo == civil_month(n)
            &&& d == civil_day(n)
            &&& h == sod / 3600
            &&& mi == (sod % 3600) / 60
            &&& s == sod % 60
            &&& mo < 100 && d < 100 && h < 100 && mi < 100 && s < 100
            &&& sod == 3600 * h + 60 * mi + s
            &&& d as int == n + epoch_offset() - days_to_year(y as int) - days_to_month(y as int, mo as int) + 1
            &&& iso8601_text(millis as int) == padded_decimal(y, 4) + iso_suffix(mo, d, h, mi, s)
        }),
{
    let secs = millis as int / 1000;
    let n = secs / 86_400;
    let sod = secs % 86_400;
    lemma_civil_date_exists(n);
    let y = civil_year(n) as nat;
    let mo = civil_month(n) as nat;
    let d = civil_day(n) as nat;
    let h = (sod / 3600) as nat;
    let mi = ((sod % 3600) / 60) as nat;
    let s = (sod % 60) as nat;
    assert(iso8601_text(millis as int) =~= padded_decimal(y, 4) + iso_suffix(mo, d, h, mi, s));
    (y, mo, d, h, mi, s, n, sod)
}

/// Calendar date `(year, month, day)` of the day `n` days after 1970-01-01.
fn civil_from_days(n: u64) -> (r: (u64, u64, u64))
    requires
        n <= 1_000_000_000_000,
    ensures
        is_civil_date(n as int, r.0 as int, r.1 as int, r.2 as int),
        r.0 >= 1970,
        1 <= r.1 <= 12,
        1 <= r.2 <= 31,
{
    let abs: u64 = n + 719_528;
    let era: u64 = abs / 146_097;
    let mut rem: u64 = abs % 146_097;
    let mut y: u64 = era * 400;
    proof {
        lemma_era(era as int);
    }
    loop
        invariant
            days_to_year(y as int) + rem == abs,
            era * 400 <= y < era * 400 + 400,
            abs < 146_097 * era + 146_097,
            abs == n + 719_528,
            n <= 1_000_000_000_000,
        ensures
            days_to_year(y as int) + rem == abs,
            rem < year_len(y as int),
            y < era * 400 + 400,
        decreases rem,
    {
        let len: u64 = if (y % 4 == 0 && y % 100 != 0) || y % 400 == 0 { 366 } else { 365 };
        if rem < len {
            break;
        }
        proof {
            lemma_year_step(y as int);
            if y + 1 == era * 400 + 400 {
                lemma_era(era as int + 1);
                assert(400 * (era as int + 1) == era * 400 + 400);
            }
        }
        rem = rem - len;
        y = y + 1;
    }
    proof {
        lemma_year_step(y as int);
        lemma_days_to_year_monotone(0, 1970);
        if y < 1970 {
            lemma_days_to_year_monotone(y as int + 1, 1970);
        }
        assert(is_civil_year(n as int, y as int));
    }
    let leap = (y % 4 == 0 && y % 100 != 0) || y % 400 == 0;
    let mut m: u64 = 1;
    let mut mrem: u64 = rem;
    proof {
        lemma_months_total(y as int);
    }
    loop
        invariant
            1 <= m <= 12,
            days_to_month(y as int, m as int) + mrem == rem,
            rem < year_len(y as int),
            leap == is_leap(y as int),
            days_to_month(y as int, 13) == year_len(y as int),
            is_civil_year(n as int, y as int),
            y >= 1970,
            rem == n + epoch_offset() - days_to_year(y as int),
        decreases 12 - m,
    {
        let ml: u64 = if m == 2 {
            if leap { 29 } else { 28 }
        } else if m == 4 || m == 6 || m == 9 || m == 11 {
            30
        } else {
            31
        };
        proof {
            lemma_month_step(y as int, m as int);
        }
        if mrem < ml || m == 12 {
            proof {
                if m == 12 {
                    assert(days_to_month(y as int, 13) == days_to_month(y as int, 12) + month_len(y as int, 12));
                }
            }
            return (y, m, mrem + 1);
        }
        mrem = mrem - ml;
        m = m + 1;
    }
}

/// Formats a unix-millisecond timestamp as an ISO-8601 second-precision
/// UTC string such as `"2026-05-13T20:00:00Z"`; the sub-second fraction is
/// dropped.
pub fn format_iso8601_utc(millis: u64) -> (res: String)
    ensures
        res@ == iso8601_text(millis as int),
{
    let total_secs = millis / 1000;
    let day = total_secs / 86_400;
    let sod = total_secs % 86_400;
    let hour = sod / 3600;
    let minute = (sod % 3600) / 60;
    let second = sod % 60;
    let (year, month, dom) = civil_from_days(day);
    proof {
        lemma_civil_fns(day as int, year as int, month as int, dom as int);
    }
    let mut out = String::new();
    push_padded4(&mut out, year);
    push_char(&mut out, '-');
    push_padded2(&mut out, month);
    push_char(&mut out, '-');
    push_padded2(&mut out, dom);
    push_char(&mut out, 'T');
    push_padded2(&mut out, hour);
    push_char(&mut out, ':');
    push_padded2(&mut out, minute);
    push_char(&mut out, ':');
    push_padded2(&mut out, second);
    push_char(&mut out, 'Z');
    assert(out@ =~= iso8601_text(millis as int));
    out
}

/// Timestamps that fall in the same second format identically: the
/// rendering drops the sub-second fraction.
pub proof fn lemma_iso8601_ignores_subsecond(a: u64, b: u64)
    requires
        a / 1000 == b / 1000,
    ensures
        iso8601_text(a as int) == iso8601_text(b as int),
{
}

} // verus!

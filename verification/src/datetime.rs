//! Calendar arithmetic for UNIX timestamps (UTC, proleptic Gregorian calendar)
//! and ISO-8601 rendering.

use vstd::prelude::*;
use crate::text::{push_char, push_zero_padded, zero_padded};
use vstd::arithmetic::div_mod::{lemma_fundamental_div_mod, lemma_div_denominator};

verus! {

/// Gregorian leap-year rule.
pub open spec fn is_leap(y: nat) -> bool {
    y % 4 == 0 && (y % 100 != 0 || y % 400 == 0)
}

/// Number of days in year `y`.
pub open spec fn year_len(y: nat) -> nat {
    if is_leap(y) { 366 } else { 365 }
}

/// Number of days in month `m` (1..=12) of year `y`.
pub open spec fn month_len(y: nat, m: nat) -> nat {
    if m == 2 {
        if is_leap(y) { 29 } else { 28 }
    } else if m == 4 || m == 6 || m == 9 || m == 11 {
        30
    } else {
        31
    }
}

/// Days from 1970-01-01 to the first day of year `y` (for `y >= 1970`).
pub open spec fn days_before_year(y: nat) -> nat
    decreases y,
{
    if y <= 1970 { 0 } else { days_before_year((y - 1) as nat) + year_len((y - 1) as nat) }
}

/// Days from the first of January of year `y` to the first day of month `m`.
pub open spec fn days_before_month(y: nat, m: nat) -> nat
    decreases m,
{
    if m <= 1 { 0 } else { days_before_month(y, (m - 1) as nat) + month_len(y, (m - 1) as nat) }
}

/// The UNIX timestamp of a calendar date and time of day (UTC).
pub open spec fn datetime_to_unix(y: nat, mo: nat, d: nat, h: nat, mi: nat, s: nat) -> int {
    (days_before_year(y) + days_before_month(y, mo) + d - 1) * 86400 + h * 3600 + mi * 60 + s
}

/// A well-formed calendar date and time of day, not before 1970.
pub open spec fn valid_datetime(y: nat, mo: nat, d: nat, h: nat, mi: nat, s: nat) -> bool {
    &&& y >= 1970
    &&& 1 <= mo <= 12
    &&& 1 <= d <= month_len(y, mo)
    &&& h < 24
    &&& mi < 60
    &&& s < 60
}

proof fn lemma_months_fill_year(y: nat)
    ensures
        days_before_month(y, 13) == year_len(y),
{
    reveal_with_fuel(days_before_month, 13);
}

proof fn lemma_split_timestamp(ts: nat)
    ensures
        ts == (ts / 86400) * 86400 + ((ts / 3600) % 24) * 3600 + ((ts / 60) % 60) * 60 + ts % 60,
        ts / 3600 == (ts / 60) / 60,
        ts / 86400 == ((ts / 60) / 60) / 24,
{
    let a = ts / 60;
    let b = a / 60;
    let c = b / 24;
    lemma_fundamental_div_mod(ts as int, 60);
    lemma_fundamental_div_mod(a as int, 60);
    lemma_fundamental_div_mod(b as int, 24);
    lemma_div_denominator(ts as int, 60, 60);
    lemma_div_denominator(ts as int, 3600, 24);
    assert(ts == c * 86400 + (b % 24) * 3600 + (a % 60) * 60 + ts % 60) by (nonlinear_arith)
        requires
            ts == 60 * a + ts % 60,
            a == 60 * b + a % 60,
            b == 24 * c + b % 24,
    ;
}

proof fn lemma_quot_rem_unique(q1: int, r1: int, q2: int, r2: int, k: int)
    requires
        k > 0,
        0 <= r1 < k,
        0 <= r2 < k,
        q1 * k + r1 == q2 * k + r2,
    ensures
        q1 == q2,
        r1 == r2,
{
    if q1 < q2 {
        assert(q1 * k + k <= q2 * k) by (nonlinear_arith)
            requires q1 < q2, k > 0;
    } else if q2 < q1 {
        assert(q2 * k + k <= q1 * k) by (nonlinear_arith)
            requires q2 < q1, k > 0;
    }
}

proof fn lemma_months_increase(y: nat, m1: nat, m2: nat)
    requires
        1 <= m1 < m2,
    ensures
        days_before_month(y, m1) + month_len(y, m1) <= days_before_month(y, m2),
    decreases m2 - m1,
{
    if m2 > m1 + 1 {
        lemma_months_increase(y, m1, (m2 - 1) as nat);
    }
}

proof fn lemma_years_increase(y1: nat, y2: nat)
    requires
        1970 <= y1 < y2,
    ensures
        days_before_year(y1) + year_len(y1) <= days_before_year(y2),
    decreases y2 - y1,
{
    if y2 > y1 + 1 {
        lemma_years_increase(y1, (y2 - 1) as nat);
    }
}

proof fn lemma_day_of_year_bound(y: nat, mo: nat, d: nat)
    requires
        1 <= mo <= 12,
        1 <= d <= month_len(y, mo),
    ensures
        days_before_month(y, mo) + d - 1 < year_len(y),
{
    lemma_months_fill_year(y);
    lemma_months_increase(y, mo, 13);
}

/// Calendar decomposition is unique: two valid dates and times with the same
/// timestamp are the same date and time.
pub proof fn lemma_datetime_unique(
    y1: nat, mo1: nat, d1: nat, h1: nat, mi1: nat, s1: nat,
    y2: nat, mo2: nat, d2: nat, h2: nat, mi2: nat, s2: nat,
)
    requires
        valid_datetime(y1, mo1, d1, h1, mi1, s1),
        valid_datetime(y2, mo2, d2, h2, mi2, s2),
        datetime_to_unix(y1, mo1, d1, h1, mi1, s1) == datetime_to_unix(y2, mo2, d2, h2, mi2, s2),
    ensures
        y1 == y2 && mo1 == mo2 && d1 == d2 && h1 == h2 && mi1 == mi2 && s1 == s2,
{
    let day1 = days_before_year(y1) + days_before_month(y1, mo1) + d1 - 1;
    let day2 = days_before_year(y2) + days_before_month(y2, mo2) + d2 - 1;
    lemma_quot_rem_unique(day1, (h1 * 3600 + mi1 * 60 + s1) as int, day2, (h2 * 3600 + mi2 * 60 + s2) as int, 86400);
    lemma_quot_rem_unique(h1 as int, (mi1 * 60 + s1) as int, h2 as int, (mi2 * 60 + s2) as int, 3600);
    lemma_quot_rem_unique(mi1 as int, s1 as int, mi2 as int, s2 as int, 60);
    lemma_day_of_year_bound(y1, mo1, d1);
    lemma_day_of_year_bound(y2, mo2, d2);
    if y1 < y2 {
        lemma_years_increase(y1, y2);
    } else if y2 < y1 {
        lemma_years_increase(y2, y1);
    }
    assert(y1 == y2);
    if mo1 < mo2 {
        lemma_months_increase(y1, mo1, mo2);
    } else if mo2 < mo1 {
        lemma_months_increase(y1, mo2, mo1);
    }
}

/// Round trip: splitting the timestamp of a valid date and time gives that date and time back.
pub proof fn lemma_unix_round_trip(y: nat, mo: nat, d: nat, h: nat, mi: nat, s: nat, res: (u64, u64, u64, u64, u64, u64))
    requires
        valid_datetime(y, mo, d, h, mi, s),
        valid_datetime(res.0 as nat, res.1 as nat, res.2 as nat, res.3 as nat, res.4 as nat, res.5 as nat),
        datetime_to_unix(res.0 as nat, res.1 as nat, res.2 as nat, res.3 as nat, res.4 as nat, res.5 as nat)
            == datetime_to_unix(y, mo, d, h, mi, s),
    ensures
        res.0 == y && res.1 == mo && res.2 == d && res.3 == h && res.4 == mi && res.5 == s,
{
    lemma_datetime_unique(y, mo, d, h, mi, s, res.0 as nat, res.1 as nat, res.2 as nat, res.3 as nat, res.4 as nat, res.5 as nat);
}

/// Number of days of month `month` (1..=12) in a year that is (or is not) a leap year.
fn month_days(leap: bool, month: u64) -> (n: u64)
    requires
        1 <= month <= 12,
    ensures
        forall|y: nat| is_leap(y) == leap ==> n == month_len(y, month as nat),
{
    if month == 2 {
        if leap { 29 } else { 28 }
    } else if month == 4 || month == 6 || month == 9 || month == 11 {
        30
    } else {
        31
    }
}

/// Splits a UNIX timestamp into (year, month, day, hour, minute, second), UTC.
/// The result is the unique valid calendar date and time whose timestamp is `ts`.
pub fn unix_to_datetime(ts: u64) -> (res: (u64, u64, u64, u64, u64, u64))
    ensures
        valid_datetime(res.0 as nat, res.1 as nat, res.2 as nat, res.3 as nat, res.4 as nat, res.5 as nat),
        datetime_to_unix(res.0 as nat, res.1 as nat, res.2 as nat, res.3 as nat, res.4 as nat, res.5 as nat) == ts,
{
    let s = ts % 60;
    let rest = ts / 60;
    let mi = rest % 60;
    let rest = rest / 60;
    let h = rest % 24;
    let total_days = rest / 24;
    proof {
        lemma_split_timestamp(ts as nat);
    }
    assert(total_days <= 213503982334601) by (nonlinear_arith)
        requires total_days == ts / 86400, ts <= 0xffff_ffff_ffff_ffff;
    let mut days: u64 = total_days;
    let mut year: u64 = 1970;
    loop
        invariant
            1970 <= year,
            total_days <= 213503982334601,
            year - 1970 <= total_days - days,
            days <= total_days,
            days_before_year(year as nat) + days == total_days,
        ensures
            1970 <= year,
            days_before_year(year as nat) + days == total_days,
            days < year_len(year as nat),
        decreases days,
    {
        let leap = year % 4 == 0 && (year % 100 != 0 || year % 400 == 0);
        let dy: u64 = if leap { 366 } else { 365 };
        assert(dy == year_len(year as nat));
        if days < dy {
            break;
        }
        days = days - dy;
        proof {
            assert(days_before_year((year + 1) as nat) == days_before_year(year as nat) + year_len(year as nat));
        }
        year = year + 1;
    }
    let leap = year % 4 == 0 && (year % 100 != 0 || year % 400 == 0);
    assert(leap == is_leap(year as nat));
    assert(days < year_len(year as nat));
    proof {
        lemma_months_fill_year(year as nat);
    }
    let mut month: u64 = 1;
    loop
        invariant
            1 <= month <= 12,
            leap == is_leap(year as nat),
            days_before_month(year as nat, month as nat) + days == total_days - days_before_year(year as nat),
            days_before_month(year as nat, month as nat) + days < year_len(year as nat),
            days_before_month(year as nat, 13) == year_len(year as nat),
        ensures
            1 <= month <= 12,
            days_before_month(year as nat, month as nat) + days == total_days - days_before_year(year as nat),
            days < month_len(year as nat, month as nat),
        decreases 12 - month,
    {
        let m = month_days(leap, month);
        if days < m {
            break;
        }
        days = days - m;
        proof {
            assert(days_before_month(year as nat, (month + 1) as nat)
                == days_before_month(year as nat, month as nat) + month_len(year as nat, month as nat));
            if month == 12 {
                assert(false);
            }
        }
        month = month + 1;
    }
    (year, month, days + 1, h, mi, s)
}

/// The ISO-8601 rendering `YYYY-MM-DDTHH:MM:SSZ` of a timestamp (numeric fields
/// zero-padded to 4/2/2/2/2/2 characters, wider fields are not cut).
pub open spec fn iso_text(y: nat, mo: nat, d: nat, h: nat, mi: nat, s: nat) -> Seq<char> {
    zero_padded(y, 4) + seq!['-'] + zero_padded(mo, 2) + seq!['-'] + zero_padded(d, 2)
        + seq!['T'] + zero_padded(h, 2) + seq![':'] + zero_padded(mi, 2) + seq![':']
        + zero_padded(s, 2) + seq!['Z']
}

/// The ISO-8601 text of the timestamp `ts`.
pub open spec fn iso_of_unix(ts: nat) -> Seq<char> {
    let (y, mo, d, h, mi, s) = choose|y: nat, mo: nat, d: nat, h: nat, mi: nat, s: nat|
        valid_datetime(y, mo, d, h, mi, s) && datetime_to_unix(y, mo, d, h, mi, s) == ts;
    iso_text(y, mo, d, h, mi, s)
}

/// Renders a timestamp as `YYYY-MM-DDTHH:MM:SSZ`.
pub fn iso_from_unix(ts: u64) -> (res: String)
    ensures
        res@ == iso_of_unix(ts as nat),
{
    let (y, mo, d, h, mi, s) = unix_to_datetime(ts);
    let mut out = String::new();
    push_zero_padded(&mut out, y, 4);
    push_char(&mut out, '-');
    push_zero_padded(&mut out, mo, 2);
    push_char(&mut out, '-');
    push_zero_padded(&mut out, d, 2);
    push_char(&mut out, 'T');
    push_zero_padded(&mut out, h, 2);
    push_char(&mut out, ':');
    push_zero_padded(&mut out, mi, 2);
    push_char(&mut out, ':');
    push_zero_padded(&mut out, s, 2);
    push_char(&mut out, 'Z');
    proof {
        assert(out@ =~= iso_text(y as nat, mo as nat, d as nat, h as nat, mi as nat, s as nat));
        let w = (y as nat, mo as nat, d as nat, h as nat, mi as nat, s as nat);
        assert(valid_datetime(w.0, w.1, w.2, w.3, w.4, w.5) && datetime_to_unix(w.0, w.1, w.2, w.3, w.4, w.5) == ts);
        let (y2, mo2, d2, h2, mi2, s2) = choose|y: nat, mo: nat, d: nat, h: nat, mi: nat, s: nat|
            valid_datetime(y, mo, d, h, mi, s) && datetime_to_unix(y, mo, d, h, mi, s) == ts;
        lemma_datetime_unique(y2, mo2, d2, h2, mi2, s2, w.0, w.1, w.2, w.3, w.4, w.5);
    }
    out
}

/// Current UNIX time in whole seconds, read from the system clock (`SystemTime::now`
/// measured from `UNIX_EPOCH`; a clock before the epoch reads as 0). Nothing is promised
/// of the value: it depends on the moment of the call.
#[verifier::external_body]
fn unix_seconds_now() -> u64 {
    std::time::SystemTime::now()
        .duration_since(std::time::SystemTime::UNIX_EPOCH)
        .unwrap_or_default()
        .as_secs()
}

/// The current time as `YYYY-MM-DDTHH:MM:SSZ`.
pub fn iso_now() -> (res: String)
    ensures
        exists|ts: u64| res@ == iso_of_unix(ts as nat),
{
    let ts = unix_seconds_now();
    iso_from_unix(ts)
}

/// `s` without any ':' or '-' characters.
pub open spec fn strip_separators(s: Seq<char>) -> Seq<char>
    decreases s.len(),
{
    if s.len() == 0 {
        s
    } else {
        let rest = strip_separators(s.drop_last());
        if s.last() != ':' && s.last() != '-' { rest.push(s.last()) } else { rest }
    }
}

/// `min(len, 15)`: how many characters of a stripped stamp are kept.
pub open spec fn stamp_len(len: nat) -> nat {
    if len < 15 { len } else { 15 }
}

/// The compact stamp used in tournament folder names: the text with every ':' and '-'
/// removed, cut to its first 15 characters.
pub fn compact_timestamp(iso: &str) -> (res: String)
    ensures
        res@ == strip_separators(iso@).take(stamp_len(strip_separators(iso@).len()) as int),
{
    let len = iso.unicode_len();
    let mut out = String::new();
    let mut i: usize = 0;
    let mut taken: usize = 0;
    while i < len
        invariant
            len == iso@.len(),
            i <= len,
            taken == out@.len(),
            taken <= 15,
            out@ == strip_separators(iso@.subrange(0, i as int)).take(taken as int),
            taken == stamp_len(strip_separators(iso@.subrange(0, i as int)).len()),
        decreases len - i,
    {
        let c = iso.get_char(i);
        proof {
            let pre = iso@.subrange(0, i as int);
            assert(iso@.subrange(0, i + 1) =~= pre.push(c));
            assert(pre.push(c).drop_last() =~= pre);
        }
        if c != ':' && c != '-' && taken < 15 {
            push_char(&mut out, c);
            taken = taken + 1;
            proof {
                let pre = iso@.subrange(0, i as int);
                assert(out@ =~= strip_separators(iso@.subrange(0, i + 1)).take(taken as int));
            }
        } else {
            proof {
                let pre = iso@.subrange(0, i as int);
                if c != ':' && c != '-' {
                    assert(out@ =~= strip_separators(iso@.subrange(0, i + 1)).take(taken as int));
                }
            }
        }
        i = i + 1;
    }
    proof {
        assert(iso@.subrange(0, len as int) =~= iso@);
    }
    out
}

/// Splits a duration in whole seconds into hours, minutes and seconds, as printed
/// after a long run.
pub fn split_elapsed(secs: u64) -> (res: (u64, u64, u64))
    ensures
        res.0 * 3600 + res.1 * 60 + res.2 == secs,
        res.1 < 60,
        res.2 < 60,
        res.0 == secs / 3600,
{
    let h = secs / 3600;
    let m = (secs % 3600) / 60;
    let s = secs % 60;
    assert(h * 3600 + m * 60 + s == secs) by (nonlinear_arith)
        requires
            h == secs / 3600,
            m == (secs % 3600) / 60,
            s == secs % 60;
    (h, m, s)
}

} // verus!

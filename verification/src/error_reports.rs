//! Harmonised on-disk fault reports. Every incident lands in one directory
//! under the state dir, named so that a plain alphabetical listing reads as a
//! chronological log: `YYYY-MM-DD_HHMMSS-<kind>-<label>`.
//!
//! Also home of the calendar conversion from Unix day numbers to dates.

use crate::paths::{join, join_spec};
use crate::text::{chars_of, push_chars, push_zero_padded, string_of, zero_padded};
use vstd::prelude::*;

verus! {

/// Calendar date `(year, month, day)` of a Unix day number, in the proleptic
/// Gregorian calendar (Howard Hinnant's `civil_from_days`), with floor
/// divisions throughout.
pub open spec fn civil_from_days_spec(days: int) -> (int, int, int) {
    let z = days + 719468;
    let era = z / 146097;
    let doe = z - era * 146097;
    let yoe = (doe - doe / 1460 + doe / 36524 - doe / 146096) / 365;
    let doy = doe - (365 * yoe + yoe / 4 - yoe / 100);
    let mp = (5 * doy + 2) / 153;
    let day = doy - (153 * mp + 2) / 5 + 1;
    let month = if mp < 10 {
        mp + 3
    } else {
        mp - 9
    };
    (yoe + era * 400 + if month <= 2 {
        1int
    } else {
        0int
    }, month, day)
}

/// The per-era quantities, for a day of era in `0..146097`: the year of the
/// era stays below 400, the day of the year within a year, and month and day
/// within their ranges.
pub proof fn lemma_era_day_bounds(doe: u32)
    requires
        doe <= 146096,
    ensures
        ({
            let yoe = (doe - doe / 1460 + doe / 36524 - doe / 146096) / 365;
            let doy = doe - (365 * yoe + yoe / 4 - yoe / 100);
            let mp = (5 * doy + 2) / 153;
            &&& 0 <= yoe <= 399
            &&& 0 <= doy <= 365
            &&& 0 <= mp <= 11
            &&& 1 <= doy - (153 * mp + 2) / 5 + 1 <= 31
        }),
{
    assert({
        let yoe: u32 = ((doe - doe / 1460 + doe / 36524 - doe / 146096) / 365) as u32;
        let doy: u32 = (doe - (365 * yoe + yoe / 4 - yoe / 100)) as u32;
        &&& doe - (365 * yoe + yoe / 4 - yoe / 100) >= 0
        &&& yoe <= 399
        &&& doy <= 365
    }) by (bit_vector)
        requires
            doe <= 146096,
    ;
    let yoe = (doe - doe / 1460 + doe / 36524 - doe / 146096) / 365;
    let doy = doe - (365 * yoe + yoe / 4 - yoe / 100);
    lemma_month_day_bounds(doy as u32);
}

proof fn lemma_month_day_bounds(doy: u32)
    requires
        doy <= 365,
    ensures
        ({
            let mp = (5 * doy + 2) / 153;
            &&& 0 <= mp <= 11
            &&& 1 <= doy - (153 * mp + 2) / 5 + 1 <= 31
        }),
{
    assert({
        let mp: u32 = ((5 * doy + 2) / 153) as u32;
        &&& mp <= 11
        &&& doy + 1 >= (153 * mp + 2) / 5 + 1
        &&& doy - (153 * mp + 2) / 5 + 1 <= 31
    }) by (bit_vector)
        requires
            doy <= 365,
    ;
}

/// Floor division of `z` by 146097, written for negative `z` as a truncating
/// division after subtracting 146096.
fn era_of(z: i64) -> (era: i64)
    requires
        z >= i64::MIN + 719_468,
    ensures
        era as int == z as int / 146097,
{
    if z >= 0 {
        z / 146_097
    } else {
        let q: i64 = (146_096 - z) / 146_097;
        proof {
            let r = z + q * 146097;
            vstd::arithmetic::div_mod::lemma_fundamental_div_mod(146096 - z, 146097);
            vstd::arithmetic::div_mod::lemma_mod_bound(146096 - z, 146097);
            vstd::arithmetic::div_mod::lemma_fundamental_div_mod_converse(z as int, 146097, -q, r);
        }
        -q
    }
}

/// Calendar date from a Unix day number. Howard Hinnant's `civil_from_days`.
pub fn civil_from_days(days: i64) -> (r: (i64, u32, u32))
    requires
        days <= i64::MAX - 719_468,
    ensures
        r.0 as int == civil_from_days_spec(days as int).0,
        r.1 as int == civil_from_days_spec(days as int).1,
        r.2 as int == civil_from_days_spec(days as int).2,
        1 <= r.1 <= 12,
        1 <= r.2 <= 31,
{
    let z = days + 719_468;
    let era = era_of(z);
    proof {
        vstd::arithmetic::div_mod::lemma_fundamental_div_mod(z as int, 146097);
        vstd::arithmetic::div_mod::lemma_mod_bound(z as int, 146097);
    }
    let day_of_era = z - era * 146_097;
    proof {
        lemma_era_day_bounds(day_of_era as u32);
    }
    let year_of_era = (day_of_era - day_of_era / 1460 + day_of_era / 36_524 - day_of_era / 146_096)
        / 365;
    let year = year_of_era + era * 400;
    let day_of_year = day_of_era - (365 * year_of_era + year_of_era / 4 - year_of_era / 100);
    let mp = (5 * day_of_year + 2) / 153;
    let day = (day_of_year - (153 * mp + 2) / 5 + 1) as u32;
    let month = (if mp < 10 {
        mp + 3
    } else {
        mp - 9
    }) as u32;
    (year + if month <= 2 {
        1
    } else {
        0
    }, month, day)
}

/// `YYYY-MM-DD_HHMMSS` for `secs` seconds after the epoch, in UTC.
pub open spec fn utc_stamp_spec(secs: int) -> Seq<char> {
    let (year, month, day) = civil_from_days_spec(secs / 86400);
    let time = secs % 86400;
    zero_padded(year, 4) + seq!['-'] + zero_padded(month, 2) + seq!['-'] + zero_padded(day, 2)
        + seq!['_'] + zero_padded(time / 3600, 2) + zero_padded((time % 3600) / 60, 2)
        + zero_padded(time % 60, 2)
}

/// `YYYY-MM-DD_HHMMSS` in UTC — a lexical sort of these equals a chronological one.
pub fn utc_stamp(secs: u64) -> (r: String)
    ensures
        r@ == utc_stamp_spec(secs as int),
{
    let (year, month, day) = civil_from_days((secs / 86_400) as i64);
    let time = secs % 86_400;
    let (hour, minute, second) = (time / 3600, (time % 3600) / 60, time % 60);
    let mut out: Vec<char> = Vec::new();
    push_zero_padded(&mut out, year, 4);
    out.push('-');
    push_zero_padded(&mut out, month as i64, 2);
    out.push('-');
    push_zero_padded(&mut out, day as i64, 2);
    out.push('_');
    push_zero_padded(&mut out, hour as i64, 2);
    push_zero_padded(&mut out, minute as i64, 2);
    push_zero_padded(&mut out, second as i64, 2);
    assert(out@ =~= utc_stamp_spec(secs as int));
    string_of(&out)
}

/// The report name for a report made at `secs`: the stamp, the kind and the
/// label, joined by hyphens.
pub open spec fn stamped_name_spec(secs: int, kind: Seq<char>, label: Seq<char>) -> Seq<char> {
    utc_stamp_spec(secs) + seq!['-'] + kind + seq!['-'] + label
}

/// A dated, type-tagged report name for a report made at `secs`.
pub fn stamped_name_at(secs: u64, kind: &str, label: &str) -> (r: String)
    ensures
        r@ == stamped_name_spec(secs as int, kind@, label@),
{
    let stamp = chars_of(utc_stamp(secs).as_str());
    let mut out: Vec<char> = Vec::new();
    push_chars(&mut out, &stamp);
    out.push('-');
    push_chars(&mut out, &chars_of(kind));
    out.push('-');
    push_chars(&mut out, &chars_of(label));
    assert(out@ =~= stamped_name_spec(secs as int, kind@, label@));
    string_of(&out)
}

/// The current time in whole seconds since the Unix epoch, from
/// `SystemTime::now()` (0 for a clock set before the epoch). Nothing is
/// stated of the value: it is the clock's.
#[verifier::external_body]
pub(crate) fn now_unix() -> (r: u64) {
    std::time::SystemTime::now().duration_since(std::time::UNIX_EPOCH).map(|d| d.as_secs()).unwrap_or(
        0,
    )
}

/// A dated, type-tagged report name. Callers use it as-is for a folder, or
/// append an extension for a file.
pub fn stamped_name(kind: &str, label: &str) -> (r: String)
    ensures
        exists|secs: u64| r@ == stamped_name_spec(secs as int, kind@, label@),
{
    stamped_name_at(now_unix(), kind, label)
}

/// Where fault reports go: `error_reports` in the state directory.
pub fn dir(state_dir: &str) -> (r: String)
    ensures
        r@ == join_spec(
            state_dir@,
            seq!['e', 'r', 'r', 'o', 'r', '_', 'r', 'e', 'p', 'o', 'r', 't', 's'],
        ),
{
    let name = crate::text::string_of(
        &['e', 'r', 'r', 'o', 'r', '_', 'r', 'e', 'p', 'o', 'r', 't', 's'],
    );
    join(state_dir, name.as_str())
}

} // verus!

//! The two calendar conversions undo each other.

use crate::error_reports::{civil_from_days_spec, lemma_era_day_bounds};
use crate::messages::days_from_civil_spec;
use vstd::prelude::*;

verus! {

/// `days_from_civil` inverts `civil_from_days`: the date of a day number
/// converts back to that day number, for every day number.
pub proof fn lemma_days_from_civil_inverts(d: int)
    ensures
        ({
            let (y, m, dd) = civil_from_days_spec(d);
            days_from_civil_spec(y, m, dd) == d
        }),
{
    let z = d + 719468;
    let era = z / 146097;
    vstd::arithmetic::div_mod::lemma_fundamental_div_mod(z, 146097);
    vstd::arithmetic::div_mod::lemma_mod_bound(z, 146097);
    let doe = z - era * 146097;
    assert(0 <= doe <= 146096);
    lemma_era_day_bounds(doe as u32);
    let yoe = (doe - doe / 1460 + doe / 36524 - doe / 146096) / 365;
    let doy = doe - (365 * yoe + yoe / 4 - yoe / 100);
    let mp = (5 * doy + 2) / 153;
    let day = doy - (153 * mp + 2) / 5 + 1;
    let month = if mp < 10 {
        mp + 3
    } else {
        mp - 9
    };
    assert(0 <= yoe <= 399);
    assert(0 <= mp <= 11);
    let (y, m, dd) = civil_from_days_spec(d);
    assert(m == month && dd == day);
    let yy = y - if m <= 2 {
        1int
    } else {
        0int
    };
    assert(yy == yoe + era * 400);
    vstd::arithmetic::div_mod::lemma_fundamental_div_mod_converse(yy, 400, era, yoe);
    assert(yy / 400 == era);
    let mp2 = if m > 2 {
        m - 3
    } else {
        m + 9
    };
    assert(mp2 == mp);
}

/// Every date `civil_from_days` gives has a month in 1..=12 and a day in 1..=31.
pub proof fn lemma_civil_ranges(d: int)
    ensures
        1 <= civil_from_days_spec(d).1 <= 12,
        1 <= civil_from_days_spec(d).2 <= 31,
{
    let z = d + 719468;
    let era = z / 146097;
    vstd::arithmetic::div_mod::lemma_fundamental_div_mod(z, 146097);
    vstd::arithmetic::div_mod::lemma_mod_bound(z, 146097);
    let doe = z - era * 146097;
    lemma_era_day_bounds(doe as u32);
}

} // verus!

//! Dates as seconds since the Unix epoch, and the day arithmetic on them.
use chrono::TimeZone;
use vstd::prelude::*;

verus! {

/// Seconds in a day.
pub const SECONDS_PER_DAY: i64 = 86400;

/// Whole days from `earlier` to `later`, truncated toward zero: what
/// `(later - earlier).num_days()` gives for two dates.
pub open spec fn days_between(later: int, earlier: int) -> int {
    let d = later - earlier;
    if d >= 0 {
        d / 86400
    } else {
        -((-d) / 86400)
    }
}

/// The number of whole days grows (weakly) with the time span.
pub proof fn lemma_days_between_monotone(later: int, e1: int, e2: int)
    requires
        e1 <= e2,
    ensures
        days_between(later, e2) <= days_between(later, e1),
{
    let d1 = later - e1;
    let d2 = later - e2;
    assert(d2 <= d1);
    if d2 >= 0 {
        vstd::arithmetic::div_mod::lemma_div_is_ordered(d2, d1, 86400);
    } else if d1 >= 0 {
        assert((-d2) / 86400 >= 0) by {
            vstd::arithmetic::div_mod::lemma_div_pos_is_pos(-d2, 86400);
        }
        assert(d1 / 86400 >= 0) by {
            vstd::arithmetic::div_mod::lemma_div_pos_is_pos(d1, 86400);
        }
    } else {
        vstd::arithmetic::div_mod::lemma_div_is_ordered(-d1, -d2, 86400);
    }
}

/// Whole days from `earlier` to `later`, truncated toward zero.
pub fn days_since(later: i64, earlier: i64) -> (r: i64)
    ensures
        r == days_between(later as int, earlier as int),
{
    let d: i128 = later as i128 - earlier as i128;
    if d >= 0 {
        (d / 86400) as i64
    } else {
        let m: i128 = 0i128 - d;
        (0i128 - m / 86400) as i64
    }
}

/// Whether chrono can represent the date `secs` seconds after the epoch
/// (`Utc.timestamp_opt(secs, 0)` has a single result).
pub uninterp spec fn chrono_timestamp_valid(secs: i64) -> bool;

/// Whether chrono can represent the date `secs` seconds after the epoch:
/// `Utc.timestamp_opt(secs, 0).single().is_some()`. Its result is named
/// `chrono_timestamp_valid`, a function of `secs` alone; the exact range
/// (about 262 000 years either side of the epoch) is left to chrono.
#[verifier::external_body]
pub(crate) fn timestamp_valid(secs: i64) -> (r: bool)
    ensures
        r == chrono_timestamp_valid(secs),
{
    chrono::Utc.timestamp_opt(secs, 0).single().is_some()
}

} // verus!

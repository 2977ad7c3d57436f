//! Calls into the environment: the clock, and identifier generation.

use vstd::prelude::*;
use crate::types::TS_MAX;

verus! {

/// Relies on chrono's `Utc::now`: the current moment as a UTC datetime.
/// Its seconds-since-epoch value is non-negative (the call does not return
/// on a pre-epoch system clock) and lies within the range a calendar
/// datetime can denote, well inside `TS_MAX`.
#[verifier::external_body]
pub(crate) fn now_seconds() -> (r: i64)
    ensures
        0 <= r <= TS_MAX,
{
    chrono::Utc::now().timestamp()
}

/// Relies on uuid's `Uuid::new_v4`, rendered through its display form: a
/// fresh random identifier whose hyphenated text is exactly 36 characters.
#[verifier::external_body]
pub(crate) fn fresh_activity_id() -> (r: String)
    ensures
        r@.len() == 36,
{
    uuid::Uuid::new_v4().to_string()
}

} // verus!

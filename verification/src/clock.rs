//! The single clock read of the library.

use vstd::prelude::*;
use crate::model::Timestamp;

verus! {

/// Relies on `time::OffsetDateTime::now_utc` and its `unix_timestamp`,
/// `year`, `month` and `day` accessors: one clock reading, handed out as
/// plain values. The calendar fields lie in their documented ranges
/// (`month` 1..=12, `day` 1..=31, `year` -9999..=9999 when the crate's
/// `large-dates` feature is off, as here). Nothing else can be promised of
/// the current time, so callers state what holds of every reading. On a
/// system whose clock stands outside that representable range the call does
/// not return; no `requires` can name an environment condition, so that
/// stands here as a caveat instead.
#[verifier::external_body]
pub(crate) fn clock_now() -> (r: Timestamp)
    ensures
        r.wf(),
{
    let now = time::OffsetDateTime::now_utc();
    Timestamp {
        unix: now.unix_timestamp(),
        year: now.year(),
        month: now.month() as u8,
        day: now.day(),
    }
}

} // verus!

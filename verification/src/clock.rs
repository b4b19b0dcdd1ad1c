//! Wall-clock time, in milliseconds since the Unix epoch.

use vstd::prelude::*;

verus! {

/// Earliest instant chrono can represent (`DateTime::<Utc>::MIN_UTC`), in milliseconds.
pub const MIN_TIMESTAMP_MS: i64 = -8_334_601_315_200_000;

/// Latest instant chrono can represent (`DateTime::<Utc>::MAX_UTC`), in milliseconds.
pub const MAX_TIMESTAMP_MS: i64 = 8_210_266_876_799_999;

/// An instant that a `DateTime<Utc>` can hold.
pub open spec fn timestamp_in_range(t: i64) -> bool {
    MIN_TIMESTAMP_MS <= t <= MAX_TIMESTAMP_MS
}

/// chrono's `Utc::now()` as milliseconds since the epoch (`timestamp_millis`). What time it
/// is depends on the machine; only that the value is an instant chrono can represent is stated.
#[verifier::external_body]
pub(crate) fn now_millis() -> (r: i64)
    ensures
        timestamp_in_range(r),
{
    chrono::Utc::now().timestamp_millis()
}

} // verus!

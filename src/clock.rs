//! The monotonic wall clock that anchors compositions and producers.
use vstd::prelude::*;

verus! {

/// Relies on coarsetime's `Instant::now`, `Instant::as_ticks`,
/// `Duration::from_ticks` and `Duration::as_millis`: a reading of the
/// monotonic clock in milliseconds since an unspecified origin. Nothing is
/// promised of the value.
#[verifier::external_body]
pub(crate) fn now_millis() -> (r: u64) {
    coarsetime::Duration::from_ticks(coarsetime::Instant::now().as_ticks()).as_millis()
}

} // verus!

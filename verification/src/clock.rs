//! The monotonic clock and the shared stop flag the search consults.
use vstd::prelude::*;

verus! {

#[verifier::external_type_specification]
#[verifier::external_body]
pub struct ExInstant(std::time::Instant);

/// `Instant::now`. Nothing is claimed of the instant it reads.
#[verifier::external_body]
pub(crate) fn instant_now() -> std::time::Instant {
    std::time::Instant::now()
}

/// `Instant::elapsed`. Nothing is claimed of the duration.
#[verifier::external_body]
pub(crate) fn elapsed_since(t: &std::time::Instant) -> std::time::Duration {
    t.elapsed()
}

/// Whether the stop flag is raised: whatever was last stored into it,
/// possibly by another thread.
pub(crate) fn flag_is_set(f: &std::sync::atomic::AtomicBool) -> bool {
    f.load(std::sync::atomic::Ordering::Relaxed)
}

/// `Arc::clone`: another handle on the same flag. Nothing is claimed.
#[verifier::external_body]
pub(crate) fn share_flag(
    f: &std::sync::Arc<std::sync::atomic::AtomicBool>,
) -> std::sync::Arc<std::sync::atomic::AtomicBool> {
    std::sync::Arc::clone(f)
}

} // verus!

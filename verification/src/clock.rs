use vstd::prelude::*;

verus! {

/// `std::time::Instant` is opaque to the verifier: nothing is known of a
/// value of it beyond its identity.  The cache stores one as the origin of
/// its private time scale and measures all timestamps against it.
#[verifier::external_type_specification]
#[verifier::external_body]
pub struct ExInstant(std::time::Instant);

/// Relies on `std::time::Instant::now`: a reading of the monotonic clock.
/// The result depends on the moment of the call, so nothing is promised
/// of it.
#[verifier::external_body]
pub(crate) fn instant_now() -> std::time::Instant {
    std::time::Instant::now()
}

/// Relies on `std::time::Instant::saturating_duration_since`: the time
/// elapsed from `earlier` to `later`, or zero if `later` is the earlier of
/// the two.  The result is converted to whole milliseconds, clamped to
/// `u64::MAX`.  Which value comes back depends on the two opaque instants,
/// so nothing is promised of it.
#[verifier::external_body]
pub(crate) fn millis_between(earlier: &std::time::Instant, later: &std::time::Instant) -> u64 {
    let millis: u128 = later.saturating_duration_since(*earlier).as_millis();
    if millis > u64::MAX as u128 {
        u64::MAX
    } else {
        millis as u64
    }
}

} // verus!

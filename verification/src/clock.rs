//! The clock that stamps session activity.

use std::time::Instant;
use vstd::prelude::*;

verus! {

/// `std::time::Instant`, carried through as an opaque point in time.
#[verifier::external_type_specification]
#[verifier::external_body]
pub struct ExInstant(std::time::Instant);

/// Reads the runtime clock through `tokio::time::Instant::now` and hands the
/// reading back as a `std::time::Instant`. Nothing is claimed of the reading:
/// two calls may return different instants.
#[verifier::external_body]
pub(crate) fn now() -> (t: Instant) {
    tokio::time::Instant::now().into_std()
}

} // verus!

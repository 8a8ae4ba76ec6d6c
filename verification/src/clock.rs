//! The current time, from the `chrono` crate.
use vstd::prelude::*;

verus! {

/// The local time now, as the seconds since the Unix epoch and the
/// nanoseconds past that second (`chrono::Local::now`, read with
/// `timestamp` and `timestamp_subsec_nanos`). Nothing is stated of the
/// values: they are the clock's.
#[verifier::external_body]
pub(crate) fn local_now() -> (i64, u32) {
    let now = chrono::Local::now();
    (now.timestamp(), now.timestamp_subsec_nanos())
}

} // verus!

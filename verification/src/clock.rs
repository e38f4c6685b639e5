//! The one place the crate reads the wall clock.

use vstd::prelude::*;

verus! {

/// Relies on std::time::SystemTime::now and SystemTime::duration_since:
/// whole milliseconds of wall-clock time since the Unix epoch, zero when
/// the clock reads earlier than the epoch. Nothing is assumed of the value.
#[verifier::external_body]
pub(crate) fn now_unix_millis() -> u64 {
    match std::time::SystemTime::now().duration_since(std::time::UNIX_EPOCH) {
        Ok(d) => d.as_millis() as u64,
        Err(_) => 0,
    }
}

} // verus!

//! The process clock: the one place the library reads the time. Every other
//! function takes `now` as an argument, so verification covers every clock
//! value.

use vstd::prelude::*;

use crate::claims::{lemma_pow10_19_value, max_wire_exp};

verus! {

/// Relies on std's `SystemTime::now` read against `UNIX_EPOCH`: the seconds
/// since the unix epoch by the system clock, or `None` should the clock
/// stand before the epoch. Total: a pre-epoch clock comes back as the
/// `duration_since` error, never as a panic. Nothing can be promised of a
/// clock reading.
#[verifier::external_body]
fn unix_timestamp_now() -> (r: Option<u64>) {
    match std::time::SystemTime::now().duration_since(std::time::UNIX_EPOCH) {
        Ok(d) => Some(d.as_secs()),
        Err(_) => None,
    }
}

/// The current unix time, clamped to zero should the system clock stand
/// before the epoch.
pub fn current_unix_time() -> u64 {
    match unix_timestamp_now() {
        Some(t) => t,
        None => 0,
    }
}

/// Whether a clock value leaves room for a 24-hour expiry within the token
/// wire form; true for every realistic time, and the condition issuing
/// requires.
pub fn now_fits_issue_window(now: u64) -> (r: bool)
    ensures
        r == ((now as nat) + 86400 < max_wire_exp()),
{
    proof {
        lemma_pow10_19_value();
    }
    now < 9_999_999_999_999_913_600
}

} // verus!

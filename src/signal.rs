//! The interrupt flag shared between a signal handler and the polling loop.
//!
//! The flag is a process-wide `AtomicBool` owned by the caller. The handler
//! does one relaxed store and the loop one relaxed load: neither blocks or
//! allocates, so both are safe inside a signal handler. The flag is written
//! concurrently with the loop, so nothing is promised here about the value
//! a load observes.

use std::sync::atomic::{AtomicBool, Ordering};
use vstd::prelude::*;

verus! {

/// Whether an interrupt has been requested on `flag`.
pub fn should_exit(flag: &AtomicBool) -> bool {
    flag.load(Ordering::Relaxed)
}

/// The whole action of the interrupt handler: raise `flag`.
pub fn request_exit(flag: &AtomicBool) {
    flag.store(true, Ordering::Relaxed);
}

/// Lowers `flag` again; the timer itself never does so.
pub fn clear_exit_request(flag: &AtomicBool) {
    flag.store(false, Ordering::Relaxed);
}

} // verus!

//! A countdown timer: parsing of the requested duration, the interrupt flag
//! that a signal handler raises, and the stop decision of the polling loop.

pub mod cli;
pub mod signal;
pub mod timer;

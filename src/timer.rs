//! The decisions of the countdown loop: a two-state machine that stops once
//! the duration has elapsed or an interrupt was requested.

use vstd::prelude::*;

verus! {

/// How long the loop sleeps between two checks, in milliseconds; it bounds
/// the delay between an interrupt and the stop.
pub const POLL_INTERVAL_MILLIS: u64 = 100;

#[derive(Clone, Copy, Debug, PartialEq, Eq, Structural)]
pub enum TimerState {
    Running,
    Stopped,
}

/// The state after one check: a running timer stops once `elapsed_secs`
/// reaches `duration_secs` or an interrupt was seen; a stopped one stays so.
pub open spec fn next_state_spec(
    state: TimerState,
    duration_secs: u32,
    elapsed_secs: u64,
    interrupted: bool,
) -> TimerState {
    if state == TimerState::Stopped || interrupted || elapsed_secs >= duration_secs {
        TimerState::Stopped
    } else {
        TimerState::Running
    }
}

/// One check of the loop, from the time elapsed since the start and the
/// interrupt flag as last read.
pub fn next_state(
    state: TimerState,
    duration_secs: u32,
    elapsed_secs: u64,
    interrupted: bool,
) -> (r: TimerState)
    ensures
        r == next_state_spec(state, duration_secs, elapsed_secs, interrupted),
{
    match state {
        TimerState::Stopped => TimerState::Stopped,
        TimerState::Running => {
            if interrupted || elapsed_secs >= duration_secs as u64 {
                TimerState::Stopped
            } else {
                TimerState::Running
            }
        },
    }
}

} // verus!

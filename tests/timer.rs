use timeterm::timer::{next_state, TimerState, POLL_INTERVAL_MILLIS};

#[test]
fn running_until_duration_elapses() {
    assert_eq!(next_state(TimerState::Running, 2, 0, false), TimerState::Running);
    assert_eq!(next_state(TimerState::Running, 2, 1, false), TimerState::Running);
    assert_eq!(next_state(TimerState::Running, 2, 2, false), TimerState::Stopped);
    assert_eq!(next_state(TimerState::Running, 2, 3, false), TimerState::Stopped);
}

#[test]
fn zero_duration_stops_at_once() {
    assert_eq!(next_state(TimerState::Running, 0, 0, false), TimerState::Stopped);
}

#[test]
fn interrupt_stops_early() {
    assert_eq!(next_state(TimerState::Running, 1000, 1, true), TimerState::Stopped);
    assert_eq!(next_state(TimerState::Running, u32::MAX, 0, true), TimerState::Stopped);
}

#[test]
fn stopped_stays_stopped() {
    assert_eq!(next_state(TimerState::Stopped, 1000, 0, false), TimerState::Stopped);
    assert_eq!(next_state(TimerState::Stopped, 1000, 5000, true), TimerState::Stopped);
}

#[test]
fn largest_duration_and_elapsed() {
    assert_eq!(next_state(TimerState::Running, u32::MAX, u32::MAX as u64 - 1, false), TimerState::Running);
    assert_eq!(next_state(TimerState::Running, u32::MAX, u64::MAX, false), TimerState::Stopped);
}

#[test]
fn poll_interval_is_short() {
    assert_eq!(POLL_INTERVAL_MILLIS, 100);
}

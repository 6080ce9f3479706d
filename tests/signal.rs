use std::sync::atomic::AtomicBool;
use timeterm::signal::{clear_exit_request, request_exit, should_exit};

#[test]
fn should_exit_initially_false() {
    let flag = AtomicBool::new(false);
    clear_exit_request(&flag);
    assert_eq!(should_exit(&flag), false);
}

#[test]
fn signal_handler_sets_flag() {
    let flag = AtomicBool::new(false);
    clear_exit_request(&flag);
    request_exit(&flag);
    assert_eq!(should_exit(&flag), true);
}

#[test]
fn exit_request_stays_raised() {
    let flag = AtomicBool::new(false);
    assert!(!should_exit(&flag));
    request_exit(&flag);
    assert!(should_exit(&flag));
    assert!(should_exit(&flag));
    request_exit(&flag);
    assert!(should_exit(&flag));
    clear_exit_request(&flag);
    assert!(!should_exit(&flag));
}

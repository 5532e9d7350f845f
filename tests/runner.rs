use threadshare::{pause_after_turn, shutdown_requested, RUNNING, SHUTDOWN_NOW};

#[test]
fn running_flag_keeps_the_loop_going() {
    assert!(!shutdown_requested(RUNNING));
}

#[test]
fn shutdown_flag_ends_the_loop() {
    assert!(shutdown_requested(SHUTDOWN_NOW));
}

#[test]
fn early_turn_sleeps_for_the_rest_of_the_interval() {
    assert_eq!(pause_after_turn(20, 5_000_000), Some(15_000_000));
    assert_eq!(pause_after_turn(1, 0), Some(1_000_000));
}

#[test]
fn late_turn_does_not_sleep() {
    assert_eq!(pause_after_turn(20, 20_000_000), None);
    assert_eq!(pause_after_turn(20, 25_000_000), None);
    assert_eq!(pause_after_turn(0, 0), None);
}

#[test]
fn largest_interval_fits() {
    assert_eq!(pause_after_turn(u32::MAX, 0), Some(u32::MAX as u64 * 1_000_000));
    assert_eq!(pause_after_turn(u32::MAX, u128::MAX), None);
}

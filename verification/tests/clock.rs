use krt::clock::{host_name_or, seed_of_nanos, user_stopped, Clock, SystemClock, UNKNOWN};
use std::sync::atomic::{AtomicBool, Ordering};
use std::time::Instant;

/// The name that a machine of the tests reports.
const A_HOST_NAME: &str = "probe-host";

/// A name that holds no character.
const AN_EMPTY_HOST_NAME: &str = "";

#[test]
fn the_clock_of_a_run_reads_the_moment_now() {
    let before = Instant::now();
    let read = SystemClock.now();
    let after = Instant::now();
    assert!(read >= before && read <= after, "the clock of a run reads the clock of the machine");
}

#[test]
fn a_machine_that_reports_a_name_carries_that_name() {
    assert_eq!(host_name_or(Some(A_HOST_NAME.to_owned())), A_HOST_NAME);
}

#[test]
fn a_machine_that_reports_no_name_carries_one_word() {
    assert_eq!(host_name_or(None), UNKNOWN);
}

#[test]
fn a_machine_that_reports_an_empty_name_carries_one_word() {
    assert_eq!(host_name_or(Some(AN_EMPTY_HOST_NAME.to_owned())), UNKNOWN);
}

#[test]
fn a_flag_that_a_signal_set_stops_the_run() {
    let flag = AtomicBool::new(false);
    assert!(!user_stopped(&flag), "a clear flag leaves the run going");
    flag.store(true, Ordering::SeqCst);
    assert!(user_stopped(&flag), "a set flag stops the run");
}

#[test]
fn the_unknown_name_is_one_word() {
    assert_eq!(UNKNOWN, "unknown");
}

#[test]
fn the_seed_of_a_moment_keeps_the_low_bits_of_its_nanoseconds() {
    assert_eq!(seed_of_nanos(42), 42);
    assert_eq!(seed_of_nanos(u128::from(u64::MAX) + 5), 4);
}

//! What a run reads off the machine: the clock, the signals that stop it, and
//! the name of the host.
//!
//! None of these reads has an answer that a proof can name, so each one stands
//! behind a trusted item that says as much, and the decisions that the answers
//! feed stand beside them as verified functions.

use std::sync::atomic::AtomicBool;
use std::sync::Arc;
use vstd::prelude::*;

verus! {

/// A moment of the system clock, which Verus reads nothing of.
#[verifier::external_type_specification]
#[verifier::external_body]
pub struct ExSystemTime(std::time::SystemTime);

/// A moment of the monotonic clock, which Verus reads nothing of.
#[verifier::external_type_specification]
#[verifier::external_body]
pub struct ExInstant(std::time::Instant);

/// A fault that the operating system reported, which Verus reads nothing of.
#[verifier::external_type_specification]
#[verifier::external_body]
pub struct ExIoError(std::io::Error);

/// The moment of the system clock now, from `SystemTime::now`. Nothing is
/// known of it.
#[verifier::external_body]
fn system_now() -> std::time::SystemTime {
    std::time::SystemTime::now()
}

/// The moment of the monotonic clock now, from `Instant::now`. Nothing is
/// known of it.
#[verifier::external_body]
pub(crate) fn instant_now() -> std::time::Instant {
    std::time::Instant::now()
}

/// `std::time::Instant::checked_add`: the moment a duration after another one, or none
/// when the clock cannot hold it. Nothing more is said of the answer.
pub assume_specification[ std::time::Instant::checked_add ](instant: &std::time::Instant, duration: std::time::Duration) -> Option<std::time::Instant>;

/// `std::time::Duration::as_nanos`: the nanoseconds of a duration. The duration is
/// opaque here, so nothing is said of the answer.
pub assume_specification[ std::time::Duration::as_nanos ](duration: &std::time::Duration) -> u128;

/// The time since the start of 1970 of a moment of the system clock, or none
/// for a moment before it.
///
/// The call is `std::time::SystemTime::duration_since` with `UNIX_EPOCH`; the answer
/// rests on the clock, so the contract says nothing of it.
#[verifier::external_body]
fn since_epoch(moment: std::time::SystemTime) -> Option<std::time::Duration> {
    match moment.duration_since(std::time::UNIX_EPOCH) {
        Ok(since) => Some(since),
        Err(_) => None,
    }
}

/// The seed that a moment of so many nanoseconds makes: the low bits of it,
/// which are the ones that move.
pub open spec fn seed_of(nanos: int) -> int {
    nanos % 18446744073709551616
}

/// The seed of a number of nanoseconds.
pub fn seed_of_nanos(nanos: u128) -> (seed: u64)
    ensures
        seed == seed_of(nanos as int),
{
    (nanos % 18446744073709551616u128) as u64
}

/// The seed of a hunt that named none.
///
/// The moment that the hunt starts makes the seed, so two hunts of one machine
/// draw different addresses. The nanoseconds of the moment run past the width
/// of the seed, and the low bits are the ones that move, so the seed takes
/// those. A clock set before 1970 gives the seed of zero nanoseconds.
pub fn seed_from_clock() -> (seed: u64) {
    let nanos = match since_epoch(system_now()) {
        Some(since) => since.as_nanos(),
        None => 0,
    };
    seed_of_nanos(nanos)
}

/// The moment that the time limit of a run falls due.
///
/// A run of no limit has no such moment. A limit too large to add to the
/// clock leaves the run without a moment too, so the run goes until the user
/// stops it.
pub fn deadline_of(limit: Option<std::time::Duration>) -> (deadline: Option<std::time::Instant>)
    ensures
        limit is None ==> deadline is None,
{
    match limit {
        Some(limit) => instant_now().checked_add(limit),
        None => None,
    }
}

/// A flag that nothing set yet.
///
/// The call is `AtomicBool::new(false)`; the atomic is opaque here, so the
/// contract says nothing of it.
#[verifier::external_body]
fn unset_flag() -> Arc<AtomicBool> {
    Arc::new(AtomicBool::new(false))
}

/// Makes the interrupt signal set the flag.
///
/// The call is `signal_hook::flag::register` with `SIGINT`, which the crate
/// allows; the platform may refuse it, and the contract says nothing of the
/// answer.
#[verifier::external_body]
fn register_interrupt(flag: Arc<AtomicBool>) -> Result<(), std::io::Error> {
    match signal_hook::flag::register(signal_hook::consts::SIGINT, flag) {
        Ok(_) => Ok(()),
        Err(fault) => Err(fault),
    }
}

/// Makes the termination signal set the flag.
///
/// The call is `signal_hook::flag::register` with `SIGTERM`, which the crate
/// allows; the platform may refuse it, and the contract says nothing of the
/// answer.
#[verifier::external_body]
fn register_terminate(flag: Arc<AtomicBool>) -> Result<(), std::io::Error> {
    match signal_hook::flag::register(signal_hook::consts::SIGTERM, flag) {
        Ok(_) => Ok(()),
        Err(fault) => Err(fault),
    }
}

/// A flag that a termination signal sets.
///
/// The interrupt of the terminal and the polite kill both set it. The run
/// loop reads the flag once per turn, so a run that the user stops writes the
/// record that closes it and flushes the file.
pub fn stop_flag() -> (r: Result<Arc<AtomicBool>, std::io::Error>) {
    let flag = unset_flag();
    match register_interrupt(flag.clone()) {
        Ok(()) => {},
        Err(fault) => {
            return Err(fault);
        },
    }
    match register_terminate(flag.clone()) {
        Ok(()) => {},
        Err(fault) => {
            return Err(fault);
        },
    }
    Ok(flag)
}

/// The name that the operating system reports for the machine, when it
/// reports one.
///
/// The call is `sysinfo::System::host_name`; the answer rests on the machine,
/// so the contract says nothing of it.
#[verifier::external_body]
fn reported_host_name() -> Option<String> {
    sysinfo::System::host_name().ok()
}

/// The value of a field that `krt` cannot fill.
pub const UNKNOWN: &'static str = "unknown";

/// The name of the machine, from what the system reported.
///
/// A system that reports no name, and a system that reports an empty one, both
/// leave the run without a name, so the record carries one word in its place.
pub fn host_name_or(reported: Option<String>) -> (name: String)
    ensures
        match reported {
            Some(n) => if n@.len() > 0 {
                name@ == n@
            } else {
                name@ == UNKNOWN@
            },
            None => name@ == UNKNOWN@,
        },
{
    match reported {
        Some(n) => {
            if n.as_str().unicode_len() > 0 {
                n
            } else {
                UNKNOWN.to_owned()
            }
        },
        None => UNKNOWN.to_owned(),
    }
}

/// The name of the machine that makes a run.
pub fn host_name() -> (name: String)
    ensures
        name@.len() > 0 || name@ == UNKNOWN@,
{
    host_name_or(reported_host_name())
}

} // verus!

verus! {

/// The clock that times the waits of a run.
///
/// A test of a wait must not wait, so the clock comes from the caller and a
/// test hands over a clock that it moves by hand.
pub trait Clock {
    /// The moment now.
    fn now(&self) -> std::time::Instant;
}

/// The clock of a run, which reads the clock of the machine.
pub struct SystemClock;

impl Clock for SystemClock {
    fn now(&self) -> std::time::Instant {
        instant_now()
    }
}


} // verus!

verus! {

/// Answers whether the user stopped the run: whether a termination signal
/// set the flag. The flag is opaque here, so nothing is said of the answer.
pub fn user_stopped(flag: &AtomicBool) -> bool {
    flag.load(std::sync::atomic::Ordering::Relaxed)
}

} // verus!

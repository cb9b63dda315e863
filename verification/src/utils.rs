//! Latest-value reads from in-process channels.
//!
//! Consumers downstream of the bus want only the newest value: each poll
//! drains whatever is pending and keeps the last. What a drain returns
//! depends on what other tasks have sent meanwhile, so no outcome is
//! promised; the callers' contracts hold for every value that comes
//! back.

use std::sync::mpsc::Receiver;

use vstd::prelude::*;

verus! {

#[verifier::external_type_specification]
#[verifier::external_body]
#[verifier::reject_recursive_types(T)]
pub struct ExReceiver<T>(Receiver<T>);

/// Relies on `std::sync::mpsc::Receiver::try_recv`: a value already
/// queued on the channel, or nothing, without blocking. Which of the two
/// comes back depends on the other tasks, so nothing is promised of it.
#[verifier::external_body]
fn try_recv_opt<T>(rx: &Receiver<T>) -> Option<T> {
    rx.try_recv().ok()
}

/// Relies on `std::sync::mpsc::Receiver::recv_timeout`: a value arriving
/// within the timeout, or nothing. Which of the two comes back depends
/// on the other tasks and on time, so nothing is promised of it.
#[verifier::external_body]
fn recv_timeout_opt<T>(rx: &Receiver<T>, timeout_ms: u64) -> Option<T> {
    rx.recv_timeout(std::time::Duration::from_millis(timeout_ms)).ok()
}

/// Drain the receiver without blocking and keep the last value sent, if
/// any was pending.
pub fn get_last_sent<T>(rx: &Receiver<T>) -> Option<T> {
    let mut last: Option<T> = None;
    let mut fuel: u64 = 0;
    while fuel < 0xFFFF_FFFF
        decreases 0xFFFF_FFFF - fuel,
    {
        match try_recv_opt(rx) {
            Some(v) => {
                last = Some(v);
            },
            None => {
                return last;
            },
        }
        fuel += 1;
    }
    last
}

/// Wait up to the timeout for a value, then drain the receiver and keep
/// the last value sent, if any arrived.
pub fn get_last_sent_timeout<T>(rx: &Receiver<T>, timeout_ms: u64) -> Option<T> {
    match recv_timeout_opt(rx, timeout_ms) {
        None => None,
        Some(m) => {
            let mut last: Option<T> = Some(m);
            let mut fuel: u64 = 0;
            while fuel < 0xFFFF_FFFF
                decreases 0xFFFF_FFFF - fuel,
            {
                match try_recv_opt(rx) {
                    Some(v) => {
                        last = Some(v);
                    },
                    None => {
                        return last;
                    },
                }
                fuel += 1;
            }
            last
        },
    }
}

} // verus!

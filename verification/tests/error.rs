//! Tests of the runtime's error messages.

use std::io;

use heph_rt::coordinator::Error as CoordinatorError;
use heph_rt::error::{Error, StringError};

fn os_error() -> io::Error {
    io::Error::new(io::ErrorKind::Other, "boom")
}

#[test]
fn setup_error_message() {
    let err = Error::setup("oops".to_string());
    assert_eq!(err.to_string(), "error running Heph runtime: error in user-defined setup: oops");
}

#[test]
fn panic_messages() {
    assert_eq!(
        Error::worker_panic("stop".to_string()).to_string(),
        "error running Heph runtime: panic in worker thread: stop"
    );
    assert_eq!(
        Error::sync_actor_panic("halt".to_string()).to_string(),
        "error running Heph runtime: panic in synchronous actor thread: halt"
    );
}

#[test]
fn os_error_messages() {
    assert_eq!(
        Error::setup_trace(os_error()).to_string(),
        "error running Heph runtime: error setting up trace infrastructure: boom"
    );
    assert_eq!(
        Error::init_coordinator(os_error()).to_string(),
        "error running Heph runtime: error creating coordinator: boom"
    );
    assert_eq!(
        Error::start_worker(os_error()).to_string(),
        "error running Heph runtime: error starting worker thread: boom"
    );
    assert_eq!(
        Error::start_sync_actor(os_error()).to_string(),
        "error running Heph runtime: error starting synchronous actor: boom"
    );
}

#[test]
fn coordinator_error_message() {
    assert_eq!(
        Error::coordinator(CoordinatorError::SendingFunc).to_string(),
        "error running Heph runtime: error in coordinator thread: error sending function to worker"
    );
    assert_eq!(
        Error::coordinator(CoordinatorError::Polling(os_error())).to_string(),
        "error running Heph runtime: error in coordinator thread: error polling for OS events: boom"
    );
}

#[test]
fn string_error_from_string() {
    let err = StringError::from("message".to_string());
    assert_eq!(err.0, "message");
}

#[test]
fn worker_error_message() {
    assert_eq!(
        Error::worker("process interrupted".to_string()).to_string(),
        "error running Heph runtime: error in worker thread: process interrupted"
    );
}

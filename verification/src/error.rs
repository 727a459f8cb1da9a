//! Module containing runtime error types.

use std::io;

use vstd::prelude::*;

use crate::coordinator::Error as CoordinatorError;
use crate::io_error::io_error_message;
use crate::text::push_str;

verus! {

/// The start of every runtime error's message.
pub open spec fn desc() -> Seq<char> {
    "error running Heph runtime"@
}

/// Error returned by running the runtime.
pub struct Error {
    inner: ErrorInner,
}

/// Inside of `Error` error.
pub enum ErrorInner {
    /// User setup error, created via [`Error::setup`].
    Setup(StringError),
    /// Error setting up tracing infrastructure.
    SetupTrace(io::Error),
    /// Error initialising coordinator.
    InitCoordinator(io::Error),
    /// Error in coordinator.
    Coordinator(CoordinatorError),
    /// Error starting worker thread.
    StartWorker(io::Error),
    /// Error in a worker thread, kept as the message of the worker's error.
    Worker(StringError),
    /// Panic in a worker thread.
    WorkerPanic(StringError),
    /// Error starting synchronous actor thread.
    StartSyncActor(io::Error),
    /// Panic in a synchronous actor thread.
    SyncActorPanic(StringError),
}

/// What the message of an error says happened, after [`desc`].
pub open spec fn inner_description(inner: ErrorInner) -> Seq<char> {
    match inner {
        ErrorInner::Setup(_) => "error in user-defined setup"@,
        ErrorInner::SetupTrace(_) => "error setting up trace infrastructure"@,
        ErrorInner::InitCoordinator(_) => "error creating coordinator"@,
        ErrorInner::Coordinator(_) => "error in coordinator thread"@,
        ErrorInner::StartWorker(_) => "error starting worker thread"@,
        ErrorInner::Worker(_) => "error in worker thread"@,
        ErrorInner::WorkerPanic(_) => "panic in worker thread"@,
        ErrorInner::StartSyncActor(_) => "error starting synchronous actor"@,
        ErrorInner::SyncActorPanic(_) => "panic in synchronous actor thread"@,
    }
}

impl Error {
    /// What went wrong.
    pub closed spec fn spec_inner(&self) -> ErrorInner {
        self.inner
    }

    /// What went wrong.
    pub fn inner(&self) -> (inner: &ErrorInner)
        ensures
            *inner == self.spec_inner(),
    {
        &self.inner
    }

    /// What went wrong, taking it out of the error.
    pub fn into_inner(self) -> (inner: ErrorInner)
        ensures
            inner == self.spec_inner(),
    {
        self.inner
    }

    /// Create an error to act as user-defined setup error, with the message
    /// `err`.
    pub fn setup(err: String) -> (error: Error)
        ensures
            error.spec_inner() == ErrorInner::Setup(StringError(err)),
    {
        Error { inner: ErrorInner::Setup(StringError(err)) }
    }

    /// Error setting up the trace infrastructure.
    pub fn setup_trace(err: io::Error) -> (error: Error)
        ensures
            error.spec_inner() == ErrorInner::SetupTrace(err),
    {
        Error { inner: ErrorInner::SetupTrace(err) }
    }

    /// Error initialising the coordinator.
    pub fn init_coordinator(err: io::Error) -> (error: Error)
        ensures
            error.spec_inner() == ErrorInner::InitCoordinator(err),
    {
        Error { inner: ErrorInner::InitCoordinator(err) }
    }

    /// Error in the coordinator.
    pub fn coordinator(err: CoordinatorError) -> (error: Error)
        ensures
            error.spec_inner() == ErrorInner::Coordinator(err),
    {
        Error { inner: ErrorInner::Coordinator(err) }
    }

    /// Error starting a worker thread.
    pub fn start_worker(err: io::Error) -> (error: Error)
        ensures
            error.spec_inner() == ErrorInner::StartWorker(err),
    {
        Error { inner: ErrorInner::StartWorker(err) }
    }

    /// Error in a worker thread, with the message `msg` of the worker's error.
    pub fn worker(msg: String) -> (error: Error)
        ensures
            error.spec_inner() == ErrorInner::Worker(StringError(msg)),
    {
        Error { inner: ErrorInner::Worker(StringError(msg)) }
    }

    /// Panic in a worker thread, with the panic's message `msg`.
    pub fn worker_panic(msg: String) -> (error: Error)
        ensures
            error.spec_inner() == ErrorInner::WorkerPanic(StringError(msg)),
    {
        Error { inner: ErrorInner::WorkerPanic(StringError(msg)) }
    }

    /// Error starting a synchronous actor thread.
    pub fn start_sync_actor(err: io::Error) -> (error: Error)
        ensures
            error.spec_inner() == ErrorInner::StartSyncActor(err),
    {
        Error { inner: ErrorInner::StartSyncActor(err) }
    }

    /// Panic in a synchronous actor thread, with the panic's message `msg`.
    pub fn sync_actor_panic(msg: String) -> (error: Error)
        ensures
            error.spec_inner() == ErrorInner::SyncActorPanic(StringError(msg)),
    {
        Error { inner: ErrorInner::SyncActorPanic(StringError(msg)) }
    }

    /// The message of the error: "error running Heph runtime: ", what
    /// happened, ": " and the message of the cause. The messages of a user's
    /// setup error, of panics and of the coordinator's own errors are given
    /// exactly; those of the operating system follow the prefix.
    pub fn to_string(&self) -> (message: String)
        ensures
            message_head(self.spec_inner()).is_prefix_of(message@),
            match self.spec_inner() {
                ErrorInner::Setup(err) => message@ == message_head(self.spec_inner()) + err.0@,
                ErrorInner::Worker(err) => message@ == message_head(self.spec_inner()) + err.0@,
                ErrorInner::WorkerPanic(err) => message@ == message_head(self.spec_inner()) + err.0@,
                ErrorInner::SyncActorPanic(err) => message@ == message_head(self.spec_inner()) + err.0@,
                ErrorInner::Coordinator(err) => {
                    &&& err.has_cause() ==> (message_head(self.spec_inner()) + err.description()
                        + ": "@).is_prefix_of(message@)
                    &&& !err.has_cause() ==> message@ == message_head(self.spec_inner())
                        + err.description()
                },
                _ => true,
            },
    {
        let mut message = String::new();
        push_str(&mut message, "error running Heph runtime");
        push_str(&mut message, ": ");
        let ghost prefix = message@;
        let cause = match &self.inner {
            ErrorInner::Setup(err) => {
                push_str(&mut message, "error in user-defined setup");
                err.0.clone()
            },
            ErrorInner::SetupTrace(err) => {
                push_str(&mut message, "error setting up trace infrastructure");
                io_error_message(err)
            },
            ErrorInner::InitCoordinator(err) => {
                push_str(&mut message, "error creating coordinator");
                io_error_message(err)
            },
            ErrorInner::Coordinator(err) => {
                push_str(&mut message, "error in coordinator thread");
                err.to_string()
            },
            ErrorInner::StartWorker(err) => {
                push_str(&mut message, "error starting worker thread");
                io_error_message(err)
            },
            ErrorInner::Worker(err) => {
                push_str(&mut message, "error in worker thread");
                err.0.clone()
            },
            ErrorInner::WorkerPanic(err) => {
                push_str(&mut message, "panic in worker thread");
                err.0.clone()
            },
            ErrorInner::StartSyncActor(err) => {
                push_str(&mut message, "error starting synchronous actor");
                io_error_message(err)
            },
            ErrorInner::SyncActorPanic(err) => {
                push_str(&mut message, "panic in synchronous actor thread");
                err.0.clone()
            },
        };
        let ghost described = message@;
        push_str(&mut message, ": ");
        let ghost head = message@;
        push_str(&mut message, cause.as_str());
        proof {
            assert(prefix == desc() + ": "@);
            assert(described == prefix + inner_description(self.spec_inner()));
            assert(head =~= message_head(self.spec_inner()));
            assert(message@ =~= head + cause@);
            assert(message@.subrange(0, head.len() as int) =~= head);
            match self.spec_inner() {
                ErrorInner::Coordinator(err) => {
                    if err.has_cause() {
                        let whole = head + err.description() + ": "@;
                        assert(whole =~= head + (err.description() + ": "@));
                        assert(message@.subrange(0, whole.len() as int) =~= whole);
                    }
                },
                _ => {},
            }
        }
        message
    }
}

/// The start of the message of an error of kind `inner`, before the message of
/// its cause.
pub open spec fn message_head(inner: ErrorInner) -> Seq<char> {
    desc() + ": "@ + inner_description(inner) + ": "@
}

/// Wrapper around `String` that holds the message of an error.
#[derive(Debug)]
pub struct StringError(pub String);

impl From<String> for StringError {
    fn from(err: String) -> (error: StringError) {
        StringError(err)
    }
}

impl vstd::std_specs::convert::FromSpecImpl<String> for StringError {
    open spec fn obeys_from_spec() -> bool {
        true
    }

    open spec fn from_spec(v: String) -> StringError {
        StringError(v)
    }
}

} // verus!

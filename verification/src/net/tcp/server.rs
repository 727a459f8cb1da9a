//! The TCP server actor: the messages that stop it, the decisions of its accept
//! loop and the errors it returns.

use std::convert::TryFrom;

use a10::process::Signal;

use vstd::prelude::*;

use crate::io_error::io_error_message;
use crate::text::push_str;

verus! {

#[verifier::external_type_specification]
#[verifier::external_body]
pub struct ExSignal(a10::process::Signal);

/// Whether `signal` asks the process to exit, as `Signal::should_exit` of
/// `a10` answers it.
pub uninterp spec fn signal_should_exit(signal: Signal) -> bool;

/// `a10::process::Signal::should_exit`: true for the interrupt, termination
/// and quit signals, the ones that ask the process to exit.
#[verifier::external_body]
fn should_exit(signal: Signal) -> (exit: bool)
    ensures
        exit == signal_should_exit(signal),
{
    signal.should_exit()
}

/// The message type used by TCP server actor.
///
/// It can be made from the process signals that ask the process to exit,
/// allowing for graceful shutdown.
#[derive(Debug)]
pub struct Message {
    // Allow for future expansion.
    _inner: (),
}

impl TryFrom<Signal> for Message {
    type Error = ();

    /// Converts the interrupt, termination and quit signals, fails for all
    /// other signals (by returning `Err(())`).
    fn try_from(signal: Signal) -> (message: Result<Message, ()>)
        ensures
            message is Ok <==> signal_should_exit(signal),
            message is Err ==> message == Err::<Message, ()>(()),
    {
        if should_exit(signal) {
            Ok(Message { _inner: () })
        } else {
            Err(())
        }
    }
}

impl vstd::std_specs::convert::TryFromSpecImpl<Signal> for Message {
    open spec fn obeys_try_from_spec() -> bool {
        true
    }

    closed spec fn try_from_spec(signal: Signal) -> Result<Message, ()> {
        if signal_should_exit(signal) {
            Ok(Message { _inner: () })
        } else {
            Err(())
        }
    }
}

/// Error returned by the TCP server actor.
#[derive(Debug)]
pub enum Error<E> {
    /// Error accepting TCP stream.
    Accept(std::io::Error),
    /// Error creating a new actor to handle the TCP stream.
    NewActor(E),
}

impl<E> Error<E> {
    /// The start of the error's message, before the message of its cause.
    pub open spec fn prefix(&self) -> Seq<char> {
        match self {
            Error::Accept(_) => "error accepting TCP stream: "@,
            Error::NewActor(_) => "error creating new actor: "@,
        }
    }

    /// The message of the error: what failed, followed by the message of the
    /// cause. That of a new actor's error is `new_actor_message`, the message
    /// that its own type gives it; that of the operating system follows the
    /// prefix.
    pub fn to_string(&self, new_actor_message: &str) -> (message: String)
        ensures
            self.prefix().is_prefix_of(message@),
            self is NewActor ==> message@ == self.prefix() + new_actor_message@,
    {
        let mut message = String::new();
        match self {
            Error::Accept(err) => {
                push_str(&mut message, "error accepting TCP stream: ");
                let ghost head = message@;
                push_str(&mut message, io_error_message(err).as_str());
                proof {
                    assert(message@.subrange(0, head.len() as int) =~= head);
                }
            },
            Error::NewActor(_) => {
                push_str(&mut message, "error creating new actor: ");
                let ghost head = message@;
                push_str(&mut message, new_actor_message);
                proof {
                    assert(message@.subrange(0, head.len() as int) =~= head);
                }
            },
        }
        message
    }
}

/// Where the accept loop of the TCP server actor is.
#[derive(Clone, Copy, Debug, PartialEq, Eq, Structural)]
pub enum ServerState {
    /// Waiting for a connection to accept or a message.
    Listening,
    /// A connection was accepted, an actor to handle it is being spawned.
    Spawning,
    /// The server returned.
    Stopped,
}

/// What the TCP server actor waited on gave it.
#[derive(Clone, Copy, Debug, PartialEq, Eq, Structural)]
pub enum ServerEvent {
    /// A connection was accepted.
    Accepted,
    /// Accepting a connection failed.
    AcceptFailed,
    /// No more connections will be accepted.
    NoMoreConnections,
    /// The server received a message, asking it to stop.
    Message,
    /// All actor references to the server were dropped.
    NoMessages,
    /// The actor for the accepted connection was spawned.
    Spawned,
    /// Spawning the actor for the accepted connection failed.
    SpawnFailed,
}

/// How the TCP server actor returns.
#[derive(Clone, Copy, Debug, PartialEq, Eq, Structural)]
pub enum ServerOutcome {
    /// `Ok(())`: the server stopped.
    Stopped,
    /// [`Error::Accept`], with the error of accepting.
    AcceptError,
    /// [`Error::NewActor`], with the error of spawning.
    NewActorError,
}

/// What the TCP server actor does next.
#[derive(Clone, Copy, Debug, PartialEq, Eq, Structural)]
pub enum ServerAction {
    /// Wait for the next connection or message.
    Wait,
    /// Spawn an actor to handle the accepted connection.
    SpawnActor,
    /// Return from the actor.
    Return(ServerOutcome),
}

/// Whether the accept loop can see `event` in `state`: while listening,
/// anything but the outcome of a spawn; while spawning, only that outcome;
/// once stopped, nothing.
pub open spec fn expects(state: ServerState, event: ServerEvent) -> bool {
    match state {
        ServerState::Listening => !(event is Spawned || event is SpawnFailed),
        ServerState::Spawning => event is Spawned || event is SpawnFailed,
        ServerState::Stopped => false,
    }
}

/// The decisions of the TCP server actor's accept loop: an accepted
/// connection gets an actor, and the server listens again once that is
/// spawned; a failure to accept or to spawn ends the server with that error;
/// running out of connections, a message and losing all references to it end
/// the server without error.
pub fn server_step(state: ServerState, event: ServerEvent) -> (next: (ServerState, ServerAction))
    requires
        expects(state, event),
    ensures
        next.1 is Return <==> next.0 == ServerState::Stopped,
        event is Accepted ==> next == (ServerState::Spawning, ServerAction::SpawnActor),
        event is Spawned ==> next == (ServerState::Listening, ServerAction::Wait),
        event is AcceptFailed ==> next.1 == ServerAction::Return(ServerOutcome::AcceptError),
        event is SpawnFailed ==> next.1 == ServerAction::Return(ServerOutcome::NewActorError),
        (event is NoMoreConnections || event is Message || event is NoMessages) ==> next.1
            == ServerAction::Return(ServerOutcome::Stopped),
{
    match event {
        ServerEvent::Accepted => (ServerState::Spawning, ServerAction::SpawnActor),
        ServerEvent::Spawned => (ServerState::Listening, ServerAction::Wait),
        ServerEvent::AcceptFailed => (ServerState::Stopped, ServerAction::Return(ServerOutcome::AcceptError)),
        ServerEvent::SpawnFailed => (ServerState::Stopped, ServerAction::Return(ServerOutcome::NewActorError)),
        ServerEvent::NoMoreConnections | ServerEvent::Message | ServerEvent::NoMessages => (
            ServerState::Stopped,
            ServerAction::Return(ServerOutcome::Stopped),
        ),
    }
}

/// The state the accept loop reaches from `state` on `events`.
pub open spec fn run_state(state: ServerState, events: Seq<ServerEvent>) -> ServerState
    decreases events.len(),
{
    if events.len() == 0 {
        state
    } else {
        match events.last() {
            ServerEvent::Accepted => ServerState::Spawning,
            ServerEvent::Spawned => ServerState::Listening,
            _ => ServerState::Stopped,
        }
    }
}

/// Whether the accept loop can see `events` one after the other from
/// `state`.
pub open spec fn valid_run(state: ServerState, events: Seq<ServerEvent>) -> bool
    decreases events.len(),
{
    if events.len() == 0 {
        true
    } else {
        valid_run(state, events.drop_last()) && expects(run_state(state, events.drop_last()), events.last())
    }
}

/// The number of times `event` occurs in `events`.
pub open spec fn occurrences(events: Seq<ServerEvent>, event: ServerEvent) -> nat
    decreases events.len(),
{
    if events.len() == 0 {
        0
    } else {
        occurrences(events.drop_last(), event) + if events.last() == event {
            1nat
        } else {
            0nat
        }
    }
}

/// Every accepted connection gets its actor before the server accepts another
/// one: from a listening server, every run has as many connections accepted
/// as actors spawned or failed to spawn, one more while an actor is being
/// spawned.
pub proof fn lemma_one_actor_per_connection(events: Seq<ServerEvent>)
    requires
        valid_run(ServerState::Listening, events),
    ensures
        occurrences(events, ServerEvent::Accepted) == occurrences(events, ServerEvent::Spawned)
            + occurrences(events, ServerEvent::SpawnFailed) + if run_state(
            ServerState::Listening,
            events,
        ) == ServerState::Spawning {
            1int
        } else {
            0int
        },
    decreases events.len(),
{
    if events.len() > 0 {
        lemma_one_actor_per_connection(events.drop_last());
    }
}

} // verus!

//! Tests of the TCP server's messages, errors and accept loop.

use std::io;

use a10::process::Signal;
use heph_rt::net::tcp::server::{
    server_step, Error, Message, ServerAction, ServerEvent, ServerOutcome, ServerState,
};

#[test]
fn message_from_exit_signals() {
    assert!(Message::try_from(Signal::INTERRUPT).is_ok());
    assert!(Message::try_from(Signal::TERMINATION).is_ok());
    assert!(Message::try_from(Signal::QUIT).is_ok());
    assert!(Message::try_from(Signal::USER1).is_err());
    assert!(Message::try_from(Signal::HUP).is_err());
}

#[test]
fn error_messages() {
    let err: Error<String> = Error::Accept(io::Error::new(io::ErrorKind::Other, "refused"));
    assert_eq!(err.to_string(""), "error accepting TCP stream: refused");
    let err: Error<String> = Error::NewActor("bad".to_string());
    assert_eq!(err.to_string("bad"), "error creating new actor: bad");
}

#[test]
fn server_spawns_an_actor_per_connection() {
    let (state, action) = server_step(ServerState::Listening, ServerEvent::Accepted);
    assert_eq!(state, ServerState::Spawning);
    assert_eq!(action, ServerAction::SpawnActor);
    let (state, action) = server_step(state, ServerEvent::Spawned);
    assert_eq!(state, ServerState::Listening);
    assert_eq!(action, ServerAction::Wait);
}

#[test]
fn server_returns_the_error_of_accepting_or_spawning() {
    assert_eq!(
        server_step(ServerState::Listening, ServerEvent::AcceptFailed),
        (ServerState::Stopped, ServerAction::Return(ServerOutcome::AcceptError))
    );
    assert_eq!(
        server_step(ServerState::Spawning, ServerEvent::SpawnFailed),
        (ServerState::Stopped, ServerAction::Return(ServerOutcome::NewActorError))
    );
}

#[test]
fn server_stops_without_error() {
    for event in [ServerEvent::NoMoreConnections, ServerEvent::Message, ServerEvent::NoMessages] {
        assert_eq!(
            server_step(ServerState::Listening, event),
            (ServerState::Stopped, ServerAction::Return(ServerOutcome::Stopped))
        );
    }
}

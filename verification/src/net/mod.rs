//! Networking: the messages, accept loop and errors of the TCP server actor.

pub mod tcp;

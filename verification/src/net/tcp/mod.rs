//! Transmission Control Protocol (TCP).

pub mod server;

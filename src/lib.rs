//! Core of a WebRTC signaling rendezvous server for one-to-many sessions.
//!
//! Peers reach the server over WebSockets; the server pairs one host with the
//! members of a named session and relays offers, answers and ICE candidates
//! between them without reading their payloads. This crate holds the state
//! and the decisions; the sockets, timers and JSON encoding live around it.

pub mod frame;
pub mod laws;
pub mod protocol;
pub mod registry;
pub mod server;
pub mod table;

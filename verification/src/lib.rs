//! Core of a minimal completion-based TCP server.
//!
//! One thread drives all I/O: it submits asynchronous accept, receive and
//! send operations to an I/O substrate, waits for the next completion, and
//! dispatches it. This crate holds the part of that design worth proving:
//! the per-connection state machine, the connection registry, the event
//! dispatch that decides which operations to submit next, and the formatting
//! of the response that is sent back. The substrate itself (sockets, the
//! wait-for-completion call, reading the served resource) stays outside; the
//! surrounding binary performs each returned [`server::Action`] and feeds
//! every completion back in as a [`server::Event`].
//!
//! The model state of a [`server::Server`] counts, for every connection, the
//! operations that are outstanding once the actions returned by
//! [`server::Server::handle_event`] have been submitted. The driver must
//! therefore submit all returned actions before it hands in the next
//! completion.

pub mod http;
pub mod connection;
pub mod server;


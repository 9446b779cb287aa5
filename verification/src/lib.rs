//! The core of a client for a key-value store's publish/subscribe protocol.
//!
//! A manager keeps two connections to one store: a primary one, on which it
//! subscribes to channels and receives what is published, and a secondary
//! one, on which it records which channels are listened to. This crate holds
//! what the manager decides and computes, with its proofs; it does no I/O.
//! Its owner opens the sockets, carries out what the manager asks for, and
//! reports back.
//!
//! - [`decimal`]: numbers in decimal notation, written and read.
//! - [`resp`]: commands as they go on the wire.
//! - [`reply`]: the replies that the handshake looks at.
//! - [`cache`]: the bounded cache of tag names.
//! - [`config`]: the settings of a connection.
//! - [`handshake`]: the handshake of one connection, step by step.
//! - [`setup`]: the construction of a manager, both handshakes in turn.
//! - [`connection`]: the manager itself: polling and sending.
//! - [`error`]: what can go wrong.
//! - [`text`]: strings as sequences of characters.

pub mod cache;
pub mod config;
pub mod connection;
pub mod decimal;
pub mod error;
pub mod handshake;
pub mod reply;
pub mod resp;
pub mod setup;
pub mod text;

//! Core of a multi-user chat system: an encrypted block transport over a
//! reliable byte stream, the typed streaming codec that payloads plug into,
//! and the decision logic of the server and client that ride on top of it.
//!
//! Everything here is synchronous and free of I/O. A driver owns the sockets
//! and the tasks; it hands the bytes it reads to this library and sends the
//! bytes this library returns.

use vstd::prelude::*;

pub mod broker;
pub mod client;
pub mod db;
pub mod frame;
pub mod logger;
pub mod message;
pub mod round_trip;
pub mod serialization;
pub mod server;
pub mod stream;

verus! {

/// Marks a builder slot that has not been filled yet.
#[derive(Copy, Clone)]
pub struct Uninitialized;

} // verus!

//! Channel multiplexing for remote execution over one framed byte stream.
//!
//! Two routers, one on each end of a transport, exchange length-delimited
//! frames. Each frame opens a channel for a spawned process, carries data or
//! an event on a channel, reports a process's exit, or ends the session.

pub mod codec;
pub mod daemon;
pub mod endpoint;
pub mod magic;
pub mod nodes;
pub mod protocol;
pub mod router;
pub mod session;
pub mod terminal;

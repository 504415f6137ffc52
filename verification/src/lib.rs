//! Verified core of a TCP relay: the connection-accounting table, the
//! per-connection byte-copy state machine, and the relay lifecycle rules.
//!
//! The surrounding process (sockets, timers, logging, configuration files)
//! lives outside this crate; everything here is plain data and decisions,
//! stated in contracts and checked by Verus.

pub mod addr;
pub mod flow;
pub mod accounting;
pub mod relay;
pub mod lifecycle;

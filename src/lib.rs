//! A UDP relay that adds or strips a fixed-size prefix on every datagram and
//! keeps one upstream session per downstream peer.
//!
//! The library holds the relay's logic: the header transform, the session
//! table and the decisions of the two forwarding loops. Sockets, tasks and
//! timers belong to the program that drives it.

pub mod transform;
pub mod session;
pub mod relay;

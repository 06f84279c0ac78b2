//! A verified core for the sunday vending-machine control protocol: the
//! line-oriented grammar and parser, the per-connection session state
//! machine, and the connection registry driven by a readiness reactor.

pub mod sunday;
pub mod sunday_dispatcher;
pub mod sunday_server;

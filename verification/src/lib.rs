//! A remote tracing proxy's core: clients send "start a span" and "finish a
//! span" commands that name spans by numbers of their own choosing, and the
//! span-tracking actor in this crate keeps the open spans, links each new
//! span to its trace, and hands every finished span out for reporting.
//!
//! The crate holds the decisions only. Queues, clocks, sockets and the
//! tracing backend live with the caller, which feeds commands in and carries
//! finished spans away.

pub mod command;
pub mod context;
pub mod relay;
pub mod rpc;
pub mod server;
pub mod service;
pub mod time;

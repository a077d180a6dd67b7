//! A local supervisor and gateway for a fleet of child processes that speak
//! a line-delimited JSON-RPC tool protocol over their standard input and
//! output.
//!
//! The library holds the core and proves its contracts: the persistence
//! store of server records ([`store`]), the launch decisions and the
//! at-most-one-session table ([`supervisor`]), the per-child request
//! correlation and reply reading ([`conduit`]), the aggregation of every
//! child's tools under unique proxy ids ([`tools`], [`registry`]), the
//! cached remote catalog ([`catalog`]), and the JSON-RPC surface callers
//! speak to ([`gateway`]). The pipes, sockets, clocks and disks live at the
//! transport edge outside this crate; they hand values in and carry values
//! out, and every decision in between is specified and verified here.

pub mod catalog;
pub mod conduit;
pub mod gateway;
pub mod json;
pub mod kv;
pub mod registry;
pub mod store;
pub mod supervisor;
pub mod text;
pub mod tools;

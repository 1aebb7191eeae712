//! Persistent state tracking for a fleet of storage hosts.
//!
//! The crate keeps the ledger that makes unattended disk repair safe to run:
//! which process registered from which host, which disks the host owns, which
//! repair operations are in flight, and which repair tickets are still open.
//! It also provides the binary request/reply protocol used to drive a
//! per-host daemon that adds and removes disks.

pub mod datastore;
pub mod error;
pub mod protocol;
pub mod queries;
pub mod wire;
pub mod types;

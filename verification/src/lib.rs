//! Database branching on a copy-on-write filesystem: verified core.
//!
//! A *project* owns one PostgreSQL cluster on a Btrfs image; each *branch* is
//! a space-efficient clone of the main data directory served by its own
//! container on a dedicated port.  The modules here hold the decision logic,
//! the metadata model, the command-output parsers and the persistence codec;
//! the kernel calls, the container runtime and the sockets are driven by an
//! unverified shell around this crate.

pub mod accounting;
pub mod btrfs;
pub mod clock;
pub mod codec;
pub mod config;
pub mod copy_ref;
pub mod docker;
pub mod errors;
pub mod fiemap;
pub mod lifecycle;
pub mod ports;
pub mod proxy;
pub mod snapshot;
pub mod text;
pub mod timestamp;

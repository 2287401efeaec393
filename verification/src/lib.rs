//! The discovery and connectivity core of a peer-to-peer overlay node.
//!
//! A node learns of other nodes in two ways: a peer that connects tells of
//! itself in the identify exchange, and peers that are asked name the peers
//! they know. What the node learns goes into a Kademlia routing table, in
//! which peers stand in buckets by their XOR distance from the node itself.
//!
//! The crate decides and does no I/O. The program around it owns the
//! connections: it hands in what happens as events and payloads, and
//! performs the actions that come back.
//!
//! - [`peer`]: peer identifiers and the XOR metric.
//! - [`addr`]: network addresses, and contacts (a peer with an address).
//! - [`routing`]: the routing table.
//! - [`identify`]: the identify exchange.
//! - [`lookup`]: the iterative lookup of the peers closest to a target.
//! - [`discovery`]: the discovery protocol, which owns the table and runs
//!   lookups, liveness checks and maintenance.
//! - [`behaviour`]: the composer of the protocols.
//! - [`node`]: the driver that dispatches events, one at a time.
//! - [`table_laws`], [`protocol_laws`]: what is proved of all of these.
//!
//! Every type is described by a view, a plain mathematical value, and what
//! each operation does is a function on views. The executable operations
//! are proved to compute those functions.

pub mod addr;
pub mod behaviour;
pub mod discovery;
pub mod identify;
pub mod lookup;
pub mod node;
pub mod peer;
pub mod protocol_laws;
pub mod routing;
pub mod table_laws;

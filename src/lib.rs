//! Cluster membership and key routing for a naming-service node.
//!
//! `node` holds the record types, `store` the single-writer membership
//! state and its reconciliation, `routing` the hash-modulo routing over a
//! snapshot of the membership, and `laws` the properties that relate several
//! calls.

pub mod node;
pub mod store;
pub mod routing;
pub mod laws;

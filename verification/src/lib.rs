//! A DAG-based transaction mempool in the style of Narwhal: transactions are
//! identified by a SHA-256 digest of their contents, stored in a DAG whose
//! edges point from a transaction to its parents, and disseminated to peers.
pub mod behavior;
pub mod dag;
pub mod message;
pub mod node;
pub mod p2p;
pub mod strmap;
pub mod transaction;

pub use crate::p2p::PeerManager;

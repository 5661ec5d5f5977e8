//! Nodes of a simulated distributed system that talk in JSON lines: the
//! message model, the runtime's decisions (identity, request ids, waiting
//! requests, retries), and the coordination protocols built on them:
//! gossip broadcast, grow-only counters, a compare-and-swap lock, a
//! replicated log and a transactional key space.

pub mod message;
pub mod counter;
pub mod gossip;
pub mod kv;
pub mod log;
pub mod node;
pub mod services;
pub mod table;
pub mod txn;

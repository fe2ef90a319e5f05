//! Event-ingestion and graph-synchronization core for a decentralized
//! exchange's liquidity pools.
//!
//! Raw chain logs are decoded into typed reserve-update events, a registry
//! tracks which pools already have their metadata materialized in the graph,
//! and upsert operations (token nodes, pool edges, reserve updates) are
//! computed as data, ready to be issued against a remote graph store.

pub mod address;
pub mod config;
pub mod event;
pub mod graph_state;
pub mod model;
pub mod pipeline;
pub mod registry;
pub mod store;
pub mod text;

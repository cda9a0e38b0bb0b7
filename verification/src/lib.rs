//! Core engine of a two-sided reverse TCP tunnel: the edge keeps per-secret
//! tunnel and worker-pool state, a listener manager owns the map of public
//! ports, and the wire formats (PROXY v1/v2 headers and the worker handoff
//! frame) are encoded and decoded with byte-exact contracts.

pub mod addr;
pub mod api;
pub mod cli;
pub mod client;
pub mod invariants;
pub mod manager;
pub mod parse;
pub mod proxy;
pub mod state;
pub mod text;
pub mod users;
pub mod wire;

//! Runtime graph instrumentation model: wait-graph registries, attribute
//! canonicalisation and the snapshot web API's decision logic.

pub mod text;
pub mod attrs;
pub mod edge_set;
pub mod model;
pub mod node_table;
pub mod registry;
pub mod legacy_registry;
pub mod sql_guard;
pub mod json;
pub mod rpc;
pub mod net;
pub mod timers;
pub mod threads;
pub mod web_api;
pub mod waitgraph;
pub mod tasks;
pub mod wire;
pub mod dump;
pub mod clock;
pub mod objects;
pub mod locks;
pub mod file_ops;
pub mod joinset;
pub mod wait_edges;
pub mod rpc_order;
pub mod wait_nodes;

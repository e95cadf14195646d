//! Verified core of a hybrid vector/graph query engine: registries, a
//! two-phase-commit coordinator, graph traversal and analytics, segment
//! storage, consistent-hash routing, the PackStream framing used by the Bolt
//! protocol, an exact-key result cache and a text tokenizer.

pub mod strmap;
pub mod clock;
pub mod ids;
pub mod two_phase_commit;
pub mod graph;
pub mod magic_traversal;
pub mod graph_analytics;
pub mod idmap;
pub mod segment_manager;
pub mod coordinator;
pub mod bolt_protocol;
pub mod cache;
pub mod context;
pub mod bm25;
pub mod mcp;
pub mod ast;
pub mod planner;
pub mod window;
pub mod schema;
pub mod engine_types;
pub mod evaluator;
pub mod graph_ops;
pub mod space_manager;
pub mod ddl_parser;
pub mod cli;
pub mod backup;
pub mod stream_processor;
pub mod subscription_manager;
pub mod weighted_graph;
pub mod parser;
pub mod engine;
pub mod decimal;
pub mod gql_bridge;

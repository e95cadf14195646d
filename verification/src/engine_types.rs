//! Small records and settings of the engine's services.

use vstd::prelude::*;
use crate::graph::Graph;
use std::sync::Arc;

verus! {

/// Binary operators of expressions.
#[derive(Debug, Clone, Copy, PartialEq, Eq, Structural)]
pub enum BinaryOperator {
    Eq,
    Neq,
    Lt,
    Lte,
    Gt,
    Gte,
    And,
    Or,
}

/// A node access, for the prefetch predictor.
#[derive(Debug, Clone, Copy, PartialEq, Eq, Structural)]
pub struct AccessEvent {
    pub node_id: u64,
    pub timestamp: i64,
    pub hit: bool,
}

/// Settings of the gRPC server.
pub struct GrpcConfig {
    pub host: String,
    pub port: u16,
    pub proto_path: String,
}

impl Default for GrpcConfig {
    /// `127.0.0.1:50051` with the protocol description in `proto/tql.proto`.
    fn default() -> (c: Self)
        ensures
            c.host@ == "127.0.0.1"@,
            c.port == 50051,
            c.proto_path@ == "proto/tql.proto"@,
    {
        GrpcConfig {
            host: String::from_str("127.0.0.1"),
            port: 50051,
            proto_path: String::from_str("proto/tql.proto"),
        }
    }
}

/// Events that fire triggers.
#[derive(Debug, Clone, Copy, PartialEq, Eq, Structural)]
pub enum TriggerEvent {
    Insert,
    Update,
    Delete,
}

/// Applies transactions to the store.
pub struct TransactionManager;

impl TransactionManager {
    /// A fresh node id: the current time in nanoseconds since the epoch,
    /// truncated to 64 bits. The value is the time, so no clause states it.
    pub fn generate_id() -> u64 {
        crate::clock::now_nanos()
    }
}

/// Runs a recursive query to a bounded depth over the store.
pub struct RecursiveQueryExecutor {
    pub max_depth: usize,
    pub current_depth: usize,
    pub store: Arc<Graph>,
}

impl RecursiveQueryExecutor {
    /// An executor of at most `max_depth` rounds over `store`.
    pub fn new(max_depth: usize, store: Arc<Graph>) -> (e: Self)
        ensures
            e.max_depth == max_depth,
            e.current_depth == 0,
            e.store == store,
    {
        RecursiveQueryExecutor { max_depth, current_depth: 0, store }
    }
}

} // verus!

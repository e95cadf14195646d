use toroidal_tql::ast::{AggregationField, AggregationFunction, BackendHint, OrderByClause, QueryHints, WithinClause};
use toroidal_tql::planner::{
    ExecutionBackend, PlanBuilder, PlanInput, PlanStep, RoutingStrategy, SearchStrategy, TraversalDirection, WhereKind,
};

fn simple_query() -> PlanInput {
    PlanInput {
        hints: None,
        where_clause: Some(WhereKind::ToroidalDistance { field: "content_t3".to_string(), threshold_bits: 0.3f32.to_bits() }),
        connected_relationship: None,
        within_clause: None,
        limit: 10,
        order_by: None,
        aggregation_fields: vec![],
        return_fields: vec!["d.id".to_string()],
    }
}

#[test]
fn test_build_simple_plan() {
    let query = simple_query();

    let plan = PlanBuilder::build(&query, 0, 0);

    assert!(!plan.steps.is_empty());
    assert!(matches!(plan.steps[0], PlanStep::RouteShards { .. }));
}

#[test]
fn simple_plan_steps_exactly() {
    let plan = PlanBuilder::build(&simple_query(), 1.5f64.to_bits(), 42);
    assert_eq!(
        plan.steps,
        vec![
            PlanStep::RouteShards { shard_ids: vec![], strategy: RoutingStrategy::HashRing { radius: 5 } },
            PlanStep::LocalVectorSearch {
                field: "content_t3".to_string(),
                threshold_bits: 0.3f32.to_bits(),
                limit: 10,
                backend: ExecutionBackend::Auto,
            },
            PlanStep::TopKMerge { k: 10, sort_field: None },
            PlanStep::Project { fields: vec!["d.id".to_string()] },
        ]
    );
    assert_eq!(plan.estimated_cost_bits, 1.5f64.to_bits());
    assert_eq!(plan.estimated_rows, 42);
    assert_eq!(plan.backend, ExecutionBackend::Auto);
    assert_eq!(plan.search_strategy, SearchStrategy::VectorFirst { ef: 100, oversampling_bits: 2.0f32.to_bits() });
}

#[test]
fn full_plan_with_hints_traversal_sort_and_aggregates() {
    let q = PlanInput {
        hints: Some(QueryHints { force_gpu: false, scatter_shards: Some(3), prefer_local_shard: true, backend: Some(BackendHint::Avx2), prefetch_hops: None }),
        where_clause: Some(WhereKind::PropertyFilter),
        connected_relationship: Some("TAGGED".to_string()),
        within_clause: None,
        limit: 5,
        order_by: Some(OrderByClause { field: "score".to_string(), ascending: false }),
        aggregation_fields: vec![
            AggregationField { function: AggregationFunction::Count, alias: None },
            AggregationField { function: AggregationFunction::Sum("price".to_string()), alias: Some("total".to_string()) },
        ],
        return_fields: vec![],
    };
    let plan = PlanBuilder::build(&q, 0, 0);
    assert_eq!(plan.backend, ExecutionBackend::Avx2);
    assert_eq!(plan.search_strategy, SearchStrategy::FilterFirst { estimated_selectivity_bits: 0.1f32.to_bits() });
    assert_eq!(plan.steps.len(), 5);
    assert_eq!(plan.steps[0], PlanStep::RouteShards { shard_ids: vec![], strategy: RoutingStrategy::HashRing { radius: 3 } });
    assert_eq!(
        plan.steps[1],
        PlanStep::GraphTraversal { edge_type: Some("TAGGED".to_string()), max_hops: 2, min_hops: 1, direction: TraversalDirection::Both }
    );
    assert_eq!(plan.steps[2], PlanStep::TopKMerge { k: 5, sort_field: Some("score".to_string()) });
    assert_eq!(plan.steps[3], PlanStep::Sort { field: "score".to_string(), ascending: false });
    match &plan.steps[4] {
        PlanStep::Aggregate { functions } => {
            assert_eq!(functions.len(), 2);
            assert_eq!(functions[0].function, "Count");
            assert_eq!(functions[0].field, "Count");
            assert_eq!(functions[1].function, "Sum(\"price\")");
            assert_eq!(functions[1].alias, Some("total".to_string()));
        }
        _ => panic!("aggregate step expected"),
    }
}

#[test]
fn routing_and_backend_selection() {
    let h = |scatter: Option<u32>, local: bool, backend: Option<BackendHint>, gpu: bool| {
        Some(QueryHints { force_gpu: gpu, scatter_shards: scatter, prefer_local_shard: local, backend, prefetch_hops: None })
    };
    assert_eq!(PlanBuilder::select_routing(&None), RoutingStrategy::HashRing { radius: 5 });
    assert_eq!(PlanBuilder::select_routing(&h(None, true, None, false)), RoutingStrategy::SingleShard(0));
    assert_eq!(PlanBuilder::select_routing(&h(Some(9), true, None, false)), RoutingStrategy::HashRing { radius: 9 });
    assert_eq!(PlanBuilder::select_backend(&h(None, false, None, true)), ExecutionBackend::Gpu);
    assert_eq!(PlanBuilder::select_backend(&h(None, false, Some(BackendHint::Scalar), true)), ExecutionBackend::Scalar);
    assert_eq!(PlanBuilder::select_backend(&None), ExecutionBackend::Auto);
}

#[test]
fn within_clause_sets_hops() {
    let mut q = simple_query();
    q.connected_relationship = Some("R".to_string());
    q.within_clause = Some(WithinClause { min_hops: 2, max_hops: 4 });
    let plan = PlanBuilder::build(&q, 0, 0);
    assert_eq!(
        plan.steps[2],
        PlanStep::GraphTraversal { edge_type: Some("R".to_string()), max_hops: 4, min_hops: 2, direction: TraversalDirection::Both }
    );
}

//! Logical query planning: which steps a query runs, on which backend, and
//! with which search strategy.
//!
//! Floating-point values of a plan (a distance threshold, the strategy's
//! oversampling and selectivity, the estimated cost) are held by their bit
//! patterns (`f32::to_bits`, `f64::to_bits`). The cost and row estimates come
//! from the cost model and are handed to the planner.

use vstd::prelude::*;
use crate::ast::{AggregationField, AggregationFunction, BackendHint, OrderByClause, QueryHints, WithinClause};

verus! {

/// How a query is spread over shards.
#[derive(Debug, Clone, Copy, PartialEq, Eq, Structural)]
pub enum RoutingStrategy {
    /// The shards on the hash ring nearest the query, `radius` of them.
    HashRing { radius: u32 },
    Broadcast,
    SingleShard(u32),
}

/// Where vector arithmetic runs.
#[derive(Debug, Clone, Copy, PartialEq, Eq, Structural)]
pub enum ExecutionBackend {
    Auto,
    Gpu,
    Avx512,
    Avx2,
    Scalar,
}

/// Direction of a graph traversal.
#[derive(Debug, Clone, Copy, PartialEq, Eq, Structural)]
pub enum TraversalDirection {
    Outgoing,
    Incoming,
    Both,
}

/// A filter condition.
#[derive(Debug, Clone, PartialEq, Eq)]
pub enum FilterCondition {
    PropertyEquals { field: String, value: String },
    /// Bounds as `f64` bit patterns.
    PropertyRange { field: String, min_bits: u64, max_bits: u64 },
    /// Threshold as an `f32` bit pattern.
    ToroidalDistance { field: String, threshold_bits: u32 },
}

/// One aggregation of an `Aggregate` step.
#[derive(Debug, Clone, PartialEq, Eq)]
pub struct AggregationStep {
    pub function: String,
    pub field: String,
    pub alias: Option<String>,
}

/// A step of a logical plan.
#[derive(Debug, Clone, PartialEq, Eq)]
pub enum PlanStep {
    RouteShards { shard_ids: Vec<u32>, strategy: RoutingStrategy },
    /// Threshold as an `f32` bit pattern.
    LocalVectorSearch { field: String, threshold_bits: u32, limit: u32, backend: ExecutionBackend },
    GraphTraversal { edge_type: Option<String>, max_hops: u32, min_hops: u32, direction: TraversalDirection },
    TopKMerge { k: u32, sort_field: Option<String> },
    Filter { conditions: Vec<FilterCondition> },
    Aggregate { functions: Vec<AggregationStep> },
    Sort { field: String, ascending: bool },
    Project { fields: Vec<String> },
}

/// Search strategies; fractional parameters as `f32` bit patterns.
#[derive(Debug, Clone, Copy, PartialEq, Eq, Structural)]
pub enum SearchStrategy {
    VectorFirst { ef: usize, oversampling_bits: u32 },
    FilterFirst { estimated_selectivity_bits: u32 },
    FilterAwareHnsw { payload_m: usize },
}

/// A logical plan.
pub struct LogicalPlan {
    pub steps: Vec<PlanStep>,
    /// Estimated cost as an `f64` bit pattern.
    pub estimated_cost_bits: u64,
    pub estimated_rows: u64,
    pub backend: ExecutionBackend,
    pub search_strategy: SearchStrategy,
}

/// The `WHERE` condition of a query, as far as planning reads it.
#[derive(Debug, Clone, PartialEq, Eq)]
pub enum WhereKind {
    /// `TOROIDALDISTANCE(field) < threshold`, threshold as an `f32` bit pattern.
    ToroidalDistance { field: String, threshold_bits: u32 },
    SimilarTo,
    PropertyFilter,
}

/// What the planner reads of a query.
pub struct PlanInput {
    pub hints: Option<QueryHints>,
    pub where_clause: Option<WhereKind>,
    /// Relationship type of the `CONNECTEDTO` clause, if there is one.
    pub connected_relationship: Option<String>,
    pub within_clause: Option<WithinClause>,
    pub limit: u32,
    pub order_by: Option<OrderByClause>,
    pub aggregation_fields: Vec<AggregationField>,
    pub return_fields: Vec<String>,
}

/// Abstract value of a [`PlanStep`].
pub enum StepView {
    RouteShards { shard_ids: Seq<u32>, strategy: RoutingStrategy },
    LocalVectorSearch { field: Seq<char>, threshold_bits: u32, limit: u32, backend: ExecutionBackend },
    GraphTraversal { edge_type: Option<Seq<char>>, max_hops: u32, min_hops: u32, direction: TraversalDirection },
    TopKMerge { k: u32, sort_field: Option<Seq<char>> },
    Filter { conditions: Seq<FilterCondition> },
    Aggregate { functions: Seq<(Seq<char>, Seq<char>, Option<Seq<char>>)> },
    Sort { field: Seq<char>, ascending: bool },
    Project { fields: Seq<Seq<char>> },
}

/// An optional string as an optional character sequence.
pub open spec fn opt_view(o: Option<String>) -> Option<Seq<char>> {
    match o {
        Some(s) => Some(s@),
        None => None,
    }
}

impl View for PlanStep {
    type V = StepView;

    open spec fn view(&self) -> StepView {
        match self {
            PlanStep::RouteShards { shard_ids, strategy } => StepView::RouteShards { shard_ids: shard_ids@, strategy: *strategy },
            PlanStep::LocalVectorSearch { field, threshold_bits, limit, backend } =>
                StepView::LocalVectorSearch { field: field@, threshold_bits: *threshold_bits, limit: *limit, backend: *backend },
            PlanStep::GraphTraversal { edge_type, max_hops, min_hops, direction } =>
                StepView::GraphTraversal { edge_type: opt_view(*edge_type), max_hops: *max_hops, min_hops: *min_hops, direction: *direction },
            PlanStep::TopKMerge { k, sort_field } => StepView::TopKMerge { k: *k, sort_field: opt_view(*sort_field) },
            PlanStep::Filter { conditions } => StepView::Filter { conditions: conditions@ },
            PlanStep::Aggregate { functions } => StepView::Aggregate {
                functions: functions@.map_values(|a: AggregationStep| (a.function@, a.field@, opt_view(a.alias))),
            },
            PlanStep::Sort { field, ascending } => StepView::Sort { field: field@, ascending: *ascending },
            PlanStep::Project { fields } => StepView::Project { fields: fields@.map_values(|f: String| f@) },
        }
    }
}

/// The `{:?}` text of a string: quoted, with escapes.
pub uninterp spec fn debug_text(s: Seq<char>) -> Seq<char>;

/// `format!("{:?}", s)`: the string's `Debug` form (double-quoted, with
/// special characters escaped). The escaping rules are named, not stated.
#[verifier::external_body]
fn debug_str(s: &str) -> (r: String)
    ensures
        r@ == debug_text(s@),
{
    format!("{:?}", s)
}

/// The `{:?}` text of an aggregation function.
pub open spec fn function_debug(f: AggregationFunction) -> Seq<char> {
    match f {
        AggregationFunction::Count => "Count"@,
        AggregationFunction::Sum(x) => "Sum("@ + debug_text(x@) + ")"@,
        AggregationFunction::Avg(x) => "Avg("@ + debug_text(x@) + ")"@,
        AggregationFunction::Min(x) => "Min("@ + debug_text(x@) + ")"@,
        AggregationFunction::Max(x) => "Max("@ + debug_text(x@) + ")"@,
    }
}

fn concat3(a: &str, b: &str, c: &str) -> (r: String)
    ensures
        r@ == a@ + b@ + c@,
{
    let mut r = String::from_str(a);
    r.append(b);
    r.append(c);
    r
}

/// Renders an aggregation function as `{:?}` does.
pub fn format_function(f: &AggregationFunction) -> (r: String)
    ensures
        r@ == function_debug(*f),
{
    match f {
        AggregationFunction::Count => String::from_str("Count"),
        AggregationFunction::Sum(x) => {
            let d = debug_str(x.as_str());
            concat3("Sum(", d.as_str(), ")")
        },
        AggregationFunction::Avg(x) => {
            let d = debug_str(x.as_str());
            concat3("Avg(", d.as_str(), ")")
        },
        AggregationFunction::Min(x) => {
            let d = debug_str(x.as_str());
            concat3("Min(", d.as_str(), ")")
        },
        AggregationFunction::Max(x) => {
            let d = debug_str(x.as_str());
            concat3("Max(", d.as_str(), ")")
        },
    }
}

/// The routing of a query: `HINT SCATTER n SHARDS` gives a ring of radius
/// `n`, else `HINT PREFER LOCAL_SHARD` gives shard 0, else a ring of radius 5.
pub open spec fn routing_of(hints: Option<QueryHints>) -> RoutingStrategy {
    match hints {
        Some(h) => match h.scatter_shards {
            Some(n) => RoutingStrategy::HashRing { radius: n },
            None => if h.prefer_local_shard { RoutingStrategy::SingleShard(0) } else { RoutingStrategy::HashRing { radius: 5 } },
        },
        None => RoutingStrategy::HashRing { radius: 5 },
    }
}

/// The backend of a query: a `USING` hint names it, else a forced GPU
/// gives the GPU, else the choice is automatic.
pub open spec fn backend_of(hints: Option<QueryHints>) -> ExecutionBackend {
    match hints {
        Some(h) => match h.backend {
            Some(BackendHint::Gpu) => ExecutionBackend::Gpu,
            Some(BackendHint::Avx512) => ExecutionBackend::Avx512,
            Some(BackendHint::Avx2) => ExecutionBackend::Avx2,
            Some(BackendHint::Scalar) => ExecutionBackend::Scalar,
            Some(BackendHint::Auto) => ExecutionBackend::Auto,
            None => if h.force_gpu { ExecutionBackend::Gpu } else { ExecutionBackend::Auto },
        },
        None => ExecutionBackend::Auto,
    }
}

/// The search strategy: a property filter alone is filtered first
/// (selectivity 0.1); a filter with a distance condition would use a
/// filter-aware HNSW index, which the single `WHERE` condition cannot hold;
/// anything else searches vectors first (`ef` 100, oversampling 2.0).
pub open spec fn strategy_of(w: Option<WhereKind>) -> SearchStrategy {
    match w {
        Some(WhereKind::PropertyFilter) => SearchStrategy::FilterFirst { estimated_selectivity_bits: 0x3DCC_CCCDu32 },
        _ => SearchStrategy::VectorFirst { ef: 100, oversampling_bits: 0x4000_0000u32 },
    }
}

/// A `USING` hint selects the backend of the same name, whatever else the
/// hints say; without one a forced GPU gives the GPU, and otherwise (also
/// without hints) the choice is left automatic.
pub proof fn law_backend_hint_names_backend(h: QueryHints)
    ensures
        h.backend == Some(BackendHint::Auto) ==> backend_of(Some(h)) == ExecutionBackend::Auto,
        h.backend == Some(BackendHint::Gpu) ==> backend_of(Some(h)) == ExecutionBackend::Gpu,
        h.backend == Some(BackendHint::Avx512) ==> backend_of(Some(h)) == ExecutionBackend::Avx512,
        h.backend == Some(BackendHint::Avx2) ==> backend_of(Some(h)) == ExecutionBackend::Avx2,
        h.backend == Some(BackendHint::Scalar) ==> backend_of(Some(h)) == ExecutionBackend::Scalar,
        h.backend is None && h.force_gpu ==> backend_of(Some(h)) == ExecutionBackend::Gpu,
        h.backend is None && !h.force_gpu ==> backend_of(Some(h)) == ExecutionBackend::Auto,
        backend_of(None) == ExecutionBackend::Auto,
{
}

/// The steps planned for `q`, in order: route to shards; a local vector
/// search for a distance condition; a traversal for `CONNECTEDTO` (hops
/// from `WITHIN`, default 1 to 2, both directions); a top-k merge; a sort
/// for `ORDER BY`; the aggregations; the projection of the returned fields.
pub open spec fn planned_steps(q: PlanInput) -> Seq<StepView> {
    let route = seq![StepView::RouteShards { shard_ids: Seq::empty(), strategy: routing_of(q.hints) }];
    let search = match q.where_clause {
        Some(WhereKind::ToroidalDistance { field, threshold_bits }) => seq![StepView::LocalVectorSearch {
            field: field@,
            threshold_bits,
            limit: q.limit,
            backend: backend_of(q.hints),
        }],
        _ => Seq::empty(),
    };
    let traverse = match q.connected_relationship {
        Some(rel) => seq![StepView::GraphTraversal {
            edge_type: Some(rel@),
            max_hops: match q.within_clause { Some(w) => w.max_hops, None => 2 },
            min_hops: match q.within_clause { Some(w) => w.min_hops, None => 1 },
            direction: TraversalDirection::Both,
        }],
        None => Seq::empty(),
    };
    let merge = seq![StepView::TopKMerge {
        k: q.limit,
        sort_field: match q.order_by { Some(o) => Some(o.field@), None => None },
    }];
    let sort = match q.order_by {
        Some(o) => seq![StepView::Sort { field: o.field@, ascending: o.ascending }],
        None => Seq::empty(),
    };
    let aggregate = if q.aggregation_fields@.len() > 0 {
        seq![StepView::Aggregate {
            functions: q.aggregation_fields@.map_values(|a: AggregationField|
                (function_debug(a.function), function_debug(a.function), opt_view(a.alias))),
        }]
    } else {
        Seq::empty()
    };
    let project = if q.return_fields@.len() > 0 {
        seq![StepView::Project { fields: q.return_fields@.map_values(|f: String| f@) }]
    } else {
        Seq::empty()
    };
    route + search + traverse + merge + sort + aggregate + project
}

/// `SCATTER n` routes to a ring of radius `n`; otherwise `PREFER
/// LOCAL_SHARD` routes to shard 0 alone; otherwise, and without hints, to a
/// ring of radius 5.
pub proof fn law_routing_hints(h: QueryHints)
    ensures
        h.scatter_shards is Some ==> routing_of(Some(h)) == (RoutingStrategy::HashRing { radius: h.scatter_shards.unwrap() }),
        h.scatter_shards is None && h.prefer_local_shard ==> routing_of(Some(h)) == RoutingStrategy::SingleShard(0),
        h.scatter_shards is None && !h.prefer_local_shard ==> routing_of(Some(h)) == (RoutingStrategy::HashRing { radius: 5 }),
        routing_of(None) == (RoutingStrategy::HashRing { radius: 5 }),
{
}

/// A distance condition plans, right after the routing step, a local
/// vector search on the field and threshold of the condition, limited to
/// the query's limit and run on the backend the hints select (with
/// `USING AVX512`, on AVX-512).
pub proof fn law_vector_search_step(q: PlanInput)
    requires
        q.where_clause matches Some(WhereKind::ToroidalDistance { .. }),
    ensures
        planned_steps(q).len() >= 2,
        planned_steps(q)[0] is RouteShards,
        match (q.where_clause, planned_steps(q)[1]) {
            (Some(WhereKind::ToroidalDistance { field, threshold_bits }),
                StepView::LocalVectorSearch { field: f, threshold_bits: t, limit, backend }) =>
                f == field@ && t == threshold_bits && limit == q.limit && backend == backend_of(q.hints),
            _ => false,
        },
        q.hints is Some && q.hints.unwrap().backend == Some(BackendHint::Avx512)
            ==> (planned_steps(q)[1] matches StepView::LocalVectorSearch { backend, .. } && backend == ExecutionBackend::Avx512),
{
}

fn clone_opt_string(o: &Option<String>) -> (r: Option<String>)
    ensures
        opt_view(r) == opt_view(*o),
{
    match o {
        Some(s) => Some(s.clone()),
        None => None,
    }
}

fn clone_strings(v: &Vec<String>) -> (r: Vec<String>)
    ensures
        r@.map_values(|f: String| f@) == v@.map_values(|f: String| f@),
{
    let mut r: Vec<String> = Vec::new();
    let mut i: usize = 0;
    while i < v.len()
        invariant
            i <= v@.len(),
            r@.map_values(|f: String| f@) == v@.take(i as int).map_values(|f: String| f@),
        decreases v@.len() - i,
    {
        let c = v[i].clone();
        let ghost before = r@;
        r.push(c);
        proof {
            assert(v@.take(i + 1) =~= v@.take(i as int).push(v@[i as int]));
            assert(r@ =~= before.push(c));
            assert(r@.map_values(|f: String| f@) =~= before.map_values(|f: String| f@).push(c@));
        }
        i = i + 1;
        assert(r@.map_values(|f: String| f@) =~= v@.take(i as int).map_values(|f: String| f@));
    }
    assert(v@.take(v@.len() as int) =~= v@);
    r
}

/// Query plan builder.
pub struct PlanBuilder;

impl PlanBuilder {
    /// The routing of `q` (see [`routing_of`]).
    pub fn select_routing(hints: &Option<QueryHints>) -> (r: RoutingStrategy)
        ensures
            r == routing_of(*hints),
    {
        match hints {
            Some(h) => match h.scatter_shards {
                Some(n) => RoutingStrategy::HashRing { radius: n },
                None => if h.prefer_local_shard { RoutingStrategy::SingleShard(0) } else { RoutingStrategy::HashRing { radius: 5 } },
            },
            None => RoutingStrategy::HashRing { radius: 5 },
        }
    }

    /// The backend of `q` (see [`backend_of`]).
    pub fn select_backend(hints: &Option<QueryHints>) -> (r: ExecutionBackend)
        ensures
            r == backend_of(*hints),
    {
        match hints {
            Some(h) => match h.backend {
                Some(BackendHint::Gpu) => ExecutionBackend::Gpu,
                Some(BackendHint::Avx512) => ExecutionBackend::Avx512,
                Some(BackendHint::Avx2) => ExecutionBackend::Avx2,
                Some(BackendHint::Scalar) => ExecutionBackend::Scalar,
                Some(BackendHint::Auto) => ExecutionBackend::Auto,
                None => if h.force_gpu { ExecutionBackend::Gpu } else { ExecutionBackend::Auto },
            },
            None => ExecutionBackend::Auto,
        }
    }

    /// The search strategy of `q` (see [`strategy_of`]).
    pub fn select_strategy(w: &Option<WhereKind>) -> (r: SearchStrategy)
        ensures
            r == strategy_of(*w),
    {
        match w {
            Some(WhereKind::PropertyFilter) => SearchStrategy::FilterFirst { estimated_selectivity_bits: 0x3DCC_CCCDu32 },
            _ => SearchStrategy::VectorFirst { ef: 100, oversampling_bits: 0x4000_0000u32 },
        }
    }

    /// The logical plan of `q` (see [`planned_steps`]), carrying the cost
    /// model's estimates.
    pub fn build(q: &PlanInput, estimated_cost_bits: u64, estimated_rows: u64) -> (p: LogicalPlan)
        ensures
            p.steps@.map_values(|s: PlanStep| s@) == planned_steps(*q),
            p.backend == backend_of(q.hints),
            p.search_strategy == strategy_of(q.where_clause),
            p.estimated_cost_bits == estimated_cost_bits,
            p.estimated_rows == estimated_rows,
    {
        let backend = Self::select_backend(&q.hints);
        let mut steps: Vec<PlanStep> = Vec::new();
        steps.push(PlanStep::RouteShards { shard_ids: Vec::new(), strategy: Self::select_routing(&q.hints) });
        match &q.where_clause {
            Some(WhereKind::ToroidalDistance { field, threshold_bits }) => {
                steps.push(PlanStep::LocalVectorSearch {
                    field: field.clone(),
                    threshold_bits: *threshold_bits,
                    limit: q.limit,
                    backend,
                });
            },
            _ => {},
        }
        match &q.connected_relationship {
            Some(rel) => {
                let (max_hops, min_hops) = match &q.within_clause {
                    Some(w) => (w.max_hops, w.min_hops),
                    None => (2u32, 1u32),
                };
                steps.push(PlanStep::GraphTraversal {
                    edge_type: Some(rel.clone()),
                    max_hops,
                    min_hops,
                    direction: TraversalDirection::Both,
                });
            },
            None => {},
        }
        let sort_field = match &q.order_by {
            Some(o) => Some(o.field.clone()),
            None => None,
        };
        steps.push(PlanStep::TopKMerge { k: q.limit, sort_field });
        match &q.order_by {
            Some(o) => {
                steps.push(PlanStep::Sort { field: o.field.clone(), ascending: o.ascending });
            },
            None => {},
        }
        if q.aggregation_fields.len() > 0 {
            let mut functions: Vec<AggregationStep> = Vec::new();
            let mut i: usize = 0;
            while i < q.aggregation_fields.len()
                invariant
                    i <= q.aggregation_fields@.len(),
                    functions@.map_values(|a: AggregationStep| (a.function@, a.field@, opt_view(a.alias)))
                        == q.aggregation_fields@.take(i as int).map_values(|a: AggregationField|
                            (function_debug(a.function), function_debug(a.function), opt_view(a.alias))),
                decreases q.aggregation_fields@.len() - i,
            {
                let agg = &q.aggregation_fields[i];
                let name = format_function(&agg.function);
                let field = format_function(&agg.function);
                let alias = clone_opt_string(&agg.alias);
                let st = AggregationStep { function: name, field, alias };
                let ghost before = functions@;
                functions.push(st);
                proof {
                    let ta = q.aggregation_fields@.take(i as int);
                    assert(q.aggregation_fields@.take(i + 1) =~= ta.push(*agg));
                    assert(functions@ =~= before.push(st));
                    assert(functions@.map_values(|a: AggregationStep| (a.function@, a.field@, opt_view(a.alias)))
                        =~= before.map_values(|a: AggregationStep| (a.function@, a.field@, opt_view(a.alias)))
                            .push((st.function@, st.field@, opt_view(st.alias))));
                }
                i = i + 1;
                assert(functions@.map_values(|a: AggregationStep| (a.function@, a.field@, opt_view(a.alias)))
                    =~= q.aggregation_fields@.take(i as int).map_values(|a: AggregationField|
                        (function_debug(a.function), function_debug(a.function), opt_view(a.alias))));
            }
            assert(q.aggregation_fields@.take(q.aggregation_fields@.len() as int) =~= q.aggregation_fields@);
            steps.push(PlanStep::Aggregate { functions });
        }
        if q.return_fields.len() > 0 {
            steps.push(PlanStep::Project { fields: clone_strings(&q.return_fields) });
        }
        proof {
            assert(steps@.map_values(|s: PlanStep| s@) =~= planned_steps(*q));
        }
        LogicalPlan {
            steps,
            estimated_cost_bits,
            estimated_rows,
            backend,
            search_strategy: Self::select_strategy(&q.where_clause),
        }
    }
}

} // verus!

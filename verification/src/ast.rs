//! Syntax-tree types of the query language that carry no floating-point
//! values.

use vstd::prelude::*;

verus! {

/// Window functions.
#[derive(Debug, Clone, PartialEq, Eq)]
pub enum WindowFunction {
    RowNumber,
    Rank,
    DenseRank,
    Lag(String),
    Lead(String),
    FirstValue(String),
    LastValue(String),
    Sum(String),
    Avg(String),
    Count,
}

/// `PARTITION BY` and `ORDER BY` of a window.
#[derive(Debug, Clone, PartialEq, Eq)]
pub struct WindowSpec {
    pub partition_by: Vec<String>,
    pub order_by: Option<OrderByClause>,
}

/// A window function applied over a window, with its output name.
#[derive(Debug, Clone, PartialEq, Eq)]
pub struct WindowExpression {
    pub function: WindowFunction,
    pub window_spec: Option<WindowSpec>,
    pub alias: String,
}

/// Aggregation functions; all but `Count` name a field.
#[derive(Debug, Clone, PartialEq, Eq)]
pub enum AggregationFunction {
    Count,
    Sum(String),
    Avg(String),
    Min(String),
    Max(String),
}

/// An aggregation with its optional output name.
#[derive(Debug, Clone, PartialEq, Eq)]
pub struct AggregationField {
    pub function: AggregationFunction,
    pub alias: Option<String>,
}

/// `ORDER BY field [ASC|DESC]`.
#[derive(Debug, Clone, PartialEq, Eq)]
pub struct OrderByClause {
    pub field: String,
    pub ascending: bool,
}

/// Hints for planning and execution.
#[derive(Debug, Clone, PartialEq, Eq)]
pub struct QueryHints {
    pub force_gpu: bool,
    /// `HINT SCATTER n SHARDS`.
    pub scatter_shards: Option<u32>,
    /// `HINT PREFER LOCAL_SHARD`.
    pub prefer_local_shard: bool,
    /// `USING GPU | AVX512 | AVX2 | SCALAR`.
    pub backend: Option<BackendHint>,
    /// `HINT PREFETCH GRAPH_HOPS n`.
    pub prefetch_hops: Option<u32>,
}

impl Default for QueryHints {
    /// No hint set.
    fn default() -> (h: Self)
        ensures
            !h.force_gpu,
            h.scatter_shards is None,
            !h.prefer_local_shard,
            h.backend is None,
            h.prefetch_hops is None,
    {
        QueryHints { force_gpu: false, scatter_shards: None, prefer_local_shard: false, backend: None, prefetch_hops: None }
    }
}

/// Execution-backend hints.
#[derive(Debug, Clone, Copy, PartialEq, Eq, Structural)]
pub enum BackendHint {
    Auto,
    Gpu,
    Avx512,
    Avx2,
    Scalar,
}

/// Settings of a data space.
#[derive(Debug, Clone, PartialEq, Eq)]
pub struct SpaceConfig {
    pub shards: u32,
    pub replication_factor: u32,
    pub storage_backend: Option<String>,
    pub embedding_model: Option<String>,
}

/// A duration: an amount and a unit (`s`, `m`, `h` or `d`).
#[derive(Debug, Clone, PartialEq, Eq)]
pub struct Duration {
    pub value: u64,
    pub unit: String,
}

/// A processing pipeline from a stream through a transform into an output.
#[derive(Debug, Clone, PartialEq, Eq)]
pub struct PipelineDef {
    pub name: String,
    pub from_stream: String,
    pub transform: TransformDef,
    pub into: PipelineOutput,
}

/// The transform step of a pipeline.
#[derive(Debug, Clone, PartialEq, Eq)]
pub struct TransformDef {
    pub model: Option<String>,
    pub function: Option<String>,
    pub batch_size: Option<u32>,
}

/// Where a pipeline writes.
#[derive(Debug, Clone, PartialEq, Eq)]
pub enum PipelineOutput {
    Update { node_type: String, field: String },
    Insert { node_type: String },
    Stream { stream_name: String },
}

/// When a view is refreshed.
#[derive(Debug, Clone, PartialEq, Eq)]
pub enum RefreshPolicy {
    Immediate,
    Periodic(Duration),
    OnDemand,
}

/// How a subscription delivers.
#[derive(Debug, Clone, PartialEq, Eq)]
pub enum EmitClause {
    Changes,
    Events,
    WebSocket { endpoint: String },
    Webhook { url: String },
    Grpc { service: String },
}

/// The window of a stream query.
#[derive(Debug, Clone, PartialEq, Eq)]
pub struct StreamWindowSpec {
    pub duration: Duration,
    pub slide: Option<Duration>,
    pub watermark: Option<String>,
}

/// Centrality algorithms named in queries.
#[derive(Debug, Clone, Copy, PartialEq, Eq, Structural)]
pub enum CentralityAlgorithm {
    Degree,
    Betweenness,
    Closeness,
    Eigenvector,
}

/// Community algorithms named in queries.
#[derive(Debug, Clone, Copy, PartialEq, Eq, Structural)]
pub enum CommunityAlgorithm {
    Louvain,
    LabelPropagation,
    ConnectedComponents,
}

/// Field types of the schema language; a vector carries its dimension.
#[derive(Debug, Clone, Copy, PartialEq, Eq, Structural)]
pub enum DataType {
    Int,
    Float,
    Bool,
    Text,
    Timestamp,
    Vector(u32),
}

/// Direction of a relationship in a pattern.
#[derive(Debug, Clone, Copy, PartialEq, Eq, Structural)]
pub enum Direction {
    Outgoing,
    Incoming,
    Both,
}

/// `-[:TYPE]->` and its direction.
#[derive(Debug, Clone, PartialEq, Eq)]
pub struct RelationshipPattern {
    pub type_: String,
    pub direction: Direction,
}

/// `RETURN` fields.
#[derive(Debug, Clone, PartialEq, Eq)]
pub struct ReturnClause {
    pub fields: Vec<String>,
}

/// `LIMIT n`.
#[derive(Debug, Clone, Copy, PartialEq, Eq, Structural)]
pub struct LimitClause {
    pub count: u32,
}

/// `WITHIN min..max HOPS`.
#[derive(Debug, Clone, Copy, PartialEq, Eq, Structural)]
pub struct WithinClause {
    pub min_hops: u32,
    pub max_hops: u32,
}

/// Constraints on a field.
#[derive(Debug, Clone, PartialEq, Eq)]
pub enum FieldConstraint {
    NotNull,
    Unique,
    Index,
    /// Toroidal vector index; `phi` is the decimal literal as written.
    VectorIndex { phi: String },
}

/// Abstract value of a [`FieldConstraint`].
pub enum ConstraintView {
    NotNull,
    Unique,
    Index,
    VectorIndex(Seq<char>),
}

impl View for FieldConstraint {
    type V = ConstraintView;

    open spec fn view(&self) -> ConstraintView {
        match self {
            FieldConstraint::NotNull => ConstraintView::NotNull,
            FieldConstraint::Unique => ConstraintView::Unique,
            FieldConstraint::Index => ConstraintView::Index,
            FieldConstraint::VectorIndex { phi } => ConstraintView::VectorIndex(phi@),
        }
    }
}

/// The constraints as abstract values.
pub open spec fn constraints_view(cs: Seq<FieldConstraint>) -> Seq<ConstraintView> {
    cs.map_values(|c: FieldConstraint| c@)
}

/// Copies a constraint.
pub fn clone_constraint(c: &FieldConstraint) -> (r: FieldConstraint)
    ensures
        r@ == c@,
{
    match c {
        FieldConstraint::NotNull => FieldConstraint::NotNull,
        FieldConstraint::Unique => FieldConstraint::Unique,
        FieldConstraint::Index => FieldConstraint::Index,
        FieldConstraint::VectorIndex { phi } => FieldConstraint::VectorIndex { phi: phi.clone() },
    }
}

/// A field of a node, edge or stream type.
#[derive(Debug, Clone, PartialEq, Eq)]
pub struct FieldDef {
    pub name: String,
    pub data_type: DataType,
    pub is_primary_key: bool,
    pub constraints: Vec<FieldConstraint>,
}

/// A node type.
#[derive(Debug, Clone, PartialEq, Eq)]
pub struct NodeTypeDef {
    pub name: String,
    pub fields: Vec<FieldDef>,
}

/// An edge type between two node types.
#[derive(Debug, Clone, PartialEq, Eq)]
pub struct EdgeTypeDef {
    pub name: String,
    pub from: String,
    pub to: String,
    pub fields: Vec<FieldDef>,
}

/// A statement of the schema definition language.
#[derive(Debug, Clone, PartialEq, Eq)]
pub enum DdlStatement {
    CreateNodeType(NodeTypeDef),
    CreateEdgeType(EdgeTypeDef),
    DropNodeType(String),
    DropEdgeType(String),
    ShowSchema,
}

/// Abstract value of a [`DdlStatement`].
pub enum DdlView {
    /// Name and fields.
    CreateNodeType(Seq<char>, Seq<FieldView>),
    /// Name, source type, target type and fields.
    CreateEdgeType(Seq<char>, Seq<char>, Seq<char>, Seq<FieldView>),
    DropNodeType(Seq<char>),
    DropEdgeType(Seq<char>),
    ShowSchema,
}

impl View for DdlStatement {
    type V = DdlView;

    open spec fn view(&self) -> DdlView {
        match self {
            DdlStatement::CreateNodeType(d) => DdlView::CreateNodeType(d.name@, fields_view(d.fields@)),
            DdlStatement::CreateEdgeType(d) => DdlView::CreateEdgeType(d.name@, d.from@, d.to@, fields_view(d.fields@)),
            DdlStatement::DropNodeType(n) => DdlView::DropNodeType(n@),
            DdlStatement::DropEdgeType(n) => DdlView::DropEdgeType(n@),
            DdlStatement::ShowSchema => DdlView::ShowSchema,
        }
    }
}

/// Abstract value of a [`FieldDef`].
pub struct FieldView {
    pub name: Seq<char>,
    pub data_type: DataType,
    pub is_primary_key: bool,
    pub constraints: Seq<ConstraintView>,
}

impl View for FieldDef {
    type V = FieldView;

    open spec fn view(&self) -> FieldView {
        FieldView {
            name: self.name@,
            data_type: self.data_type,
            is_primary_key: self.is_primary_key,
            constraints: constraints_view(self.constraints@),
        }
    }
}

/// The fields as abstract values.
pub open spec fn fields_view(fs: Seq<FieldDef>) -> Seq<FieldView> {
    fs.map_values(|f: FieldDef| f@)
}

/// Abstract value of a [`NodeTypeDef`]: its name and fields.
pub open spec fn node_type_view(d: NodeTypeDef) -> (Seq<char>, Seq<FieldView>) {
    (d.name@, fields_view(d.fields@))
}

/// Abstract value of an [`EdgeTypeDef`]: name, endpoints and fields.
pub open spec fn edge_type_view(d: EdgeTypeDef) -> (Seq<char>, Seq<char>, Seq<char>, Seq<FieldView>) {
    (d.name@, d.from@, d.to@, fields_view(d.fields@))
}

/// Copies field definitions.
pub fn clone_fields(fs: &Vec<FieldDef>) -> (r: Vec<FieldDef>)
    ensures
        fields_view(r@) == fields_view(fs@),
{
    let mut r: Vec<FieldDef> = Vec::new();
    let mut i: usize = 0;
    while i < fs.len()
        invariant
            i <= fs@.len(),
            fields_view(r@) == fields_view(fs@.take(i as int)),
        decreases fs@.len() - i,
    {
        let f = &fs[i];
        let mut cs: Vec<FieldConstraint> = Vec::new();
        let mut j: usize = 0;
        while j < f.constraints.len()
            invariant
                j <= f.constraints@.len(),
                constraints_view(cs@) == constraints_view(f.constraints@.take(j as int)),
            decreases f.constraints@.len() - j,
        {
            let c = clone_constraint(&f.constraints[j]);
            let ghost before = cs@;
            cs.push(c);
            proof {
                assert(f.constraints@.take(j + 1) =~= f.constraints@.take(j as int).push(f.constraints@[j as int]));
                assert(cs@ =~= before.push(c));
                assert(constraints_view(cs@) =~= constraints_view(before).push(c@));
                assert(constraints_view(f.constraints@.take(j + 1)) =~= constraints_view(f.constraints@.take(j as int)).push(f.constraints@[j as int]@));
            }
            j = j + 1;
        }
        assert(f.constraints@.take(f.constraints@.len() as int) =~= f.constraints@);
        let c = FieldDef { name: f.name.clone(), data_type: f.data_type, is_primary_key: f.is_primary_key, constraints: cs };
        let ghost before = r@;
        r.push(c);
        proof {
            assert(fs@.take(i + 1) =~= fs@.take(i as int).push(fs@[i as int]));
            assert(r@ =~= before.push(c));
            assert(fields_view(r@) =~= fields_view(before).push(c@));
            assert(fields_view(fs@.take(i + 1)) =~= fields_view(fs@.take(i as int)).push(fs@[i as int]@));
        }
        i = i + 1;
    }
    assert(fs@.take(fs@.len() as int) =~= fs@);
    r
}

impl NodeTypeDef {
    /// A copy of the definition.
    pub fn clone_def(&self) -> (r: Self)
        ensures
            node_type_view(r) == node_type_view(*self),
    {
        NodeTypeDef { name: self.name.clone(), fields: clone_fields(&self.fields) }
    }
}

impl EdgeTypeDef {
    /// A copy of the definition.
    pub fn clone_def(&self) -> (r: Self)
        ensures
            edge_type_view(r) == edge_type_view(*self),
    {
        EdgeTypeDef { name: self.name.clone(), from: self.from.clone(), to: self.to.clone(), fields: clone_fields(&self.fields) }
    }
}

/// The fields of a stream's records.
#[derive(Debug, Clone, PartialEq, Eq)]
pub struct StreamSchema {
    pub fields: Vec<FieldDef>,
}

/// A stream of events.
#[derive(Debug, Clone, PartialEq, Eq)]
pub struct StreamDef {
    pub name: String,
    pub topic: String,
    pub schema: StreamSchema,
    pub retention: Option<Duration>,
}

/// A data space: node, edge and stream types, and settings.
#[derive(Debug, Clone, PartialEq, Eq)]
pub struct SpaceDef {
    pub name: String,
    pub nodes: Vec<NodeTypeDef>,
    pub edges: Vec<EdgeTypeDef>,
    pub streams: Vec<StreamDef>,
    pub config: SpaceConfig,
}

/// A change to a space.
#[derive(Debug, Clone, PartialEq, Eq)]
pub enum AlterOperation {
    AddNode(NodeTypeDef),
    AddEdge(EdgeTypeDef),
    DropNode(String),
    DropEdge(String),
    AddField { node_type: String, field: FieldDef },
    DropField { node_type: String, field_name: String },
}

/// Changes to the space `name`, applied in order.
#[derive(Debug, Clone, PartialEq, Eq)]
pub struct AlterSpace {
    pub name: String,
    pub operations: Vec<AlterOperation>,
}


/// A property value in a pattern or a filter; a number keeps the decimal
/// literal as written.
#[derive(Debug, Clone, PartialEq, Eq)]
pub enum PropertyValue {
    String(String),
    Number(String),
    Boolean(bool),
}

/// Abstract value of a [`PropertyValue`].
pub enum ValueView {
    Str(Seq<char>),
    Number(Seq<char>),
    Boolean(bool),
}

impl View for PropertyValue {
    type V = ValueView;

    open spec fn view(&self) -> ValueView {
        match self {
            PropertyValue::String(t) => ValueView::Str(t@),
            PropertyValue::Number(t) => ValueView::Number(t@),
            PropertyValue::Boolean(b) => ValueView::Boolean(*b),
        }
    }
}

/// Property name and value pairs as abstract values.
pub open spec fn pairs_view(ps: Seq<(String, PropertyValue)>) -> Seq<(Seq<char>, ValueView)> {
    ps.map_values(|p: (String, PropertyValue)| (p.0@, p.1@))
}

/// The strings as character sequences.
pub open spec fn strings_view(ss: Seq<String>) -> Seq<Seq<char>> {
    ss.map_values(|s: String| s@)
}

/// `(alias:Label {name: value, ...})`.
#[derive(Debug, Clone, PartialEq, Eq)]
pub struct NodePattern {
    pub alias: String,
    pub label: String,
    pub properties: Option<Vec<(String, PropertyValue)>>,
}

/// Abstract value of a [`NodePattern`].
pub struct NodeView {
    pub alias: Seq<char>,
    pub label: Seq<char>,
    pub properties: Option<Seq<(Seq<char>, ValueView)>>,
}

impl View for NodePattern {
    type V = NodeView;

    open spec fn view(&self) -> NodeView {
        NodeView {
            alias: self.alias@,
            label: self.label@,
            properties: match self.properties {
                Some(ps) => Some(pairs_view(ps@)),
                None => None,
            },
        }
    }
}

/// Abstract value of a [`RelationshipPattern`]: its type and direction.
pub open spec fn relationship_view(r: RelationshipPattern) -> (Seq<char>, Direction) {
    (r.type_@, r.direction)
}

/// `MATCH` with a source pattern and, optionally, a relationship to a target.
#[derive(Debug, Clone, PartialEq, Eq)]
pub struct MatchClause {
    pub source: NodePattern,
    pub relationship: Option<RelationshipPattern>,
    pub target: Option<NodePattern>,
}

/// Abstract value of a [`MatchClause`].
pub struct MatchView {
    pub source: NodeView,
    pub relationship: Option<(Seq<char>, Direction)>,
    pub target: Option<NodeView>,
}

impl View for MatchClause {
    type V = MatchView;

    open spec fn view(&self) -> MatchView {
        MatchView {
            source: self.source@,
            relationship: match self.relationship {
                Some(r) => Some(relationship_view(r)),
                None => None,
            },
            target: match self.target {
                Some(t) => Some(t@),
                None => None,
            },
        }
    }
}

/// A `WHERE` condition; thresholds keep the decimal literal as written.
#[derive(Debug, Clone, PartialEq, Eq)]
pub enum WhereCondition {
    ToroidalDistance { field: String, threshold: String },
    SimilarTo { field: String, threshold: String },
    PropertyFilter { property: String, operator: String, value: PropertyValue },
}

/// Abstract value of a [`WhereCondition`].
pub enum WhereView {
    ToroidalDistance(Seq<char>, Seq<char>),
    SimilarTo(Seq<char>, Seq<char>),
    PropertyFilter(Seq<char>, Seq<char>, ValueView),
}

impl View for WhereCondition {
    type V = WhereView;

    open spec fn view(&self) -> WhereView {
        match self {
            WhereCondition::ToroidalDistance { field, threshold } => WhereView::ToroidalDistance(field@, threshold@),
            WhereCondition::SimilarTo { field, threshold } => WhereView::SimilarTo(field@, threshold@),
            WhereCondition::PropertyFilter { property, operator, value } => WhereView::PropertyFilter(property@, operator@, value@),
        }
    }
}

/// `CONNECTEDTO(target, "relationship" [, property, value])`.
#[derive(Debug, Clone, PartialEq, Eq)]
pub struct ConnectedClause {
    pub target_label: String,
    pub relationship_type: String,
    pub property_filter: Option<(String, PropertyValue)>,
}

/// Abstract value of a [`ConnectedClause`].
pub struct ConnectedView {
    pub target_label: Seq<char>,
    pub relationship_type: Seq<char>,
    pub property_filter: Option<(Seq<char>, ValueView)>,
}

impl View for ConnectedClause {
    type V = ConnectedView;

    open spec fn view(&self) -> ConnectedView {
        ConnectedView {
            target_label: self.target_label@,
            relationship_type: self.relationship_type@,
            property_filter: match self.property_filter {
                Some(p) => Some((p.0@, p.1@)),
                None => None,
            },
        }
    }
}

/// Abstract value of an [`AggregationFunction`].
pub enum AggView {
    Count,
    Sum(Seq<char>),
    Avg(Seq<char>),
    Min(Seq<char>),
    Max(Seq<char>),
}

impl View for AggregationFunction {
    type V = AggView;

    open spec fn view(&self) -> AggView {
        match self {
            AggregationFunction::Count => AggView::Count,
            AggregationFunction::Sum(f) => AggView::Sum(f@),
            AggregationFunction::Avg(f) => AggView::Avg(f@),
            AggregationFunction::Min(f) => AggView::Min(f@),
            AggregationFunction::Max(f) => AggView::Max(f@),
        }
    }
}

/// Abstract value of an [`AggregationField`]: the function and its alias.
pub open spec fn aggregation_view(a: AggregationField) -> (AggView, Option<Seq<char>>) {
    (a.function@, match a.alias {
        Some(n) => Some(n@),
        None => None,
    })
}

/// The aggregation fields as abstract values.
pub open spec fn aggregations_view(fs: Seq<AggregationField>) -> Seq<(AggView, Option<Seq<char>>)> {
    fs.map_values(|a: AggregationField| aggregation_view(a))
}

/// Abstract value of an [`OrderByClause`]: field and whether ascending.
pub open spec fn order_view(o: OrderByClause) -> (Seq<char>, bool) {
    (o.field@, o.ascending)
}

/// A common table expression of `WITH`.
#[derive(Debug, PartialEq, Eq)]
pub struct CommonTableExpression {
    pub name: String,
    pub columns: Vec<String>,
    pub query: Box<Query>,
    pub is_recursive: bool,
}

/// `WITH` and its common table expressions.
#[derive(Debug, PartialEq, Eq)]
pub struct WithClause {
    pub ctes: Vec<CommonTableExpression>,
}

/// A named subquery.
#[derive(Debug, PartialEq, Eq)]
pub struct SubQuery {
    pub query: Box<Query>,
    pub alias: String,
}

/// A write inside a transaction.
#[derive(Debug, Clone, PartialEq, Eq)]
pub enum TransactionOperation {
    CreateNode(NodePattern),
    UpdateNode(NodePattern, Vec<(String, PropertyValue)>),
    DeleteNode(NodePattern),
    /// Source, target and relationship type.
    CreateEdge(String, String, String),
}

/// Writes applied together.
#[derive(Debug, Clone, PartialEq, Eq)]
pub struct Transaction {
    pub operations: Vec<TransactionOperation>,
}

/// A query over a stream.
#[derive(Debug, Clone, PartialEq, Eq)]
pub struct StreamQuery {
    pub stream_name: String,
    pub window: Option<StreamWindowSpec>,
    pub filter: Option<WhereCondition>,
}

/// Graph analytics requested by a query; the damping factor of PageRank is
/// held as the bit pattern of its `f32` value.
#[derive(Debug, Clone, PartialEq, Eq)]
pub enum GraphAnalyticsFunction {
    Centrality { node: String, algorithm: CentralityAlgorithm },
    PageRank { node: String, damping_bits: u32, iterations: u32 },
    CommunityDetection { algorithm: CommunityAlgorithm },
    Similarity { node1: String, node2: String, algorithm: String },
    PathFinding { from: String, to: String, algorithm: String },
}

/// A query of the language. The query vector, supplied at run time, is
/// held as the bit patterns of its `f32` components.
#[derive(Debug, PartialEq, Eq)]
pub struct Query {
    pub with_clause: Option<WithClause>,
    pub match_clause: Option<MatchClause>,
    pub where_clause: Option<WhereCondition>,
    pub connected_clause: Option<ConnectedClause>,
    pub within_clause: Option<WithinClause>,
    pub return_fields: Vec<String>,
    pub aggregation_fields: Vec<AggregationField>,
    pub window_functions: Vec<WindowExpression>,
    pub order_by: Option<OrderByClause>,
    pub subqueries: Vec<SubQuery>,
    pub transaction: Option<Transaction>,
    pub limit: u32,
    pub distributed: bool,
    pub hints: Option<QueryHints>,
    pub query_hash: u64,
    pub from_stream: Option<StreamQuery>,
    pub group_by: Vec<String>,
    pub having: Option<WhereCondition>,
    pub analytics: Vec<GraphAnalyticsFunction>,
    pub query_vector: Option<Vec<u32>>,
}

/// Whether `q` has none of the parts that the query text does not give:
/// no `WITH`, window functions, subqueries, transaction, stream,
/// grouping, `HAVING`, analytics or query vector, and a zero hash.
pub open spec fn no_extras(q: Query) -> bool {
    &&& q.with_clause is None
    &&& q.window_functions@.len() == 0
    &&& q.subqueries@.len() == 0
    &&& q.transaction is None
    &&& q.query_hash == 0
    &&& q.from_stream is None
    &&& q.group_by@.len() == 0
    &&& q.having is None
    &&& q.analytics@.len() == 0
    &&& q.query_vector is None
}

impl Default for Query {
    /// An empty query with a limit of ten.
    fn default() -> (q: Self)
        ensures
            no_extras(q),
            q.match_clause is None,
            q.where_clause is None,
            q.connected_clause is None,
            q.within_clause is None,
            q.return_fields@.len() == 0,
            q.aggregation_fields@.len() == 0,
            q.order_by is None,
            q.limit == 10,
            !q.distributed,
            q.hints is None,
    {
        Query {
            with_clause: None,
            match_clause: None,
            where_clause: None,
            connected_clause: None,
            within_clause: None,
            return_fields: Vec::new(),
            aggregation_fields: Vec::new(),
            window_functions: Vec::new(),
            order_by: None,
            subqueries: Vec::new(),
            transaction: None,
            limit: 10,
            distributed: false,
            hints: None,
            query_hash: 0,
            from_stream: None,
            group_by: Vec::new(),
            having: None,
            analytics: Vec::new(),
            query_vector: None,
        }
    }
}

/// A materialized or plain view over a query.
#[derive(Debug, PartialEq, Eq)]
pub struct ViewDef {
    pub name: String,
    pub query: Box<Query>,
    pub materialized: bool,
    pub refresh_policy: Option<RefreshPolicy>,
}

/// A reusable query with parameters.
#[derive(Debug, PartialEq, Eq)]
pub struct PatternDef {
    pub name: String,
    pub query: Box<Query>,
    pub parameters: Vec<String>,
}

/// A subscription to the changes of a query.
#[derive(Debug, PartialEq, Eq)]
pub struct Subscription {
    pub id: Option<String>,
    pub query: Box<Query>,
    pub emit: EmitClause,
    pub where_condition: Option<WhereCondition>,
}

/// A statement of the language.
#[derive(Debug, PartialEq, Eq)]
pub enum Statement {
    Query(Query),
    Explain(Query),
    Ddl(DdlStatement),
    Subscribe(Subscription),
    CreateSpace(SpaceDef),
    CreateStream(StreamDef),
    CreatePipeline(PipelineDef),
    CreateView(ViewDef),
    CreatePattern(PatternDef),
    AlterSpace(AlterSpace),
}

} // verus!

//! The statement engine: runs schema statements against its registry,
//! checks queries against the registered types, and hands queries and
//! `EXPLAIN` on to the caller, who runs them against a store and plans
//! them.

use vstd::prelude::*;
use crate::ast::{DdlStatement, DdlView, FieldView, Query, WhereCondition, WhereView, strings_view};
use crate::ddl_parser::{char_is, chars_of, keyword_at, parse_ddl_statement, statement_at, tag};
use crate::parser::{parse_query, query_at, query_is, QueryView};
use crate::schema::{cat, first_field_named, SchemaError, SchemaErrorView, SchemaRegistry};
use crate::ast::DataType;

verus! {

/// What a statement gives.
pub enum TqlResult {
    /// A query that passed the checks, to be run against a store.
    QueryReady(Query),
    /// The query of an `EXPLAIN`, whose plan is to be shown.
    ExplainRequested(Query),
    /// The message of a schema statement that took effect.
    DdlSuccess(String),
}

/// Why a statement failed.
#[derive(Debug, Clone, PartialEq, Eq)]
pub enum TqlError {
    ParseError(String),
    ValidationError(String),
    ExecutionError(String),
    SchemaError(SchemaError),
}

/// Abstract value of a [`TqlError`].
pub enum TqlErrorView {
    ParseError(Seq<char>),
    ValidationError(Seq<char>),
    ExecutionError(Seq<char>),
    SchemaError(SchemaErrorView),
}

impl View for TqlError {
    type V = TqlErrorView;

    open spec fn view(&self) -> TqlErrorView {
        match self {
            TqlError::ParseError(m) => TqlErrorView::ParseError(m@),
            TqlError::ValidationError(m) => TqlErrorView::ValidationError(m@),
            TqlError::ExecutionError(m) => TqlErrorView::ExecutionError(m@),
            TqlError::SchemaError(e) => TqlErrorView::SchemaError(e@),
        }
    }
}

/// The message of an error.
pub open spec fn tql_error_message(e: TqlErrorView) -> Seq<char> {
    match e {
        TqlErrorView::ParseError(m) => "Parse error: "@ + m,
        TqlErrorView::ValidationError(m) => "Validation error: "@ + m,
        TqlErrorView::ExecutionError(m) => "Execution error: "@ + m,
        TqlErrorView::SchemaError(e) => "Schema error: "@ + crate::schema::error_message(e),
    }
}

impl TqlError {
    /// The error's message.
    pub fn message(&self) -> (m: String)
        ensures
            m@ == tql_error_message(self@),
    {
        match self {
            TqlError::ParseError(m) => cat(String::from_str("Parse error: "), m.as_str()),
            TqlError::ValidationError(m) => cat(String::from_str("Validation error: "), m.as_str()),
            TqlError::ExecutionError(m) => cat(String::from_str("Execution error: "), m.as_str()),
            TqlError::SchemaError(e) => {
                let inner = e.message();
                cat(String::from_str("Schema error: "), inner.as_str())
            },
        }
    }
}

impl From<SchemaError> for TqlError {
    /// A schema error as an engine error.
    fn from(err: SchemaError) -> (r: Self) {
        TqlError::SchemaError(err)
    }
}

impl vstd::std_specs::convert::FromSpecImpl<SchemaError> for TqlError {
    open spec fn obeys_from_spec() -> bool {
        true
    }

    open spec fn from_spec(err: SchemaError) -> Self {
        TqlError::SchemaError(err)
    }
}

/// The effect of a schema statement other than `SHOW SCHEMA`: its message
/// or its error, and the node and edge types after it.
pub struct DdlEffect {
    pub result: Result<Seq<char>, SchemaErrorView>,
    pub nodes: Map<Seq<char>, (Seq<char>, Seq<FieldView>)>,
    pub edges: Map<Seq<char>, (Seq<char>, Seq<char>, Seq<char>, Seq<FieldView>)>,
}

/// What a schema statement does to node types `nt` and edge types `et`.
pub open spec fn ddl_effect(
    nt: Map<Seq<char>, (Seq<char>, Seq<FieldView>)>,
    et: Map<Seq<char>, (Seq<char>, Seq<char>, Seq<char>, Seq<FieldView>)>,
    d: DdlView,
) -> DdlEffect {
    match d {
        DdlView::CreateNodeType(name, fs) => if nt.contains_key(name) {
            DdlEffect { result: Err(SchemaErrorView::TypeAlreadyExists(name)), nodes: nt, edges: et }
        } else if crate::schema::first_zero_vector(fs) is Some {
            DdlEffect {
                result: Err(SchemaErrorView::InvalidDimension(fs[crate::schema::first_zero_vector(fs).unwrap()].name)),
                nodes: nt,
                edges: et,
            }
        } else if crate::schema::primary_key_count(fs) > 1 {
            DdlEffect { result: Err(SchemaErrorView::MultiplePrimaryKeys), nodes: nt, edges: et }
        } else {
            DdlEffect { result: Ok("Node type created successfully"@), nodes: nt.insert(name, (name, fs)), edges: et }
        },
        DdlView::CreateEdgeType(name, from, to, fs) => if et.contains_key(name) {
            DdlEffect { result: Err(SchemaErrorView::TypeAlreadyExists(name)), nodes: nt, edges: et }
        } else if !nt.contains_key(from) {
            DdlEffect { result: Err(SchemaErrorView::UnknownNodeType(from)), nodes: nt, edges: et }
        } else if !nt.contains_key(to) {
            DdlEffect { result: Err(SchemaErrorView::UnknownNodeType(to)), nodes: nt, edges: et }
        } else {
            DdlEffect {
                result: Ok("Edge type created successfully"@),
                nodes: nt,
                edges: et.insert(name, (name, from, to, fs)),
            }
        },
        DdlView::DropNodeType(name) => if !nt.contains_key(name) {
            DdlEffect { result: Err(SchemaErrorView::TypeNotFound(name)), nodes: nt, edges: et }
        } else if exists|k: Seq<char>| #[trigger] et.contains_key(k) && (et[k].1 == name || et[k].2 == name) {
            DdlEffect { result: Err(SchemaErrorView::TypeInUse(name)), nodes: nt, edges: et }
        } else {
            DdlEffect { result: Ok("Node type '"@ + name + "' dropped"@), nodes: nt.remove(name), edges: et }
        },
        DdlView::DropEdgeType(name) => if et.contains_key(name) {
            DdlEffect { result: Ok("Edge type '"@ + name + "' dropped"@), nodes: nt, edges: et.remove(name) }
        } else {
            DdlEffect { result: Err(SchemaErrorView::TypeNotFound(name)), nodes: nt, edges: et }
        },
        DdlView::ShowSchema => DdlEffect { result: Ok(Seq::empty()), nodes: nt, edges: et },
    }
}

/// One line `  - name` for each name, in order.
pub open spec fn bullet_lines(ns: Seq<Seq<char>>) -> Seq<char>
    decreases ns.len(),
{
    if ns.len() == 0 {
        Seq::empty()
    } else {
        bullet_lines(ns.drop_last()) + "  - "@ + ns.last() + "\n"@
    }
}

/// The listing of `SHOW SCHEMA` for node type names `ns` and edge type
/// names `es`.
pub open spec fn schema_text(ns: Seq<Seq<char>>, es: Seq<Seq<char>>) -> Seq<char> {
    "SCHEMA:\n\nNode Types:\n"@ + bullet_lines(ns) + "\nEdge Types:\n"@ + bullet_lines(es)
}

/// The field that a condition reads.
pub open spec fn condition_field(w: WhereView) -> Seq<char> {
    match w {
        WhereView::ToroidalDistance(f, _) => f,
        WhereView::SimilarTo(f, _) => f,
        WhereView::PropertyFilter(p, _, _) => p,
    }
}

/// What is wrong with condition `w` on node type `label`, if anything: an
/// unknown type or field, or a distance over a field that is not a vector.
pub open spec fn where_check(nt: Map<Seq<char>, (Seq<char>, Seq<FieldView>)>, label: Seq<char>, w: WhereView) -> Option<TqlErrorView> {
    let field = condition_field(w);
    if !nt.contains_key(label) {
        Some(TqlErrorView::SchemaError(SchemaErrorView::UnknownNodeType(label)))
    } else {
        match first_field_named(nt[label].1, field) {
            None => Some(TqlErrorView::SchemaError(SchemaErrorView::FieldNotFound(field))),
            Some(i) => if w is ToroidalDistance && !(nt[label].1[i].data_type is Vector) {
                Some(TqlErrorView::ValidationError("Field '"@ + field + "' is not a vector type"@))
            } else {
                None
            },
        }
    }
}

/// What is wrong with query `v`, if anything: an unknown node type, or
/// what [`where_check`] finds in its condition.
pub open spec fn query_check(nt: Map<Seq<char>, (Seq<char>, Seq<FieldView>)>, v: QueryView) -> Option<TqlErrorView> {
    let label = v.match_clause.source.label;
    if !nt.contains_key(label) {
        Some(TqlErrorView::ValidationError("Unknown node type: "@ + label))
    } else {
        match v.where_clause {
            Some(w) => where_check(nt, label, w),
            None => None,
        }
    }
}

/// Unicode whitespace (the `White_Space` property).
pub open spec fn is_white(c: char) -> bool {
    ('\u{9}' <= c <= '\u{d}') || c == ' ' || c == '\u{85}' || c == '\u{a0}' || c == '\u{1680}'
        || ('\u{2000}' <= c <= '\u{200a}') || c == '\u{2028}' || c == '\u{2029}' || c == '\u{202f}'
        || c == '\u{205f}' || c == '\u{3000}'
}

/// The first position from `i` before `b` that holds no whitespace, or `b`.
pub open spec fn white_end(s: Seq<char>, i: int, b: int) -> int
    decreases b - i,
{
    if 0 <= i < b && i < s.len() && is_white(s[i]) { white_end(s, i + 1, b) } else { i }
}

/// The position after the last character before `j` and from `a` that is
/// not whitespace, or `a`.
pub open spec fn white_start(s: Seq<char>, a: int, j: int) -> int
    decreases j - a,
{
    if a < j && 0 < j <= s.len() && is_white(s[j - 1]) { white_start(s, a, j - 1) } else { j }
}

/// The text after `EXPLAIN` where the statement, without surrounding
/// whitespace, starts with it (in any case): from and to, within `s`, the
/// rest without surrounding whitespace.
pub open spec fn explain_span(s: Seq<char>) -> Option<(int, int)> {
    let a = white_end(s, 0, s.len() as int);
    let b = white_start(s, a, s.len() as int);
    if a + 7 <= b && keyword_at(s, a, "EXPLAIN"@) {
        let c = white_end(s, a + 7, b);
        Some((c, white_start(s, c, b)))
    } else {
        None
    }
}

pub(crate) fn white(c: char) -> (r: bool)
    ensures
        r == is_white(c),
{
    ('\u{9}' <= c && c <= '\u{d}') || c == ' ' || c == '\u{85}' || c == '\u{a0}' || c == '\u{1680}'
        || ('\u{2000}' <= c && c <= '\u{200a}') || c == '\u{2028}' || c == '\u{2029}' || c == '\u{202f}'
        || c == '\u{205f}' || c == '\u{3000}'
}

pub(crate) fn white_end_from(s: &Vec<char>, i: usize, b: usize) -> (r: usize)
    requires
        i <= b <= s.len(),
    ensures
        r == white_end(s@, i as int, b as int),
        i <= r <= b,
{
    let mut k = i;
    while k < b && white(s[k])
        invariant
            i <= k <= b <= s.len(),
            white_end(s@, k as int, b as int) == white_end(s@, i as int, b as int),
        decreases b - k,
    {
        k = k + 1;
    }
    k
}

pub(crate) fn white_start_from(s: &Vec<char>, a: usize, j: usize) -> (r: usize)
    requires
        a <= j <= s.len(),
    ensures
        r == white_start(s@, a as int, j as int),
        a <= r <= j,
{
    let mut k = j;
    while k > a && white(s[k - 1])
        invariant
            a <= k <= j <= s.len(),
            white_start(s@, a as int, k as int) == white_start(s@, a as int, j as int),
        decreases k - a,
    {
        k = k - 1;
    }
    k
}

/// Whether `after` and `r` are what the schema statement `d` (other than
/// `SHOW SCHEMA`) makes of `before`.
pub open spec fn ddl_done(before: TqlEngine, d: DdlView, after: TqlEngine, r: Result<TqlResult, TqlError>) -> bool {
    let eff = ddl_effect(before.node_types(), before.edge_types(), d);
    &&& after.node_types() == eff.nodes
    &&& after.edge_types() == eff.edges
    &&& after.caching() == before.caching()
    &&& match eff.result {
        Ok(m) => r matches Ok(TqlResult::DdlSuccess(t)) && t@ == m,
        Err(e) => r matches Err(TqlError::SchemaError(x)) && x@ == e,
    }
}

/// Whether `after` is `before` unchanged and `r` lists its types, each
/// once, in some order.
pub open spec fn schema_shown(before: TqlEngine, after: TqlEngine, r: Result<TqlResult, TqlError>) -> bool {
    &&& after.node_types() == before.node_types()
    &&& after.edge_types() == before.edge_types()
    &&& after.caching() == before.caching()
    &&& r matches Ok(TqlResult::DdlSuccess(t)) && exists|ns: Seq<Seq<char>>, es: Seq<Seq<char>>| {
        &&& ns.no_duplicates()
        &&& ns.to_set() == before.node_types().dom()
        &&& es.no_duplicates()
        &&& es.to_set() == before.edge_types().dom()
        &&& t@ == schema_text(ns, es)
    }
}

/// The text followed by a line `  - name` for each name.
fn bullets(out: String, names: &Vec<String>) -> (r: String)
    ensures
        r@ == out@ + bullet_lines(strings_view(names@)),
{
    let mut out = out;
    let ghost start = out@;
    let mut i: usize = 0;
    while i < names.len()
        invariant
            i <= names@.len(),
            out@ == start + bullet_lines(strings_view(names@).take(i as int)),
        decreases names@.len() - i,
    {
        proof {
            let t = strings_view(names@).take(i + 1);
            assert(t.drop_last() =~= strings_view(names@).take(i as int));
            assert(t.last() == names@[i as int]@);
        }
        out = cat(cat(cat(out, "  - "), names[i].as_str()), "\n");
        i = i + 1;
    }
    proof {
        assert(strings_view(names@).take(names@.len() as int) =~= strings_view(names@));
    }
    out
}

/// The engine: a schema registry and whether results are cached.
pub struct TqlEngine {
    schema_registry: SchemaRegistry,
    pub use_cache: bool,
}

impl TqlEngine {
    /// Node types of the engine's registry.
    pub closed spec fn node_types(&self) -> Map<Seq<char>, (Seq<char>, Seq<FieldView>)> {
        self.schema_registry.node_types()
    }

    /// Edge types of the engine's registry.
    pub closed spec fn edge_types(&self) -> Map<Seq<char>, (Seq<char>, Seq<char>, Seq<char>, Seq<FieldView>)> {
        self.schema_registry.edge_types()
    }

    /// Whether results are cached.
    pub closed spec fn caching(&self) -> bool {
        self.use_cache
    }

    /// An engine with an empty registry that caches results.
    pub fn new() -> (e: Self)
        ensures
            e.node_types() == Map::<Seq<char>, (Seq<char>, Seq<FieldView>)>::empty(),
            e.edge_types() == Map::<Seq<char>, (Seq<char>, Seq<char>, Seq<char>, Seq<FieldView>)>::empty(),
            e.caching(),
    {
        TqlEngine { schema_registry: SchemaRegistry::new(), use_cache: true }
    }

    /// An engine over the given registry that caches results.
    pub fn with_registry(registry: SchemaRegistry) -> (e: Self)
        ensures
            e.node_types() == registry.node_types(),
            e.edge_types() == registry.edge_types(),
            e.caching(),
    {
        TqlEngine { schema_registry: registry, use_cache: true }
    }

    /// Turns caching on or off.
    pub fn set_cache_enabled(&mut self, enabled: bool)
        ensures
            final(self).caching() == enabled,
            final(self).node_types() == old(self).node_types(),
            final(self).edge_types() == old(self).edge_types(),
    {
        self.use_cache = enabled;
    }

    /// The engine's registry.
    pub fn schema_registry(&self) -> (r: &SchemaRegistry)
        ensures
            r.node_types() == self.node_types(),
            r.edge_types() == self.edge_types(),
    {
        &self.schema_registry
    }

    /// Checks condition `w` against node type `node_type`.
    fn validate_where_clause(&self, node_type: &str, w: &WhereCondition) -> (r: Result<(), TqlError>)
        ensures
            match where_check(self.node_types(), node_type@, w@) {
                Some(ev) => r matches Err(e) && e@ == ev,
                None => r is Ok,
            },
    {
        match w {
            WhereCondition::ToroidalDistance { field, .. } => {
                match self.schema_registry.validate_field(node_type, field.as_str()) {
                    Ok(DataType::Vector(_)) => Ok(()),
                    Ok(_) => {
                        let m = cat(cat(String::from_str("Field '"), field.as_str()), "' is not a vector type");
                        Err(TqlError::ValidationError(m))
                    },
                    Err(e) => Err(TqlError::SchemaError(e)),
                }
            },
            WhereCondition::SimilarTo { field, .. } => {
                match self.schema_registry.validate_field(node_type, field.as_str()) {
                    Ok(_) => Ok(()),
                    Err(e) => Err(TqlError::SchemaError(e)),
                }
            },
            WhereCondition::PropertyFilter { property, .. } => {
                match self.schema_registry.validate_field(node_type, property.as_str()) {
                    Ok(_) => Ok(()),
                    Err(e) => Err(TqlError::SchemaError(e)),
                }
            },
        }
    }

    /// Runs a schema statement.
    fn execute_ddl(&mut self, ddl: DdlStatement) -> (r: Result<TqlResult, TqlError>)
        ensures
            ddl@ is ShowSchema ==> schema_shown(*old(self), *final(self), r),
            !(ddl@ is ShowSchema) ==> ddl_done(*old(self), ddl@, *final(self), r),
    {
        match ddl {
            DdlStatement::CreateNodeType(def) => {
                match self.schema_registry.create_node_type(def) {
                    Ok(()) => Ok(TqlResult::DdlSuccess(String::from_str("Node type created successfully"))),
                    Err(e) => Err(TqlError::SchemaError(e)),
                }
            },
            DdlStatement::CreateEdgeType(def) => {
                match self.schema_registry.create_edge_type(def) {
                    Ok(()) => Ok(TqlResult::DdlSuccess(String::from_str("Edge type created successfully"))),
                    Err(e) => Err(TqlError::SchemaError(e)),
                }
            },
            DdlStatement::DropNodeType(name) => {
                match self.schema_registry.drop_node_type(name.as_str()) {
                    Ok(()) => Ok(TqlResult::DdlSuccess(cat(cat(String::from_str("Node type '"), name.as_str()), "' dropped"))),
                    Err(e) => Err(TqlError::SchemaError(e)),
                }
            },
            DdlStatement::DropEdgeType(name) => {
                match self.schema_registry.drop_edge_type(name.as_str()) {
                    Ok(()) => Ok(TqlResult::DdlSuccess(cat(cat(String::from_str("Edge type '"), name.as_str()), "' dropped"))),
                    Err(e) => Err(TqlError::SchemaError(e)),
                }
            },
            DdlStatement::ShowSchema => {
                let ns = match self.schema_registry.list_node_types() {
                    Ok(v) => v,
                    Err(e) => {
                        return Err(TqlError::SchemaError(e));
                    },
                };
                let es = match self.schema_registry.list_edge_types() {
                    Ok(v) => v,
                    Err(e) => {
                        return Err(TqlError::SchemaError(e));
                    },
                };
                let out = bullets(String::from_str("SCHEMA:\n\nNode Types:\n"), &ns);
                let out = bullets(cat(out, "\nEdge Types:\n"), &es);
                proof {
                    let nsv = strings_view(ns@);
                    let esv = strings_view(es@);
                    assert(nsv == ns@.map_values(|s: String| s@));
                    assert(esv == es@.map_values(|s: String| s@));
                    assert(nsv.no_duplicates() && nsv.to_set() == self.node_types().dom());
                    assert(esv.no_duplicates() && esv.to_set() == self.edge_types().dom());
                    assert(out@ == schema_text(nsv, esv));
                }
                Ok(TqlResult::DdlSuccess(out))
            },
        }
    }

    /// Runs a statement. A schema statement acts on the registry and gives
    /// its message. Otherwise the registry is left as it is: `EXPLAIN` and a
    /// query give the query (a parse failure gives `ParseError`); a query is
    /// first checked against the registry (see [`query_check`]).
    pub fn execute(&mut self, sql: &str) -> (r: Result<TqlResult, TqlError>)
        ensures
            match statement_at(sql@, 0) {
                Some((_, d)) => if d is ShowSchema {
                    schema_shown(*old(self), *final(self), r)
                } else {
                    ddl_done(*old(self), d, *final(self), r)
                },
                None => {
                    &&& final(self).node_types() == old(self).node_types()
                    &&& final(self).edge_types() == old(self).edge_types()
                    &&& final(self).caching() == old(self).caching()
                    &&& match explain_span(sql@) {
                        Some((c, d)) => match query_at(sql@.subrange(c, d), 0) {
                            Some((_, v)) => r matches Ok(TqlResult::ExplainRequested(q)) && query_is(q, v),
                            None => r matches Err(TqlError::ParseError(m)) && m@ == "Failed to parse query for EXPLAIN"@,
                        },
                        None => match query_at(sql@, 0) {
                            Some((_, v)) => match query_check(old(self).node_types(), v) {
                                Some(ev) => r matches Err(e) && e@ == ev,
                                None => r matches Ok(TqlResult::QueryReady(q)) && query_is(q, v),
                            },
                            None => r matches Err(TqlError::ParseError(m)) && m@ == "Failed to parse query"@,
                        },
                    }
                },
            },
    {
        if let Ok((_, ddl)) = parse_ddl_statement(sql) {
            return self.execute_ddl(ddl);
        }
        let s = chars_of(sql);
        let n = s.len();
        let a = white_end_from(&s, 0, n);
        let b = white_start_from(&s, a, n);
        if b - a >= 7 && tag(&s, a, "EXPLAIN").is_some() {
            let c = white_end_from(&s, a + 7, b);
            let d = white_start_from(&s, c, b);
            let body = sql.substring_char(c, d);
            return match parse_query(body) {
                Ok((_, q)) => Ok(TqlResult::ExplainRequested(q)),
                Err(_) => Err(TqlError::ParseError(String::from_str("Failed to parse query for EXPLAIN"))),
            };
        }
        match parse_query(sql) {
            Ok((_, q)) => {
                if let Some(m) = &q.match_clause {
                    let label = m.source.label.as_str();
                    match self.schema_registry.get_node_type(label) {
                        Ok(Some(_)) => {},
                        Ok(None) => {
                            return Err(TqlError::ValidationError(cat(String::from_str("Unknown node type: "), label)));
                        },
                        Err(e) => {
                            return Err(TqlError::SchemaError(e));
                        },
                    }
                    if let Some(w) = &q.where_clause {
                        if let Err(e) = self.validate_where_clause(label, w) {
                            return Err(e);
                        }
                    }
                }
                Ok(TqlResult::QueryReady(q))
            },
            Err(_) => Err(TqlError::ParseError(String::from_str("Failed to parse query"))),
        }
    }
}

} // verus!

//! Data spaces: named containers of node, edge and stream types, one of
//! which is current.

use vstd::prelude::*;
use crate::ast::{
    AlterOperation, AlterSpace, Duration, EdgeTypeDef, FieldDef, FieldView, NodeTypeDef, SpaceConfig, SpaceDef,
    StreamDef, StreamSchema, edge_type_view, fields_view, node_type_view,
};
use crate::clock::get_timestamp;
use crate::strmap::StrMap;

verus! {

/// A stream registered in a space.
pub struct StreamDefinition {
    pub name: String,
    pub topic: String,
    pub schema: StreamSchema,
    pub retention: Option<Duration>,
    /// Seconds since the epoch.
    pub created_at: u64,
}

/// A space: its types by name and its settings.
pub struct SpaceDefinition {
    pub name: String,
    pub node_types: StrMap<NodeTypeDef>,
    pub edge_types: StrMap<EdgeTypeDef>,
    pub streams: StrMap<StreamDefinition>,
    pub config: SpaceConfig,
    /// Seconds since the epoch.
    pub created_at: u64,
    /// Seconds since the epoch.
    pub updated_at: u64,
}

/// Node types by name, as abstract values.
pub open spec fn node_views(m: StrMap<NodeTypeDef>) -> Map<Seq<char>, (Seq<char>, Seq<FieldView>)> {
    m.spec_map().map_values(|d: NodeTypeDef| node_type_view(d))
}

/// Edge types by name, as abstract values.
pub open spec fn edge_views(m: StrMap<EdgeTypeDef>) -> Map<Seq<char>, (Seq<char>, Seq<char>, Seq<char>, Seq<FieldView>)> {
    m.spec_map().map_values(|d: EdgeTypeDef| edge_type_view(d))
}

/// Stream topics by stream name.
pub open spec fn stream_topics(m: StrMap<StreamDefinition>) -> Map<Seq<char>, Seq<char>> {
    m.spec_map().map_values(|d: StreamDefinition| d.topic@)
}

/// The node types of `defs` by name; a later one replaces an earlier one
/// of the same name.
pub open spec fn nodes_by_name(defs: Seq<NodeTypeDef>) -> Map<Seq<char>, (Seq<char>, Seq<FieldView>)>
    decreases defs.len(),
{
    if defs.len() == 0 {
        Map::empty()
    } else {
        nodes_by_name(defs.drop_last()).insert(defs.last().name@, node_type_view(defs.last()))
    }
}

/// The edge types of `defs` by name, a later one winning.
pub open spec fn edges_by_name(defs: Seq<EdgeTypeDef>) -> Map<Seq<char>, (Seq<char>, Seq<char>, Seq<char>, Seq<FieldView>)>
    decreases defs.len(),
{
    if defs.len() == 0 {
        Map::empty()
    } else {
        edges_by_name(defs.drop_last()).insert(defs.last().name@, edge_type_view(defs.last()))
    }
}

/// The stream topics of `defs` by stream name, a later one winning.
pub open spec fn streams_by_name(defs: Seq<StreamDef>) -> Map<Seq<char>, Seq<char>>
    decreases defs.len(),
{
    if defs.len() == 0 {
        Map::empty()
    } else {
        streams_by_name(defs.drop_last()).insert(defs.last().name@, defs.last().topic@)
    }
}

/// The fields of `fs` not named `name`, in order.
pub open spec fn without_field(fs: Seq<FieldView>, name: Seq<char>) -> Seq<FieldView>
    decreases fs.len(),
{
    if fs.len() == 0 {
        Seq::empty()
    } else {
        let r = without_field(fs.drop_last(), name);
        if fs.last().name != name { r.push(fs.last()) } else { r }
    }
}

/// Node and edge types of a space after one change.
pub open spec fn apply_alter(
    nodes: Map<Seq<char>, (Seq<char>, Seq<FieldView>)>,
    edges: Map<Seq<char>, (Seq<char>, Seq<char>, Seq<char>, Seq<FieldView>)>,
    op: AlterOperation,
) -> (Map<Seq<char>, (Seq<char>, Seq<FieldView>)>, Map<Seq<char>, (Seq<char>, Seq<char>, Seq<char>, Seq<FieldView>)>) {
    match op {
        AlterOperation::AddNode(nt) => (nodes.insert(nt.name@, node_type_view(nt)), edges),
        AlterOperation::AddEdge(et) => (nodes, edges.insert(et.name@, edge_type_view(et))),
        AlterOperation::DropNode(n) => (nodes.remove(n@), edges),
        AlterOperation::DropEdge(n) => (nodes, edges.remove(n@)),
        AlterOperation::AddField { node_type, field } => if nodes.contains_key(node_type@) {
            (nodes.insert(node_type@, (nodes[node_type@].0, nodes[node_type@].1.push(field@))), edges)
        } else {
            (nodes, edges)
        },
        AlterOperation::DropField { node_type, field_name } => if nodes.contains_key(node_type@) {
            (nodes.insert(node_type@, (nodes[node_type@].0, without_field(nodes[node_type@].1, field_name@))), edges)
        } else {
            (nodes, edges)
        },
    }
}

/// Node and edge types of a space after the changes `ops`, in order.
pub open spec fn apply_alters(
    nodes: Map<Seq<char>, (Seq<char>, Seq<FieldView>)>,
    edges: Map<Seq<char>, (Seq<char>, Seq<char>, Seq<char>, Seq<FieldView>)>,
    ops: Seq<AlterOperation>,
) -> (Map<Seq<char>, (Seq<char>, Seq<FieldView>)>, Map<Seq<char>, (Seq<char>, Seq<char>, Seq<char>, Seq<FieldView>)>)
    decreases ops.len(),
{
    if ops.len() == 0 {
        (nodes, edges)
    } else {
        let (n, e) = apply_alters(nodes, edges, ops.drop_last());
        apply_alter(n, e, ops.last())
    }
}

fn cat3(a: &str, b: &str, c: &str) -> (r: String)
    ensures
        r@ == a@ + b@ + c@,
{
    let mut r = String::from_str(a);
    r.append(b);
    r.append(c);
    r
}

fn cat4(a: &str, b: &str, c: &str, d: &str) -> (r: String)
    ensures
        r@ == a@ + b@ + c@ + d@,
{
    let mut r = String::from_str(a);
    r.append(b);
    r.append(c);
    r.append(d);
    r
}

fn cat5(a: &str, b: &str, c: &str, d: &str, e: &str) -> (r: String)
    ensures
        r@ == a@ + b@ + c@ + d@ + e@,
{
    let mut r = String::from_str(a);
    r.append(b);
    r.append(c);
    r.append(d);
    r.append(e);
    r
}

/// The message `Space '<name>' <tail>`.
pub open spec fn space_message(name: Seq<char>, tail: Seq<char>) -> Seq<char> {
    "Space '"@ + name + "' "@ + tail
}

fn space_error(name: &str, tail: &str) -> (r: String)
    ensures
        r@ == space_message(name@, tail@),
{
    cat4("Space '", name, "' ", tail)
}

/// Copies field definitions.
fn copy_fields(fs: &Vec<FieldDef>) -> (r: Vec<FieldDef>)
    ensures
        fields_view(r@) == fields_view(fs@),
{
    crate::ast::clone_fields(fs)
}

/// Manager of the data spaces.
pub struct SpaceManager {
    spaces: StrMap<SpaceDefinition>,
    current_space: String,
}

impl SpaceManager {
    /// The names of the spaces.
    pub closed spec fn space_names(&self) -> Set<Seq<char>> {
        self.spaces.spec_map().dom()
    }

    /// The node types of space `s`.
    pub closed spec fn nodes_of(&self, s: Seq<char>) -> Map<Seq<char>, (Seq<char>, Seq<FieldView>)> {
        node_views(self.spaces.spec_map()[s].node_types)
    }

    /// The edge types of space `s`.
    pub closed spec fn edges_of(&self, s: Seq<char>) -> Map<Seq<char>, (Seq<char>, Seq<char>, Seq<char>, Seq<FieldView>)> {
        edge_views(self.spaces.spec_map()[s].edge_types)
    }

    /// The stream topics of space `s`.
    pub closed spec fn streams_of(&self, s: Seq<char>) -> Map<Seq<char>, Seq<char>> {
        stream_topics(self.spaces.spec_map()[s].streams)
    }

    /// The settings of space `s`.
    pub closed spec fn config_of(&self, s: Seq<char>) -> SpaceConfig {
        self.spaces.spec_map()[s].config
    }

    /// The current space's name.
    pub closed spec fn current(&self) -> Seq<char> {
        self.current_space@
    }

    /// Whether spaces `s` other than `except` are as in `old`.
    pub open spec fn others_unchanged(&self, old: &SpaceManager, except: Seq<char>) -> bool {
        &&& forall|s: Seq<char>| s != except && #[trigger] old.space_names().contains(s) ==> {
            &&& self.nodes_of(s) == old.nodes_of(s)
            &&& self.edges_of(s) == old.edges_of(s)
            &&& self.streams_of(s) == old.streams_of(s)
            &&& self.config_of(s) == old.config_of(s)
        }
    }

    /// One space, `default` (4 shards, replication 1), and it is current.
    pub fn new() -> (m: Self)
        ensures
            m.space_names() == set!["default"@],
            m.nodes_of("default"@) == Map::<Seq<char>, (Seq<char>, Seq<FieldView>)>::empty(),
            m.edges_of("default"@) == Map::<Seq<char>, (Seq<char>, Seq<char>, Seq<char>, Seq<FieldView>)>::empty(),
            m.streams_of("default"@) == Map::<Seq<char>, Seq<char>>::empty(),
            m.config_of("default"@) == (SpaceConfig { shards: 4, replication_factor: 1, storage_backend: None, embedding_model: None }),
            m.current() == "default"@,
    {
        let now = get_timestamp();
        let space = SpaceDefinition {
            name: String::from_str("default"),
            node_types: StrMap::new(),
            edge_types: StrMap::new(),
            streams: StrMap::new(),
            config: SpaceConfig { shards: 4, replication_factor: 1, storage_backend: None, embedding_model: None },
            created_at: now,
            updated_at: now,
        };
        let mut spaces: StrMap<SpaceDefinition> = StrMap::new();
        spaces.insert(String::from_str("default"), space);
        let m = SpaceManager { spaces, current_space: String::from_str("default") };
        proof {
            assert(m.space_names() =~= set!["default"@]);
            assert(m.nodes_of("default"@) =~= Map::<Seq<char>, (Seq<char>, Seq<FieldView>)>::empty());
            assert(m.edges_of("default"@) =~= Map::<Seq<char>, (Seq<char>, Seq<char>, Seq<char>, Seq<FieldView>)>::empty());
            assert(m.streams_of("default"@) =~= Map::<Seq<char>, Seq<char>>::empty());
        }
        m
    }

    /// Creates a space from `space_def` (later types of the same name
    /// replacing earlier ones); fails when the name is taken.
    pub fn create_space(&mut self, space_def: SpaceDef) -> (r: Result<(), String>)
        ensures
            final(self).current() == old(self).current(),
            old(self).space_names().contains(space_def.name@) ==> {
                &&& r matches Err(e) && e@ == space_message(space_def.name@, "already exists"@)
                &&& final(self).space_names() == old(self).space_names()
                &&& final(self).others_unchanged(old(self), Seq::empty())
            },
            !old(self).space_names().contains(space_def.name@) ==> {
                let n = space_def.name@;
                &&& r is Ok
                &&& final(self).space_names() == old(self).space_names().insert(n)
                &&& final(self).nodes_of(n) == nodes_by_name(space_def.nodes@)
                &&& final(self).edges_of(n) == edges_by_name(space_def.edges@)
                &&& final(self).streams_of(n) == streams_by_name(space_def.streams@)
                &&& final(self).config_of(n) == space_def.config
                &&& final(self).others_unchanged(old(self), n)
            },
    {
        if self.spaces.contains_key(space_def.name.as_str()) {
            return Err(space_error(space_def.name.as_str(), "already exists"));
        }
        let now = get_timestamp();
        let SpaceDef { name, nodes, edges, streams, config } = space_def;
        let mut node_types: StrMap<NodeTypeDef> = StrMap::new();
        let ghost nv = nodes@;
        let mut nodes = nodes;
        let mut i: usize = 0;
        let n0 = nodes.len();
        while i < n0
            invariant
                n0 == nv.len(),
                i <= n0,
                nodes@ == nv.subrange(i as int, n0 as int),
                node_views(node_types) == nodes_by_name(nv.take(i as int)),
            decreases n0 - i,
        {
            let d = nodes.remove(0);
            proof {
                assert(nv.take(i + 1).drop_last() =~= nv.take(i as int));
                assert(nv[i as int] == d);
            }
            let key = d.name.clone();
            node_types.insert(key, d);
            proof {
                assert(node_views(node_types) =~= nodes_by_name(nv.take(i + 1)));
                assert(nodes@ =~= nv.subrange(i + 1, n0 as int));
            }
            i = i + 1;
        }
        proof {
            assert(nv.take(n0 as int) =~= nv);
        }
        let mut edge_types: StrMap<EdgeTypeDef> = StrMap::new();
        let ghost ev = edges@;
        let mut edges = edges;
        let e0 = edges.len();
        let mut i: usize = 0;
        while i < e0
            invariant
                e0 == ev.len(),
                i <= e0,
                edges@ == ev.subrange(i as int, e0 as int),
                edge_views(edge_types) == edges_by_name(ev.take(i as int)),
            decreases e0 - i,
        {
            let d = edges.remove(0);
            proof {
                assert(ev.take(i + 1).drop_last() =~= ev.take(i as int));
                assert(ev[i as int] == d);
            }
            let key = d.name.clone();
            edge_types.insert(key, d);
            proof {
                assert(edge_views(edge_types) =~= edges_by_name(ev.take(i + 1)));
                assert(edges@ =~= ev.subrange(i + 1, e0 as int));
            }
            i = i + 1;
        }
        proof {
            assert(ev.take(e0 as int) =~= ev);
        }
        let mut stream_map: StrMap<StreamDefinition> = StrMap::new();
        let ghost sv = streams@;
        let mut streams = streams;
        let s0 = streams.len();
        let mut i: usize = 0;
        while i < s0
            invariant
                s0 == sv.len(),
                i <= s0,
                streams@ == sv.subrange(i as int, s0 as int),
                stream_topics(stream_map) == streams_by_name(sv.take(i as int)),
            decreases s0 - i,
        {
            let d = streams.remove(0);
            proof {
                assert(sv.take(i + 1).drop_last() =~= sv.take(i as int));
                assert(sv[i as int] == d);
            }
            let key = d.name.clone();
            let StreamDef { name: sname, topic, schema, retention } = d;
            stream_map.insert(key, StreamDefinition { name: sname, topic, schema, retention, created_at: now });
            proof {
                assert(stream_topics(stream_map) =~= streams_by_name(sv.take(i + 1)));
                assert(streams@ =~= sv.subrange(i + 1, s0 as int));
            }
            i = i + 1;
        }
        proof {
            assert(sv.take(s0 as int) =~= sv);
        }
        let key = name.clone();
        let space = SpaceDefinition {
            name,
            node_types,
            edge_types,
            streams: stream_map,
            config,
            created_at: now,
            updated_at: now,
        };
        self.spaces.insert(key, space);
        proof {
            assert(self.space_names() =~= old(self).space_names().insert(key@));
        }
        Ok(())
    }

    /// The space `name`, if there is one.
    pub fn get_space(&self, name: &str) -> (r: Option<&SpaceDefinition>)
        ensures
            match r {
                Some(s) => self.space_names().contains(name@)
                    && node_views(s.node_types) == self.nodes_of(name@)
                    && edge_views(s.edge_types) == self.edges_of(name@)
                    && stream_topics(s.streams) == self.streams_of(name@)
                    && s.config == self.config_of(name@),
                None => !self.space_names().contains(name@),
            },
    {
        self.spaces.get(name)
    }

    /// The current space's name.
    pub fn get_current_space(&self) -> (r: String)
        ensures
            r@ == self.current(),
    {
        self.current_space.clone()
    }

    /// Makes `name` the current space; fails when there is no such space.
    pub fn set_current_space(&mut self, name: &str) -> (r: Result<(), String>)
        ensures
            final(self).space_names() == old(self).space_names(),
            final(self).others_unchanged(old(self), Seq::empty()),
            old(self).space_names().contains(name@) ==> r is Ok && final(self).current() == name@,
            !old(self).space_names().contains(name@) ==> (r matches Err(e) && e@ == space_message(name@, "does not exist"@))
                && final(self).current() == old(self).current(),
    {
        if !self.spaces.contains_key(name) {
            return Err(space_error(name, "does not exist"));
        }
        self.current_space = String::from_str(name);
        Ok(())
    }

    /// Adds node type `node_type` to space `space_name`; fails when the
    /// space is unknown or already has a node type of that name.
    pub fn add_node_type(&mut self, space_name: &str, node_type: NodeTypeDef) -> (r: Result<(), String>)
        ensures
            final(self).space_names() == old(self).space_names(),
            final(self).current() == old(self).current(),
            final(self).others_unchanged(old(self), space_name@),
            !old(self).space_names().contains(space_name@) ==> (r matches Err(e) && e@ == space_message(space_name@, "not found"@)),
            old(self).space_names().contains(space_name@) ==> {
                let s = space_name@;
                &&& final(self).edges_of(s) == old(self).edges_of(s)
                &&& final(self).streams_of(s) == old(self).streams_of(s)
                &&& final(self).config_of(s) == old(self).config_of(s)
                &&& if old(self).nodes_of(s).contains_key(node_type.name@) {
                    &&& r matches Err(e) && e@ == "Node type '"@ + node_type.name@ + "' already exists in space '"@ + s + "'"@
                    &&& final(self).nodes_of(s) == old(self).nodes_of(s)
                } else {
                    &&& r is Ok
                    &&& final(self).nodes_of(s) == old(self).nodes_of(s).insert(node_type.name@, node_type_view(node_type))
                }
            },
    {
        let mut space = match self.spaces.remove(space_name) {
            None => {
                return Err(space_error(space_name, "not found"));
            },
            Some(sp) => sp,
        };
        let ghost sp0 = space;
        let result = if space.node_types.contains_key(node_type.name.as_str()) {
            Err(cat5("Node type '", node_type.name.as_str(), "' already exists in space '", space_name, "'"))
        } else {
            let key = node_type.name.clone();
            space.node_types.insert(key, node_type);
            space.updated_at = get_timestamp();
            proof {
                assert(node_views(space.node_types) =~= node_views(sp0.node_types).insert(node_type.name@, node_type_view(node_type)));
            }
            Ok(())
        };
        self.spaces.insert(String::from_str(space_name), space);
        proof {
            assert(self.space_names() =~= old(self).space_names());
        }
        result
    }

    /// Adds edge type `edge_type` to space `space_name`; fails when the
    /// space is unknown or already has an edge type of that name.
    pub fn add_edge_type(&mut self, space_name: &str, edge_type: EdgeTypeDef) -> (r: Result<(), String>)
        ensures
            final(self).space_names() == old(self).space_names(),
            final(self).current() == old(self).current(),
            final(self).others_unchanged(old(self), space_name@),
            !old(self).space_names().contains(space_name@) ==> (r matches Err(e) && e@ == space_message(space_name@, "not found"@)),
            old(self).space_names().contains(space_name@) ==> {
                let s = space_name@;
                &&& final(self).nodes_of(s) == old(self).nodes_of(s)
                &&& final(self).streams_of(s) == old(self).streams_of(s)
                &&& final(self).config_of(s) == old(self).config_of(s)
                &&& if old(self).edges_of(s).contains_key(edge_type.name@) {
                    &&& r matches Err(e) && e@ == "Edge type '"@ + edge_type.name@ + "' already exists in space '"@ + s + "'"@
                    &&& final(self).edges_of(s) == old(self).edges_of(s)
                } else {
                    &&& r is Ok
                    &&& final(self).edges_of(s) == old(self).edges_of(s).insert(edge_type.name@, edge_type_view(edge_type))
                }
            },
    {
        let mut space = match self.spaces.remove(space_name) {
            None => {
                return Err(space_error(space_name, "not found"));
            },
            Some(sp) => sp,
        };
        let ghost sp0 = space;
        let result = if space.edge_types.contains_key(edge_type.name.as_str()) {
            Err(cat5("Edge type '", edge_type.name.as_str(), "' already exists in space '", space_name, "'"))
        } else {
            let key = edge_type.name.clone();
            space.edge_types.insert(key, edge_type);
            space.updated_at = get_timestamp();
            proof {
                assert(edge_views(space.edge_types) =~= edge_views(sp0.edge_types).insert(edge_type.name@, edge_type_view(edge_type)));
            }
            Ok(())
        };
        self.spaces.insert(String::from_str(space_name), space);
        proof {
            assert(self.space_names() =~= old(self).space_names());
        }
        result
    }

    /// Registers stream `stream_def` in space `space_name`; fails when the
    /// space is unknown or already has a stream of that name.
    pub fn create_stream(&mut self, space_name: &str, stream_def: StreamDef) -> (r: Result<(), String>)
        ensures
            final(self).space_names() == old(self).space_names(),
            final(self).current() == old(self).current(),
            final(self).others_unchanged(old(self), space_name@),
            !old(self).space_names().contains(space_name@) ==> (r matches Err(e) && e@ == space_message(space_name@, "not found"@)),
            old(self).space_names().contains(space_name@) ==> {
                let s = space_name@;
                &&& final(self).nodes_of(s) == old(self).nodes_of(s)
                &&& final(self).edges_of(s) == old(self).edges_of(s)
                &&& final(self).config_of(s) == old(self).config_of(s)
                &&& if old(self).streams_of(s).contains_key(stream_def.name@) {
                    &&& r matches Err(e) && e@ == "Stream '"@ + stream_def.name@ + "' already exists in space '"@ + s + "'"@
                    &&& final(self).streams_of(s) == old(self).streams_of(s)
                } else {
                    &&& r is Ok
                    &&& final(self).streams_of(s) == old(self).streams_of(s).insert(stream_def.name@, stream_def.topic@)
                }
            },
    {
        let mut space = match self.spaces.remove(space_name) {
            None => {
                return Err(space_error(space_name, "not found"));
            },
            Some(sp) => sp,
        };
        let ghost sp0 = space;
        let result = if space.streams.contains_key(stream_def.name.as_str()) {
            Err(cat5("Stream '", stream_def.name.as_str(), "' already exists in space '", space_name, "'"))
        } else {
            let now = get_timestamp();
            let key = stream_def.name.clone();
            let ghost topic = stream_def.topic@;
            let StreamDef { name, topic: t, schema, retention } = stream_def;
            space.streams.insert(key, StreamDefinition { name, topic: t, schema, retention, created_at: now });
            space.updated_at = now;
            proof {
                assert(stream_topics(space.streams) =~= stream_topics(sp0.streams).insert(key@, topic));
            }
            Ok(())
        };
        self.spaces.insert(String::from_str(space_name), space);
        proof {
            assert(self.space_names() =~= old(self).space_names());
        }
        result
    }

    /// Applies the changes of `alter`, in order, to its space (see
    /// [`apply_alters`]); fails when the space is unknown.
    pub fn alter_space(&mut self, alter: AlterSpace) -> (r: Result<(), String>)
        ensures
            final(self).space_names() == old(self).space_names(),
            final(self).current() == old(self).current(),
            final(self).others_unchanged(old(self), alter.name@),
            !old(self).space_names().contains(alter.name@) ==> (r matches Err(e) && e@ == space_message(alter.name@, "not found"@)),
            old(self).space_names().contains(alter.name@) ==> {
                let s = alter.name@;
                let (n, e) = apply_alters(old(self).nodes_of(s), old(self).edges_of(s), alter.operations@);
                &&& r is Ok
                &&& final(self).nodes_of(s) == n
                &&& final(self).edges_of(s) == e
                &&& final(self).streams_of(s) == old(self).streams_of(s)
                &&& final(self).config_of(s) == old(self).config_of(s)
            },
    {
        let AlterSpace { name, operations } = alter;
        let mut space = match self.spaces.remove(name.as_str()) {
            None => {
                return Err(space_error(name.as_str(), "not found"));
            },
            Some(sp) => sp,
        };
        let ghost sp0 = space;
        let ghost ops = operations@;
        let mut operations = operations;
        let n = operations.len();
        let mut i: usize = 0;
        while i < n
            invariant
                n == ops.len(),
                i <= n,
                operations@ == ops.subrange(i as int, n as int),
                (node_views(space.node_types), edge_views(space.edge_types))
                    == apply_alters(node_views(sp0.node_types), edge_views(sp0.edge_types), ops.take(i as int)),
                stream_topics(space.streams) == stream_topics(sp0.streams),
                space.config == sp0.config,
            decreases n - i,
        {
            let op = operations.remove(0);
            proof {
                assert(ops.take(i + 1).drop_last() =~= ops.take(i as int));
                assert(ops[i as int] == op);
                assert(operations@ =~= ops.subrange(i + 1, n as int));
            }
            let ghost nodes0 = node_views(space.node_types);
            let ghost edges0 = edge_views(space.edge_types);
            match op {
                AlterOperation::AddNode(nt) => {
                    let key = nt.name.clone();
                    let ghost v = node_type_view(nt);
                    space.node_types.insert(key, nt);
                    proof {
                        assert(node_views(space.node_types) =~= nodes0.insert(key@, v));
                    }
                },
                AlterOperation::AddEdge(et) => {
                    let key = et.name.clone();
                    let ghost v = edge_type_view(et);
                    space.edge_types.insert(key, et);
                    proof {
                        assert(edge_views(space.edge_types) =~= edges0.insert(key@, v));
                    }
                },
                AlterOperation::DropNode(nm) => {
                    space.node_types.remove(nm.as_str());
                    proof {
                        assert(node_views(space.node_types) =~= nodes0.remove(nm@));
                    }
                },
                AlterOperation::DropEdge(nm) => {
                    space.edge_types.remove(nm.as_str());
                    proof {
                        assert(edge_views(space.edge_types) =~= edges0.remove(nm@));
                    }
                },
                AlterOperation::AddField { node_type, field } => {
                    match space.node_types.remove(node_type.as_str()) {
                        Some(mut nt) => {
                            let ghost f = field@;
                            let ghost ntv = node_type_view(nt);
                            nt.fields.push(field);
                            proof {
                                assert(fields_view(nt.fields@) =~= ntv.1.push(f));
                            }
                            space.node_types.insert(node_type.clone(), nt);
                            proof {
                                assert(node_views(space.node_types) =~= nodes0.insert(node_type@, (ntv.0, ntv.1.push(f))));
                            }
                        },
                        None => {
                            proof {
                                assert(node_views(space.node_types) =~= nodes0);
                            }
                        },
                    }
                },
                AlterOperation::DropField { node_type, field_name } => {
                    match space.node_types.remove(node_type.as_str()) {
                        Some(nt) => {
                            let ghost ntv = node_type_view(nt);
                            let NodeTypeDef { name: ntname, fields } = nt;
                            let kept = retain_fields(fields, &field_name);
                            let nt2 = NodeTypeDef { name: ntname, fields: kept };
                            space.node_types.insert(node_type.clone(), nt2);
                            proof {
                                assert(node_views(space.node_types) =~= nodes0.insert(node_type@, (ntv.0, without_field(ntv.1, field_name@))));
                            }
                        },
                        None => {
                            proof {
                                assert(node_views(space.node_types) =~= nodes0);
                            }
                        },
                    }
                },
            }
            i = i + 1;
        }
        proof {
            assert(ops.take(n as int) =~= ops);
        }
        space.updated_at = get_timestamp();
        self.spaces.insert(name, space);
        proof {
            assert(self.space_names() =~= old(self).space_names());
        }
        Ok(())
    }

    /// The names of the spaces, each once.
    pub fn list_spaces(&self) -> (r: Vec<String>)
        ensures
            r@.map_values(|s: String| s@).no_duplicates(),
            r@.map_values(|s: String| s@).to_set() == self.space_names(),
    {
        self.spaces.keys()
    }

    /// Drops space `name`; the `default` space cannot be dropped, and an
    /// unknown name is an error.
    pub fn drop_space(&mut self, name: &str) -> (r: Result<(), String>)
        ensures
            final(self).current() == old(self).current(),
            final(self).others_unchanged(old(self), name@),
            name@ == "default"@ ==> (r matches Err(e) && e@ == "Cannot drop default space"@)
                && final(self).space_names() == old(self).space_names(),
            name@ != "default"@ && !old(self).space_names().contains(name@) ==>
                (r matches Err(e) && e@ == space_message(name@, "does not exist"@))
                && final(self).space_names() == old(self).space_names(),
            name@ != "default"@ && old(self).space_names().contains(name@) ==>
                r is Ok && final(self).space_names() == old(self).space_names().remove(name@),
    {
        let d = String::from_str("default");
        let n = String::from_str(name);
        if n.eq(&d) {
            return Err(String::from_str("Cannot drop default space"));
        }
        if !self.spaces.contains_key(name) {
            return Err(space_error(name, "does not exist"));
        }
        self.spaces.remove(name);
        proof {
            assert(self.space_names() =~= old(self).space_names().remove(name@));
        }
        Ok(())
    }

    /// Whether the current space has node type `node_type_name`; fails when
    /// the current space no longer exists.
    pub fn validate_node_type(&self, node_type_name: &str) -> (r: Result<bool, String>)
        ensures
            self.space_names().contains(self.current()) ==> r == Ok::<bool, String>(
                self.nodes_of(self.current()).contains_key(node_type_name@),
            ),
            !self.space_names().contains(self.current()) ==> (r matches Err(e)
                && e@ == "Current space '"@ + self.current() + "' not found"@),
    {
        match self.spaces.get(self.current_space.as_str()) {
            None => Err(cat3("Current space '", self.current_space.as_str(), "' not found")),
            Some(space) => {
                let b = space.node_types.contains_key(node_type_name);
                Ok(b)
            },
        }
    }

    /// Whether the current space has edge type `edge_type_name`; fails when
    /// the current space no longer exists.
    pub fn validate_edge_type(&self, edge_type_name: &str) -> (r: Result<bool, String>)
        ensures
            self.space_names().contains(self.current()) ==> r == Ok::<bool, String>(
                self.edges_of(self.current()).contains_key(edge_type_name@),
            ),
            !self.space_names().contains(self.current()) ==> (r matches Err(e)
                && e@ == "Current space '"@ + self.current() + "' not found"@),
    {
        match self.spaces.get(self.current_space.as_str()) {
            None => Err(cat3("Current space '", self.current_space.as_str(), "' not found")),
            Some(space) => {
                let b = space.edge_types.contains_key(edge_type_name);
                Ok(b)
            },
        }
    }

    /// Node type `node_type_name` of the current space, if both exist.
    pub fn get_node_type(&self, node_type_name: &str) -> (r: Option<NodeTypeDef>)
        ensures
            match r {
                Some(d) => self.space_names().contains(self.current())
                    && self.nodes_of(self.current()).contains_key(node_type_name@)
                    && node_type_view(d) == self.nodes_of(self.current())[node_type_name@],
                None => !self.space_names().contains(self.current())
                    || !self.nodes_of(self.current()).contains_key(node_type_name@),
            },
    {
        match self.spaces.get(self.current_space.as_str()) {
            None => None,
            Some(space) => match space.node_types.get(node_type_name) {
                Some(d) => Some(d.clone_def()),
                None => None,
            },
        }
    }

    /// Edge type `edge_type_name` of the current space, if both exist.
    pub fn get_edge_type(&self, edge_type_name: &str) -> (r: Option<EdgeTypeDef>)
        ensures
            match r {
                Some(d) => self.space_names().contains(self.current())
                    && self.edges_of(self.current()).contains_key(edge_type_name@)
                    && edge_type_view(d) == self.edges_of(self.current())[edge_type_name@],
                None => !self.space_names().contains(self.current())
                    || !self.edges_of(self.current()).contains_key(edge_type_name@),
            },
    {
        match self.spaces.get(self.current_space.as_str()) {
            None => None,
            Some(space) => match space.edge_types.get(edge_type_name) {
                Some(d) => Some(d.clone_def()),
                None => None,
            },
        }
    }
}

/// The fields not named `name`, in order.
fn retain_fields(fields: Vec<FieldDef>, name: &String) -> (r: Vec<FieldDef>)
    ensures
        fields_view(r@) == without_field(fields_view(fields@), name@),
{
    let ghost fv = fields_view(fields@);
    let mut out: Vec<FieldDef> = Vec::new();
    let mut fields = fields;
    let ghost all = fields@;
    let n = fields.len();
    let mut i: usize = 0;
    while i < n
        invariant
            n == all.len(),
            fv == fields_view(all),
            i <= n,
            fields@ == all.subrange(i as int, n as int),
            fields_view(out@) == without_field(fv.take(i as int), name@),
        decreases n - i,
    {
        let f = fields.remove(0);
        proof {
            assert(all[i as int] == f);
            assert(fv.take(i + 1).drop_last() =~= fv.take(i as int));
            assert(fv.take(i + 1).last() == f@);
            assert(fields@ =~= all.subrange(i + 1, n as int));
        }
        if !f.name.eq(name) {
            let ghost before = out@;
            out.push(f);
            proof {
                assert(fields_view(out@) =~= fields_view(before).push(f@));
            }
        }
        i = i + 1;
    }
    proof {
        assert(fv.take(n as int) =~= fv);
    }
    out
}

} // verus!

//! The graph the traversal and analytics functions run on.
//!
//! A `Graph` holds nodes with distinct ids; each node carries its outgoing
//! typed edges. The neighbours of a node are the targets of its edges that are
//! themselves nodes of the graph, one entry per edge, in edge order.

use vstd::prelude::*;

verus! {

/// A typed outgoing edge.
pub struct Edge {
    pub target_id: u64,
    pub relation_type: String,
}

/// A node: its embedding, its properties and its outgoing edges.
pub struct Node {
    pub id: u64,
    /// The embedding, as the bit patterns of its `f32` components.
    pub vector: Vec<u32>,
    /// The properties, as JSON text.
    pub properties: String,
    pub edges: Vec<Edge>,
}

/// Abstract value of a [`Node`]: its id, embedding bits, property text and
/// its edges as (target, type) pairs.
pub struct NodeView {
    pub id: u64,
    pub vector: Seq<u32>,
    pub properties: Seq<char>,
    pub edges: Seq<(u64, Seq<char>)>,
}

impl View for Node {
    type V = NodeView;

    open spec fn view(&self) -> NodeView {
        NodeView {
            id: self.id,
            vector: self.vector@,
            properties: self.properties@,
            edges: self.edges@.map_values(|e: Edge| (e.target_id, e.relation_type@)),
        }
    }
}

impl Node {
    /// A node with an empty embedding, no properties and no edges.
    pub fn new(id: u64) -> (n: Self)
        ensures
            n.id == id,
            n.vector@.len() == 0,
            n.properties@.len() == 0,
            n.edges@.len() == 0,
    {
        Node { id, vector: Vec::new(), properties: String::new(), edges: Vec::new() }
    }

    /// A node with embedding bits `vector` and property text `properties`,
    /// and no edges.
    pub fn with_data(id: u64, vector: Vec<u32>, properties: String) -> (n: Self)
        ensures
            n.id == id,
            n.vector == vector,
            n.properties == properties,
            n.edges@.len() == 0,
    {
        Node { id, vector, properties, edges: Vec::new() }
    }

    /// Copies the node.
    pub fn clone_node(&self) -> (r: Self)
        ensures
            r@ == self@,
            r.id == self.id,
    {
        let mut vector: Vec<u32> = Vec::new();
        let mut k: usize = 0;
        while k < self.vector.len()
            invariant
                k <= self.vector@.len(),
                vector@ == self.vector@.take(k as int),
            decreases self.vector@.len() - k,
        {
            vector.push(self.vector[k]);
            k = k + 1;
            assert(vector@ =~= self.vector@.take(k as int));
        }
        assert(self.vector@.take(self.vector@.len() as int) =~= self.vector@);
        let properties = self.properties.clone();
        let mut edges: Vec<Edge> = Vec::new();
        let mut i: usize = 0;
        while i < self.edges.len()
            invariant
                i <= self.edges@.len(),
                edges@.len() == i,
                forall|j: int| 0 <= j < i ==> #[trigger] edges@[j].target_id == self.edges@[j].target_id
                    && edges@[j].relation_type@ == self.edges@[j].relation_type@,
            decreases self.edges@.len() - i,
        {
            let e = &self.edges[i];
            edges.push(Edge { target_id: e.target_id, relation_type: e.relation_type.clone() });
            i = i + 1;
        }
        let r = Node { id: self.id, vector, properties, edges };
        assert(r@.edges =~= self@.edges);
        r
    }
}

/// A directed graph of nodes with distinct ids.
pub struct Graph {
    nodes: Vec<Node>,
}

/// Whether some edge in `edges` has relation type `rel`.
pub open spec fn has_relation(edges: Seq<Edge>, rel: Seq<char>) -> bool {
    exists|i: int| 0 <= i < edges.len() && (#[trigger] edges[i]).relation_type@ == rel
}

/// Whether some edge in `edges` has relation type `rel` and points to `target`.
pub open spec fn has_typed_edge_to(edges: Seq<Edge>, rel: Seq<char>, target: u64) -> bool {
    exists|i: int| 0 <= i < edges.len() && (#[trigger] edges[i]).relation_type@ == rel && edges[i].target_id == target
}

/// Whether `v` holds `x`; linear scan.
pub fn vec_contains(v: &Vec<u64>, x: u64) -> (b: bool)
    ensures
        b == v@.contains(x),
{
    let mut i: usize = 0;
    while i < v.len()
        invariant
            i <= v@.len(),
            forall|j: int| 0 <= j < i ==> v@[j] != x,
        decreases v@.len() - i,
    {
        if v[i] == x {
            return true;
        }
        i = i + 1;
    }
    false
}

impl Graph {
    /// Node ids in storage order.
    pub closed spec fn spec_ids(self) -> Seq<u64> {
        self.nodes@.map_values(|n: Node| n.id)
    }

    #[verifier::type_invariant]
    pub closed spec fn ids_unique(self) -> bool {
        self.spec_ids().no_duplicates()
    }

    /// Node ids are distinct.
    pub proof fn lemma_ids_no_dup(self)
        requires
            self.ids_unique(),
        ensures
            self.spec_ids().no_duplicates(),
    {
    }

    /// Whether `id` is a node.
    pub open spec fn has_node(self, id: u64) -> bool {
        self.spec_ids().contains(id)
    }

    closed spec fn index_of(self, id: u64) -> int {
        choose|i: int| 0 <= i < self.nodes@.len() && self.nodes@[i].id == id
    }

    /// The outgoing edges of node `id` (empty for a non-node).
    pub closed spec fn spec_edges(self, id: u64) -> Seq<Edge> {
        if self.has_node(id) {
            self.nodes@[self.index_of(id)].edges@
        } else {
            Seq::empty()
        }
    }

    /// A non-node has no edges.
    pub proof fn lemma_non_node_edges(self, id: u64)
        requires
            !self.has_node(id),
        ensures
            self.spec_edges(id) == Seq::<Edge>::empty(),
    {
    }

    /// Neighbours of `id`: targets of its edges that are nodes, in edge order.
    pub open spec fn nbrs(self, id: u64) -> Seq<u64> {
        self.spec_edges(id).map_values(|e: Edge| e.target_id).filter(|t: u64| self.has_node(t))
    }

    /// The traversal step relation: `w` is a neighbour of `u` and, when an
    /// edge type is given, `u` has an edge of that type to `w`.
    pub open spec fn step(self, u: u64, w: u64, edge_type: Option<Seq<char>>) -> bool {
        &&& self.nbrs(u).contains(w)
        &&& match edge_type {
            None => true,
            Some(t) => has_typed_edge_to(self.spec_edges(u), t, w),
        }
    }

    proof fn lemma_index(self, i: int)
        requires
            self.ids_unique(),
            0 <= i < self.nodes@.len(),
        ensures
            self.has_node(self.nodes@[i].id),
            self.index_of(self.nodes@[i].id) == i,
            self.spec_edges(self.nodes@[i].id) == self.nodes@[i].edges@,
    {
        let id = self.nodes@[i].id;
        assert(self.spec_ids()[i] == id);
        let j = self.index_of(id);
        assert(self.spec_ids()[j] == id);
    }

    /// An empty graph.
    pub fn new() -> (g: Self)
        ensures
            g.spec_ids() == Seq::<u64>::empty(),
    {
        let g = Graph { nodes: Vec::new() };
        assert(g.spec_ids() =~= Seq::<u64>::empty());
        g
    }

    /// Number of nodes.
    pub fn node_count(&self) -> (n: usize)
        ensures
            n == self.spec_ids().len(),
    {
        self.nodes.len()
    }

    /// All node ids in storage order.
    pub fn node_ids(&self) -> (r: Vec<u64>)
        ensures
            r@ == self.spec_ids(),
            r@.no_duplicates(),
    {
        proof {
            use_type_invariant(self);
        }
        let mut r: Vec<u64> = Vec::new();
        let mut i: usize = 0;
        while i < self.nodes.len()
            invariant
                i <= self.nodes@.len(),
                r@ == self.spec_ids().take(i as int),
            decreases self.nodes@.len() - i,
        {
            r.push(self.nodes[i].id);
            i = i + 1;
            assert(r@ =~= self.spec_ids().take(i as int));
        }
        assert(r@ =~= self.spec_ids());
        r
    }

    fn find(&self, id: u64) -> (r: Option<usize>)
        ensures
            match r {
                Some(i) => i < self.nodes@.len() && self.nodes@[i as int].id == id && self.has_node(id),
                None => !self.has_node(id),
            },
    {
        let mut i: usize = 0;
        while i < self.nodes.len()
            invariant
                i <= self.nodes@.len(),
                forall|j: int| 0 <= j < i ==> self.nodes@[j].id != id,
            decreases self.nodes@.len() - i,
        {
            if self.nodes[i].id == id {
                assert(self.spec_ids()[i as int] == id);
                return Some(i);
            }
            i = i + 1;
        }
        assert forall|j: int| 0 <= j < self.spec_ids().len() implies self.spec_ids()[j] != id by {
            assert(self.nodes@[j].id == self.spec_ids()[j]);
        }
        None
    }

    /// Whether `id` is a node.
    pub fn contains(&self, id: u64) -> (b: bool)
        ensures
            b == self.has_node(id),
    {
        self.find(id).is_some()
    }

    /// The outgoing edges of node `id`, if it is a node.
    pub fn get_edges(&self, id: u64) -> (r: Option<&Vec<Edge>>)
        ensures
            match r {
                Some(es) => self.has_node(id) && es@ == self.spec_edges(id),
                None => !self.has_node(id),
            },
    {
        proof {
            use_type_invariant(self);
        }
        match self.find(id) {
            Some(i) => {
                proof {
                    self.lemma_index(i as int);
                }
                Some(&self.nodes[i].edges)
            },
            None => None,
        }
    }

    /// Adds node `id` with no edges; returns false (and changes nothing) when
    /// `id` is already a node.
    pub fn add_node(&mut self, id: u64) -> (added: bool)
        ensures
            added == !old(self).has_node(id),
            added ==> final(self).spec_ids() == old(self).spec_ids().push(id),
            !added ==> final(self).spec_ids() == old(self).spec_ids(),
            forall|x: u64| #[trigger] old(self).has_node(x) ==> final(self).spec_edges(x) == old(self).spec_edges(x),
            added ==> final(self).spec_edges(id) == Seq::<Edge>::empty(),
    {
        proof {
            use_type_invariant(&*self);
        }
        if self.find(id).is_some() {
            return false;
        }
        let ghost old_g = *self;
        let mut nodes = Vec::new();
        std::mem::swap(&mut nodes, &mut self.nodes);
        nodes.push(Node { id, vector: Vec::new(), properties: String::new(), edges: Vec::new() });
        let ghost ng = Graph { nodes };
        assert(ng.spec_ids() =~= old_g.spec_ids().push(id));
        assert(ng.ids_unique()) by {
            assert forall|a: int, b: int| 0 <= a < b < ng.spec_ids().len() implies ng.spec_ids()[a] != ng.spec_ids()[b] by {
                if b == ng.spec_ids().len() - 1 {
                    assert(old_g.spec_ids()[a] == ng.spec_ids()[a]);
                }
            }
        }
        self.nodes = nodes;
        proof {
            let n = old_g.nodes@.len() as int;
            self.lemma_index(n);
            assert forall|x: u64| #[trigger] old_g.has_node(x) implies self.spec_edges(x) == old_g.spec_edges(x) by {
                let j = old_g.index_of(x);
                old_g.lemma_index(j);
                assert(self.nodes@[j] == old_g.nodes@[j]);
                self.lemma_index(j);
            }
        }
        true
    }

    /// Adds an edge `from -[relation_type]-> to`; returns false (and changes
    /// nothing) when `from` is not a node.
    pub fn add_edge(&mut self, from: u64, to: u64, relation_type: String) -> (added: bool)
        ensures
            added == old(self).has_node(from),
            final(self).spec_ids() == old(self).spec_ids(),
            added ==> final(self).spec_edges(from) == old(self).spec_edges(from).push(Edge { target_id: to, relation_type }),
            forall|x: u64| x != from ==> #[trigger] final(self).spec_edges(x) == old(self).spec_edges(x),
            !added ==> final(self).spec_edges(from) == old(self).spec_edges(from),
    {
        proof {
            use_type_invariant(&*self);
        }
        let ghost edge = Edge { target_id: to, relation_type };
        match self.find(from) {
            None => {
                false
            },
            Some(i) => {
                let ghost old_g = *self;
                let mut nodes = Vec::new();
                std::mem::swap(&mut nodes, &mut self.nodes);
                let mut node = nodes.remove(i);
                node.edges.push(Edge { target_id: to, relation_type });
                nodes.insert(i, node);
                let ghost ng = Graph { nodes };
                assert(ng.spec_ids() =~= old_g.spec_ids());
                self.nodes = nodes;
                proof {
                    old_g.lemma_index(i as int);
                    self.lemma_index(i as int);
                    assert forall|x: u64| x != from implies #[trigger] self.spec_edges(x) == old_g.spec_edges(x) by {
                        if old_g.has_node(x) {
                            let j = old_g.index_of(x);
                            old_g.lemma_index(j);
                            assert(self.nodes@[j] == old_g.nodes@[j]);
                            self.lemma_index(j);
                        }
                    }
                }
                true
            },
        }
    }

    /// Neighbours of `id` (see [`Graph::nbrs`]).
    pub fn neighbors(&self, id: u64) -> (r: Vec<u64>)
        ensures
            r@ == self.nbrs(id),
    {
        let ghost targets = self.spec_edges(id).map_values(|e: Edge| e.target_id);
        let ghost pred = |t: u64| self.has_node(t);
        let mut r: Vec<u64> = Vec::new();
        match self.get_edges(id) {
            None => {
                assert(targets =~= Seq::<u64>::empty());
                assert(targets.filter(pred) =~= Seq::<u64>::empty());
            },
            Some(edges) => {
                let mut i: usize = 0;
                while i < edges.len()
                    invariant
                        i <= edges@.len(),
                        targets == edges@.map_values(|e: Edge| e.target_id),
                        pred == (|t: u64| self.has_node(t)),
                        r@ == targets.take(i as int).filter(pred),
                    decreases edges@.len() - i,
                {
                    let t = edges[i].target_id;
                    proof {
                        assert(targets.take(i + 1).drop_last() =~= targets.take(i as int));
                        assert(targets.take(i + 1).last() == t);
                        reveal_with_fuel(Seq::filter, 1);
                    }
                    if self.contains(t) {
                        r.push(t);
                    }
                    i = i + 1;
                }
                assert(targets.take(edges@.len() as int) =~= targets);
            },
        }
        r
    }

    /// Whether node `w` has an edge of type `rel` pointing to `u`.
    pub fn has_typed_edge(&self, w: u64, rel: &str, u: u64) -> (b: bool)
        ensures
            b == has_typed_edge_to(self.spec_edges(w), rel@, u),
    {
        let rs = rel.to_string();
        proof {
            vstd::string::to_string_from_display_ensures_for_str(rel, rs);
        }
        match self.get_edges(w) {
            None => false,
            Some(edges) => {
                let mut i: usize = 0;
                while i < edges.len()
                    invariant
                        i <= edges@.len(),
                        rs@ == rel@,
                        edges@ == self.spec_edges(w),
                        forall|j: int| 0 <= j < i ==> !(edges@[j].relation_type@ == rel@ && edges@[j].target_id == u),
                    decreases edges@.len() - i,
                {
                    if edges[i].target_id == u && edges[i].relation_type == rs {
                        assert(edges@[i as int].relation_type@ == rel@);
                        return true;
                    }
                    i = i + 1;
                }
                false
            },
        }
    }
}

} // verus!

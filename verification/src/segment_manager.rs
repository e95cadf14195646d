//! Segment-based node storage.
//!
//! An appendable segment takes writes; a sealed (non-appendable) segment is
//! read-only and may later be merged with other small sealed segments into a
//! fresh appendable one.

use vstd::prelude::*;
use crate::idmap::IdMap;
use crate::graph::{Node, NodeView};
use crate::clock::get_timestamp;

verus! {

#[derive(Clone, Copy, Debug, PartialEq, Eq, Structural)]
pub enum SegmentType {
    /// Takes reads and writes.
    Appendable,
    /// Read-only.
    NonAppendable,
}

/// One segment: nodes by id.
pub struct Segment {
    pub id: u64,
    pub segment_type: SegmentType,
    pub nodes: IdMap<Node>,
    pub size_bytes: u64,
    /// Creation time, seconds since the epoch.
    pub created_at: u64,
}

/// The nodes of a segment, by id.
pub open spec fn seg_nodes(s: Segment) -> Map<u64, Node> {
    s.nodes.spec_map()
}

/// Number of nodes in a segment.
pub open spec fn seg_len(s: Segment) -> nat {
    s.nodes.spec_map().dom().len()
}

/// The node views of a segment, by id.
pub open spec fn seg_view(s: Segment) -> Map<u64, NodeView> {
    s.nodes.spec_map().map_values(|n: Node| n@)
}

impl Segment {
    /// An empty appendable segment with id `id`, stamped with the current time.
    pub fn new_appendable(id: u64) -> (s: Self)
        ensures
            s.id == id,
            s.segment_type == SegmentType::Appendable,
            seg_nodes(s) == Map::<u64, Node>::empty(),
            s.size_bytes == 0,
    {
        Segment {
            id,
            segment_type: SegmentType::Appendable,
            nodes: IdMap::new(),
            size_bytes: 0,
            created_at: get_timestamp(),
        }
    }

    /// The same segment, made read-only.
    pub fn seal(self) -> (s: Self)
        ensures
            s.segment_type == SegmentType::NonAppendable,
            s.id == self.id,
            s.nodes == self.nodes,
            s.size_bytes == self.size_bytes,
            s.created_at == self.created_at,
    {
        Segment { segment_type: SegmentType::NonAppendable, ..self }
    }

    /// Whether the segment takes writes.
    pub fn is_appendable(&self) -> (b: bool)
        ensures
            b == (self.segment_type == SegmentType::Appendable),
    {
        self.segment_type == SegmentType::Appendable
    }

    /// Number of nodes.
    pub fn len(&self) -> (n: usize)
        ensures
            seg_nodes(*self).dom().finite(),
            n == seg_len(*self),
    {
        self.nodes.len()
    }

    /// Whether the segment holds no node.
    pub fn is_empty(&self) -> (b: bool)
        ensures
            b == (seg_len(*self) == 0),
    {
        self.nodes.len() == 0
    }

    /// Stores `node` under its id when the segment is appendable; returns
    /// true when the id was new. A sealed segment is left unchanged and false
    /// is returned.
    pub fn insert(&mut self, node: Node) -> (b: bool)
        ensures
            final(self).id == old(self).id,
            final(self).segment_type == old(self).segment_type,
            final(self).size_bytes == old(self).size_bytes,
            final(self).created_at == old(self).created_at,
            old(self).segment_type == SegmentType::Appendable ==>
                seg_nodes(*final(self)) == seg_nodes(*old(self)).insert(node.id, node)
                && b == !seg_nodes(*old(self)).contains_key(node.id),
            old(self).segment_type != SegmentType::Appendable ==> *final(self) == *old(self) && !b,
    {
        if !self.is_appendable() {
            return false;
        }
        let existed = self.nodes.contains_key(node.id);
        self.nodes.insert(node.id, node);
        !existed
    }

    /// The node with id `id`, if stored here.
    pub fn get(&self, id: u64) -> (r: Option<&Node>)
        ensures
            match r {
                Some(n) => seg_nodes(*self).contains_key(id) && *n == seg_nodes(*self)[id],
                None => !seg_nodes(*self).contains_key(id),
            },
    {
        self.nodes.get(id)
    }

    /// Removes node `id` when the segment is appendable; returns whether a
    /// node was removed.
    pub fn remove(&mut self, id: u64) -> (b: bool)
        ensures
            final(self).id == old(self).id,
            final(self).segment_type == old(self).segment_type,
            final(self).size_bytes == old(self).size_bytes,
            final(self).created_at == old(self).created_at,
            old(self).segment_type == SegmentType::Appendable ==>
                seg_nodes(*final(self)) == seg_nodes(*old(self)).remove(id)
                && b == seg_nodes(*old(self)).contains_key(id),
            old(self).segment_type != SegmentType::Appendable ==> *final(self) == *old(self) && !b,
    {
        if !self.is_appendable() {
            return false;
        }
        self.nodes.remove(id).is_some()
    }

    /// The ids of the stored nodes, each once.
    pub fn iter(&self) -> (r: Vec<u64>)
        ensures
            r@.no_duplicates(),
            r@.to_set() == seg_nodes(*self).dom(),
    {
        self.nodes.keys()
    }
}

/// Whether segment `s` can take a write under the size limit `max`.
pub open spec fn is_open(s: Segment, max: usize) -> bool {
    s.segment_type == SegmentType::Appendable && seg_len(s) < max
}

/// Whether `s` is a sealed segment small enough to be merged.
pub open spec fn is_small(s: Segment, max: usize) -> bool {
    s.segment_type == SegmentType::NonAppendable && seg_len(s) < max / 2
}

/// Node views of the segments `segs` merged in order, later ones winning.
pub open spec fn merged_view(segs: Seq<Segment>) -> Map<u64, NodeView>
    decreases segs.len(),
{
    if segs.len() == 0 {
        Map::empty()
    } else {
        merged_view(segs.drop_last()).union_prefer_right(seg_view(segs.last()))
    }
}

/// Total number of nodes over `segs`.
pub open spec fn total_len(segs: Seq<Segment>) -> nat
    decreases segs.len(),
{
    if segs.len() == 0 {
        0
    } else {
        total_len(segs.drop_last()) + seg_len(segs.last())
    }
}

/// A collection of segments.
pub struct SegmentManager {
    segments: Vec<Segment>,
    next_id: u64,
    max_segment_size: usize,
    base_path: String,
}

impl SegmentManager {
    /// The segments in order.
    pub closed spec fn spec_segments(self) -> Seq<Segment> {
        self.segments@
    }

    /// The id the next new segment gets.
    pub closed spec fn spec_next_id(self) -> u64 {
        self.next_id
    }

    /// The size limit of a segment.
    pub closed spec fn spec_max(self) -> usize {
        self.max_segment_size
    }

    /// A manager with no segments; the first segment gets id 1.
    pub fn new(base_path: &str, max_segment_size: usize) -> (m: Self)
        ensures
            m.spec_segments().len() == 0,
            m.spec_next_id() == 1,
            m.spec_max() == max_segment_size,
    {
        let bp = base_path.to_string();
        SegmentManager { segments: Vec::new(), next_id: 1, max_segment_size, base_path: bp }
    }

    /// Index of the first open segment, creating one when none is open.
    fn open_index(&mut self) -> (i: usize)
        requires
            old(self).spec_next_id() < u64::MAX,
        ensures
            i < final(self).spec_segments().len(),
            final(self).spec_max() == old(self).spec_max(),
            final(self).spec_segments()[i as int].segment_type == SegmentType::Appendable,
            forall|j: int| 0 <= j < i ==> !is_open(#[trigger] old(self).spec_segments()[j], old(self).spec_max()),
            ({
                let o = old(self).spec_segments();
                let n = final(self).spec_segments();
                if i < o.len() {
                    &&& is_open(o[i as int], old(self).spec_max())
                    &&& n == o
                    &&& final(self).spec_next_id() == old(self).spec_next_id()
                } else {
                    &&& i == o.len()
                    &&& n.len() == o.len() + 1
                    &&& n.take(o.len() as int) == o
                    &&& n[i as int].id == old(self).spec_next_id()
                    &&& seg_nodes(n[i as int]) == Map::<u64, Node>::empty()
                    &&& final(self).spec_next_id() == old(self).spec_next_id() + 1
                }
            }),
    {
        let mut i: usize = 0;
        while i < self.segments.len()
            invariant
                i <= self.segments@.len(),
                forall|j: int| 0 <= j < i ==> !is_open(#[trigger] self.segments@[j], self.max_segment_size),
            decreases self.segments@.len() - i,
        {
            if self.segments[i].is_appendable() && self.segments[i].len() < self.max_segment_size {
                return i;
            }
            i = i + 1;
        }
        let id = self.next_id;
        self.next_id = self.next_id + 1;
        self.segments.push(Segment::new_appendable(id));
        assert(self.segments@.take(i as int) =~= old(self).segments@);
        i
    }

    /// Id of the first appendable segment that is under the size limit,
    /// creating a new empty appendable segment (with the next id) when there
    /// is none.
    pub fn current_appendable(&mut self) -> (id: u64)
        requires
            old(self).spec_next_id() < u64::MAX,
        ensures
            final(self).spec_max() == old(self).spec_max(),
            ({
                let o = old(self).spec_segments();
                let n = final(self).spec_segments();
                if exists|j: int| 0 <= j < o.len() && is_open(#[trigger] o[j], old(self).spec_max()) {
                    &&& n == o
                    &&& final(self).spec_next_id() == old(self).spec_next_id()
                    &&& exists|j: int| 0 <= j < o.len() && is_open(#[trigger] o[j], old(self).spec_max()) && o[j].id == id
                        && forall|k: int| 0 <= k < j ==> !is_open(#[trigger] o[k], old(self).spec_max())
                } else {
                    &&& id == old(self).spec_next_id()
                    &&& n.len() == o.len() + 1
                    &&& n.take(o.len() as int) == o
                    &&& n.last().id == id
                    &&& n.last().segment_type == SegmentType::Appendable
                    &&& seg_nodes(n.last()) == Map::<u64, Node>::empty()
                    &&& final(self).spec_next_id() == old(self).spec_next_id() + 1
                }
            }),
    {
        let i = self.open_index();
        self.segments[i].id
    }

    /// Stores `node` in the first open segment (creating one when needed);
    /// returns true when the id was new to that segment.
    pub fn insert(&mut self, node: Node) -> (b: bool)
        requires
            old(self).spec_next_id() < u64::MAX,
        ensures
            final(self).spec_max() == old(self).spec_max(),
            exists|i: int| #![trigger final(self).spec_segments()[i]] 0 <= i < final(self).spec_segments().len() && ({
                let o = old(self).spec_segments();
                let n = final(self).spec_segments();
                &&& forall|j: int| 0 <= j < i && j < o.len() ==> !is_open(#[trigger] o[j], old(self).spec_max())
                &&& n[i].segment_type == SegmentType::Appendable
                &&& forall|j: int| 0 <= j < o.len() && j != i ==> #[trigger] n[j] == o[j]
                &&& (i < o.len() ==> {
                    &&& is_open(o[i], old(self).spec_max())
                    &&& n.len() == o.len()
                    &&& final(self).spec_next_id() == old(self).spec_next_id()
                    &&& n[i].id == o[i].id
                    &&& seg_nodes(n[i]) == seg_nodes(o[i]).insert(node.id, node)
                    &&& b == !seg_nodes(o[i]).contains_key(node.id)
                })
                &&& (i >= o.len() ==> {
                    &&& i == o.len()
                    &&& n.len() == o.len() + 1
                    &&& n[i].id == old(self).spec_next_id()
                    &&& seg_nodes(n[i]) == Map::<u64, Node>::empty().insert(node.id, node)
                    &&& final(self).spec_next_id() == old(self).spec_next_id() + 1
                    &&& b
                })
            }),
    {
        let i = self.open_index();
        let ghost mid = self.segments@;
        let mut seg = self.segments.remove(i);
        let b = seg.insert(node);
        self.segments.insert(i, seg);
        proof {
            let o = old(self).spec_segments();
            let n = self.segments@;
            assert forall|j: int| 0 <= j < o.len() && j != i implies #[trigger] n[j] == o[j] by {
                assert(n[j] == mid[j]);
                if (i as int) >= o.len() {
                    assert(mid.take(o.len() as int)[j] == o[j]);
                }
            }
            if (i as int) >= o.len() {
                assert(seg_nodes(mid[i as int]) =~= Map::<u64, Node>::empty());
            }
            assert(self.spec_segments()[i as int].segment_type == SegmentType::Appendable);
        }
        b
    }

    /// The node with id `id` from the last segment (in order) that holds it.
    pub fn get(&self, id: u64) -> (r: Option<&Node>)
        ensures
            match r {
                Some(n) => exists|i: int| 0 <= i < self.spec_segments().len()
                    && seg_nodes(#[trigger] self.spec_segments()[i]).contains_key(id)
                    && *n == seg_nodes(self.spec_segments()[i])[id]
                    && forall|j: int| i < j < self.spec_segments().len() ==> !seg_nodes(#[trigger] self.spec_segments()[j]).contains_key(id),
                None => forall|j: int| 0 <= j < self.spec_segments().len() ==> !seg_nodes(#[trigger] self.spec_segments()[j]).contains_key(id),
            },
    {
        let mut k: usize = self.segments.len();
        while k > 0
            invariant
                k <= self.segments@.len(),
                forall|j: int| k <= j < self.segments@.len() ==> !seg_nodes(#[trigger] self.segments@[j]).contains_key(id),
            decreases k,
        {
            k = k - 1;
            match self.segments[k].get(id) {
                Some(n) => {
                    assert(seg_nodes(self.spec_segments()[k as int]).contains_key(id));
                    return Some(n);
                },
                None => {},
            }
        }
        None
    }

    /// Removes node `id` from the first appendable segment; returns whether a
    /// node was removed (false when no segment is appendable).
    pub fn remove(&mut self, id: u64) -> (b: bool)
        ensures
            final(self).spec_next_id() == old(self).spec_next_id(),
            final(self).spec_max() == old(self).spec_max(),
            final(self).spec_segments().len() == old(self).spec_segments().len(),
            (forall|j: int| 0 <= j < old(self).spec_segments().len() ==> (#[trigger] old(self).spec_segments()[j]).segment_type != SegmentType::Appendable)
                ==> !b && final(self).spec_segments() == old(self).spec_segments(),
            forall|i: int| 0 <= i < old(self).spec_segments().len()
                && (#[trigger] old(self).spec_segments()[i]).segment_type == SegmentType::Appendable
                && (forall|j: int| 0 <= j < i ==> (#[trigger] old(self).spec_segments()[j]).segment_type != SegmentType::Appendable)
                ==> {
                    &&& b == seg_nodes(old(self).spec_segments()[i]).contains_key(id)
                    &&& seg_nodes(final(self).spec_segments()[i]) == seg_nodes(old(self).spec_segments()[i]).remove(id)
                    &&& final(self).spec_segments()[i].id == old(self).spec_segments()[i].id
                    &&& final(self).spec_segments()[i].segment_type == SegmentType::Appendable
                    &&& forall|j: int| 0 <= j < old(self).spec_segments().len() && j != i
                        ==> #[trigger] final(self).spec_segments()[j] == old(self).spec_segments()[j]
                },
    {
        let mut i: usize = 0;
        while i < self.segments.len()
            invariant
                i <= self.segments@.len(),
                self.segments@ == old(self).segments@,
                self.next_id == old(self).next_id,
                self.max_segment_size == old(self).max_segment_size,
                forall|j: int| 0 <= j < i ==> (#[trigger] self.segments@[j]).segment_type != SegmentType::Appendable,
            decreases self.segments@.len() - i,
        {
            if self.segments[i].is_appendable() {
                let mut seg = self.segments.remove(i);
                let b = seg.remove(id);
                self.segments.insert(i, seg);
                proof {
                    assert forall|j: int| 0 <= j < old(self).segments@.len() && j != i
                        implies #[trigger] self.segments@[j] == old(self).segments@[j] by {}
                }
                return b;
            }
            i = i + 1;
        }
        false
    }

    /// Seals the first appendable segment, if any.
    pub fn seal_current(&mut self)
        ensures
            final(self).spec_next_id() == old(self).spec_next_id(),
            final(self).spec_max() == old(self).spec_max(),
            final(self).spec_segments().len() == old(self).spec_segments().len(),
            (forall|j: int| 0 <= j < old(self).spec_segments().len() ==> (#[trigger] old(self).spec_segments()[j]).segment_type != SegmentType::Appendable)
                ==> final(self).spec_segments() == old(self).spec_segments(),
            forall|i: int| 0 <= i < old(self).spec_segments().len()
                && (#[trigger] old(self).spec_segments()[i]).segment_type == SegmentType::Appendable
                && (forall|j: int| 0 <= j < i ==> (#[trigger] old(self).spec_segments()[j]).segment_type != SegmentType::Appendable)
                ==> {
                    &&& final(self).spec_segments()[i].segment_type == SegmentType::NonAppendable
                    &&& final(self).spec_segments()[i].id == old(self).spec_segments()[i].id
                    &&& final(self).spec_segments()[i].nodes == old(self).spec_segments()[i].nodes
                    &&& forall|j: int| 0 <= j < old(self).spec_segments().len() && j != i
                        ==> #[trigger] final(self).spec_segments()[j] == old(self).spec_segments()[j]
                },
    {
        let mut i: usize = 0;
        while i < self.segments.len()
            invariant
                i <= self.segments@.len(),
                self.segments@ == old(self).segments@,
                self.next_id == old(self).next_id,
                self.max_segment_size == old(self).max_segment_size,
                forall|j: int| 0 <= j < i ==> (#[trigger] self.segments@[j]).segment_type != SegmentType::Appendable,
            decreases self.segments@.len() - i,
        {
            if self.segments[i].is_appendable() {
                let seg = self.segments.remove(i);
                self.segments.insert(i, seg.seal());
                proof {
                    assert forall|j: int| 0 <= j < old(self).segments@.len() && j != i
                        implies #[trigger] self.segments@[j] == old(self).segments@[j] by {}
                }
                return;
            }
            i = i + 1;
        }
    }

    /// When at least two sealed segments are small (fewer than half the size
    /// limit of nodes), replaces them by one new appendable segment holding
    /// all their nodes (a later segment's node wins on an id clash), placed
    /// last and given the next id. Otherwise nothing changes.
    pub fn merge(&mut self)
        requires
            old(self).spec_next_id() < u64::MAX,
        ensures
            final(self).spec_max() == old(self).spec_max(),
            ({
                let o = old(self).spec_segments();
                let max = old(self).spec_max();
                let small = o.filter(|s: Segment| is_small(s, max));
                let kept = o.filter(|s: Segment| !is_small(s, max));
                if small.len() < 2 {
                    &&& final(self).spec_segments() == o
                    &&& final(self).spec_next_id() == old(self).spec_next_id()
                } else {
                    let n = final(self).spec_segments();
                    &&& n.len() == kept.len() + 1
                    &&& n.take(kept.len() as int) == kept
                    &&& n.last().id == old(self).spec_next_id()
                    &&& n.last().segment_type == SegmentType::Appendable
                    &&& seg_view(n.last()) == merged_view(small)
                    &&& final(self).spec_next_id() == old(self).spec_next_id() + 1
                }
            }),
    {
        let ghost o = self.segments@;
        let max = self.max_segment_size;
        let ghost small_pred = |s: Segment| is_small(s, max);
        let ghost kept_pred = |s: Segment| !is_small(s, max);
        // count the small segments
        let mut count: usize = 0;
        let mut i: usize = 0;
        while i < self.segments.len()
            invariant
                i <= self.segments@.len(),
                self.segments@ == o,
                max == self.max_segment_size,
                small_pred == (|s: Segment| is_small(s, max)),
                count == o.take(i as int).filter(small_pred).len(),
                count <= i,
            decreases self.segments@.len() - i,
        {
            proof {
                assert(o.take(i + 1).drop_last() =~= o.take(i as int));
                reveal_with_fuel(Seq::filter, 1);
            }
            if !self.segments[i].is_appendable() && self.segments[i].len() < max / 2 {
                count = count + 1;
            }
            i = i + 1;
        }
        proof {
            assert(o.take(o.len() as int) =~= o);
        }
        if count < 2 {
            return;
        }
        let id = self.next_id;
        self.next_id = self.next_id + 1;
        let mut merged = Segment::new_appendable(id);
        let mut rest: Vec<Segment> = Vec::new();
        std::mem::swap(&mut rest, &mut self.segments);
        let mut k: usize = 0;
        while k < rest.len()
            invariant
                k <= rest@.len(),
                rest@ == o,
                max == self.max_segment_size,
                small_pred == (|s: Segment| is_small(s, max)),
                kept_pred == (|s: Segment| !is_small(s, max)),
                merged.id == id,
                merged.segment_type == SegmentType::Appendable,
                seg_view(merged) == merged_view(o.take(k as int).filter(small_pred)),
            decreases rest@.len() - k,
        {
            proof {
                assert(o.take(k + 1).drop_last() =~= o.take(k as int));
                reveal_with_fuel(Seq::filter, 1);
            }
            let seg = &rest[k];
            if !seg.is_appendable() && seg.len() < max / 2 {
                let ids = seg.iter();
                let ghost before = seg_view(merged);
                let mut t: usize = 0;
                while t < ids.len()
                    invariant
                        t <= ids@.len(),
                        ids@.no_duplicates(),
                        ids@.to_set() == seg_nodes(*seg).dom(),
                        merged.id == id,
                        merged.segment_type == SegmentType::Appendable,
                        seg_view(merged) == before.union_prefer_right(
                            seg_view(*seg).restrict(ids@.take(t as int).to_set())),
                    decreases ids@.len() - t,
                {
                    let nid = ids[t];
                    proof {
                        assert(ids@.to_set().contains(nid));
                    }
                    let node = match seg.get(nid) {
                        Some(n) => n.clone_node(),
                        None => {
                            assert(false);
                            Node::new(nid)
                        },
                    };
                    let ghost node_view = node@;
                    let ghost mv = seg_view(merged);
                    merged.nodes.insert(nid, node);
                    proof {
                        assert(node_view == seg_view(*seg)[nid]);
                        assert(seg_view(merged) =~= mv.insert(nid, node_view));
                        assert(ids@.take(t + 1) =~= ids@.take(t as int).push(nid));
                        ids@.take(t as int).lemma_push_to_set_commute(nid);
                        assert(ids@.take(t + 1).to_set() == ids@.take(t as int).to_set().insert(nid));
                        assert(seg_view(merged) =~= before.union_prefer_right(
                            seg_view(*seg).restrict(ids@.take(t + 1).to_set())));
                    }
                    t = t + 1;
                }
                proof {
                    assert(ids@.take(ids@.len() as int) =~= ids@);
                    assert(seg_view(*seg).restrict(ids@.to_set()) =~= seg_view(*seg));
                    let sm = o.take(k as int).filter(small_pred);
                    assert(o.take(k + 1).filter(small_pred) == sm.push(*seg));
                    assert(sm.push(*seg).drop_last() =~= sm);
                }
            } else {
                proof {
                    assert(o.take(k + 1).filter(small_pred) == o.take(k as int).filter(small_pred));
                }
            }
            k = k + 1;
        }
        // move the kept segments back in order
        let ghost kept_spec = o.filter(kept_pred);
        proof {
            assert(o.take(o.len() as int) =~= o);
        }
        let mut out: Vec<Segment> = Vec::new();
        let total = rest.len();
        let mut r: Vec<Segment> = rest;
        let mut idx: usize = 0;
        while idx < total
            invariant
                total == o.len(),
                idx + r@.len() == o.len(),
                r@ == o.skip(idx as int),
                out@ == o.take(idx as int).filter(kept_pred),
                max == self.max_segment_size,
                small_pred == (|s: Segment| is_small(s, max)),
                kept_pred == (|s: Segment| !is_small(s, max)),
            decreases r@.len(),
        {
            let s = r.remove(0);
            proof {
                assert(o.take(idx + 1).drop_last() =~= o.take(idx as int));
                assert(o.take(idx + 1).last() == s);
                reveal_with_fuel(Seq::filter, 1);
            }
            if !(!s.is_appendable() && s.len() < max / 2) {
                out.push(s);
            }
            idx = idx + 1;
            proof {
                assert(r@ =~= o.skip(idx as int));
            }
        }
        proof {
            assert(o.take(idx as int) =~= o);
        }
        out.push(merged);
        self.segments = out;
        proof {
            assert(self.segments@.take(kept_spec.len() as int) =~= kept_spec);
        }
    }

    /// Number of segments.
    pub fn segment_count(&self) -> (n: usize)
        ensures
            n == self.spec_segments().len(),
    {
        self.segments.len()
    }

    /// Total number of nodes over all segments (saturating at `usize::MAX`).
    pub fn total_nodes(&self) -> (n: usize)
        ensures
            total_len(self.spec_segments()) <= usize::MAX ==> n == total_len(self.spec_segments()),
            total_len(self.spec_segments()) > usize::MAX ==> n == usize::MAX,
    {
        let mut total: usize = 0;
        let mut over = false;
        let mut i: usize = 0;
        while i < self.segments.len()
            invariant
                i <= self.segments@.len(),
                !over ==> total == total_len(self.segments@.take(i as int)),
                over ==> total_len(self.segments@.take(i as int)) > usize::MAX && total == usize::MAX,
            decreases self.segments@.len() - i,
        {
            proof {
                assert(self.segments@.take(i + 1).drop_last() =~= self.segments@.take(i as int));
            }
            let l = self.segments[i].len();
            if !over {
                match total.checked_add(l) {
                    Some(t) => total = t,
                    None => {
                        over = true;
                        total = usize::MAX;
                    },
                }
            }
            i = i + 1;
        }
        proof {
            assert(self.segments@.take(self.segments@.len() as int) =~= self.segments@);
        }
        total
    }

    /// Copies of all nodes, segment by segment.
    pub fn get_all(&self) -> (r: Vec<Node>)
        ensures
            forall|x: int| 0 <= x < r@.len() ==> in_segments(self.spec_segments(), self.spec_segments().len() as int, (#[trigger] r@[x])@),
            forall|i: int, k: u64| 0 <= i < self.spec_segments().len() && #[trigger] seg_view(self.spec_segments()[i]).contains_key(k)
                ==> exists|x: int| 0 <= x < r@.len() && (#[trigger] r@[x])@ == seg_view(self.spec_segments()[i])[k],
    {
        let mut r: Vec<Node> = Vec::new();
        let mut i: usize = 0;
        while i < self.segments.len()
            invariant
                i <= self.segments@.len(),
                forall|x: int| 0 <= x < r@.len() ==> in_segments(self.segments@, i as int, (#[trigger] r@[x])@),
                forall|a: int, k: u64| 0 <= a < i && #[trigger] seg_view(self.segments@[a]).contains_key(k)
                    ==> exists|x: int| 0 <= x < r@.len() && (#[trigger] r@[x])@ == seg_view(self.segments@[a])[k],
            decreases self.segments@.len() - i,
        {
            let part = self.segments[i].clone_nodes();
            let ghost r0 = r@;
            let ghost seg = self.segments@[i as int];
            let mut t: usize = 0;
            let mut part = part;
            let ghost p0 = part@;
            let plen = part.len();
            while t < plen
                invariant
                    plen == p0.len(),
                    t <= p0.len(),
                    part@ == p0.skip(t as int),
                    r@.len() == r0.len() + t,
                    forall|x: int| 0 <= x < r0.len() ==> #[trigger] r@[x] == r0[x],
                    forall|x: int| 0 <= x < t ==> #[trigger] r@[r0.len() + x] == p0[x],
                decreases p0.len() - t,
            {
                let n = part.remove(0);
                r.push(n);
                t = t + 1;
                proof {
                    assert(part@ =~= p0.skip(t as int));
                }
            }
            proof {
                assert forall|x: int| 0 <= x < r@.len() implies in_segments(self.segments@, i + 1, (#[trigger] r@[x])@) by {
                    if x < r0.len() {
                        assert(r@[x] == r0[x]);
                        assert(in_segments(self.segments@, i as int, r0[x]@));
                        let a = choose|a: int| 0 <= a < i && #[trigger] in_segment(self.segments@[a], r0[x]@);
                        assert(in_segment(self.segments@[a], r@[x]@));
                    } else {
                        let y = x - r0.len();
                        assert(r@[r0.len() + y] == p0[y]);
                        assert(r0.len() + y == x);
                        assert(in_segment(self.segments@[i as int], p0[y]@));
                    }
                }
                assert forall|a: int, k: u64| 0 <= a < i + 1 && #[trigger] seg_view(self.segments@[a]).contains_key(k)
                    implies exists|x: int| 0 <= x < r@.len() && (#[trigger] r@[x])@ == seg_view(self.segments@[a])[k] by {
                    if a < i {
                        let x = choose|x: int| 0 <= x < r0.len() && (#[trigger] r0[x])@ == seg_view(self.segments@[a])[k];
                        assert(r@[x] == r0[x]);
                    } else {
                        let y = choose|y: int| 0 <= y < p0.len() && (#[trigger] p0[y])@ == seg_view(seg)[k];
                        assert(r@[r0.len() + y] == p0[y]);
                    }
                }
            }
            i = i + 1;
        }
        r
    }
}

/// Whether node view `v` is stored in one of the first `n` segments of `segs`.
pub open spec fn in_segments(segs: Seq<Segment>, n: int, v: NodeView) -> bool {
    exists|a: int| 0 <= a < n && #[trigger] in_segment(segs[a], v)
}

/// Whether node view `v` is stored in segment `s` under some id.
pub open spec fn in_segment(s: Segment, v: NodeView) -> bool {
    exists|k: u64| #[trigger] seg_view(s).contains_key(k) && seg_view(s)[k] == v
}

impl Segment {
    /// Copies of the stored nodes, one per id.
    pub fn clone_nodes(&self) -> (r: Vec<Node>)
        ensures
            forall|x: int| 0 <= x < r@.len() ==> #[trigger] in_segment(*self, r@[x]@),
            forall|k: u64| #[trigger] seg_view(*self).contains_key(k)
                ==> exists|x: int| 0 <= x < r@.len() && (#[trigger] r@[x])@ == seg_view(*self)[k],
    {
        let ids = self.iter();
        let mut r: Vec<Node> = Vec::new();
        let mut t: usize = 0;
        while t < ids.len()
            invariant
                t <= ids@.len(),
                ids@.to_set() == seg_nodes(*self).dom(),
                r@.len() == t,
                forall|x: int| 0 <= x < t ==> seg_view(*self).contains_key(ids@[x]) && (#[trigger] r@[x])@ == seg_view(*self)[ids@[x]],
            decreases ids@.len() - t,
        {
            let nid = ids[t];
            proof {
                assert(ids@.to_set().contains(nid));
            }
            match self.get(nid) {
                Some(n) => {
                    let c = n.clone_node();
                    r.push(c);
                    proof {
                        assert(r@[t as int]@ == seg_view(*self)[nid]);
                    }
                },
                None => {
                    assert(false);
                },
            }
            t = t + 1;
        }
        proof {
            assert forall|k: u64| #[trigger] seg_view(*self).contains_key(k)
                implies exists|x: int| 0 <= x < r@.len() && (#[trigger] r@[x])@ == seg_view(*self)[k] by {
                assert(ids@.to_set().contains(k));
                let y = choose|y: int| 0 <= y < ids@.len() && ids@[y] == k;
                assert(r@[y]@ == seg_view(*self)[k]);
            }
            assert forall|x: int| 0 <= x < r@.len() implies #[trigger] in_segment(*self, r@[x]@) by {
                assert(seg_view(*self).contains_key(ids@[x]));
            }
        }
        r
    }
}

} // verus!

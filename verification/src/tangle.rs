//! The ledger graph: its fields, how they spell a state, and the small steps
//! that every larger operation is made of.
use crate::error::{milestone_already_inserted, FailureCause, TangleError};
use crate::solidity::lemma_same_vertices_wf;
use crate::id::{TransactionHash, TransactionId};
use crate::index::{
    entries, holds_key, table_entry, table_insert, table_len, table_new, table_position,
    table_remove, table_value_mut,
};
use crate::model::{next_stamp, MilestoneIndex, TangleView};
use crate::vertex::{Vertex, VertexView};
use indexmap::IndexMap;
use std::collections::{HashMap, HashSet};
use vstd::prelude::*;

verus! {

broadcast use vstd::std_specs::hash::group_hash_axioms;

/// The capacity of a ledger graph made by [`Tangle::new`].
pub const DEFAULT_TANGLE_CAPACITY: usize = 100000;

/// The number of vertices that one pass of eviction takes out of a ledger
/// graph made by [`Tangle::new`].
pub const DEFAULT_FREE_SIZE: usize = 5000;

/// What most operations on a ledger graph return.
pub type Result<T> = std::result::Result<T, TangleError>;

/// The ledger graph: a store of vertices of bounded size, an index of the
/// references that wait for a record to arrive, the solid entry points and
/// the milestones.
pub struct Tangle {
    capacity: usize,
    free_size: usize,
    counter: u64,
    nodes: IndexMap<u64, Vertex>,
    awaited: HashMap<u64, Vec<TransactionId>>,
    solid_entry_points: HashSet<u64>,
    milestones: HashMap<MilestoneIndex, TransactionHash>,
    latest_milestone: Option<MilestoneIndex>,
}

spec fn slot_of(e: Seq<(u64, Vertex)>, key: u64) -> int {
    choose|i: int| 0 <= i < e.len() && (#[trigger] e[i]).0 == key
}

spec fn keys_distinct(e: Seq<(u64, Vertex)>) -> bool {
    forall|i: int, j: int|
        0 <= i < e.len() && 0 <= j < e.len() && i != j ==> (#[trigger] e[i]).0 != (#[trigger] e[j]).0
}

spec fn lists_distinct(e: Seq<(u64, Vertex)>) -> bool {
    forall|i: int| 0 <= i < e.len() ==> (#[trigger] e[i]).1.referrers@.no_duplicates()
}

spec fn vertices_of(e: Seq<(u64, Vertex)>) -> Map<TransactionId, VertexView> {
    Map::new(|id: TransactionId| holds_key(e, id.0), |id: TransactionId| e[slot_of(e, id.0)].1@)
}

spec fn order_of(e: Seq<(u64, Vertex)>) -> Seq<TransactionId> {
    Seq::new(e.len(), |i: int| TransactionId(e[i].0))
}

spec fn awaited_of(m: Map<u64, Vec<TransactionId>>) -> Map<TransactionId, Set<TransactionId>> {
    Map::new(|id: TransactionId| m.contains_key(id.0), |id: TransactionId| m[id.0]@.to_set())
}

spec fn entry_points_of(s: Set<u64>) -> Set<TransactionId> {
    Set::new(|id: TransactionId| s.contains(id.0))
}

spec fn milestones_of(m: Map<MilestoneIndex, TransactionHash>) -> Map<MilestoneIndex, Seq<u8>> {
    Map::new(|i: MilestoneIndex| m.contains_key(i), |i: MilestoneIndex| m[i].0@)
}

proof fn lemma_slot(e: Seq<(u64, Vertex)>, i: int)
    requires
        keys_distinct(e),
        0 <= i < e.len(),
    ensures
        slot_of(e, e[i].0) == i,
        holds_key(e, e[i].0),
{
}

proof fn lemma_updated(e: Seq<(u64, Vertex)>, i: int, v: Vertex)
    requires
        keys_distinct(e),
        0 <= i < e.len(),
    ensures
        keys_distinct(e.update(i, (e[i].0, v))),
        order_of(e.update(i, (e[i].0, v))) == order_of(e),
        vertices_of(e.update(i, (e[i].0, v))) == vertices_of(e).insert(TransactionId(e[i].0), v@),
{
    let f = e.update(i, (e[i].0, v));
    assert(order_of(f) =~= order_of(e));
    assert forall|id: TransactionId| holds_key(f, id.0) <==> holds_key(e, id.0) by {
        if holds_key(f, id.0) {
            let j = slot_of(f, id.0);
            assert(e[j].0 == id.0);
        }
        if holds_key(e, id.0) {
            let j = slot_of(e, id.0);
            assert(f[j].0 == id.0);
        }
    }
    assert forall|id: TransactionId| #[trigger] holds_key(e, id.0) implies vertices_of(f)[id]
        == vertices_of(e).insert(TransactionId(e[i].0), v@)[id] by {
        let j = slot_of(e, id.0);
        lemma_slot(f, j);
        lemma_slot(e, j);
    }
    assert(holds_key(e, e[i].0));
    assert(vertices_of(f) =~= vertices_of(e).insert(TransactionId(e[i].0), v@));
}

proof fn lemma_pushed(e: Seq<(u64, Vertex)>, key: u64, v: Vertex)
    requires
        keys_distinct(e),
        !holds_key(e, key),
    ensures
        keys_distinct(e.push((key, v))),
        order_of(e.push((key, v))) == order_of(e).push(TransactionId(key)),
        vertices_of(e.push((key, v))) == vertices_of(e).insert(TransactionId(key), v@),
{
    let f = e.push((key, v));
    assert(order_of(f) =~= order_of(e).push(TransactionId(key)));
    assert forall|i: int, j: int| 0 <= i < f.len() && 0 <= j < f.len() && i != j implies (
    #[trigger] f[i]).0 != (#[trigger] f[j]).0 by {
        if i < e.len() {
            assert(e[i].0 == f[i].0);
        }
        if j < e.len() {
            assert(e[j].0 == f[j].0);
        }
    }
    assert forall|id: TransactionId|
        holds_key(f, id.0) <==> (holds_key(e, id.0) || id == TransactionId(key)) by {
        if holds_key(f, id.0) {
            let j = slot_of(f, id.0);
            if j < e.len() {
                assert(e[j].0 == id.0);
            }
        }
        if holds_key(e, id.0) {
            let j = slot_of(e, id.0);
            assert(f[j].0 == id.0);
        }
        if id == TransactionId(key) {
            assert(f[e.len() as int].0 == id.0);
        }
    }
    assert forall|id: TransactionId| #[trigger] holds_key(f, id.0) implies vertices_of(f)[id]
        == vertices_of(e).insert(TransactionId(key), v@)[id] by {
        let j = slot_of(f, id.0);
        lemma_slot(f, j);
        if j < e.len() {
            lemma_slot(e, j);
        }
    }
    assert(vertices_of(f) =~= vertices_of(e).insert(TransactionId(key), v@));
}

proof fn lemma_removed(e: Seq<(u64, Vertex)>, i: int)
    requires
        keys_distinct(e),
        0 <= i < e.len(),
    ensures
        keys_distinct(e.remove(i)),
        order_of(e.remove(i)) == order_of(e).remove(i),
        vertices_of(e.remove(i)) == vertices_of(e).remove(TransactionId(e[i].0)),
{
    let f = e.remove(i);
    assert(order_of(f) =~= order_of(e).remove(i));
    assert forall|a: int, b: int| 0 <= a < f.len() && 0 <= b < f.len() && a != b implies (
    #[trigger] f[a]).0 != (#[trigger] f[b]).0 by {
        let a0 = if a < i {
            a
        } else {
            a + 1
        };
        let b0 = if b < i {
            b
        } else {
            b + 1
        };
        assert(f[a] == e[a0] && f[b] == e[b0]);
    }
    assert forall|id: TransactionId|
        holds_key(f, id.0) <==> (holds_key(e, id.0) && id != TransactionId(e[i].0)) by {
        if holds_key(f, id.0) {
            let j = slot_of(f, id.0);
            let j0 = if j < i {
                j
            } else {
                j + 1
            };
            assert(f[j] == e[j0]);
        }
        if holds_key(e, id.0) && id != TransactionId(e[i].0) {
            let j = slot_of(e, id.0);
            let j1 = if j < i {
                j
            } else {
                j - 1
            };
            assert(f[j1] == e[j]);
        }
    }
    assert forall|id: TransactionId| #[trigger] holds_key(f, id.0) implies vertices_of(f)[id]
        == vertices_of(e)[id] by {
        let j = slot_of(f, id.0);
        let j0 = if j < i {
            j
        } else {
            j + 1
        };
        assert(f[j] == e[j0]);
        lemma_slot(f, j);
        lemma_slot(e, j0);
    }
    assert(vertices_of(f) =~= vertices_of(e).remove(TransactionId(e[i].0)));
}

impl View for Tangle {
    type V = TangleView;

    closed spec fn view(&self) -> TangleView {
        TangleView {
            vertices: vertices_of(entries(self.nodes)),
            order: order_of(entries(self.nodes)),
            awaited: awaited_of(self.awaited@),
            entry_points: entry_points_of(self.solid_entry_points@),
            milestones: milestones_of(self.milestones@),
            latest_milestone: self.latest_milestone,
            counter: self.counter,
            capacity: self.capacity,
            free_size: self.free_size,
        }
    }
}

impl Tangle {
    /// Whether the fields spell a state at all: no identity is the key of
    /// two entries of the table, and no list names a vertex twice.
    pub closed spec fn sane(&self) -> bool {
        &&& keys_distinct(entries(self.nodes))
        &&& lists_distinct(entries(self.nodes))
        &&& forall|k: u64| #[trigger]
            self.awaited@.contains_key(k) ==> self.awaited@[k]@.no_duplicates()
    }

    /// Whether this is a ledger graph in a state that it can be in. Every
    /// operation of the library that is handed such a graph leaves such a
    /// graph behind.
    pub open spec fn wf(&self) -> bool {
        self.sane() && self@.wf()
    }

    /// An empty ledger graph that holds up to `capacity` vertices and evicts
    /// `free_size` of them at a time.
    pub fn with_capacity(capacity: usize, free_size: usize) -> (tangle: Self)
        ensures
            tangle@ == TangleView::empty(capacity, free_size),
            tangle.wf(),
    {
        let tangle = Self {
            capacity,
            free_size,
            counter: 0,
            nodes: table_new(),
            awaited: HashMap::new(),
            solid_entry_points: HashSet::new(),
            milestones: HashMap::new(),
            latest_milestone: None,
        };
        proof {
            assert(tangle@.vertices =~= Map::empty());
            assert(tangle@.order =~= Seq::empty());
            assert(tangle@.awaited =~= Map::empty());
            assert(tangle@.entry_points =~= Set::empty());
            assert(tangle@.milestones =~= Map::empty());
        }
        tangle
    }

    /// An empty ledger graph with the default capacity.
    pub fn new() -> (tangle: Self)
        ensures
            tangle@ == TangleView::empty(DEFAULT_TANGLE_CAPACITY, DEFAULT_FREE_SIZE),
            tangle.wf(),
    {
        Tangle::with_capacity(DEFAULT_TANGLE_CAPACITY, DEFAULT_FREE_SIZE)
    }

    /// The number of vertices in the store.
    pub fn size(&self) -> (n: usize)
        ensures
            n == self@.size(),
    {
        table_len(&self.nodes)
    }

    /// The number of vertices that the store may hold.
    pub fn capacity(&self) -> (n: usize)
        ensures
            n == self@.capacity,
    {
        self.capacity
    }

    /// The number of vertices that one pass of eviction takes out.
    pub fn free_size(&self) -> (n: usize)
        ensures
            n == self@.free_size,
    {
        self.free_size
    }

    /// Whether the store holds no vertex.
    pub fn is_empty(&self) -> (b: bool)
        ensures
            b == (self@.size() == 0),
    {
        table_len(&self.nodes) == 0
    }

    /// Whether the store holds as many vertices as it may.
    pub fn is_full(&self) -> (b: bool)
        ensures
            b == self@.is_full(),
    {
        table_len(&self.nodes) == self.capacity
    }

    /// Whether a vertex is stored at position `index`.
    pub fn contains_index(&self, index: usize) -> (b: bool)
        ensures
            b == (index < self@.size()),
    {
        index < table_len(&self.nodes)
    }

    /// Whether a vertex with identity `id` is in the store.
    pub fn contains(&self, id: TransactionId) -> (b: bool)
        ensures
            b == self@.has(id),
    {
        table_position(&self.nodes, id.0).is_some()
    }

    /// The position of the vertex `id` in the store.
    pub(crate) fn position(&self, id: TransactionId) -> (at: Option<usize>)
        requires
            self.sane(),
        ensures
            at is Some <==> self@.has(id),
            at matches Some(i) ==> i < self@.order.len() && self@.order[i as int] == id,
    {
        let at = table_position(&self.nodes, id.0);
        proof {
            if let Some(i) = at {
                lemma_slot(entries(self.nodes), i as int);
            }
        }
        at
    }

    /// The identity of the vertex at position `i`.
    pub(crate) fn id_at(&self, i: usize) -> (id: TransactionId)
        requires
            self.sane(),
            i < self@.order.len(),
        ensures
            id == self@.order[i as int],
            self@.has(id),
    {
        let (key, _) = table_entry(&self.nodes, i);
        proof {
            lemma_slot(entries(self.nodes), i as int);
        }
        TransactionId(key)
    }

    /// The vertex at position `i`.
    pub(crate) fn vertex_at(&self, i: usize) -> (v: &Vertex)
        requires
            self.sane(),
            i < self@.order.len(),
        ensures
            self@.has(self@.order[i as int]),
            v@ == self@.vertices[self@.order[i as int]],
            v.referrers@.no_duplicates(),
    {
        let (_, v) = table_entry(&self.nodes, i);
        proof {
            lemma_slot(entries(self.nodes), i as int);
        }
        v
    }

    /// The vertex at position `i`, to be changed in place.
    pub(crate) fn vertex_mut(&mut self, i: usize) -> (v: &mut Vertex)
        requires
            old(self).sane(),
            i < old(self)@.order.len(),
        ensures
            old(self)@.has(old(self)@.order[i as int]),
            v@ == old(self)@.vertices[old(self)@.order[i as int]],
            v.referrers@.no_duplicates(),
            final(self)@ == old(self)@.with_vertex(old(self)@.order[i as int], final(v)@),
            final(v).referrers@.no_duplicates() ==> final(self).sane(),
    {
        let ghost e = entries(self.nodes);
        let v = table_value_mut(&mut self.nodes, i);
        proof {
            lemma_slot(e, i as int);
            lemma_updated(e, i as int, *final(v));
            let f = e.update(i as int, (e[i as int].0, *final(v)));
            assert forall|j: int| 0 <= j < f.len() && final(v).referrers@.no_duplicates() implies (
            #[trigger] f[j]).1.referrers@.no_duplicates() by {
                if j != i {
                    assert(f[j] == e[j]);
                }
            }
        }
        v
    }

    /// Takes `v` in as the youngest vertex of the store.
    pub(crate) fn push_vertex(&mut self, v: Vertex)
        requires
            old(self).sane(),
            !old(self)@.has(v.id),
            v.referrers@.no_duplicates(),
        ensures
            final(self).sane(),
            final(self)@ == old(self)@.with_new_vertex(v@),
    {
        let ghost e = entries(self.nodes);
        let ghost key = v.id.0;
        let ghost w = v;
        let out = table_insert(&mut self.nodes, v.id.0, v);
        proof {
            if let Some(previous) = out.1 {
                assert(e[out.0 as int].0 == key);
                assert(holds_key(e, key));
            }
            lemma_pushed(e, key, w);
            let f = e.push((key, w));
            assert forall|j: int| 0 <= j < f.len() implies (#[trigger] f[j]).1.referrers@.no_duplicates() by {
                if j < e.len() {
                    assert(f[j] == e[j]);
                }
            }
        }
    }

    /// Takes the vertex at position `i` out of the store.
    pub(crate) fn take_vertex(&mut self, i: usize) -> (v: Vertex)
        requires
            old(self).sane(),
            i < old(self)@.order.len(),
        ensures
            final(self).sane(),
            v@ == old(self)@.vertices[old(self)@.order[i as int]],
            final(self)@ == old(self)@.with_vertex_removed(i as int),
    {
        let ghost e = entries(self.nodes);
        let out = table_remove(&mut self.nodes, i);
        proof {
            lemma_slot(e, i as int);
            lemma_removed(e, i as int);
            let f = e.remove(i as int);
            assert forall|j: int| 0 <= j < f.len() implies (#[trigger] f[j]).1.referrers@.no_duplicates() by {
                let j0 = if j < i {
                    j
                } else {
                    j + 1
                };
                assert(f[j] == e[j0]);
            }
        }
        out.1
    }

    /// Whether `id` is a solid entry point.
    pub(crate) fn is_entry_point(&self, id: TransactionId) -> (b: bool)
        ensures
            b == self@.entry_points.contains(id),
    {
        self.solid_entry_points.contains(&id.0)
    }

    /// Makes `id` a solid entry point.
    pub(crate) fn add_entry_point(&mut self, id: TransactionId)
        ensures
            old(self).sane() ==> final(self).sane(),
            final(self)@ == (TangleView {
                entry_points: old(self)@.entry_points.insert(id),
                ..old(self)@
            }),
    {
        self.solid_entry_points.insert(id.0);
        proof {
            assert(self@.entry_points =~= old(self)@.entry_points.insert(id)) by {
                assert forall|x: TransactionId|
                    self@.entry_points.contains(x) <==> old(self)@.entry_points.insert(
                        id,
                    ).contains(x) by {
                    if x.0 == id.0 {
                        assert(x == id);
                    }
                }
            }
        }
    }

    /// The stamp that vertices touched now get.
    pub(crate) fn stamp(&self) -> (stamp: u64)
        ensures
            stamp == self@.counter,
    {
        self.counter
    }

    /// Moves the counter past the stamp it has handed out.
    pub(crate) fn advance(&mut self)
        ensures
            old(self).sane() ==> final(self).sane(),
            final(self)@ == (TangleView {
                counter: next_stamp(old(self)@.counter),
                ..old(self)@
            }),
    {
        if self.counter < u64::MAX {
            self.counter = self.counter + 1;
        }
    }

    /// Takes the entry for `key` out of the pending index, and hands back the
    /// vertices it listed.
    pub(crate) fn awaited_take(&mut self, key: TransactionId) -> (list: Option<Vec<TransactionId>>)
        requires
            old(self).sane(),
        ensures
            final(self).sane(),
            final(self)@ == (TangleView {
                awaited: old(self)@.awaited.remove(key),
                ..old(self)@
            }),
            list is Some <==> old(self)@.awaited.contains_key(key),
            list matches Some(l) ==> l@.no_duplicates() && l@.to_set() == old(self)@.awaited[key],
    {
        let list = self.awaited.remove(&key.0);
        proof {
            assert(self@.awaited =~= old(self)@.awaited.remove(key)) by {
                assert forall|x: TransactionId|
                    self@.awaited.contains_key(x) <==> old(self)@.awaited.remove(key).contains_key(
                        x,
                    ) by {
                    if x.0 == key.0 {
                        assert(x == key);
                    }
                }
            }
        }
        list
    }

    /// Puts an entry for `key` into the pending index that lists the vertices
    /// of `list`.
    pub(crate) fn awaited_put(&mut self, key: TransactionId, list: Vec<TransactionId>)
        requires
            old(self).sane(),
            list@.no_duplicates(),
        ensures
            final(self).sane(),
            final(self)@ == (TangleView {
                awaited: old(self)@.awaited.insert(key, list@.to_set()),
                ..old(self)@
            }),
    {
        let ghost l = list@;
        self.awaited.insert(key.0, list);
        proof {
            assert(self@.awaited =~= old(self)@.awaited.insert(key, l.to_set())) by {
                assert forall|x: TransactionId|
                    self@.awaited.contains_key(x) <==> old(self)@.awaited.insert(
                        key,
                        l.to_set(),
                    ).contains_key(x) by {
                    if x.0 == key.0 {
                        assert(x == key);
                    }
                }
            }
        }
    }

    /// Records the milestone with content hash `hash` under `index`. An
    /// index is given once: where a milestone is recorded under `index`
    /// already, the new one is refused and nothing changes.
    pub fn insert_milestone(&mut self, index: MilestoneIndex, hash: TransactionHash) -> (r: Result<
        (),
    >)
        requires
            old(self).wf(),
        ensures
            final(self).wf(),
            match r {
                Ok(_) => {
                    &&& !old(self)@.milestones.contains_key(index)
                    &&& final(self)@ == (TangleView {
                        milestones: old(self)@.milestones.insert(index, hash.0@),
                        latest_milestone: match old(self)@.latest_milestone {
                            Some(top) => if top < index {
                                Some(index)
                            } else {
                                Some(top)
                            },
                            None => Some(index),
                        },
                        ..old(self)@
                    })
                },
                Err(e) => {
                    &&& old(self)@.milestones.contains_key(index)
                    &&& e == milestone_already_inserted()
                    &&& final(self)@ == old(self)@
                },
            },
    {
        if self.milestones.contains_key(&index) {
            return Err(
                TangleError::InsertionFailure { cause: FailureCause::MilestoneAlreadyInserted },
            );
        }
        let ghost g = self@;
        let ghost bytes = hash.0@;
        self.milestones.insert(index, hash);
        self.latest_milestone = match self.latest_milestone {
            Some(top) => if top < index {
                Some(index)
            } else {
                Some(top)
            },
            None => Some(index),
        };
        proof {
            assert(self@.milestones =~= g.milestones.insert(index, bytes));
            lemma_same_vertices_wf(g, self@);
            match g.latest_milestone {
                Some(top) => {},
                None => {
                    assert(g.milestones =~= Map::<MilestoneIndex, Seq<u8>>::empty());
                },
            }
        }
        Ok(())
    }

    /// The content hash of the milestone recorded under `index`.
    pub fn get_milestone(&self, index: MilestoneIndex) -> (found: Option<TransactionHash>)
        ensures
            match found {
                Some(hash) => self@.milestones.contains_key(index) && hash.0@
                    == self@.milestones[index],
                None => !self@.milestones.contains_key(index),
            },
    {
        match self.milestones.get(&index) {
            Some(hash) => Some(TransactionHash(copy_bytes(&hash.0))),
            None => None,
        }
    }

    /// The content hash of the milestone recorded under the highest index.
    pub fn get_latest_milestone(&self) -> (found: Option<TransactionHash>)
        requires
            self.wf(),
        ensures
            match self@.latest_milestone {
                Some(top) => found matches Some(hash) && hash.0@ == self@.milestones[top],
                None => found is None,
            },
            found is None <==> self@.milestones == Map::<MilestoneIndex, Seq<u8>>::empty(),
    {
        match self.latest_milestone {
            Some(top) => {
                proof {
                    assert(self@.milestones.contains_key(top));
                }
                self.get_milestone(top)
            },
            None => None,
        }
    }
}

/// A copy of `bytes`.
fn copy_bytes(bytes: &Vec<u8>) -> (copy: Vec<u8>)
    ensures
        copy@ == bytes@,
{
    let mut copy: Vec<u8> = Vec::new();
    let mut i: usize = 0;
    while i < bytes.len()
        invariant
            0 <= i <= bytes@.len(),
            copy@ == bytes@.take(i as int),
        decreases bytes@.len() - i,
    {
        copy.push(bytes[i]);
        proof {
            assert(bytes@.take(i as int).push(bytes@[i as int]) =~= bytes@.take(i + 1));
        }
        i = i + 1;
    }
    assert(bytes@.take(bytes@.len() as int) =~= bytes@);
    copy
}

} // verus!

//! The ledger graph as the contracts speak of it, and what holds of it.
use crate::edge::Edge;
use crate::id::TransactionId;
use crate::select::{reject, select};
use crate::vertex::{BundledTransaction, VertexView};
use vstd::prelude::*;

verus! {

/// The number under which a milestone is recorded.
pub type MilestoneIndex = u32;

/// The state of a ledger graph.
#[verifier::ext_equal]
pub struct TangleView {
    /// The vertices in the store, by identity.
    pub vertices: Map<TransactionId, VertexView>,
    /// The identities of the vertices in the store, oldest first.
    pub order: Seq<TransactionId>,
    /// For each identity that is referenced but not in the store, the
    /// vertices that wait for it.
    pub awaited: Map<TransactionId, Set<TransactionId>>,
    /// The identities that are solid by decree.
    pub entry_points: Set<TransactionId>,
    /// The hashes of the recorded milestones, by their index.
    pub milestones: Map<MilestoneIndex, Seq<u8>>,
    /// The highest index under which a milestone is recorded.
    pub latest_milestone: Option<MilestoneIndex>,
    /// The stamp that the next touched vertex gets.
    pub counter: u64,
    /// The number of vertices that the store may hold.
    pub capacity: usize,
    /// The number of vertices that one pass of eviction takes out.
    pub free_size: usize,
}

/// The counter after it has handed out the stamp `counter`. It stops at the
/// largest value it can hold.
pub open spec fn next_stamp(counter: u64) -> u64 {
    if counter < u64::MAX {
        (counter + 1) as u64
    } else {
        counter
    }
}

/// The pending index `awaited` with `waiter` listed under `key` as well.
pub open spec fn with_waiter(
    awaited: Map<TransactionId, Set<TransactionId>>,
    key: TransactionId,
    waiter: TransactionId,
) -> Map<TransactionId, Set<TransactionId>> {
    awaited.insert(
        key,
        if awaited.contains_key(key) {
            awaited[key].insert(waiter)
        } else {
            Set::empty().insert(waiter)
        },
    )
}

/// The pending index `awaited` with `waiter` listed under `key` as well, if
/// there is a key.
pub open spec fn with_waiter_if(
    awaited: Map<TransactionId, Set<TransactionId>>,
    key: Option<TransactionId>,
    waiter: TransactionId,
) -> Map<TransactionId, Set<TransactionId>> {
    match key {
        Some(k) => with_waiter(awaited, k, waiter),
        None => awaited,
    }
}

impl TangleView {
    /// An empty store with the given limits.
    pub open spec fn empty(capacity: usize, free_size: usize) -> TangleView {
        TangleView {
            vertices: Map::empty(),
            order: Seq::empty(),
            awaited: Map::empty(),
            entry_points: Set::empty(),
            milestones: Map::empty(),
            latest_milestone: None,
            counter: 0,
            capacity,
            free_size,
        }
    }

    /// Whether a vertex with identity `id` is in the store.
    pub open spec fn has(self, id: TransactionId) -> bool {
        self.vertices.contains_key(id)
    }

    /// The number of vertices in the store.
    pub open spec fn size(self) -> nat {
        self.order.len()
    }

    /// Whether the store holds as many vertices as it may.
    pub open spec fn is_full(self) -> bool {
        self.order.len() == self.capacity
    }

    /// This state with the vertex `id` set to `v`.
    pub open spec fn with_vertex(self, id: TransactionId, v: VertexView) -> TangleView {
        TangleView { vertices: self.vertices.insert(id, v), ..self }
    }

    /// This state with `v` added as the youngest vertex.
    pub open spec fn with_new_vertex(self, v: VertexView) -> TangleView {
        TangleView {
            vertices: self.vertices.insert(v.id, v),
            order: self.order.push(v.id),
            ..self
        }
    }

    /// This state with the vertex at position `i` taken out of the store and
    /// nothing else changed.
    pub open spec fn with_vertex_removed(self, i: int) -> TangleView {
        TangleView {
            vertices: self.vertices.remove(self.order[i]),
            order: self.order.remove(i),
            ..self
        }
    }

    /// Whether the vertex `id` is in the store and solid.
    pub open spec fn solid_at(self, id: TransactionId) -> bool {
        self.has(id) && self.vertices[id].solid
    }

    /// What makes a vertex solid: it is a solid entry point, or both its
    /// links are resolved and lead to solid vertices.
    pub open spec fn may_solidify(self, id: TransactionId) -> bool {
        ||| self.entry_points.contains(id)
        ||| {
            &&& self.vertices[id].trunk matches Edge::With { id: t }
            &&& self.vertices[id].branch matches Edge::With { id: b }
            &&& self.solid_at(t)
            &&& self.solid_at(b)
        }
    }

    /// Whether the vertex `id` is in the store and ought to be solid but is
    /// not marked so.
    pub open spec fn unsettled(self, id: TransactionId) -> bool {
        self.has(id) && self.may_solidify(id) && !self.vertices[id].solid
    }

    /// Whether the vertex `id` can be shown solid in at most `n` steps that
    /// start at solid entry points and go from both approvees to the
    /// approver. The marks on the vertices play no part in this.
    pub open spec fn grounded(self, id: TransactionId, n: nat) -> bool
        decreases n,
    {
        &&& n > 0
        &&& self.has(id)
        &&& {
            ||| self.entry_points.contains(id)
            ||| {
                &&& self.vertices[id].trunk matches Edge::With { id: t }
                &&& self.vertices[id].branch matches Edge::With { id: b }
                &&& self.grounded(t, (n - 1) as nat)
                &&& self.grounded(b, (n - 1) as nat)
            }
        }
    }

    /// Whether every link, every set of approvers and every pending
    /// reference of the vertex `id` agrees with the rest of the state.
    pub open spec fn vertex_ok(self, id: TransactionId) -> bool {
        let v = self.vertices[id];
        &&& v.id == id
        &&& self.order.contains(id)
        &&& v.approvers.finite()
        &&& match v.trunk {
            Edge::With { id: t } => self.has(t) && self.vertices[t].approvers.contains(id)
                && v.awaited_trunk is None,
            Edge::Unresolved => true,
        }
        &&& match v.branch {
            Edge::With { id: b } => self.has(b) && self.vertices[b].approvers.contains(id)
                && v.awaited_branch is None,
            Edge::Unresolved => true,
        }
        &&& match v.awaited_trunk {
            Some(k) => !self.has(k) && self.awaited.contains_key(k) && self.awaited[k].contains(
                id,
            ),
            None => true,
        }
        &&& match v.awaited_branch {
            Some(k) => !self.has(k) && self.awaited.contains_key(k) && self.awaited[k].contains(
                id,
            ),
            None => true,
        }
        &&& v.awaited_trunk is Some ==> v.trunk == Edge::Unresolved
        &&& v.awaited_branch is Some ==> v.branch == Edge::Unresolved
        &&& forall|a: TransactionId| #[trigger]
            v.approvers.contains(a) ==> self.has(a) && self.vertices[a].approves(id)
    }

    /// Whether the entry of the pending index for `key` agrees with the rest
    /// of the state: `key` is missing, and the entry lists vertices of the
    /// store that wait for it, at least one.
    pub open spec fn awaited_ok(self, key: TransactionId) -> bool {
        &&& !self.has(key)
        &&& self.awaited[key].finite()
        &&& self.awaited[key] != Set::<TransactionId>::empty()
        &&& forall|r: TransactionId| #[trigger]
            self.awaited[key].contains(r) ==> self.has(r) && self.vertices[r].awaits(key)
    }

    /// Whether the store, the links between its vertices and the pending
    /// index agree: each identity is stored once, the store is within its
    /// capacity, a resolved link leads to a stored vertex that lists the
    /// link's owner among its approvers, each approver is stored and holds
    /// such a link, and a vertex waits for an identity if and only if the
    /// pending index lists it under that identity, which is then missing.
    pub open spec fn linked(self) -> bool {
        &&& self.order.no_duplicates()
        &&& self.order.len() <= self.capacity
        &&& forall|id: TransactionId| #[trigger] self.order.contains(id) ==> self.has(id)
        &&& forall|id: TransactionId| #[trigger] self.vertices.contains_key(id) ==> self.vertex_ok(id)
        &&& forall|key: TransactionId| #[trigger]
            self.awaited.contains_key(key) ==> self.awaited_ok(key)
    }

    /// Whether every vertex that is marked solid can be shown solid from the
    /// solid entry points.
    pub open spec fn sound(self) -> bool {
        forall|id: TransactionId| #[trigger]
            self.solid_at(id) ==> exists|n: nat| self.grounded(id, n)
    }

    /// Whether every vertex of the store that ought to be solid is marked so.
    pub open spec fn settled(self) -> bool {
        forall|id: TransactionId| !#[trigger] self.unsettled(id)
    }

    /// Whether `other` is this state with some vertices marked differently
    /// and nothing else changed.
    pub open spec fn marks_only(self, other: TangleView) -> bool {
        &&& other.vertices.dom() == self.vertices.dom()
        &&& forall|id: TransactionId| #[trigger]
            self.vertices.contains_key(id) ==> other.vertices[id] == (VertexView {
                solid: other.vertices[id].solid,
                ..self.vertices[id]
            })
        &&& other.order == self.order
        &&& other.awaited == self.awaited
        &&& other.entry_points == self.entry_points
        &&& other.milestones == self.milestones
        &&& other.latest_milestone == self.latest_milestone
        &&& other.counter == self.counter
        &&& other.capacity == self.capacity
        &&& other.free_size == self.free_size
    }

    /// The vertices of the store that are not marked solid.
    pub open spec fn unmarked(self) -> Set<TransactionId> {
        Set::new(|id: TransactionId| self.order.contains(id) && !self.vertices[id].solid)
    }

    /// This state with each vertex marked solid exactly if it can be shown
    /// solid from the solid entry points.
    pub open spec fn settle(self) -> TangleView {
        TangleView {
            vertices: Map::new(
                |id: TransactionId| self.vertices.contains_key(id),
                |id: TransactionId|
                    VertexView {
                        solid: exists|n: nat| self.grounded(id, n),
                        ..self.vertices[id]
                    },
            ),
            ..self
        }
    }

    /// Whether a new vertex `id` that names `target` as an approvee finds it:
    /// the target is in the store, or is the new vertex itself.
    pub open spec fn reaches(self, id: TransactionId, target: Option<TransactionId>) -> bool {
        target matches Some(t) && (t == id || self.has(t))
    }

    /// The link that a new vertex `id` gets for the approvee `target`.
    pub open spec fn link_for(self, id: TransactionId, target: Option<TransactionId>) -> Edge {
        if self.reaches(id, target) {
            Edge::With { id: target->0 }
        } else {
            Edge::Unresolved
        }
    }

    /// The identity that a new vertex `id` has to wait for, for the approvee
    /// `target`.
    pub open spec fn wait_for(self, id: TransactionId, target: Option<TransactionId>) -> Option<
        TransactionId,
    > {
        if target is Some && !self.reaches(id, target) {
            target
        } else {
            None
        }
    }

    /// The vertex that the store holds for `id` right after `id` has arrived
    /// with the approvees `trunk` and `branch`: its links lead to the
    /// approvees that are there, it waits for the others, and the vertices
    /// that waited for `id` approve it.
    pub open spec fn arrival(
        self,
        id: TransactionId,
        trunk: Option<TransactionId>,
        branch: Option<TransactionId>,
        bundle: Option<BundledTransaction>,
    ) -> VertexView {
        let waiting = if self.awaited.contains_key(id) {
            self.awaited[id]
        } else {
            Set::empty()
        };
        VertexView {
            id,
            trunk: self.link_for(id, trunk),
            branch: self.link_for(id, branch),
            approvers: if trunk == Some(id) || branch == Some(id) {
                waiting.insert(id)
            } else {
                waiting
            },
            solid: false,
            last_access: self.counter,
            bundle,
            awaited_trunk: self.wait_for(id, trunk),
            awaited_branch: self.wait_for(id, branch),
        }
    }

    /// The vertex `x` of the store after `id` has arrived with the approvees
    /// `trunk` and `branch`: what waited for `id` is resolved, and an
    /// approvee of `id` has `id` among its approvers and is touched.
    pub open spec fn after_arrival(
        self,
        x: TransactionId,
        id: TransactionId,
        trunk: Option<TransactionId>,
        branch: Option<TransactionId>,
    ) -> VertexView {
        let v = self.vertices[x].resolved(id);
        if trunk == Some(x) || branch == Some(x) {
            v.approved_by(id, self.counter)
        } else {
            v
        }
    }

    /// The state after the record `id` with the approvees `trunk` and
    /// `branch` has been taken in, before the marks are brought up to date.
    pub open spec fn inserted(
        self,
        id: TransactionId,
        trunk: Option<TransactionId>,
        branch: Option<TransactionId>,
        bundle: Option<BundledTransaction>,
    ) -> TangleView {
        TangleView {
            vertices: Map::new(
                |x: TransactionId| x == id || self.has(x),
                |x: TransactionId|
                    if x == id {
                        self.arrival(id, trunk, branch, bundle)
                    } else {
                        self.after_arrival(x, id, trunk, branch)
                    },
            ),
            order: self.order.push(id),
            awaited: with_waiter_if(
                with_waiter_if(self.awaited.remove(id), self.wait_for(id, trunk), id),
                self.wait_for(id, branch),
                id,
            ),
            counter: next_stamp(self.counter),
            ..self
        }
    }

    /// Whether the vertex `id` may be evicted: it is in the store, no vertex
    /// approves it, and it is no solid entry point.
    pub open spec fn evictable(self, id: TransactionId) -> bool {
        &&& self.has(id)
        &&& self.vertices[id].approvers == Set::<TransactionId>::empty()
        &&& !self.entry_points.contains(id)
    }

    /// The vertices that may be evicted, oldest first.
    pub open spec fn candidates(self) -> Seq<TransactionId> {
        select(self.order, Set::new(|id: TransactionId| self.evictable(id)))
    }

    /// Whether a pass of eviction takes anything out: it does where it is to
    /// take out at least one vertex and finds as many as it is to take out.
    pub open spec fn can_evict(self) -> bool {
        self.free_size > 0 && self.candidates().len() >= self.free_size
    }

    /// Whether eviction prefers `a` to `b`: `a` was touched earlier, or at
    /// the same stamp and is older.
    pub open spec fn ranks_before(self, a: TransactionId, b: TransactionId) -> bool {
        ||| self.vertices[a].last_access < self.vertices[b].last_access
        ||| self.vertices[a].last_access == self.vertices[b].last_access && self.order.index_of(a)
            < self.order.index_of(b)
    }

    /// Whether `batch` is what one pass of eviction takes out: as many
    /// vertices as a pass takes, all of which may be evicted, in the order
    /// in which eviction prefers them, and preferred to every other vertex
    /// that may be evicted.
    pub open spec fn is_batch(self, batch: Seq<TransactionId>) -> bool {
        &&& batch.len() == self.free_size
        &&& batch.no_duplicates()
        &&& forall|i: int| 0 <= i < batch.len() ==> self.evictable(#[trigger] batch[i])
        &&& forall|i: int, j: int|
            0 <= i < j < batch.len() ==> self.ranks_before(#[trigger] batch[i], #[trigger] batch[j])
        &&& forall|i: int, c: TransactionId|
            0 <= i < batch.len() && #[trigger] self.evictable(c) && !batch.contains(c)
                ==> self.ranks_before(#[trigger] batch[i], c)
    }

    /// This state with the vertices of `gone` taken out of the store, out of
    /// the approvers of every vertex and out of the pending index. An entry
    /// of the pending index that listed no other vertex goes with them.
    pub open spec fn without(self, gone: Set<TransactionId>) -> TangleView {
        TangleView {
            vertices: Map::new(
                |x: TransactionId| self.has(x) && !gone.contains(x),
                |x: TransactionId| self.vertices[x].without(gone),
            ),
            order: reject(self.order, gone),
            awaited: Map::new(
                |k: TransactionId|
                    self.awaited.contains_key(k) && !self.awaited[k].subset_of(gone),
                |k: TransactionId| self.awaited[k].difference(gone),
            ),
            ..self
        }
    }

    /// Whether `batch` is what is evicted before a record is taken in: one
    /// pass of eviction where the store is full, and nothing where it is
    /// not.
    pub open spec fn makes_room(self, batch: Seq<TransactionId>) -> bool {
        if self.is_full() {
            self.is_batch(batch)
        } else {
            batch == Seq::<TransactionId>::empty()
        }
    }

    /// Whether a record that is not in the store yet can be taken in: the
    /// store has room, or eviction makes room.
    pub open spec fn admits(self) -> bool {
        !self.is_full() || self.can_evict()
    }

    /// The state after `batch` has been evicted, the record `id` with the
    /// approvees `trunk` and `branch` has been taken in, and the marks have
    /// been brought up to date.
    pub open spec fn admitted(
        self,
        batch: Seq<TransactionId>,
        id: TransactionId,
        trunk: Option<TransactionId>,
        branch: Option<TransactionId>,
        bundle: Option<BundledTransaction>,
    ) -> TangleView {
        self.without(batch.to_set()).inserted(id, trunk, branch, bundle).settle()
    }

    /// Whether the vertex `id` is a tip: it is in the store and no vertex
    /// approves it.
    pub open spec fn is_tip(self, id: TransactionId) -> bool {
        self.has(id) && self.vertices[id].approvers == Set::<TransactionId>::empty()
    }

    /// The tips, oldest first.
    pub open spec fn tips(self) -> Seq<TransactionId> {
        select(self.order, Set::new(|id: TransactionId| self.is_tip(id)))
    }

    /// Whether `a` and `b` are next to each other: one of them is in the
    /// store and has a link that leads to the other.
    pub open spec fn adjacent(self, a: TransactionId, b: TransactionId) -> bool {
        ||| self.has(a) && self.vertices[a].approves(b)
        ||| self.has(b) && self.vertices[b].approves(a)
    }

    /// This state after the vertex `id` has been looked up: the vertex
    /// carries the stamp of the lookup, and the counter has moved on.
    pub open spec fn touched(self, id: TransactionId) -> TangleView {
        TangleView {
            vertices: self.vertices.insert(
                id,
                VertexView { last_access: self.counter, ..self.vertices[id] },
            ),
            counter: next_stamp(self.counter),
            ..self
        }
    }

    /// Whether `other` is this state with other stamps and other notes on
    /// the vertices, another counter, and nothing else changed.
    pub open spec fn same_graph(self, other: TangleView) -> bool {
        &&& other.vertices.dom() == self.vertices.dom()
        &&& forall|id: TransactionId| #[trigger]
            self.vertices.contains_key(id) ==> other.vertices[id] == (VertexView {
                last_access: other.vertices[id].last_access,
                bundle: other.vertices[id].bundle,
                ..self.vertices[id]
            })
        &&& other.order == self.order
        &&& other.awaited == self.awaited
        &&& other.entry_points == self.entry_points
        &&& other.milestones == self.milestones
        &&& other.latest_milestone == self.latest_milestone
        &&& other.capacity == self.capacity
        &&& other.free_size == self.free_size
    }

    /// Whether the link of `node` on the given side can be set by hand to
    /// lead to `target`: both are in the store, and the link is neither
    /// resolved nor waiting for a record.
    pub open spec fn can_link(self, node: TransactionId, target: TransactionId, trunk: bool) -> bool {
        &&& self.has(node)
        &&& self.has(target)
        &&& if trunk {
            self.vertices[node].trunk == Edge::Unresolved && self.vertices[node].awaited_trunk is None
        } else {
            self.vertices[node].branch == Edge::Unresolved
                && self.vertices[node].awaited_branch is None
        }
    }

    /// The state after the link of `node` on the given side has been set to
    /// lead to `target`, before the marks are brought up to date: `target`
    /// has `node` among its approvers and is touched.
    pub open spec fn with_link(self, node: TransactionId, target: TransactionId, trunk: bool) -> TangleView {
        let owner = if trunk {
            VertexView { trunk: Edge::With { id: target }, ..self.vertices[node] }
        } else {
            VertexView { branch: Edge::With { id: target }, ..self.vertices[node] }
        };
        let first = self.vertices.insert(node, owner);
        TangleView {
            vertices: first.insert(target, first[target].approved_by(node, self.counter)),
            counter: next_stamp(self.counter),
            ..self
        }
    }

    /// This state with `id` made a solid entry point, before the marks are
    /// brought up to date.
    pub open spec fn with_entry_point(self, id: TransactionId) -> TangleView {
        TangleView { entry_points: self.entry_points.insert(id), ..self }
    }

    /// Where the bundle walk gets from the vertex `at` in one hop: to the
    /// vertex that the trunk link of `at` leads to, provided that vertex
    /// says it is a member of the bundle `key` whose head has index `last`,
    /// and that its own index is `index`.
    pub open spec fn bundle_hop(
        self,
        at: TransactionId,
        key: u64,
        last: usize,
        index: int,
    ) -> Option<TransactionId> {
        match self.vertices[at].trunk {
            Edge::With { id: t } => match self.vertices[t].bundle {
                Some(b) => if b.bundle_hash == key && b.last == last && b.index == index {
                    Some(t)
                } else {
                    None
                },
                None => None,
            },
            Edge::Unresolved => None,
        }
    }

    /// Where the bundle walk from the tail `tail` of the bundle `key` stands
    /// after `hops` hops, if it got that far: the vertex reached by the
    /// `n`-th hop has to have index `n`.
    pub open spec fn bundle_walk(
        self,
        tail: TransactionId,
        key: u64,
        last: usize,
        hops: nat,
    ) -> Option<TransactionId>
        decreases hops,
    {
        if hops == 0 {
            Some(tail)
        } else {
            match self.bundle_walk(tail, key, last, (hops - 1) as nat) {
                Some(at) => self.bundle_hop(at, key, last, hops as int),
                None => None,
            }
        }
    }

    /// The head of the bundle whose tail is `tail`, if the chain of trunk
    /// links from the tail to the head is there and sound.
    pub open spec fn bundle_head(self, tail: TransactionId) -> Option<TransactionId> {
        let note = self.vertices[tail].bundle->0;
        self.bundle_walk(tail, note.bundle_hash, note.last, note.last as nat)
    }

    /// Whether `tail` is in the store and says it is the tail of a bundle.
    pub open spec fn is_tail(self, tail: TransactionId) -> bool {
        &&& self.has(tail)
        &&& self.vertices[tail].bundle matches Some(note)
        &&& note.index == 0
    }

    /// Whether `other` has the same vertices with the same links, approvers,
    /// pending references and notes, the same pending index and the same
    /// solid entry points. Stamps, marks and the order of the store may
    /// differ.
    pub open spec fn same_links(self, other: TangleView) -> bool {
        &&& other.vertices.dom() == self.vertices.dom()
        &&& forall|id: TransactionId| #[trigger]
            self.vertices.contains_key(id) ==> other.vertices[id] == (VertexView {
                last_access: other.vertices[id].last_access,
                solid: other.vertices[id].solid,
                ..self.vertices[id]
            })
        &&& other.awaited == self.awaited
        &&& other.entry_points == self.entry_points
    }

    /// Whether the milestone table and the note of its highest index agree.
    pub open spec fn milestones_ok(self) -> bool {
        match self.latest_milestone {
            Some(top) => self.milestones.contains_key(top) && forall|i: MilestoneIndex| #[trigger]
                self.milestones.contains_key(i) ==> i <= top,
            None => self.milestones == Map::<MilestoneIndex, Seq<u8>>::empty(),
        }
    }

    /// Whether this is a state that a ledger graph can be in.
    pub open spec fn wf(self) -> bool {
        &&& self.linked()
        &&& self.sound()
        &&& self.settled()
        &&& self.milestones_ok()
    }
}

} // verus!

//! Reading the ledger graph: links, approvers, tips, and single vertices.
use crate::edge::Edge;
use crate::error::{vertex_missing, FailureCause, TangleError};
use crate::id::TransactionId;
use crate::list::list_copy;
use crate::model::TangleView;
use crate::neighbors::{listed, ApproveeList, Approvees, Neighbors};
use crate::select::{lemma_select_push, select};
use crate::solidity::{keeps_past, lemma_sound_carries};
use crate::tangle::{Result, Tangle};
use crate::vertex::{BundledTransaction, Vertex, VertexView};
use vstd::prelude::*;

verus! {

/// Other stamps and other notes on the vertices leave a ledger graph in a
/// state that it can be in.
pub proof fn lemma_same_graph_wf(g: TangleView, h: TangleView)
    requires
        g.same_graph(h),
        g.wf(),
    ensures
        h.wf(),
{
    assert forall|id: TransactionId| h.vertices.contains_key(id) <==> g.vertices.contains_key(
        id,
    ) by {
        assert(h.vertices.dom().contains(id) <==> g.vertices.dom().contains(id));
    }
    assert forall|id: TransactionId| #[trigger] h.vertices.contains_key(id) implies h.vertex_ok(
        id,
    ) by {
        assert(g.vertex_ok(id));
        let v = g.vertices[id];
        assert forall|a: TransactionId| #[trigger]
            h.vertices[id].approvers.contains(a) implies h.has(a) && h.vertices[a].approves(id) by {
            assert(v.approvers.contains(a));
            assert(g.vertices.contains_key(a));
        }
        match v.trunk {
            Edge::With { id: t } => {
                assert(g.vertices.contains_key(t));
            },
            Edge::Unresolved => {},
        }
        match v.branch {
            Edge::With { id: b } => {
                assert(g.vertices.contains_key(b));
            },
            Edge::Unresolved => {},
        }
    }
    assert forall|key: TransactionId| #[trigger] h.awaited.contains_key(key) implies h.awaited_ok(
        key,
    ) by {
        assert(g.awaited_ok(key));
        assert forall|r: TransactionId| #[trigger] h.awaited[key].contains(r) implies h.has(r)
            && h.vertices[r].awaits(key) by {
            assert(g.vertices.contains_key(r));
        }
    }
    assert forall|id: TransactionId| #[trigger] h.order.contains(id) implies h.has(id) by {
        assert(g.order.contains(id));
    }
    assert(keeps_past(g, h));
    assert forall|id: TransactionId| #[trigger] h.solid_at(id) implies g.solid_at(id) by {
        assert(g.vertices.contains_key(id));
    }
    lemma_sound_carries(g, h);
    assert forall|id: TransactionId| !#[trigger] h.unsettled(id) by {
        if h.has(id) {
            assert(g.vertices.contains_key(id));
            assert(!g.unsettled(id));
            match g.vertices[id].trunk {
                Edge::With { id: t } => {
                    if h.solid_at(t) {
                        assert(g.vertices.contains_key(t));
                    }
                },
                Edge::Unresolved => {},
            }
            match g.vertices[id].branch {
                Edge::With { id: b } => {
                    if h.solid_at(b) {
                        assert(g.vertices.contains_key(b));
                    }
                },
                Edge::Unresolved => {},
            }
        }
    }
}

fn edge_target(edge: Edge) -> (t: Option<TransactionId>)
    ensures
        t == edge.target(),
{
    match edge {
        Edge::With { id } => Some(id),
        Edge::Unresolved => None,
    }
}

impl Tangle {
    /// The vertex that the trunk link of `id` leads to, if that link is
    /// resolved. Fails where `id` is not in the store.
    pub fn get_trunk(&self, id: TransactionId) -> (r: Result<Option<TransactionId>>)
        requires
            self.wf(),
        ensures
            match r {
                Ok(t) => self@.has(id) && t == self@.vertices[id].trunk.target(),
                Err(e) => !self@.has(id) && e == vertex_missing(id),
            },
    {
        match self.position(id) {
            Some(p) => Ok(edge_target(self.vertex_at(p).trunk)),
            None => Err(
                TangleError::RetreiveFailure { cause: FailureCause::VertexDoesNotExist { id } },
            ),
        }
    }

    /// The vertex that the branch link of `id` leads to, if that link is
    /// resolved. Fails where `id` is not in the store.
    pub fn get_branch(&self, id: TransactionId) -> (r: Result<Option<TransactionId>>)
        requires
            self.wf(),
        ensures
            match r {
                Ok(b) => self@.has(id) && b == self@.vertices[id].branch.target(),
                Err(e) => !self@.has(id) && e == vertex_missing(id),
            },
    {
        match self.position(id) {
            Some(p) => Ok(edge_target(self.vertex_at(p).branch)),
            None => Err(
                TangleError::RetreiveFailure { cause: FailureCause::VertexDoesNotExist { id } },
            ),
        }
    }

    /// The approvees of `id`: what its resolved links lead to, the trunk
    /// before the branch. Fails where `id` is not in the store.
    pub fn get_approvees(&self, id: TransactionId) -> (r: Result<ApproveeList>)
        requires
            self.wf(),
        ensures
            match r {
                Ok(list) => self@.has(id) && listed(list) == Approvees::of(
                    self@.vertices[id].trunk,
                    self@.vertices[id].branch,
                ).row(),
                Err(e) => !self@.has(id) && e == vertex_missing(id),
            },
    {
        match self.position(id) {
            Some(p) => {
                let v = self.vertex_at(p);
                Ok(Approvees::from_edges(v.trunk, v.branch).collect())
            },
            None => Err(
                TangleError::RetreiveFailure { cause: FailureCause::VertexDoesNotExist { id } },
            ),
        }
    }

    /// The vertices that approve `id`, each of them once. Fails where `id`
    /// is not in the store.
    pub fn get_approvers(&self, id: TransactionId) -> (r: Result<Vec<TransactionId>>)
        requires
            self.wf(),
        ensures
            match r {
                Ok(list) => {
                    &&& self@.has(id)
                    &&& list@.no_duplicates()
                    &&& list@.to_set() == self@.vertices[id].approvers
                    &&& list@.len() == self@.vertices[id].approvers.len()
                },
                Err(e) => !self@.has(id) && e == vertex_missing(id),
            },
    {
        match self.position(id) {
            Some(p) => {
                let v = self.vertex_at(p);
                proof {
                    v.referrers@.unique_seq_to_set();
                }
                Ok(list_copy(&v.referrers))
            },
            None => Err(
                TangleError::RetreiveFailure { cause: FailureCause::VertexDoesNotExist { id } },
            ),
        }
    }

    /// Whether `a` and `b` are next to each other: one of them has a link
    /// that leads to the other.
    pub fn has_edge(&self, a: TransactionId, b: TransactionId) -> (found: bool)
        requires
            self.wf(),
        ensures
            found == self@.adjacent(a, b),
    {
        let a_approvees = match self.get_approvees(a) {
            Ok(list) => list,
            Err(_) => Approvees::Neither.collect(),
        };
        let b_approvees = match self.get_approvees(b) {
            Ok(list) => list,
            Err(_) => Approvees::Neither.collect(),
        };
        proof {
            if self@.has(a) {
                let v = self@.vertices[a];
                let row = Approvees::of(v.trunk, v.branch).row();
                assert(row.contains(b) <==> v.approves(b)) by {
                    if v.approves(b) {
                        if v.trunk.leads_to(b) {
                            assert(row[0] == b);
                        } else {
                            assert(row[row.len() - 1] == b);
                        }
                    }
                }
            }
            if self@.has(b) {
                let v = self@.vertices[b];
                let row = Approvees::of(v.trunk, v.branch).row();
                assert(row.contains(a) <==> v.approves(a)) by {
                    if v.approves(a) {
                        if v.trunk.leads_to(a) {
                            assert(row[0] == a);
                        } else {
                            assert(row[row.len() - 1] == a);
                        }
                    }
                }
            }
        }
        if a_approvees.len() == 0 && b_approvees.len() == 0 {
            false
        } else {
            a_approvees.contains(b) || b_approvees.contains(a)
        }
    }

    /// The tips: the vertices that nobody approves, oldest first.
    pub fn tips(&self) -> (tips: Vec<TransactionId>)
        requires
            self.wf(),
        ensures
            tips@ == self@.tips(),
    {
        let ghost g = self@;
        let ghost of = Set::new(|id: TransactionId| g.is_tip(id));
        let mut tips: Vec<TransactionId> = Vec::new();
        let n = self.size();
        let mut i: usize = 0;
        proof {
            assert(g.order.take(0) =~= Seq::<TransactionId>::empty());
        }
        while i < n
            invariant
                0 <= i <= n,
                n == g.order.len(),
                self@ == g,
                self.wf(),
                of == Set::new(|id: TransactionId| g.is_tip(id)),
                tips@ == select(g.order.take(i as int), of),
            decreases n - i,
        {
            let v = self.vertex_at(i);
            proof {
                assert(g.vertices.contains_key(g.order[i as int]));
                assert(g.vertex_ok(g.order[i as int]));
                assert(g.order.take(i + 1) =~= g.order.take(i as int).push(g.order[i as int]));
                lemma_select_push(g.order.take(i as int), g.order[i as int], of);
            }
            if !v.has_referrers() {
                tips.push(v.id);
            }
            i = i + 1;
        }
        proof {
            assert(g.order.take(n as int) =~= g.order);
        }
        tips
    }

    /// Looks the vertex `id` up and hands back a copy of it. The lookup
    /// touches the vertex: it gets the current stamp, and the counter moves
    /// on. The copy shows the vertex as it is after that.
    pub fn get(&mut self, id: TransactionId) -> (found: Option<Vertex>)
        requires
            old(self).wf(),
        ensures
            final(self).wf(),
            match found {
                Some(v) => {
                    &&& old(self)@.has(id)
                    &&& final(self)@ == old(self)@.touched(id)
                    &&& v@ == final(self)@.vertices[id]
                    &&& v.referrers@.no_duplicates()
                },
                None => !old(self)@.has(id) && final(self)@ == old(self)@,
            },
    {
        match self.position(id) {
            Some(p) => {
                let stamp = self.stamp();
                let v = self.vertex_mut(p);
                v.last_access = stamp;
                let copy = Vertex {
                    id: v.id,
                    trunk: v.trunk,
                    branch: v.branch,
                    referrers: list_copy(&v.referrers),
                    solid: v.solid,
                    last_access: v.last_access,
                    bundle: v.bundle,
                    awaited_trunk: v.awaited_trunk,
                    awaited_branch: v.awaited_branch,
                };
                self.advance();
                proof {
                    assert(self@ == old(self)@.touched(id));
                    assert(old(self)@.same_graph(self@)) by {
                        assert(self@.vertices.dom() =~= old(self)@.vertices.dom());
                    }
                    lemma_same_graph_wf(old(self)@, self@);
                }
                Some(copy)
            },
            None => None,
        }
    }

    /// The vertex at position `index`, if the store holds that many.
    pub fn get_node(&self, index: usize) -> (found: Option<&Vertex>)
        requires
            self.wf(),
        ensures
            match found {
                Some(v) => {
                    &&& index < self@.size()
                    &&& v@ == self@.vertices[self@.order[index as int]]
                    &&& v.referrers@.no_duplicates()
                },
                None => index >= self@.size(),
            },
    {
        if index < self.size() {
            Some(self.vertex_at(index))
        } else {
            None
        }
    }

    /// The neighbourhood of the vertex at position `index`, if the store
    /// holds that many: its approvees and its approvers, each of them once.
    pub fn get_neighbors(&self, index: usize) -> (found: Option<Neighbors>)
        requires
            self.wf(),
        ensures
            match found {
                Some(n) => {
                    &&& index < self@.size()
                    &&& n.approvees == Approvees::of(
                        self@.vertices[self@.order[index as int]].trunk,
                        self@.vertices[self@.order[index as int]].branch,
                    )
                    &&& n.approvers@.no_duplicates()
                    &&& n.approvers@.to_set() == self@.vertices[self@.order[index as int]].approvers
                },
                None => index >= self@.size(),
            },
    {
        if index < self.size() {
            let v = self.vertex_at(index);
            Some(
                Neighbors {
                    approvees: Approvees::from_edges(v.trunk, v.branch),
                    approvers: list_copy(&v.referrers),
                },
            )
        } else {
            None
        }
    }

    /// The note on the place in a bundle of the vertex at position `index`,
    /// to be changed in place, if the store holds that many vertices.
    /// Nothing of the ledger graph depends on the note but the bundle walk.
    pub fn get_node_mut(&mut self, index: usize) -> (found: Option<&mut Option<BundledTransaction>>)
        requires
            old(self).wf(),
        ensures
            final(self).wf(),
            match found {
                Some(note) => {
                    &&& index < old(self)@.size()
                    &&& *note == old(self)@.vertices[old(self)@.order[index as int]].bundle
                    &&& final(self)@ == old(self)@.with_vertex(
                        old(self)@.order[index as int],
                        VertexView {
                            bundle: *final(note),
                            ..old(self)@.vertices[old(self)@.order[index as int]]
                        },
                    )
                },
                None => index >= old(self)@.size() && final(self)@ == old(self)@,
            },
    {
        if index < self.size() {
            let ghost g = self@;
            let ghost id = g.order[index as int];
            let v = self.vertex_mut(index);
            let note = &mut v.bundle;
            proof {
                let h = g.with_vertex(id, VertexView { bundle: *final(note), ..g.vertices[id] });
                assert(g.same_graph(h)) by {
                    assert(h.vertices.dom() =~= g.vertices.dom());
                }
                lemma_same_graph_wf(g, h);
            }
            Some(note)
        } else {
            None
        }
    }
}

} // verus!

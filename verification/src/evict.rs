//! Eviction: taking vertices out of a full store.
//!
//! Only a vertex that nobody approves and that is no solid entry point may
//! go, so that no link ever dangles and no mark ever has to be withdrawn.
use crate::edge::Edge;
use crate::id::TransactionId;
use crate::list::list_remove;
use crate::model::TangleView;
use crate::select::{
    lemma_index_of, lemma_reject_none, lemma_reject_one, lemma_reject_twice, lemma_select_members,
    lemma_select_push, select,
};
use crate::solidity::{keeps_past, lemma_sound_carries};
use crate::tangle::Tangle;
use crate::vertex::Vertex;
use vstd::prelude::*;

verus! {

/// Taking vertices out that nobody approves keeps the store, the links and
/// the pending index in agreement, and the marks sound and up to date.
pub proof fn lemma_without_wf(g: TangleView, gone: Set<TransactionId>)
    requires
        g.linked(),
        forall|x: TransactionId|
            gone.contains(x) && g.has(x) ==> #[trigger] g.vertices[x].approvers == Set::<
                TransactionId,
            >::empty(),
    ensures
        g.without(gone).linked(),
        keeps_past(g, g.without(gone)),
        g.sound() ==> g.without(gone).sound(),
        g.settled() ==> g.without(gone).settled(),
        g.milestones_ok() ==> g.without(gone).milestones_ok(),
{
    let h = g.without(gone);
    lemma_select_members(g.order, gone.complement());
    assert(h.order.len() <= g.capacity);
    assert forall|x: TransactionId| #[trigger] h.order.contains(x) implies h.has(x) by {
        assert(g.order.contains(x));
    }
    assert forall|x: TransactionId| #[trigger] h.vertices.contains_key(x) implies h.vertex_ok(
        x,
    ) by {
        assert(g.has(x));
        assert(g.vertex_ok(x));
        let gv = g.vertices[x];
        assert(h.order.contains(x));
        match gv.trunk {
            Edge::With { id: t } => {
                assert(g.vertices[t].approvers.contains(x));
                assert(!gone.contains(t));
            },
            Edge::Unresolved => {},
        }
        match gv.branch {
            Edge::With { id: b } => {
                assert(g.vertices[b].approvers.contains(x));
                assert(!gone.contains(b));
            },
            Edge::Unresolved => {},
        }
        match gv.awaited_trunk {
            Some(k) => {
                assert(g.awaited[k].contains(x));
            },
            None => {},
        }
        match gv.awaited_branch {
            Some(k) => {
                assert(g.awaited[k].contains(x));
            },
            None => {},
        }
        assert forall|a: TransactionId| #[trigger]
            h.vertices[x].approvers.contains(a) implies h.has(a) && h.vertices[a].approves(x) by {
            assert(gv.approvers.contains(a));
        }
    }
    assert forall|key: TransactionId| #[trigger] h.awaited.contains_key(key) implies h.awaited_ok(
        key,
    ) by {
        assert(g.awaited_ok(key));
        let w = choose|w: TransactionId| g.awaited[key].contains(w) && !gone.contains(w);
        assert(h.awaited[key].contains(w));
        assert forall|r: TransactionId| #[trigger] h.awaited[key].contains(r) implies h.has(r)
            && h.vertices[r].awaits(key) by {
            assert(g.awaited[key].contains(r));
        }
    }
    assert forall|x: TransactionId|
        #![trigger h.vertices.contains_key(x)]
        g.has(x) && h.has(x) implies {
        &&& g.vertices[x].trunk matches Edge::With { id: t } ==> h.vertices[x].trunk
            == g.vertices[x].trunk && (g.has(t) ==> h.has(t))
        &&& g.vertices[x].branch matches Edge::With { id: b } ==> h.vertices[x].branch
            == g.vertices[x].branch && (g.has(b) ==> h.has(b))
    } by {
        assert(g.vertex_ok(x));
        match g.vertices[x].trunk {
            Edge::With { id: t } => {
                assert(g.vertices[t].approvers.contains(x));
            },
            Edge::Unresolved => {},
        }
        match g.vertices[x].branch {
            Edge::With { id: b } => {
                assert(g.vertices[b].approvers.contains(x));
            },
            Edge::Unresolved => {},
        }
    }
    if g.sound() {
        lemma_sound_carries(g, h);
    }
    if g.settled() {
        assert forall|x: TransactionId| !#[trigger] h.unsettled(x) by {
            assert(!g.unsettled(x));
        }
    }
}

/// Taking out one more vertex after some others is taking them out together.
pub proof fn lemma_without_twice(g: TangleView, gone: Set<TransactionId>, x: TransactionId)
    ensures
        g.without(gone).without(Set::empty().insert(x)) == g.without(gone.insert(x)),
{
    let one = Set::<TransactionId>::empty().insert(x);
    let a = g.without(gone).without(one);
    let b = g.without(gone.insert(x));
    lemma_reject_twice(g.order, gone, x);
    assert(a.vertices =~= b.vertices) by {
        assert forall|y: TransactionId| #[trigger] a.vertices.contains_key(y) implies a.vertices[y]
            == b.vertices[y] by {
            assert(g.vertices[y].approvers.difference(gone).difference(one)
                =~= g.vertices[y].approvers.difference(gone.insert(x)));
        }
    }
    assert(a.awaited =~= b.awaited) by {
        assert forall|k: TransactionId|
            a.awaited.contains_key(k) <==> b.awaited.contains_key(k) by {
            if g.awaited.contains_key(k) {
                let s = g.awaited[k];
                if !s.subset_of(gone.insert(x)) {
                    let w = choose|w: TransactionId| s.contains(w) && !gone.insert(x).contains(w);
                    assert(s.difference(gone).contains(w));
                    assert(!s.subset_of(gone));
                    assert(!s.difference(gone).subset_of(one));
                }
                if !s.subset_of(gone) && !s.difference(gone).subset_of(one) {
                    let w = choose|w: TransactionId|
                        s.difference(gone).contains(w) && !one.contains(w);
                    assert(s.contains(w) && !gone.insert(x).contains(w));
                }
            }
        }
        assert forall|k: TransactionId| #[trigger] a.awaited.contains_key(k) implies a.awaited[k]
            == b.awaited[k] by {
            assert(g.awaited[k].difference(gone).difference(one) =~= g.awaited[k].difference(
                gone.insert(x),
            ));
        }
    }
}

/// Taking nothing out changes nothing.
pub proof fn lemma_without_nothing(g: TangleView)
    requires
        g.linked(),
    ensures
        g.without(Set::empty()) == g,
{
    let none = Set::<TransactionId>::empty();
    let h = g.without(none);
    lemma_reject_none(g.order, none);
    assert(h.vertices =~= g.vertices) by {
        assert forall|y: TransactionId| #[trigger] g.vertices.contains_key(y) implies h.vertices[y]
            == g.vertices[y] by {
            assert(g.vertices[y].approvers.difference(none) =~= g.vertices[y].approvers);
        }
    }
    assert(h.awaited =~= g.awaited) by {
        assert forall|k: TransactionId| #[trigger] g.awaited.contains_key(k) implies h.awaited.contains_key(
        k) && h.awaited[k] == g.awaited[k] by {
            assert(g.awaited_ok(k));
            assert(g.awaited[k].difference(none) =~= g.awaited[k]);
            if g.awaited[k].subset_of(none) {
                assert(g.awaited[k] =~= none);
            }
        }
    }
}


/// A vertex that may be evicted, with what eviction ranks it by.
#[derive(Clone, Copy)]
struct Ranked {
    last_access: u64,
    position: usize,
    id: TransactionId,
}

impl Ranked {
    /// Whether eviction prefers this vertex to `other`.
    spec fn before(self, other: Ranked) -> bool {
        ||| self.last_access < other.last_access
        ||| self.last_access == other.last_access && self.position < other.position
    }

    /// Whether this describes a vertex of `g` that may be evicted.
    spec fn describes(self, g: TangleView) -> bool {
        &&& self.position < g.order.len()
        &&& g.order[self.position as int] == self.id
        &&& g.vertices[self.id].last_access == self.last_access
        &&& g.evictable(self.id)
    }

    fn is_before(&self, other: &Ranked) -> (b: bool)
        ensures
            b == self.before(*other),
    {
        self.last_access < other.last_access || (self.last_access == other.last_access
            && self.position < other.position)
    }
}

spec fn evictable_set(g: TangleView) -> Set<TransactionId> {
    Set::new(|id: TransactionId| g.evictable(id))
}

impl Tangle {
    /// Strikes `id` from the approvers of the vertex that `edge` leads to.
    fn forget_approver(&mut self, edge: Edge, id: TransactionId)
        requires
            old(self).sane(),
        ensures
            final(self).sane(),
            final(self)@ == match edge {
                Edge::With { id: t } => if old(self)@.has(t) {
                    old(self)@.with_vertex(
                        t,
                        old(self)@.vertices[t].without(Set::empty().insert(id)),
                    )
                } else {
                    old(self)@
                },
                Edge::Unresolved => old(self)@,
            },
    {
        match edge {
            Edge::With { id: t } => {
                match self.position(t) {
                    Some(p) => {
                        let v = self.vertex_mut(p);
                        let ghost before = v.referrers@;
                        list_remove(&mut v.referrers, id);
                        proof {
                            assert(before.to_set().remove(id) =~= before.to_set().difference(
                                Set::empty().insert(id),
                            ));
                        }
                    },
                    None => {},
                }
            },
            Edge::Unresolved => {},
        }
    }

    /// Strikes `id` from the entry of the pending index for `key`, and the
    /// entry with it where it lists nobody else.
    fn forget_waiter(&mut self, key: Option<TransactionId>, id: TransactionId)
        requires
            old(self).sane(),
        ensures
            final(self).sane(),
            final(self)@ == (TangleView {
                awaited: match key {
                    Some(k) => if old(self)@.awaited.contains_key(k) {
                        if old(self)@.awaited[k].remove(id) == Set::<TransactionId>::empty() {
                            old(self)@.awaited.remove(k)
                        } else {
                            old(self)@.awaited.insert(k, old(self)@.awaited[k].remove(id))
                        }
                    } else {
                        old(self)@.awaited
                    },
                    None => old(self)@.awaited,
                },
                ..old(self)@
            }),
    {
        match key {
            Some(k) => {
                match self.awaited_take(k) {
                    Some(list) => {
                        let mut list = list;
                        list_remove(&mut list, id);
                        if list.len() > 0 {
                            proof {
                                assert(list@.to_set().contains(list@[0]));
                            }
                            self.awaited_put(k, list);
                            proof {
                                assert(self@.awaited =~= old(self)@.awaited.insert(
                                    k,
                                    old(self)@.awaited[k].remove(id),
                                ));
                            }
                        } else {
                            proof {
                                assert(list@.to_set() =~= Set::<TransactionId>::empty());
                            }
                        }
                    },
                    None => {
                        proof {
                            assert(self@.awaited =~= old(self)@.awaited);
                        }
                    },
                }
            },
            None => {},
        }
    }

    /// Takes the vertex at position `pos`, which nobody approves, out of the
    /// ledger graph.
    fn detach(&mut self, pos: usize) -> (v: Vertex)
        requires
            old(self).sane(),
            old(self)@.linked(),
            pos < old(self)@.order.len(),
            old(self)@.vertices[old(self)@.order[pos as int]].approvers == Set::<
                TransactionId,
            >::empty(),
        ensures
            final(self).sane(),
            final(self)@ == old(self)@.without(Set::empty().insert(old(self)@.order[pos as int])),
            final(self)@.order.len() + 1 == old(self)@.order.len(),
            v@ == old(self)@.vertices[old(self)@.order[pos as int]],
    {
        let ghost g = self@;
        let v = self.vertex_at(pos);
        let id = v.id;
        let trunk = v.trunk;
        let branch = v.branch;
        let awaited_trunk = v.awaited_trunk;
        let awaited_branch = v.awaited_branch;
        proof {
            assert(g.vertices.contains_key(g.order[pos as int]));
            assert(g.vertex_ok(g.order[pos as int]));
            assert(id == g.order[pos as int]);
        }
        self.forget_approver(trunk, id);
        let ghost g1 = self@;
        self.forget_approver(branch, id);
        let ghost g2 = self@;
        self.forget_waiter(awaited_trunk, id);
        let ghost g3 = self@;
        self.forget_waiter(awaited_branch, id);
        let ghost g4 = self@;
        let v = self.take_vertex(pos);
        proof {
            let one = Set::<TransactionId>::empty().insert(id);
            let h = g.without(one);
            let f = self@;
            lemma_reject_one(g.order, pos as int);
            assert(f.order == h.order);
            assert(f.vertices =~= h.vertices) by {
                assert forall|y: TransactionId| #[trigger] h.vertices.contains_key(y) implies f.vertices[y]
                    == h.vertices[y] by {
                    assert(g.vertices.contains_key(y));
                    assert(g.vertex_ok(y));
                    let gy = g.vertices[y];
                    if gy.approvers.contains(id) {
                        assert(g.vertices[id].approves(y));
                        assert(gy.approvers.difference(one).difference(one)
                            =~= gy.approvers.difference(one));
                    } else {
                        assert(gy.approvers.difference(one) =~= gy.approvers);
                    }
                }
            }
            assert(f.awaited =~= h.awaited) by {
                assert forall|k: TransactionId|
                    #![trigger f.awaited.contains_key(k)]
                    #![trigger h.awaited.contains_key(k)]
                    (f.awaited.contains_key(k) <==> h.awaited.contains_key(k)) && (
                    h.awaited.contains_key(k) ==> f.awaited[k] == h.awaited[k]) by {
                    if g.awaited.contains_key(k) {
                        assert(g.awaited_ok(k));
                        let s = g.awaited[k];
                        assert(s.remove(id) =~= s.difference(one));
                        assert(s.remove(id).remove(id) =~= s.remove(id));
                        if s.contains(id) {
                            assert(g.vertices[id].awaits(k));
                        } else {
                            assert(s.difference(one) =~= s);
                            let w = choose|w: TransactionId| s.contains(w);
                            if s =~= Set::<TransactionId>::empty() {
                                assert(false);
                            }
                            assert(s.contains(w) && !one.contains(w));
                        }
                        if s.subset_of(one) {
                            assert(s.remove(id) =~= Set::<TransactionId>::empty());
                        } else {
                            let w = choose|w: TransactionId| s.contains(w) && !one.contains(w);
                            assert(s.remove(id).contains(w));
                        }
                    }
                }
            }
        }
        v
    }

    /// Takes the vertex at position `index` out of the ledger graph, if that
    /// can be done without leaving a link behind that leads nowhere: a
    /// vertex goes only if no vertex approves it and it is no solid entry
    /// point. The vertices behind it move up by one position.
    pub fn remove_node(&mut self, index: usize) -> (removed: Option<Vertex>)
        requires
            old(self).wf(),
        ensures
            final(self).wf(),
            match removed {
                Some(v) => {
                    &&& index < old(self)@.size()
                    &&& old(self)@.evictable(old(self)@.order[index as int])
                    &&& v@ == old(self)@.vertices[old(self)@.order[index as int]]
                    &&& final(self)@ == old(self)@.without(
                        Set::empty().insert(old(self)@.order[index as int]),
                    )
                },
                None => {
                    &&& index < old(self)@.size() ==> !old(self)@.evictable(
                        old(self)@.order[index as int],
                    )
                    &&& final(self)@ == old(self)@
                },
            },
    {
        if index >= self.size() {
            return None;
        }
        let v = self.vertex_at(index);
        let id = v.id;
        proof {
            assert(self@.vertices.contains_key(self@.order[index as int]));
            assert(self@.vertex_ok(self@.order[index as int]));
        }
        if v.has_referrers() || self.is_entry_point(id) {
            return None;
        }
        proof {
            lemma_without_wf(self@, Set::empty().insert(id));
        }
        Some(self.detach(index))
    }

    /// One pass of eviction. Where the store holds at least `free_size`
    /// vertices that may be evicted, and `free_size` is not zero, the pass
    /// takes out the `free_size` of them that were touched longest ago, of
    /// those touched at the same stamp the older ones, and hands back their
    /// identities in that order. Otherwise it takes out nothing.
    pub fn reduce_size(&mut self) -> (evicted: Vec<TransactionId>)
        requires
            old(self).wf(),
        ensures
            final(self).wf(),
            old(self)@.can_evict() ==> {
                &&& old(self)@.is_batch(evicted@)
                &&& final(self)@ == old(self)@.without(evicted@.to_set())
                &&& final(self)@.order.len() + old(self)@.free_size == old(self)@.order.len()
            },
            !old(self)@.can_evict() ==> evicted@.len() == 0 && final(self)@ == old(self)@,
    {
        let ghost g = self@;
        let mut evicted: Vec<TransactionId> = Vec::new();
        let quota = self.free_size();
        if quota == 0 {
            return evicted;
        }
        let mut found = self.rank_candidates();
        if found.len() < quota {
            return evicted;
        }
        let ghost all = found@;
        // bring the vertices that eviction prefers to the front
        let mut j: usize = 0;
        while j < quota
            invariant
                0 <= j <= quota <= found@.len(),
                found@.len() == all.len(),
                forall|a: int| 0 <= a < found@.len() ==> (#[trigger] found@[a]).describes(g),
                forall|a: int, b: int|
                    0 <= a < found@.len() && 0 <= b < found@.len() && a != b ==> (
                    #[trigger] found@[a]).position != (#[trigger] found@[b]).position,
                forall|a: int|
                    0 <= a < all.len() ==> found@.contains(#[trigger] all[a]),
                forall|a: int, b: int|
                    0 <= a < j && a < b < found@.len() ==> (#[trigger] found@[a]).before(
                        #[trigger] found@[b],
                    ),
            decreases quota - j,
        {
            let mut best: usize = j;
            let mut c: usize = j + 1;
            while c < found.len()
                invariant
                    j <= best < c <= found@.len(),
                    j < found@.len(),
                    forall|a: int, b: int|
                        0 <= a < found@.len() && 0 <= b < found@.len() && a != b ==> (
                        #[trigger] found@[a]).position != (#[trigger] found@[b]).position,
                    forall|b: int|
                        j <= b < c && b != best ==> found@[best as int].before(
                            #[trigger] found@[b],
                        ),
                decreases found@.len() - c,
            {
                if found[c].is_before(&found[best]) {
                    proof {
                        assert forall|b: int| j <= b < c + 1 && b != c implies found@[c as int].before(
                            #[trigger] found@[b],
                        ) by {
                            if b != best {
                                assert(found@[best as int].before(found@[b]));
                            }
                        }
                    }
                    best = c;
                } else {
                    proof {
                        assert(found@[c as int].position != found@[best as int].position);
                    }
                }
                c = c + 1;
            }
            let ghost prior = found@;
            let first = found[j];
            let least = found[best];
            found.set(j, least);
            found.set(best, first);
            proof {
                let now = found@;
                assert forall|a: int| 0 <= a < now.len() implies (#[trigger] now[a]).describes(
                    g,
                ) by {
                    if a == j {
                        assert(now[a] == prior[best as int]);
                    } else if a == best {
                        assert(now[a] == prior[j as int]);
                    } else {
                        assert(now[a] == prior[a]);
                    }
                }
                assert forall|a: int, b: int|
                    0 <= a < now.len() && 0 <= b < now.len() && a != b implies (
                #[trigger] now[a]).position != (#[trigger] now[b]).position by {
                    let a0 = if a == j {
                        best as int
                    } else if a == best {
                        j as int
                    } else {
                        a
                    };
                    let b0 = if b == j {
                        best as int
                    } else if b == best {
                        j as int
                    } else {
                        b
                    };
                    assert(now[a] == prior[a0] && now[b] == prior[b0]);
                }
                assert forall|a: int| 0 <= a < all.len() implies now.contains(
                    #[trigger] all[a],
                ) by {
                    assert(prior.contains(all[a]));
                    let p = choose|p: int| 0 <= p < prior.len() && prior[p] == all[a];
                    let q = if p == j {
                        best as int
                    } else if p == best {
                        j as int
                    } else {
                        p
                    };
                    assert(now[q] == all[a]);
                }
                assert forall|a: int, b: int| 0 <= a < j + 1 && a < b < now.len() implies (
                #[trigger] now[a]).before(#[trigger] now[b]) by {
                    let b0 = if b == j {
                        best as int
                    } else if b == best {
                        j as int
                    } else {
                        b
                    };
                    assert(now[b] == prior[b0]);
                    if a < j {
                        assert(now[a] == prior[a]);
                        assert(prior[a].before(prior[b0]));
                    } else {
                        assert(now[a] == prior[best as int]);
                        assert(b0 != best);
                        assert(prior[best as int].before(prior[b0]));
                    }
                }
            }
            j = j + 1;
        }
        // name the batch
        let mut k: usize = 0;
        while k < quota
            invariant
                0 <= k <= quota <= found@.len(),
                evicted@.len() == k,
                forall|a: int| 0 <= a < k ==> #[trigger] evicted@[a] == found@[a].id,
            decreases quota - k,
        {
            evicted.push(found[k].id);
            k = k + 1;
        }
        proof {
            let batch = evicted@;
            assert forall|a: int, b: int|
                0 <= a < batch.len() && 0 <= b < batch.len() && a != b implies batch[a]
                != batch[b] by {
                assert(found@[a].describes(g) && found@[b].describes(g));
                assert(found@[a].position != found@[b].position);
            }
            assert forall|a: int| 0 <= a < batch.len() implies g.evictable(
                #[trigger] batch[a],
            ) by {
                assert(found@[a].describes(g));
            }
            assert forall|a: int, b: int| 0 <= a < b < batch.len() implies g.ranks_before(
                #[trigger] batch[a],
                #[trigger] batch[b],
            ) by {
                assert(found@[a].describes(g) && found@[b].describes(g));
                assert(found@[a].before(found@[b]));
                lemma_index_of(g.order, found@[a].position as int);
                lemma_index_of(g.order, found@[b].position as int);
            }
            assert forall|a: int, c: TransactionId|
                0 <= a < batch.len() && #[trigger] g.evictable(c) && !batch.contains(
                    c,
                ) implies g.ranks_before(#[trigger] batch[a], c) by {
                assert(g.vertex_ok(c));
                lemma_select_members(g.order, evictable_set(g));
                assert(evictable_set(g).contains(c));
                assert(g.candidates().contains(c));
                let q = choose|q: int| 0 <= q < g.candidates().len() && g.candidates()[q] == c;
                assert(all[q].id == c);
                assert(found@.contains(all[q]));
                let b = choose|b: int| 0 <= b < found@.len() && found@[b] == all[q];
                if b < quota {
                    assert(batch[b] == c);
                    assert(false);
                }
                assert(found@[a].describes(g) && found@[b].describes(g));
                assert(found@[a].before(found@[b]));
                lemma_index_of(g.order, found@[a].position as int);
                lemma_index_of(g.order, found@[b].position as int);
            }
            assert(g.is_batch(batch));
            lemma_without_nothing(g);
            assert(batch.take(0).to_set() =~= Set::<TransactionId>::empty());
        }
        // take the batch out
        let mut k: usize = 0;
        while k < quota
            invariant
                0 <= k <= quota,
                quota == evicted@.len(),
                g.wf(),
                g.is_batch(evicted@),
                self.sane(),
                self@ == g.without(evicted@.take(k as int).to_set()),
                self@.order.len() + k == g.order.len(),
            decreases quota - k,
        {
            let id = evicted[k];
            let ghost taken = evicted@.take(k as int).to_set();
            proof {
                assert forall|x: TransactionId| taken.contains(x) && g.has(
                    x,
                ) implies #[trigger] g.vertices[x].approvers == Set::<TransactionId>::empty() by {
                    let a = choose|a: int|
                        0 <= a < evicted@.take(k as int).len() && evicted@.take(k as int)[a] == x;
                    assert(g.evictable(evicted@[a]));
                }
                lemma_without_wf(g, taken);
                assert(g.evictable(evicted@[k as int]));
                assert(!taken.contains(id)) by {
                    if taken.contains(id) {
                        let a = choose|a: int|
                            0 <= a < evicted@.take(k as int).len() && evicted@.take(k as int)[a]
                                == id;
                        assert(evicted@[a] == evicted@[k as int]);
                    }
                }
                assert(self@.has(id));
                assert(self@.vertices[id].approvers =~= Set::<TransactionId>::empty());
            }
            match self.position(id) {
                Some(pos) => {
                    self.detach(pos);
                },
                None => {},
            }
            proof {
                lemma_without_twice(g, taken, id);
                assert(evicted@.take(k + 1) =~= evicted@.take(k as int).push(id));
                evicted@.take(k as int).lemma_push_to_set_commute(id);
            }
            k = k + 1;
        }
        proof {
            assert(evicted@.take(quota as int) =~= evicted@);
            let gone = evicted@.to_set();
            assert forall|x: TransactionId| gone.contains(x) && g.has(
                x,
            ) implies #[trigger] g.vertices[x].approvers == Set::<TransactionId>::empty() by {
                let a = choose|a: int| 0 <= a < evicted@.len() && evicted@[a] == x;
                assert(g.evictable(evicted@[a]));
            }
            lemma_without_wf(g, gone);
        }
        evicted
    }

    /// The vertices that may be evicted, oldest first, with what eviction
    /// ranks them by.
    fn rank_candidates(&self) -> (found: Vec<Ranked>)
        requires
            self.wf(),
        ensures
            found@.len() == self@.candidates().len(),
            forall|a: int| 0 <= a < found@.len() ==> (#[trigger] found@[a]).id
                == self@.candidates()[a],
            forall|a: int| 0 <= a < found@.len() ==> (#[trigger] found@[a]).describes(self@),
            forall|a: int, b: int|
                0 <= a < found@.len() && 0 <= b < found@.len() && a != b ==> (
                #[trigger] found@[a]).position != (#[trigger] found@[b]).position,
    {
        let ghost g = self@;
        let mut found: Vec<Ranked> = Vec::new();
        let n = self.size();
        let mut i: usize = 0;
        proof {
            assert(g.order.take(0) =~= Seq::<TransactionId>::empty());
        }
        while i < n
            invariant
                0 <= i <= n,
                n == g.order.len(),
                self@ == g,
                self.wf(),
                found@.len() == select(g.order.take(i as int), evictable_set(g)).len(),
                forall|a: int| 0 <= a < found@.len() ==> (#[trigger] found@[a]).id == select(
                    g.order.take(i as int),
                    evictable_set(g),
                )[a],
                forall|a: int| 0 <= a < found@.len() ==> (#[trigger] found@[a]).describes(g),
                forall|a: int| 0 <= a < found@.len() ==> (#[trigger] found@[a]).position < i,
                forall|a: int, b: int|
                    0 <= a < found@.len() && 0 <= b < found@.len() && a != b ==> (
                    #[trigger] found@[a]).position != (#[trigger] found@[b]).position,
            decreases n - i,
        {
            let v = self.vertex_at(i);
            let id = v.id;
            proof {
                assert(g.vertices.contains_key(g.order[i as int]));
                assert(g.vertex_ok(g.order[i as int]));
                assert(g.order.take(i + 1) =~= g.order.take(i as int).push(g.order[i as int]));
                lemma_select_push(g.order.take(i as int), g.order[i as int], evictable_set(g));
            }
            if !v.has_referrers() && !self.is_entry_point(id) {
                let last_access = v.last_access;
                found.push(Ranked { last_access, position: i, id });
            }
            i = i + 1;
        }
        proof {
            assert(g.order.take(n as int) =~= g.order);
        }
        found
    }
}

} // verus!

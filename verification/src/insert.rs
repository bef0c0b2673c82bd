//! Taking a record in: the new vertex, its links, and who waited for it.
use crate::edge::Edge;
use crate::error::{already_inserted, store_full, FailureCause, TangleError};
use crate::id::{identity_of, Transaction, TransactionHash, TransactionId};
use crate::model::{with_waiter, with_waiter_if, TangleView};
use crate::evict::{lemma_without_nothing, lemma_without_wf};
use crate::list::list_insert;
use crate::solidity::{keeps_past, lemma_settle_unique, lemma_sound_carries};
use crate::tangle::{Result, Tangle};
use crate::vertex::{BundledTransaction, Vertex};
use vstd::prelude::*;

verus! {

/// Taking a record in keeps the store, the links and the pending index in
/// agreement, keeps the past of every vertex, marks no vertex solid, and
/// leaves no vertex but the new one behind its due mark.
pub proof fn lemma_inserted_linked(
    g: TangleView,
    id: TransactionId,
    trunk: Option<TransactionId>,
    branch: Option<TransactionId>,
    bundle: Option<BundledTransaction>,
)
    requires
        g.linked(),
        !g.has(id),
        g.order.len() < g.capacity,
    ensures
        g.inserted(id, trunk, branch, bundle).linked(),
        keeps_past(g, g.inserted(id, trunk, branch, bundle)),
        forall|x: TransactionId| #[trigger]
            g.inserted(id, trunk, branch, bundle).solid_at(x) ==> g.solid_at(x),
        forall|x: TransactionId| #[trigger]
            g.inserted(id, trunk, branch, bundle).unsettled(x) ==> g.unsettled(x) || x == id,
{
    let h = g.inserted(id, trunk, branch, bundle);
    let nv = g.arrival(id, trunk, branch, bundle);
    let a0 = g.awaited.remove(id);
    let a1 = with_waiter_if(a0, g.wait_for(id, trunk), id);
    assert(h.vertices[id] == nv);
    assert forall|x: TransactionId| g.has(x) implies #[trigger] h.vertices[x] == g.after_arrival(
        x,
        id,
        trunk,
        branch,
    ) && h.has(x) && x != id by {}
    // the order
    assert(!g.order.contains(id));
    assert(h.order.no_duplicates()) by {
        assert forall|i: int, j: int| 0 <= i < h.order.len() && 0 <= j < h.order.len() && i
            != j implies h.order[i] != h.order[j] by {
            if i < g.order.len() {
                assert(g.order.contains(h.order[i]));
            }
            if j < g.order.len() {
                assert(g.order.contains(h.order[j]));
            }
        }
    }
    assert forall|x: TransactionId| #[trigger] h.order.contains(x) implies h.has(x) by {
        let i = choose|i: int| 0 <= i < h.order.len() && h.order[i] == x;
        if i < g.order.len() {
            assert(g.order.contains(x));
        }
    }
    // the pending index
    assert forall|key: TransactionId| #[trigger] h.awaited.contains_key(key) implies h.awaited_ok(
        key,
    ) by {
        let from_trunk = g.wait_for(id, trunk) == Some(key);
        let from_branch = g.wait_for(id, branch) == Some(key);
        assert(key != id);
        if g.awaited.contains_key(key) {
            assert(g.awaited_ok(key));
        }
        assert(!h.has(key));
        assert(h.awaited[key] != Set::<TransactionId>::empty()) by {
            if from_trunk || from_branch {
                assert(h.awaited[key].contains(id));
            } else {
                // somebody waited for `key` before, and still does
                if g.awaited[key] =~= Set::<TransactionId>::empty() {
                    assert(false);
                }
                let w = choose|w: TransactionId| g.awaited[key].contains(w);
                assert(h.awaited[key].contains(w));
            }
        }
        assert forall|r: TransactionId| #[trigger] h.awaited[key].contains(r) implies h.has(r)
            && h.vertices[r].awaits(key) by {
            if r == id {
                assert(from_trunk || from_branch);
            } else {
                assert(g.awaited.contains_key(key) && g.awaited[key].contains(r));
                assert(g.has(r));
                assert(g.vertex_ok(r));
            }
        }
    }
    // the vertices
    assert forall|x: TransactionId| #[trigger] h.vertices.contains_key(x) implies h.vertex_ok(
        x,
    ) by {
        if x == id {
            assert(h.order[g.order.len() as int] == id);
            if g.awaited.contains_key(id) {
                assert(g.awaited_ok(id));
            }
            assert forall|a: TransactionId| #[trigger] nv.approvers.contains(a) implies h.has(a)
                && h.vertices[a].approves(id) by {
                if a != id {
                    assert(g.awaited[id].contains(a));
                    assert(g.has(a));
                    assert(g.vertex_ok(a));
                }
            }
            match nv.trunk {
                Edge::With { id: t } => {
                    if t != id {
                        assert(g.has(t));
                    }
                },
                Edge::Unresolved => {},
            }
            match nv.branch {
                Edge::With { id: b } => {
                    if b != id {
                        assert(g.has(b));
                    }
                },
                Edge::Unresolved => {},
            }
        } else {
            assert(g.has(x));
            assert(g.vertex_ok(x));
            let gv = g.vertices[x];
            let hv = h.vertices[x];
            assert(g.order.contains(x));
            let i = choose|i: int| 0 <= i < g.order.len() && g.order[i] == x;
            assert(h.order[i] == x);
            match gv.trunk {
                Edge::With { id: t } => {
                    assert(g.has(t));
                    assert(g.vertices[t].approvers.contains(x));
                },
                Edge::Unresolved => {},
            }
            match gv.branch {
                Edge::With { id: b } => {
                    assert(g.has(b));
                    assert(g.vertices[b].approvers.contains(x));
                },
                Edge::Unresolved => {},
            }
            assert forall|a: TransactionId| #[trigger] hv.approvers.contains(a) implies h.has(a)
                && h.vertices[a].approves(x) by {
                if a != id {
                    assert(gv.approvers.contains(a));
                    assert(g.has(a));
                    assert(g.vertex_ok(a));
                }
            }
        }
    }
    // the past
    assert forall|x: TransactionId|
        #![trigger h.vertices.contains_key(x)]
        g.has(x) && h.has(x) implies {
        &&& g.vertices[x].trunk matches Edge::With { id: t } ==> h.vertices[x].trunk
            == g.vertices[x].trunk && (g.has(t) ==> h.has(t))
        &&& g.vertices[x].branch matches Edge::With { id: b } ==> h.vertices[x].branch
            == g.vertices[x].branch && (g.has(b) ==> h.has(b))
    } by {
        assert(g.vertex_ok(x));
    }
    assert forall|x: TransactionId| #[trigger] h.unsettled(x) implies g.unsettled(x) || x
        == id by {
        if x != id {
            assert(g.has(x));
            assert(g.vertex_ok(x));
        }
    }
}


impl Tangle {
    /// Links the coming vertex `id` to its approvee `target`. Where the
    /// approvee is in the store, it gets `id` among its approvers and is
    /// touched; where it is missing, `id` is listed as waiting for it.
    /// Hands back the link and what `id` waits for.
    fn attach(&mut self, id: TransactionId, target: Option<TransactionId>, stamp: u64) -> (out: (
        Edge,
        Option<TransactionId>,
    ))
        requires
            old(self).sane(),
            !old(self)@.has(id),
        ensures
            final(self).sane(),
            out.0 == old(self)@.link_for(id, target),
            out.1 == old(self)@.wait_for(id, target),
            final(self)@ == match target {
                Some(t) => if t == id {
                    old(self)@
                } else if old(self)@.has(t) {
                    old(self)@.with_vertex(t, old(self)@.vertices[t].approved_by(id, stamp))
                } else {
                    TangleView { awaited: with_waiter(old(self)@.awaited, t, id), ..old(self)@ }
                },
                None => old(self)@,
            },
    {
        match target {
            Some(t) => {
                if t == id {
                    (Edge::With { id: t }, None)
                } else {
                    match self.position(t) {
                        Some(p) => {
                            let v = self.vertex_mut(p);
                            list_insert(&mut v.referrers, id);
                            v.last_access = stamp;
                            (Edge::With { id: t }, None)
                        },
                        None => {
                            let mut list = match self.awaited_take(t) {
                                Some(list) => list,
                                None => Vec::new(),
                            };
                            proof {
                                if !old(self)@.awaited.contains_key(t) {
                                    assert(list@.to_set() =~= Set::<TransactionId>::empty());
                                }
                            }
                            list_insert(&mut list, id);
                            self.awaited_put(t, list);
                            proof {
                                assert(self@.awaited =~= with_waiter(old(self)@.awaited, t, id));
                            }
                            (Edge::Unresolved, Some(t))
                        },
                    }
                }
            },
            None => (Edge::Unresolved, None),
        }
    }

    /// Lets the vertices that waited for `id` know that it comes: each of
    /// their links that waited for `id` is resolved and leads to it, and the
    /// entry for `id` leaves the pending index. Hands back these vertices.
    fn resolve_waiters(&mut self, id: TransactionId) -> (waiters: Vec<TransactionId>)
        requires
            old(self).sane(),
            old(self)@.awaited.contains_key(id) ==> forall|r: TransactionId| #[trigger]
                old(self)@.awaited[id].contains(r) ==> old(self)@.has(r),
            forall|x: TransactionId|
                #![trigger old(self)@.vertices[x]]
                old(self)@.has(x) && old(self)@.vertices[x].awaits(id) ==> old(
                    self,
                )@.awaited.contains_key(id) && old(self)@.awaited[id].contains(x),
        ensures
            final(self).sane(),
            waiters@.no_duplicates(),
            waiters@.to_set() == if old(self)@.awaited.contains_key(id) {
                old(self)@.awaited[id]
            } else {
                Set::empty()
            },
            final(self)@ == (TangleView {
                vertices: Map::new(
                    |x: TransactionId| old(self)@.has(x),
                    |x: TransactionId| old(self)@.vertices[x].resolved(id),
                ),
                awaited: old(self)@.awaited.remove(id),
                ..old(self)@
            }),
    {
        let ghost g = self@;
        match self.awaited_take(id) {
            Some(waiters) => {
                let ghost base = self@;
                let n = waiters.len();
                let mut j: usize = 0;
                while j < n
                    invariant
                        0 <= j <= n,
                        n == waiters@.len(),
                        self.sane(),
                        waiters@.no_duplicates(),
                        g.awaited.contains_key(id),
                        waiters@.to_set() == g.awaited[id],
                        forall|r: TransactionId| #[trigger]
                            g.awaited[id].contains(r) ==> g.has(r),
                        base.vertices == g.vertices,
                        self@ == (TangleView {
                            vertices: Map::new(
                                |x: TransactionId| g.has(x),
                                |x: TransactionId|
                                    if waiters@.take(j as int).contains(x) {
                                        g.vertices[x].resolved(id)
                                    } else {
                                        g.vertices[x]
                                    },
                            ),
                            ..base
                        }),
                    decreases n - j,
                {
                    let r = waiters[j];
                    let ghost before = self@;
                    proof {
                        assert(waiters@.to_set().contains(r));
                        assert(g.has(r));
                        assert(before.has(r));
                    }
                    match self.position(r) {
                        Some(p) => {
                            let v = self.vertex_mut(p);
                            match v.awaited_trunk {
                                Some(k) => {
                                    if k == id {
                                        v.trunk = Edge::With { id };
                                        v.awaited_trunk = None;
                                    }
                                },
                                None => {},
                            }
                            match v.awaited_branch {
                                Some(k) => {
                                    if k == id {
                                        v.branch = Edge::With { id };
                                        v.awaited_branch = None;
                                    }
                                },
                                None => {},
                            }
                        },
                        None => {},
                    }
                    proof {
                        let s0 = waiters@.take(j as int);
                        let s1 = waiters@.take(j + 1);
                        assert(s1 =~= s0.push(r));
                        assert forall|x: TransactionId| s1.contains(x) <==> (s0.contains(x) || x
                            == r) by {
                            if s0.contains(x) {
                                let a = choose|a: int| 0 <= a < s0.len() && s0[a] == x;
                                assert(s1[a] == x);
                            }
                            if x == r {
                                assert(s1[j as int] == r);
                            }
                            if s1.contains(x) {
                                let a = choose|a: int| 0 <= a < s1.len() && s1[a] == x;
                                if a < j {
                                    assert(s0[a] == x);
                                }
                            }
                        }
                        assert(!s0.contains(r)) by {
                            if s0.contains(r) {
                                let a = choose|a: int| 0 <= a < s0.len() && s0[a] == r;
                                assert(waiters@[a] == waiters@[j as int]);
                            }
                        }
                        assert(before.vertices[r] == g.vertices[r]);
                        assert(self@.vertices =~= Map::new(
                            |x: TransactionId| g.has(x),
                            |x: TransactionId|
                                if s1.contains(x) {
                                    g.vertices[x].resolved(id)
                                } else {
                                    g.vertices[x]
                                },
                        ));
                    }
                    j = j + 1;
                }
                proof {
                    assert(waiters@.take(n as int) =~= waiters@);
                    assert(self@.vertices =~= Map::new(
                        |x: TransactionId| g.has(x),
                        |x: TransactionId| g.vertices[x].resolved(id),
                    )) by {
                        assert forall|x: TransactionId| g.has(x) implies #[trigger] self@.vertices[x]
                            == g.vertices[x].resolved(id) by {
                            if !waiters@.contains(x) {
                                assert(!waiters@.to_set().contains(x));
                                assert(!g.vertices[x].awaits(id));
                            }
                        }
                    }
                }
                waiters
            },
            None => {
                let waiters: Vec<TransactionId> = Vec::new();
                proof {
                    assert(waiters@.to_set() =~= Set::<TransactionId>::empty());
                    assert(self@.awaited =~= g.awaited.remove(id));
                    assert(self@.vertices =~= Map::new(
                        |x: TransactionId| g.has(x),
                        |x: TransactionId| g.vertices[x].resolved(id),
                    )) by {
                        assert forall|x: TransactionId| g.has(x) implies #[trigger] g.vertices[x]
                            == g.vertices[x].resolved(id) by {
                            assert(!g.vertices[x].awaits(id));
                        }
                    }
                }
                waiters
            },
        }
    }

    /// Takes in the record `id`, which names `trunk` and `branch` as the
    /// records it approves and carries `bundle` as the note of its place in
    /// a bundle, and hands back its position in the store.
    ///
    /// A record that is in the store already is refused, and so is one for
    /// which a full store cannot make room; the ledger graph is then as it
    /// was. Otherwise a full store first evicts one batch. The new vertex is
    /// linked to each approvee that is in the store, and listed as waiting
    /// for each that is missing. The vertices that waited for `id` are
    /// linked to it. Then the marks are brought up to date.
    pub fn insert_vertex(
        &mut self,
        id: TransactionId,
        trunk: Option<TransactionId>,
        branch: Option<TransactionId>,
        bundle: Option<BundledTransaction>,
    ) -> (r: Result<usize>)
        requires
            old(self).wf(),
        ensures
            final(self).wf(),
            match r {
                Ok(at) => {
                    &&& !old(self)@.has(id)
                    &&& old(self)@.admits()
                    &&& final(self)@.has(id)
                    &&& at + 1 == final(self)@.size()
                    &&& final(self)@.order[at as int] == id
                    &&& exists|batch: Seq<TransactionId>|
                        old(self)@.makes_room(batch) && final(self)@ == #[trigger] old(
                            self,
                        )@.admitted(batch, id, trunk, branch, bundle)
                },
                Err(e) => {
                    &&& final(self)@ == old(self)@
                    &&& if old(self)@.has(id) {
                        e == already_inserted()
                    } else {
                        !old(self)@.admits() && e == store_full()
                    }
                },
            },
            forall|x: TransactionId|
                old(self)@.solid_at(x) && final(self)@.has(x) ==> #[trigger] final(self)@.solid_at(
                    x,
                ),
            !old(self)@.is_full() && r is Ok ==> final(self)@.size() == old(self)@.size() + 1,
    {
        if self.contains(id) {
            return Err(
                TangleError::InsertionFailure { cause: FailureCause::TransactionAlreadyInserted },
            );
        }
        let ghost g = self@;
        let ghost mut batch = Seq::<TransactionId>::empty();
        if self.is_full() {
            let evicted = self.reduce_size();
            proof {
                batch = evicted@;
            }
            if self.is_full() {
                return Err(TangleError::InsertionFailure { cause: FailureCause::StoreFull });
            }
        } else {
            proof {
                lemma_without_nothing(g);
                assert(batch.to_set() =~= Set::<TransactionId>::empty());
            }
        }
        let ghost mid = self@;
        proof {
            assert(g.makes_room(batch));
            assert(mid == g.without(batch.to_set()));
            assert(!mid.has(id));
            assert forall|x: TransactionId|
                #![trigger mid.vertices[x]]
                mid.has(x) && mid.vertices[x].awaits(id) implies mid.awaited.contains_key(id)
                && mid.awaited[id].contains(x) by {
                assert(mid.vertex_ok(x));
            }
            if mid.awaited.contains_key(id) {
                assert(mid.awaited_ok(id));
            }
        }
        let stamp = self.stamp();
        let (trunk_edge, trunk_wait) = self.attach(id, trunk, stamp);
        let ghost s1 = self@;
        let (branch_edge, branch_wait) = self.attach(id, branch, stamp);
        let ghost s2 = self@;
        proof {
            assert forall|x: TransactionId| s2.has(x) <==> mid.has(x) by {}
            assert(s2.awaited.contains_key(id) <==> mid.awaited.contains_key(id));
            if mid.awaited.contains_key(id) {
                assert(s2.awaited[id] == mid.awaited[id]);
            }
            assert forall|x: TransactionId| s2.has(x) implies (#[trigger] s2.vertices[x]).awaits(
                id,
            ) == mid.vertices[x].awaits(id) by {}
        }
        let mut referrers = self.resolve_waiters(id);
        let ghost s3 = self@;
        let on_itself = match trunk {
            Some(t) => t == id,
            None => false,
        } || match branch {
            Some(b) => b == id,
            None => false,
        };
        if on_itself {
            proof {
                assert(!referrers@.contains(id)) by {
                    if referrers@.contains(id) {
                        assert(referrers@.to_set().contains(id));
                        assert(mid.awaited[id].contains(id));
                    }
                }
                referrers@.lemma_push_to_set_commute(id);
            }
            referrers.push(id);
        }
        let v = Vertex {
            id,
            trunk: trunk_edge,
            branch: branch_edge,
            referrers,
            solid: false,
            last_access: stamp,
            bundle,
            awaited_trunk: trunk_wait,
            awaited_branch: branch_wait,
        };
        let at = self.size();
        proof {
            assert(v@ == mid.arrival(id, trunk, branch, bundle));
        }
        self.push_vertex(v);
        self.advance();
        let ghost h = mid.inserted(id, trunk, branch, bundle);
        proof {
            assert(self@.vertices =~= h.vertices) by {
                assert forall|x: TransactionId| mid.has(x) implies #[trigger] self@.vertices[x]
                    == mid.after_arrival(x, id, trunk, branch) by {
                    assert(x != id);
                    assert(s1.has(x) && s2.has(x) && s3.has(x));
                    assert(s1.vertices[x] == if trunk == Some(x) {
                        mid.vertices[x].approved_by(id, stamp)
                    } else {
                        mid.vertices[x]
                    });
                    assert(s2.vertices[x] == if branch == Some(x) {
                        s1.vertices[x].approved_by(id, stamp)
                    } else {
                        s1.vertices[x]
                    });
                    assert(s3.vertices[x] == s2.vertices[x].resolved(id));
                    assert(self@.vertices[x] == s3.vertices[x]);
                    assert(mid.vertices[x].approvers.insert(id).insert(id)
                        =~= mid.vertices[x].approvers.insert(id));
                }
            }
            assert(self@.awaited =~= h.awaited);
            assert(self@ == h);
            assert forall|x: TransactionId| batch.to_set().contains(x) && g.has(
                x,
            ) implies #[trigger] g.vertices[x].approvers == Set::<TransactionId>::empty() by {
                let a = choose|a: int| 0 <= a < batch.len() && batch[a] == x;
                assert(g.evictable(batch[a]));
            }
            lemma_without_wf(g, batch.to_set());
            lemma_inserted_linked(mid, id, trunk, branch, bundle);
            lemma_sound_carries(mid, h);
        }
        self.try_solidify(id);
        proof {
            lemma_settle_unique(h, self@);
            assert(self@ == g.admitted(batch, id, trunk, branch, bundle));
            assert(self@.order[at as int] == id);
            assert(self@.vertices.dom().contains(id) <==> h.vertices.dom().contains(id));
            assert forall|x: TransactionId| g.solid_at(x) && self@.has(x) implies #[trigger]
                self@.solid_at(x) by {
                assert(self@.vertices.dom().contains(x) <==> h.vertices.dom().contains(x));
                assert(mid.has(x));
                assert(h.solid_at(x));
            }
        }
        Ok(at)
    }

    /// Takes in the record with content hash `hash`, which approves the
    /// records with the hashes that `transaction` names, and hands back its
    /// identity. What [`Tangle::insert_vertex`] does with the three
    /// identities is done with those derived from the three hashes.
    pub fn insert_transaction(&mut self, hash: &TransactionHash, transaction: &Transaction) -> (r:
        Result<TransactionId>)
        requires
            old(self).wf(),
        ensures
            final(self).wf(),
            match r {
                Ok(id) => {
                    &&& id == identity_of(hash.0@)
                    &&& !old(self)@.has(id)
                    &&& old(self)@.admits()
                    &&& final(self)@.has(id)
                    &&& final(self)@.order.last() == id
                    &&& exists|batch: Seq<TransactionId>|
                        old(self)@.makes_room(batch) && final(self)@ == #[trigger] old(
                            self,
                        )@.admitted(
                            batch,
                            id,
                            Some(identity_of(transaction.trunk.0@)),
                            Some(identity_of(transaction.branch.0@)),
                            None,
                        )
                },
                Err(e) => {
                    &&& final(self)@ == old(self)@
                    &&& if old(self)@.has(identity_of(hash.0@)) {
                        e == already_inserted()
                    } else {
                        !old(self)@.admits() && e == store_full()
                    }
                },
            },
            forall|x: TransactionId|
                old(self)@.solid_at(x) && final(self)@.has(x) ==> #[trigger] final(self)@.solid_at(
                    x,
                ),
            !old(self)@.is_full() && r is Ok ==> final(self)@.size() == old(self)@.size() + 1,
    {
        let id = TransactionId::new(hash);
        let trunk = TransactionId::new(&transaction.trunk);
        let branch = TransactionId::new(&transaction.branch);
        match self.insert_vertex(id, Some(trunk), Some(branch), None) {
            Ok(_) => Ok(id),
            Err(e) => Err(e),
        }
    }

    /// Takes in the record `node` without naming what it approves, and hands
    /// back its position in the store. Its identity is its hash; `node`
    /// itself is kept as the note of its place in a bundle. Whether the
    /// vertex is marked solid does not depend on what `node` says of that.
    pub fn add_node(&mut self, node: BundledTransaction) -> (r: Result<usize>)
        requires
            old(self).wf(),
        ensures
            final(self).wf(),
            match r {
                Ok(at) => {
                    &&& !old(self)@.has(TransactionId(node.hash))
                    &&& old(self)@.admits()
                    &&& final(self)@.has(TransactionId(node.hash))
                    &&& at + 1 == final(self)@.size()
                    &&& final(self)@.order[at as int] == TransactionId(node.hash)
                    &&& exists|batch: Seq<TransactionId>|
                        old(self)@.makes_room(batch) && final(self)@ == #[trigger] old(
                            self,
                        )@.admitted(batch, TransactionId(node.hash), None, None, Some(node))
                },
                Err(e) => {
                    &&& final(self)@ == old(self)@
                    &&& if old(self)@.has(TransactionId(node.hash)) {
                        e == already_inserted()
                    } else {
                        !old(self)@.admits() && e == store_full()
                    }
                },
            },
            forall|x: TransactionId|
                old(self)@.solid_at(x) && final(self)@.has(x) ==> #[trigger] final(self)@.solid_at(
                    x,
                ),
            !old(self)@.is_full() && r is Ok ==> final(self)@.size() == old(self)@.size() + 1,
    {
        self.insert_vertex(node.id(), None, None, Some(node))
    }
}

} // verus!

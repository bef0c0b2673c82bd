//! Setting links by hand, and designating solid entry points.
use crate::edge::Edge;
use crate::id::{identity_of, TransactionHash, TransactionId};
use crate::list::list_insert;
use crate::model::TangleView;
use crate::solidity::{keeps_past, lemma_settle_unique, lemma_sound_carries};
use crate::tangle::{Result, Tangle};
use vstd::prelude::*;

verus! {

/// Setting a free link of a stored vertex to lead to a stored vertex keeps
/// the store, the links and the pending index in agreement, keeps the past
/// of every vertex, marks no vertex solid, and leaves no vertex but the
/// link's owner behind its due mark.
pub proof fn lemma_with_link_linked(
    g: TangleView,
    node: TransactionId,
    target: TransactionId,
    trunk: bool,
)
    requires
        g.linked(),
        g.can_link(node, target, trunk),
    ensures
        g.with_link(node, target, trunk).linked(),
        keeps_past(g, g.with_link(node, target, trunk)),
        forall|x: TransactionId| #[trigger]
            g.with_link(node, target, trunk).solid_at(x) ==> g.solid_at(x),
        forall|x: TransactionId| #[trigger]
            g.with_link(node, target, trunk).unsettled(x) ==> g.unsettled(x) || x == node,
{
    let h = g.with_link(node, target, trunk);
    assert forall|x: TransactionId| h.vertices.contains_key(x) <==> g.vertices.contains_key(
        x,
    ) by {}
    assert forall|x: TransactionId| #[trigger] h.order.contains(x) implies h.has(x) by {
        assert(g.order.contains(x));
    }
    assert forall|x: TransactionId| #[trigger] h.vertices.contains_key(x) implies h.vertex_ok(
        x,
    ) by {
        assert(g.vertices.contains_key(x));
        assert(g.vertex_ok(x));
        assert(g.vertex_ok(node));
        assert(g.vertex_ok(target));
        let gv = g.vertices[x];
        let hv = h.vertices[x];
        match gv.trunk {
            Edge::With { id: t } => {
                assert(g.vertices.contains_key(t));
                assert(g.vertices[t].approvers.contains(x));
            },
            Edge::Unresolved => {},
        }
        match gv.branch {
            Edge::With { id: b } => {
                assert(g.vertices.contains_key(b));
                assert(g.vertices[b].approvers.contains(x));
            },
            Edge::Unresolved => {},
        }
        assert forall|a: TransactionId| #[trigger] hv.approvers.contains(a) implies h.has(a)
            && h.vertices[a].approves(x) by {
            if gv.approvers.contains(a) {
                assert(g.vertices.contains_key(a));
                assert(g.vertices[a].approves(x));
            }
        }
    }
    assert forall|key: TransactionId| #[trigger] h.awaited.contains_key(key) implies h.awaited_ok(
        key,
    ) by {
        assert(g.awaited_ok(key));
        assert forall|r: TransactionId| #[trigger] h.awaited[key].contains(r) implies h.has(r)
            && h.vertices[r].awaits(key) by {
            assert(g.vertices.contains_key(r));
        }
    }
    assert forall|x: TransactionId|
        #![trigger h.vertices.contains_key(x)]
        g.has(x) && h.has(x) implies {
        &&& g.vertices[x].trunk matches Edge::With { id: t } ==> h.vertices[x].trunk
            == g.vertices[x].trunk && (g.has(t) ==> h.has(t))
        &&& g.vertices[x].branch matches Edge::With { id: b } ==> h.vertices[x].branch
            == g.vertices[x].branch && (g.has(b) ==> h.has(b))
    } by {}
    assert forall|x: TransactionId| #[trigger] h.unsettled(x) implies g.unsettled(x) || x
        == node by {
        if x != node {
            assert(g.vertices.contains_key(x));
        }
    }
}

/// Making an identity a solid entry point keeps the store, the links and the
/// pending index in agreement, keeps the past of every vertex, and leaves no
/// vertex but the new entry point behind its due mark.
pub proof fn lemma_with_entry_point_linked(g: TangleView, id: TransactionId)
    requires
        g.linked(),
    ensures
        g.with_entry_point(id).linked(),
        keeps_past(g, g.with_entry_point(id)),
        forall|x: TransactionId| #[trigger]
            g.with_entry_point(id).unsettled(x) ==> g.unsettled(x) || x == id,
{
    let h = g.with_entry_point(id);
    assert forall|x: TransactionId| #[trigger] h.vertices.contains_key(x) implies h.vertex_ok(
        x,
    ) by {
        assert(g.vertex_ok(x));
    }
    assert forall|key: TransactionId| #[trigger] h.awaited.contains_key(key) implies h.awaited_ok(
        key,
    ) by {
        assert(g.awaited_ok(key));
    }
}

impl Tangle {
    /// Sets the link of `node` on the given side to lead to `target`.
    fn link(&mut self, node: TransactionId, target: TransactionId, trunk: bool)
        requires
            old(self).wf(),
            old(self)@.can_link(node, target, trunk),
        ensures
            final(self).wf(),
            final(self)@ == old(self)@.with_link(node, target, trunk).settle(),
    {
        let ghost g = self@;
        let stamp = self.stamp();
        match self.position(node) {
            Some(p) => {
                let v = self.vertex_mut(p);
                if trunk {
                    v.trunk = Edge::With { id: target };
                } else {
                    v.branch = Edge::With { id: target };
                }
            },
            None => {},
        }
        let ghost first = self@;
        match self.position(target) {
            Some(q) => {
                let v = self.vertex_mut(q);
                list_insert(&mut v.referrers, node);
                v.last_access = stamp;
            },
            None => {},
        }
        self.advance();
        let ghost h = g.with_link(node, target, trunk);
        proof {
            assert(self@.vertices =~= h.vertices);
            assert(self@ == h);
            lemma_with_link_linked(g, node, target, trunk);
            lemma_sound_carries(g, h);
        }
        self.try_solidify(node);
        proof {
            lemma_settle_unique(h, self@);
        }
    }

    /// Sets the trunk link of `node` to lead to `trunk`. Both have to be in
    /// the store, and the trunk link of `node` has to be free: neither
    /// resolved nor waiting for a record. Afterwards `trunk` has `node`
    /// among its approvers and is touched, and the marks are up to date.
    pub fn add_trunk(&mut self, node: TransactionId, trunk: TransactionId)
        requires
            old(self).wf(),
            old(self)@.can_link(node, trunk, true),
        ensures
            final(self).wf(),
            final(self)@ == old(self)@.with_link(node, trunk, true).settle(),
    {
        self.link(node, trunk, true)
    }

    /// Sets the branch link of `node` to lead to `branch`. Both have to be
    /// in the store, and the branch link of `node` has to be free: neither
    /// resolved nor waiting for a record. Afterwards `branch` has `node`
    /// among its approvers and is touched, and the marks are up to date.
    pub fn add_branch(&mut self, node: TransactionId, branch: TransactionId)
        requires
            old(self).wf(),
            old(self)@.can_link(node, branch, false),
        ensures
            final(self).wf(),
            final(self)@ == old(self)@.with_link(node, branch, false).settle(),
    {
        self.link(node, branch, false)
    }

    /// Whether the link of `node` on the given side can be set by hand to
    /// lead to `target`.
    pub fn can_link(&self, node: TransactionId, target: TransactionId, trunk: bool) -> (b: bool)
        requires
            self.wf(),
        ensures
            b == self@.can_link(node, target, trunk),
    {
        match self.position(node) {
            Some(p) => {
                let v = self.vertex_at(p);
                let free = if trunk {
                    !v.has_trunk() && v.awaited_trunk.is_none()
                } else {
                    !v.has_branch() && v.awaited_branch.is_none()
                };
                free && self.contains(target)
            },
            None => false,
        }
    }

    /// Makes the record with content hash `hash` a solid entry point,
    /// whether it is in the store or not, and brings the marks up to date.
    /// This never fails.
    pub fn add_solid_entry_point(&mut self, hash: TransactionHash) -> (r: Result<()>)
        requires
            old(self).wf(),
        ensures
            final(self).wf(),
            r is Ok,
            final(self)@ == old(self)@.with_entry_point(identity_of(hash.0@)).settle(),
    {
        let id = TransactionId::new(&hash);
        let ghost g = self@;
        self.add_entry_point(id);
        let ghost h = g.with_entry_point(id);
        proof {
            lemma_with_entry_point_linked(g, id);
            lemma_sound_carries(g, h);
        }
        self.try_solidify(id);
        proof {
            lemma_settle_unique(h, self@);
        }
        Ok(())
    }

    /// Whether the record with content hash `hash` is a solid entry point.
    pub fn is_solid_entry_point(&self, hash: TransactionHash) -> (b: bool)
        ensures
            b == self@.entry_points.contains(identity_of(hash.0@)),
    {
        let id = TransactionId::new(&hash);
        self.is_entry_point(id)
    }
}

} // verus!

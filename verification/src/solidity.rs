//! Solidity: which vertices have their whole past in reach of the solid entry
//! points, and how the marks on the vertices are brought up to date.
use crate::edge::Edge;
use crate::id::TransactionId;
use crate::model::TangleView;
use crate::tangle::Tangle;
use crate::vertex::VertexView;
use vstd::prelude::*;

verus! {

/// What can be shown solid in `n` steps can be shown solid in more.
pub proof fn lemma_grounded_rank(g: TangleView, id: TransactionId, n: nat, m: nat)
    requires
        g.grounded(id, n),
        n <= m,
    ensures
        g.grounded(id, m),
    decreases n,
{
    if !g.entry_points.contains(id) {
        let t = g.vertices[id].trunk->id;
        let b = g.vertices[id].branch->id;
        lemma_grounded_rank(g, t, (n - 1) as nat, (m - 1) as nat);
        lemma_grounded_rank(g, b, (n - 1) as nat, (m - 1) as nat);
    }
}

/// Whether `h` keeps what `g` has of the past of its vertices: the vertices
/// of `g` that are still in `h` have their resolved links unchanged, and
/// these lead to vertices that are still in `h`; and a solid entry point
/// stays one.
pub open spec fn keeps_past(g: TangleView, h: TangleView) -> bool {
    &&& forall|id: TransactionId|
        #![trigger h.vertices.contains_key(id)]
        g.has(id) && h.has(id) ==> {
            &&& g.vertices[id].trunk matches Edge::With { id: t } ==> h.vertices[id].trunk
                == g.vertices[id].trunk && (g.has(t) ==> h.has(t))
            &&& g.vertices[id].branch matches Edge::With { id: b } ==> h.vertices[id].branch
                == g.vertices[id].branch && (g.has(b) ==> h.has(b))
        }
    &&& forall|id: TransactionId| #[trigger]
        g.entry_points.contains(id) ==> h.entry_points.contains(id)
}

/// What can be shown solid in a state can be shown solid in every state that
/// keeps the past.
pub proof fn lemma_grounded_carries(g: TangleView, h: TangleView, id: TransactionId, n: nat)
    requires
        keeps_past(g, h),
        g.grounded(id, n),
        h.has(id),
    ensures
        h.grounded(id, n),
    decreases n,
{
    if !g.entry_points.contains(id) {
        let t = g.vertices[id].trunk->id;
        let b = g.vertices[id].branch->id;
        assert(h.vertices.contains_key(id));
        lemma_grounded_carries(g, h, t, (n - 1) as nat);
        lemma_grounded_carries(g, h, b, (n - 1) as nat);
    }
}

/// Where the marks of a state are sound, so are those of every state that
/// keeps the past and marks no further vertex solid.
pub proof fn lemma_sound_carries(g: TangleView, h: TangleView)
    requires
        g.sound(),
        keeps_past(g, h),
        forall|id: TransactionId| #[trigger] h.solid_at(id) ==> g.solid_at(id),
    ensures
        h.sound(),
{
    assert forall|id: TransactionId| #[trigger] h.solid_at(id) implies exists|n: nat|
        h.grounded(id, n) by {
        assert(g.solid_at(id));
        let n = choose|n: nat| g.grounded(id, n);
        lemma_grounded_carries(g, h, id, n);
    }
}

/// In a state whose marks are sound and up to date, a vertex is marked solid
/// if and only if it can be shown solid from the solid entry points.
pub proof fn lemma_solid_iff_grounded(g: TangleView, id: TransactionId)
    requires
        g.sound(),
        g.settled(),
    ensures
        g.solid_at(id) <==> exists|n: nat| g.grounded(id, n),
{
    if exists|n: nat| g.grounded(id, n) {
        let n = choose|n: nat| g.grounded(id, n);
        lemma_grounded_is_marked(g, id, n);
    }
}

/// In a state whose marks are up to date, whatever can be shown solid is
/// marked solid: a solid entry point in the store, and with it every vertex
/// whose past lies wholly above solid vertices.
pub proof fn lemma_grounded_is_marked(g: TangleView, id: TransactionId, n: nat)
    requires
        g.settled(),
        g.grounded(id, n),
    ensures
        g.solid_at(id),
    decreases n,
{
    if !g.entry_points.contains(id) {
        let t = g.vertices[id].trunk->id;
        let b = g.vertices[id].branch->id;
        lemma_grounded_is_marked(g, t, (n - 1) as nat);
        lemma_grounded_is_marked(g, b, (n - 1) as nat);
    }
    assert(!g.unsettled(id));
}

/// In a state whose marks are sound and up to date, a vertex is solid if and
/// only if it is a solid entry point or both its links lead to solid
/// vertices.
pub proof fn lemma_solid_iff_entry_point_or_solid_approvees(g: TangleView, id: TransactionId)
    requires
        g.sound(),
        g.settled(),
        g.has(id),
    ensures
        g.vertices[id].solid <==> g.may_solidify(id),
{
    if g.vertices[id].solid {
        assert(g.solid_at(id));
        let n = choose|n: nat| g.grounded(id, n);
        if !g.entry_points.contains(id) {
            let t = g.vertices[id].trunk->id;
            let b = g.vertices[id].branch->id;
            lemma_grounded_is_marked(g, t, (n - 1) as nat);
            lemma_grounded_is_marked(g, b, (n - 1) as nat);
        }
    } else {
        assert(!g.unsettled(id));
    }
}

/// States that differ in their marks only have the same links.
pub proof fn lemma_marks_keep_links(g: TangleView, h: TangleView)
    requires
        g.marks_only(h),
    ensures
        keeps_past(g, h),
        keeps_past(h, g),
        g.linked() ==> h.linked(),
{
    assert forall|id: TransactionId| h.vertices.contains_key(id) <==> g.vertices.contains_key(
        id,
    ) by {
        assert(h.vertices.dom().contains(id) <==> g.vertices.dom().contains(id));
    }
    if g.linked() {
        assert forall|id: TransactionId| #[trigger] h.vertices.contains_key(id) implies h.vertex_ok(
            id,
        ) by {
            assert(g.vertex_ok(id));
            let v = g.vertices[id];
            assert forall|a: TransactionId| #[trigger]
                h.vertices[id].approvers.contains(a) implies h.has(a) && h.vertices[a].approves(
                id,
            ) by {
                assert(v.approvers.contains(a));
                assert(g.vertices.contains_key(a));
            }
            match v.trunk {
                Edge::With { id: t } => {
                    assert(g.vertices.contains_key(t));
                },
                Edge::Unresolved => {},
            }
            match v.branch {
                Edge::With { id: b } => {
                    assert(g.vertices.contains_key(b));
                },
                Edge::Unresolved => {},
            }
        }
        assert forall|key: TransactionId| #[trigger] h.awaited.contains_key(key) implies h.awaited_ok(
            key,
        ) by {
            assert(g.awaited_ok(key));
            assert forall|r: TransactionId| #[trigger] h.awaited[key].contains(r) implies h.has(r)
                && h.vertices[r].awaits(key) by {
                assert(g.vertices.contains_key(r));
            }
        }
        assert forall|id: TransactionId| #[trigger] h.order.contains(id) implies h.has(id) by {
            assert(g.order.contains(id));
        }
    }
}

/// A state is pinned by its links: among the states that differ from `g` in
/// their marks only, the one whose marks are sound and up to date is `g` with
/// each vertex marked solid exactly if it can be shown solid.
pub proof fn lemma_settle_unique(g: TangleView, h: TangleView)
    requires
        g.marks_only(h),
        h.sound(),
        h.settled(),
    ensures
        h == g.settle(),
{
    lemma_marks_keep_links(g, h);
    assert forall|id: TransactionId| #[trigger] g.vertices.contains_key(id) implies h.vertices[id]
        == g.settle().vertices[id] by {
        assert(h.vertices.dom().contains(id));
        lemma_solid_iff_grounded(h, id);
        if exists|n: nat| h.grounded(id, n) {
            let n = choose|n: nat| h.grounded(id, n);
            lemma_grounded_carries(h, g, id, n);
        }
        if exists|n: nat| g.grounded(id, n) {
            let n = choose|n: nat| g.grounded(id, n);
            lemma_grounded_carries(g, h, id, n);
        }
    }
    assert(h.vertices =~= g.settle().vertices);
}

/// What holds of a state by its vertices, its pending index and its solid
/// entry points holds of every state that agrees with it in these.
pub proof fn lemma_same_vertices_wf(g: TangleView, h: TangleView)
    requires
        h.vertices == g.vertices,
        h.order == g.order,
        h.awaited == g.awaited,
        h.entry_points == g.entry_points,
        h.capacity == g.capacity,
        g.linked(),
        g.sound(),
        g.settled(),
    ensures
        h.linked(),
        h.sound(),
        h.settled(),
{
    assert forall|id: TransactionId| #[trigger] h.vertices.contains_key(id) implies h.vertex_ok(
        id,
    ) by {
        assert(g.vertex_ok(id));
    }
    assert forall|key: TransactionId| #[trigger] h.awaited.contains_key(key) implies h.awaited_ok(
        key,
    ) by {
        assert(g.awaited_ok(key));
    }
    assert(keeps_past(g, h));
    lemma_sound_carries(g, h);
    assert forall|id: TransactionId| !#[trigger] h.unsettled(id) by {
        assert(!g.unsettled(id));
    }
}

/// The vertices that are not marked solid are finitely many.
proof fn lemma_unmarked_finite(g: TangleView)
    ensures
        g.unmarked().finite(),
{
    vstd::seq_lib::seq_to_set_is_finite(g.order);
    assert(g.unmarked().subset_of(g.order.to_set()));
    vstd::set_lib::lemma_set_subset_finite(g.order.to_set(), g.unmarked());
}

/// Marking a vertex solid that was not leaves one less that is not marked.
proof fn lemma_unmarked_shrinks(g: TangleView, h: TangleView, id: TransactionId)
    requires
        g.marks_only(h),
        g.linked(),
        g.has(id),
        !g.vertices[id].solid,
        h.vertices[id].solid,
        forall|x: TransactionId|
            #![trigger h.vertices[x]]
            g.has(x) && x != id ==> h.vertices[x].solid == g.vertices[x].solid,
    ensures
        g.unmarked().finite(),
        h.unmarked().finite(),
        h.unmarked().len() < g.unmarked().len(),
{
    lemma_unmarked_finite(g);
    lemma_unmarked_finite(h);
    assert(g.vertex_ok(id));
    assert(g.unmarked().contains(id));
    assert(h.unmarked() =~= g.unmarked().remove(id)) by {
        assert forall|x: TransactionId| h.unmarked().contains(x) <==> g.unmarked().remove(
            id,
        ).contains(x) by {
            if g.order.contains(x) {
                assert(g.has(x));
            }
        }
    }
}

impl Tangle {
    /// Whether `edge` is resolved and leads to a solid vertex.
    fn leads_to_solid(&self, edge: Edge) -> (b: bool)
        requires
            self.sane(),
        ensures
            b == (edge matches Edge::With { id: t } && self@.solid_at(t)),
    {
        match edge {
            Edge::With { id } => match self.position(id) {
                Some(p) => self.vertex_at(p).solid,
                None => false,
            },
            Edge::Unresolved => false,
        }
    }

    /// Brings the marks up to date after something about `root` has changed:
    /// marks `root` solid if it ought to be, then each approver of a newly
    /// marked vertex that ought to be, and so on. A vertex that is marked
    /// solid stays so.
    ///
    /// Apart from the marks nothing changes, and nothing at all where `root`
    /// is not in the store, is marked solid already, or has no claim to be.
    /// Each newly marked vertex can be shown solid from the solid entry
    /// points. Afterwards `root` is up to date, and so is every vertex that
    /// was up to date before: where no vertex but `root` was behind, each
    /// vertex is marked solid exactly if it can be shown solid.
    pub fn try_solidify(&mut self, root: TransactionId)
        requires
            old(self).sane(),
            old(self)@.linked(),
            old(self)@.sound(),
        ensures
            final(self).sane(),
            final(self)@.linked(),
            final(self)@.sound(),
            old(self)@.marks_only(final(self)@),
            forall|id: TransactionId| #[trigger]
                old(self)@.solid_at(id) ==> final(self)@.solid_at(id),
            forall|id: TransactionId| #[trigger]
                final(self)@.unsettled(id) ==> old(self)@.unsettled(id) && id != root,
            !old(self)@.unsettled(root) ==> final(self)@ == old(self)@,
            (forall|id: TransactionId| #[trigger] old(self)@.unsettled(id) ==> id == root)
                ==> final(self)@ == old(self)@.settle(),
    {
        let mut stack: Vec<TransactionId> = Vec::new();
        stack.push(root);
        proof {
            lemma_marks_keep_links(old(self)@, self@);
            lemma_unmarked_finite(self@);
            assert(stack@[0] == root);
        }
        while stack.len() > 0
            invariant
                self.sane(),
                self@.linked(),
                self@.sound(),
                old(self)@.linked(),
                old(self)@.marks_only(self@),
                forall|id: TransactionId| #[trigger]
                    old(self)@.solid_at(id) ==> self@.solid_at(id),
                forall|id: TransactionId| #[trigger]
                    self@.unsettled(id) ==> (old(self)@.unsettled(id) && id != root)
                        || stack@.contains(id),
                !old(self)@.unsettled(root) ==> self@ == old(self)@ && forall|k: int|
                    0 <= k < stack@.len() ==> stack@[k] == root,
                self@.unmarked().finite(),
            decreases self@.unmarked().len(), stack@.len(),
        {
            let ghost before = self@;
            let ghost stack_before = stack@;
            let id = stack.pop().unwrap();
            assert forall|x: TransactionId| #[trigger] stack_before.contains(x) implies x == id
                || stack@.contains(x) by {
                let i = choose|i: int| 0 <= i < stack_before.len() && stack_before[i] == x;
                if i < stack@.len() {
                    assert(stack@[i] == x);
                }
            }
            match self.position(id) {
                None => {},
                Some(p) => {
                    let v = self.vertex_at(p);
                    if !v.solid {
                        let trunk = v.trunk;
                        let branch = v.branch;
                        let ok = self.is_entry_point(id) || (self.leads_to_solid(trunk)
                            && self.leads_to_solid(branch));
                        assert(ok == before.may_solidify(id));
                        if ok {
                            let v = self.vertex_mut(p);
                            v.solid = true;
                            proof {
                                let now = self@;
                                assert(before.vertices[id].solid == false);
                                assert(now.vertices =~= before.vertices.insert(
                                    id,
                                    VertexView { solid: true, ..before.vertices[id] },
                                ));
                                assert(before.marks_only(now)) by {
                                    assert(now.vertices.dom() =~= before.vertices.dom());
                                }
                                assert(old(self)@.marks_only(now)) by {
                                    assert forall|x: TransactionId| #[trigger]
                                        old(self)@.vertices.contains_key(
                                            x,
                                        ) implies now.vertices[x] == (VertexView {
                                        solid: now.vertices[x].solid,
                                        ..old(self)@.vertices[x]
                                    }) by {
                                        assert(before.vertices.dom().contains(x));
                                    }
                                }
                                lemma_marks_keep_links(before, now);
                                lemma_unmarked_shrinks(before, now, id);
                                // the new mark is justified
                                assert(now.sound()) by {
                                    assert forall|x: TransactionId| #[trigger]
                                        now.solid_at(x) implies exists|n: nat|
                                        now.grounded(x, n) by {
                                        if x == id {
                                            if now.entry_points.contains(id) {
                                                assert(now.grounded(id, 1));
                                            } else {
                                                let t = before.vertices[id].trunk->id;
                                                let b = before.vertices[id].branch->id;
                                                assert(before.solid_at(t));
                                                assert(before.solid_at(b));
                                                let nt = choose|n: nat| before.grounded(t, n);
                                                let nb = choose|n: nat| before.grounded(b, n);
                                                let m = if nt < nb {
                                                    nb
                                                } else {
                                                    nt
                                                };
                                                lemma_grounded_rank(before, t, nt, m);
                                                lemma_grounded_rank(before, b, nb, m);
                                                lemma_grounded_carries(before, now, t, m);
                                                lemma_grounded_carries(before, now, b, m);
                                                assert(now.grounded(id, m + 1));
                                            }
                                        } else {
                                            assert(before.solid_at(x));
                                            let n = choose|n: nat| before.grounded(x, n);
                                            lemma_grounded_carries(before, now, x, n);
                                        }
                                    }
                                }
                            }
                            let ghost now = self@;
                            let v = self.vertex_at(p);
                            let n = v.referrers.len();
                            let mut j: usize = 0;
                            let ghost stack_mid = stack@;
                            while j < n
                                invariant
                                    n == v.referrers@.len(),
                                    0 <= j <= n,
                                    forall|x: TransactionId| #[trigger]
                                        stack_mid.contains(x) ==> stack@.contains(x),
                                    forall|k: int|
                                        0 <= k < j ==> stack@.contains(#[trigger] v.referrers@[k]),
                                decreases n - j,
                            {
                                let ghost s0 = stack@;
                                stack.push(v.referrers[j]);
                                proof {
                                    assert(stack@[s0.len() as int] == v.referrers@[j as int]);
                                    assert forall|x: TransactionId| #[trigger]
                                        s0.contains(x) implies stack@.contains(x) by {
                                        let i = choose|i: int| 0 <= i < s0.len() && s0[i] == x;
                                        assert(stack@[i] == x);
                                    }
                                }
                                j = j + 1;
                            }
                            proof {
                                assert forall|x: TransactionId| #[trigger]
                                    now.unsettled(x) implies (old(self)@.unsettled(x) && x
                                    != root) || stack@.contains(x) by {
                                    if before.unsettled(x) {
                                        assert(x != id);
                                        assert(stack_before.contains(x) ==> stack_mid.contains(x));
                                    } else {
                                        // the new mark made `x` fall behind:
                                        // one of its links leads to `id`
                                        assert(before.vertices.dom().contains(x));
                                        assert(now.vertices[x].approves(id));
                                        assert(now.vertex_ok(x));
                                        assert(now.vertices[id].approvers.contains(x));
                                        assert(v.referrers@.to_set().contains(x));
                                        let k = choose|k: int|
                                            0 <= k < v.referrers@.len() && v.referrers@[k] == x;
                                        assert(stack@.contains(v.referrers@[k]));
                                    }
                                }
                            }
                        } else {
                            assert(!self@.unsettled(id));
                        }
                    } else {
                        assert(!self@.unsettled(id));
                    }
                },
            }
        }
        proof {
            assert forall|id: TransactionId| #[trigger] self@.unsettled(id) implies old(
                self,
            )@.unsettled(id) && id != root by {
                assert(!stack@.contains(id));
            }
            if forall|id: TransactionId| #[trigger] old(self)@.unsettled(id) ==> id == root {
                lemma_settle_unique(old(self)@, self@);
            }
        }
    }
}

} // verus!

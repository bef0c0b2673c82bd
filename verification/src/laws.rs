//! What holds of the ledger graph across its operations.
use crate::edge::Edge;
use crate::evict::{lemma_without_nothing, lemma_without_wf};
use crate::id::TransactionId;
use crate::insert::lemma_inserted_linked;
use crate::model::TangleView;
use crate::select::{lemma_reject_len, lemma_select_members};
use crate::solidity::{
    keeps_past, lemma_grounded_carries, lemma_grounded_rank, lemma_marks_keep_links,
    lemma_solid_iff_entry_point_or_solid_approvees, lemma_solid_iff_grounded,
};
use crate::vertex::{BundledTransaction, VertexView};
use vstd::prelude::*;

verus! {

/// Bringing the marks up to date changes nothing but marks, and leaves marks
/// that are sound and up to date.
pub proof fn lemma_settle_wf(g: TangleView)
    requires
        g.linked(),
    ensures
        g.marks_only(g.settle()),
        g.settle().linked(),
        g.settle().sound(),
        g.settle().settled(),
        forall|id: TransactionId, n: nat|
            g.grounded(id, n) <==> #[trigger] g.settle().grounded(id, n),
{
    let h = g.settle();
    assert(h.vertices.dom() =~= g.vertices.dom());
    assert(g.marks_only(h));
    lemma_marks_keep_links(g, h);
    assert forall|id: TransactionId, n: nat| g.grounded(id, n) <==> #[trigger] h.grounded(
        id,
        n,
    ) by {
        if g.grounded(id, n) {
            lemma_grounded_carries(g, h, id, n);
        }
        if h.grounded(id, n) {
            lemma_grounded_carries(h, g, id, n);
        }
    }
    assert forall|id: TransactionId| #[trigger] h.solid_at(id) implies exists|n: nat|
        h.grounded(id, n) by {
        let n = choose|n: nat| g.grounded(id, n);
        assert(h.grounded(id, n));
    }
    assert forall|id: TransactionId| !#[trigger] h.unsettled(id) by {
        if h.has(id) && h.may_solidify(id) {
            if h.entry_points.contains(id) {
                assert(g.grounded(id, 1));
            } else {
                let t = h.vertices[id].trunk->id;
                let b = h.vertices[id].branch->id;
                let nt = choose|n: nat| g.grounded(t, n);
                let nb = choose|n: nat| g.grounded(b, n);
                let m = if nt < nb {
                    nb
                } else {
                    nt
                };
                lemma_grounded_rank(g, t, nt, m);
                lemma_grounded_rank(g, b, nb, m);
                assert(g.grounded(id, m + 1));
            }
        }
    }
}

/// A batch that makes room for a record holds vertices of the store only,
/// each of them once; none of them is a solid entry point and none has an
/// approver. What is left has room for one more vertex.
pub proof fn lemma_batch_spares(g: TangleView, batch: Seq<TransactionId>)
    requires
        g.wf(),
        g.admits(),
        g.makes_room(batch),
    ensures
        forall|x: TransactionId| #[trigger]
            batch.contains(x) ==> g.has(x) && !g.entry_points.contains(x) && g.vertices[x].approvers
                == Set::<TransactionId>::empty(),
        g.without(batch.to_set()).wf(),
        g.without(batch.to_set()).size() + batch.len() == g.size(),
        g.without(batch.to_set()).size() < g.capacity,
{
    assert forall|x: TransactionId| #[trigger] batch.contains(x) implies g.has(x)
        && !g.entry_points.contains(x) && g.vertices[x].approvers == Set::<
        TransactionId,
    >::empty() by {
        let i = choose|i: int| 0 <= i < batch.len() && batch[i] == x;
        assert(g.evictable(batch[i]));
    }
    assert forall|x: TransactionId| batch.to_set().contains(x) && g.has(
        x,
    ) implies #[trigger] g.vertices[x].approvers == Set::<TransactionId>::empty() by {
        assert(batch.contains(x));
    }
    lemma_without_wf(g, batch.to_set());
    assert forall|i: int| 0 <= i < batch.len() implies g.order.contains(#[trigger] batch[i]) by {
        assert(batch.contains(batch[i]));
        assert(g.vertices.contains_key(batch[i]));
        assert(g.vertex_ok(batch[i]));
    }
    lemma_reject_len(g.order, batch);
}

/// Taking a record in that the store does not hold and has room for, or can
/// make room for, leaves a ledger graph in a state that it can be in. The
/// store then holds the new record and what it held before, less what was
/// evicted to make room; it holds one vertex more than was left after that,
/// and no more than its capacity.
pub proof fn lemma_admitted_wf(
    g: TangleView,
    batch: Seq<TransactionId>,
    id: TransactionId,
    trunk: Option<TransactionId>,
    branch: Option<TransactionId>,
    bundle: Option<BundledTransaction>,
)
    requires
        g.wf(),
        !g.has(id),
        g.admits(),
        g.makes_room(batch),
    ensures
        g.admitted(batch, id, trunk, branch, bundle).wf(),
        g.admitted(batch, id, trunk, branch, bundle).has(id),
        forall|x: TransactionId|
            #![trigger g.admitted(batch, id, trunk, branch, bundle).has(x)]
            g.admitted(batch, id, trunk, branch, bundle).has(x) <==> x == id || (g.has(x)
                && !batch.contains(x)),
        g.admitted(batch, id, trunk, branch, bundle).size() + batch.len() == g.size() + 1,
        g.admitted(batch, id, trunk, branch, bundle).size() <= g.capacity,
        g.inserted(id, trunk, branch, bundle).marks_only(
            g.inserted(id, trunk, branch, bundle).settle(),
        ),
        g.without(batch.to_set()).inserted(id, trunk, branch, bundle).marks_only(
            g.admitted(batch, id, trunk, branch, bundle),
        ),
{
    let mid = g.without(batch.to_set());
    let h0 = mid.inserted(id, trunk, branch, bundle);
    lemma_batch_spares(g, batch);
    lemma_inserted_linked(mid, id, trunk, branch, bundle);
    lemma_settle_wf(h0);
    assert(g.inserted(id, trunk, branch, bundle).vertices.dom() =~= g.inserted(
        id,
        trunk,
        branch,
        bundle,
    ).settle().vertices.dom());
    let h = h0.settle();
    assert forall|x: TransactionId| #![trigger h.has(x)] h.has(x) <==> x == id || (g.has(x)
        && !batch.contains(x)) by {
        assert(h.vertices.dom().contains(x) <==> h0.vertices.dom().contains(x));
    }
}

/// Duplicate rejection: once a record has been taken in, the store holds it,
/// so that taking it in again is refused; and the store holds exactly one
/// vertex more than before, where nothing had to be evicted.
pub proof fn lemma_insert_then_duplicate(
    g: TangleView,
    id: TransactionId,
    trunk: Option<TransactionId>,
    branch: Option<TransactionId>,
    bundle: Option<BundledTransaction>,
)
    requires
        g.wf(),
        !g.has(id),
        !g.is_full(),
    ensures
        g.admitted(Seq::empty(), id, trunk, branch, bundle).has(id),
        g.admitted(Seq::empty(), id, trunk, branch, bundle).size() == g.size() + 1,
{
    lemma_admitted_wf(g, Seq::empty(), id, trunk, branch, bundle);
}

/// Edge symmetry: in a ledger graph, a vertex has a link that leads to `a`
/// if and only if `a` is in the store and lists that vertex among its
/// approvers; the two are then next to each other, whichever is asked first.
pub proof fn lemma_edge_symmetry(g: TangleView, a: TransactionId, b: TransactionId)
    requires
        g.wf(),
    ensures
        (g.has(b) && g.vertices[b].approves(a)) <==> (g.has(a) && g.vertices[a].approvers.contains(
            b,
        )),
        g.has(b) && g.vertices[b].approves(a) ==> g.adjacent(a, b) && g.adjacent(b, a),
        g.adjacent(a, b) == g.adjacent(b, a),
{
    if g.has(b) {
        assert(g.vertex_ok(b));
    }
    if g.has(a) {
        assert(g.vertex_ok(a));
    }
}

/// Vertices neither of which approves the other are not next to each other.
pub proof fn lemma_unrelated_not_adjacent(g: TangleView, a: TransactionId, c: TransactionId)
    requires
        g.wf(),
        g.has(a) ==> !g.vertices[a].approves(c),
        g.has(c) ==> !g.vertices[c].approves(a),
    ensures
        !g.adjacent(a, c),
{
}

/// A record that names a missing record as its trunk or branch waits for
/// it: its link is not resolved, and the pending index lists it under the
/// missing record.
pub proof fn lemma_missing_approvee_awaited(
    g: TangleView,
    batch: Seq<TransactionId>,
    x: TransactionId,
    trunk: Option<TransactionId>,
    branch: Option<TransactionId>,
    bundle: Option<BundledTransaction>,
    missing: TransactionId,
)
    requires
        g.wf(),
        !g.has(x),
        g.admits(),
        g.makes_room(batch),
        !g.has(missing),
        missing != x,
        trunk == Some(missing) || branch == Some(missing),
    ensures
        ({
            let h = g.admitted(batch, x, trunk, branch, bundle);
            &&& h.has(x)
            &&& !h.has(missing)
            &&& h.vertices[x].awaits(missing)
            &&& trunk == Some(missing) ==> h.vertices[x].trunk == Edge::Unresolved
            &&& branch == Some(missing) ==> h.vertices[x].branch == Edge::Unresolved
            &&& h.awaited.contains_key(missing)
            &&& h.awaited[missing].contains(x)
        }),
{
    lemma_admitted_wf(g, batch, x, trunk, branch, bundle);
    let h = g.admitted(batch, x, trunk, branch, bundle);
    assert(h.vertex_ok(x));
}

/// Pending resolution: when a record arrives that a vertex of the store
/// waits for, and the vertex is not evicted to make room, each link of the
/// vertex that waited leads to the new record afterwards, and the new record
/// lists the vertex among its approvers.
pub proof fn lemma_pending_resolution(
    g: TangleView,
    batch: Seq<TransactionId>,
    x: TransactionId,
    t: TransactionId,
    trunk: Option<TransactionId>,
    branch: Option<TransactionId>,
    bundle: Option<BundledTransaction>,
)
    requires
        g.wf(),
        g.has(x),
        g.vertices[x].awaits(t),
        g.admits(),
        g.makes_room(batch),
        !batch.contains(x),
    ensures
        ({
            let h = g.admitted(batch, t, trunk, branch, bundle);
            &&& h.has(t)
            &&& h.has(x)
            &&& g.vertices[x].awaited_trunk == Some(t) ==> h.vertices[x].trunk == (Edge::With {
                id: t,
            })
            &&& g.vertices[x].awaited_branch == Some(t) ==> h.vertices[x].branch == (Edge::With {
                id: t,
            })
            &&& !h.vertices[x].awaits(t)
            &&& h.vertices[t].approvers.contains(x)
            &&& h.adjacent(x, t)
        }),
{
    assert(g.vertex_ok(x));
    lemma_admitted_wf(g, batch, t, trunk, branch, bundle);
    let h = g.admitted(batch, t, trunk, branch, bundle);
    assert(h.vertex_ok(x));
}

/// States with the same links have the same past: what can be shown solid
/// in one can be shown solid in the other.
pub proof fn lemma_same_links_same_past(g: TangleView, h: TangleView)
    requires
        g.same_links(h),
    ensures
        keeps_past(g, h),
        keeps_past(h, g),
        forall|id: TransactionId, n: nat| g.grounded(id, n) <==> #[trigger] h.grounded(id, n),
        forall|id: TransactionId|
            #![trigger g.settle().vertices[id]]
            g.has(id) ==> h.settle().has(id) && g.settle().vertices[id].solid
                == h.settle().vertices[id].solid,
{
    assert forall|id: TransactionId| h.vertices.contains_key(id) <==> g.vertices.contains_key(
        id,
    ) by {
        assert(h.vertices.dom().contains(id) <==> g.vertices.dom().contains(id));
    }
    assert(keeps_past(g, h));
    assert(keeps_past(h, g));
    assert forall|id: TransactionId, n: nat| g.grounded(id, n) <==> #[trigger] h.grounded(
        id,
        n,
    ) by {
        if g.grounded(id, n) {
            lemma_grounded_carries(g, h, id, n);
        }
        if h.grounded(id, n) {
            lemma_grounded_carries(h, g, id, n);
        }
    }
    assert forall|id: TransactionId|
        #![trigger g.settle().vertices[id]]
        g.has(id) implies h.settle().has(id) && g.settle().vertices[id].solid
        == h.settle().vertices[id].solid by {
        if exists|n: nat| g.grounded(id, n) {
            let n = choose|n: nat| g.grounded(id, n);
            assert(h.grounded(id, n));
        }
        if exists|n: nat| h.grounded(id, n) {
            let n = choose|n: nat| h.grounded(id, n);
            assert(g.grounded(id, n));
        }
    }
}

/// Taking in two records one after the other gives the same links whichever
/// comes first.
pub proof fn lemma_inserted_commutes(
    g: TangleView,
    x: TransactionId,
    x_trunk: Option<TransactionId>,
    x_branch: Option<TransactionId>,
    x_bundle: Option<BundledTransaction>,
    y: TransactionId,
    y_trunk: Option<TransactionId>,
    y_branch: Option<TransactionId>,
    y_bundle: Option<BundledTransaction>,
)
    requires
        g.linked(),
        !g.has(x),
        !g.has(y),
        x != y,
    ensures
        g.inserted(x, x_trunk, x_branch, x_bundle).inserted(
            y,
            y_trunk,
            y_branch,
            y_bundle,
        ).same_links(
            g.inserted(y, y_trunk, y_branch, y_bundle).inserted(x, x_trunk, x_branch, x_bundle),
        ),
{
    let gx = g.inserted(x, x_trunk, x_branch, x_bundle);
    let gy = g.inserted(y, y_trunk, y_branch, y_bundle);
    let a = gx.inserted(y, y_trunk, y_branch, y_bundle);
    let b = gy.inserted(x, x_trunk, x_branch, x_bundle);
    assert(a.vertices.dom() =~= b.vertices.dom());
    if g.awaited.contains_key(x) {
        assert(g.awaited_ok(x));
    }
    if g.awaited.contains_key(y) {
        assert(g.awaited_ok(y));
    }
    assert(a.awaited =~~= b.awaited) by {
        assert forall|k: TransactionId|
            a.awaited.contains_key(k) <==> b.awaited.contains_key(k) by {}
        assert forall|k: TransactionId| #[trigger] a.awaited.contains_key(k) implies a.awaited[k]
            =~= b.awaited[k] by {}
    }
    assert forall|v: TransactionId| #[trigger] a.vertices.contains_key(v) implies b.vertices[v]
        == (VertexView {
        last_access: b.vertices[v].last_access,
        solid: b.vertices[v].solid,
        ..a.vertices[v]
    }) by {
        if v != x && v != y {
            assert(g.vertex_ok(v));
        }
        assert(a.vertices[v].approvers =~= b.vertices[v].approvers);
    }
}

/// Order of arrival: where two records that the store does not hold arrive
/// one after the other and the store has room for both, the ledger graph
/// has the same vertices, links, approvers and pending references whichever
/// comes first, and marks the same vertices solid.
pub proof fn lemma_arrival_order(
    g: TangleView,
    x: TransactionId,
    x_trunk: Option<TransactionId>,
    x_branch: Option<TransactionId>,
    x_bundle: Option<BundledTransaction>,
    y: TransactionId,
    y_trunk: Option<TransactionId>,
    y_branch: Option<TransactionId>,
    y_bundle: Option<BundledTransaction>,
)
    requires
        g.wf(),
        !g.has(x),
        !g.has(y),
        x != y,
        g.size() + 2 <= g.capacity,
    ensures
        ({
            let none = Seq::<TransactionId>::empty();
            let a = g.admitted(none, x, x_trunk, x_branch, x_bundle).admitted(
                none,
                y,
                y_trunk,
                y_branch,
                y_bundle,
            );
            let b = g.admitted(none, y, y_trunk, y_branch, y_bundle).admitted(
                none,
                x,
                x_trunk,
                x_branch,
                x_bundle,
            );
            &&& a.same_links(b)
            &&& forall|v: TransactionId| #[trigger] a.has(v) ==> a.vertices[v].solid
                == b.vertices[v].solid
        }),
{
    let none = Seq::<TransactionId>::empty();
    assert(none.to_set() =~= Set::<TransactionId>::empty());
    // one after the other, with the marks brought up to date in between
    let gx = g.inserted(x, x_trunk, x_branch, x_bundle);
    let gy = g.inserted(y, y_trunk, y_branch, y_bundle);
    let gxs = g.admitted(none, x, x_trunk, x_branch, x_bundle);
    let gys = g.admitted(none, y, y_trunk, y_branch, y_bundle);
    lemma_without_nothing(g);
    lemma_admitted_wf(g, none, x, x_trunk, x_branch, x_bundle);
    lemma_admitted_wf(g, none, y, y_trunk, y_branch, y_bundle);
    assert(gxs == gx.settle());
    assert(gys == gy.settle());
    lemma_without_nothing(gxs);
    lemma_without_nothing(gys);
    let a0 = gxs.inserted(y, y_trunk, y_branch, y_bundle);
    let b0 = gys.inserted(x, x_trunk, x_branch, x_bundle);
    let a = a0.settle();
    let b = b0.settle();
    assert(gxs.vertices.dom().contains(y) <==> gx.vertices.dom().contains(y));
    assert(gys.vertices.dom().contains(x) <==> gy.vertices.dom().contains(x));
    lemma_admitted_wf(gxs, none, y, y_trunk, y_branch, y_bundle);
    lemma_admitted_wf(gys, none, x, x_trunk, x_branch, x_bundle);
    // the same without bringing the marks up to date in between
    let a1 = gx.inserted(y, y_trunk, y_branch, y_bundle);
    let b1 = gy.inserted(x, x_trunk, x_branch, x_bundle);
    lemma_inserted_commutes(g, x, x_trunk, x_branch, x_bundle, y, y_trunk, y_branch, y_bundle);
    assert(a1.same_links(a0)) by {
        assert(a1.vertices.dom() =~= a0.vertices.dom());
        assert forall|v: TransactionId| #[trigger] a1.vertices.contains_key(v) implies a0.vertices[v]
            == (VertexView {
            last_access: a0.vertices[v].last_access,
            solid: a0.vertices[v].solid,
            ..a1.vertices[v]
        }) by {
            if v != y {
                assert(gx.vertices.contains_key(v));
                assert(gxs.vertices[v] == VertexView {
                    solid: gxs.vertices[v].solid,
                    ..gx.vertices[v]
                });
            }
        }
    }
    assert(b1.same_links(b0)) by {
        assert(b1.vertices.dom() =~= b0.vertices.dom());
        assert forall|v: TransactionId| #[trigger] b1.vertices.contains_key(v) implies b0.vertices[v]
            == (VertexView {
            last_access: b0.vertices[v].last_access,
            solid: b0.vertices[v].solid,
            ..b1.vertices[v]
        }) by {
            if v != x {
                assert(gy.vertices.contains_key(v));
                assert(gys.vertices[v] == VertexView {
                    solid: gys.vertices[v].solid,
                    ..gy.vertices[v]
                });
            }
        }
    }
    assert(a0.same_links(b0)) by {
        assert(a0.vertices.dom() =~= b0.vertices.dom());
        assert forall|v: TransactionId| #[trigger] a0.vertices.contains_key(v) implies b0.vertices[v]
            == (VertexView {
            last_access: b0.vertices[v].last_access,
            solid: b0.vertices[v].solid,
            ..a0.vertices[v]
        }) by {
            assert(a1.vertices.contains_key(v));
            assert(b1.vertices.dom().contains(v));
        }
    }
    lemma_same_links_same_past(a0, b0);
    assert(a.same_links(b)) by {
        assert(a.vertices.dom() =~= b.vertices.dom());
        assert forall|v: TransactionId| #[trigger] a.vertices.contains_key(v) implies b.vertices[v]
            == (VertexView {
            last_access: b.vertices[v].last_access,
            solid: b.vertices[v].solid,
            ..a.vertices[v]
        }) by {
            assert(a0.vertices.contains_key(v));
            assert(b0.vertices.dom().contains(v));
        }
    }
    assert forall|v: TransactionId| #[trigger] a.has(v) implies a.vertices[v].solid
        == b.vertices[v].solid by {
        assert(a0.has(v));
        assert(a0.settle().vertices[v].solid == b0.settle().vertices[v].solid);
    }
}

/// A resolved link stays as it is: where a vertex is in the store before
/// and after a record is taken in, each of its links that was resolved
/// before leads to the same vertex afterwards, and that vertex is still in
/// the store.
pub proof fn lemma_insert_keeps_links(
    g: TangleView,
    batch: Seq<TransactionId>,
    id: TransactionId,
    trunk: Option<TransactionId>,
    branch: Option<TransactionId>,
    bundle: Option<BundledTransaction>,
    x: TransactionId,
)
    requires
        g.wf(),
        !g.has(id),
        g.admits(),
        g.makes_room(batch),
        g.has(x),
        !batch.contains(x),
    ensures
        ({
            let h = g.admitted(batch, id, trunk, branch, bundle);
            &&& h.has(x)
            &&& g.vertices[x].trunk matches Edge::With { id: t } ==> h.vertices[x].trunk
                == g.vertices[x].trunk && h.has(t)
            &&& g.vertices[x].branch matches Edge::With { id: b } ==> h.vertices[x].branch
                == g.vertices[x].branch && h.has(b)
        }),
{
    let mid = g.without(batch.to_set());
    let h0 = mid.inserted(id, trunk, branch, bundle);
    let h = g.admitted(batch, id, trunk, branch, bundle);
    lemma_admitted_wf(g, batch, id, trunk, branch, bundle);
    lemma_batch_spares(g, batch);
    assert forall|y: TransactionId| batch.to_set().contains(y) && g.has(
        y,
    ) implies #[trigger] g.vertices[y].approvers == Set::<TransactionId>::empty() by {
        assert(batch.contains(y));
    }
    lemma_without_wf(g, batch.to_set());
    lemma_inserted_linked(mid, id, trunk, branch, bundle);
    assert(g.vertex_ok(x));
    assert(mid.vertices.contains_key(x));
    assert(h0.vertices.contains_key(x));
    assert(h.vertices.contains_key(x));
    match g.vertices[x].trunk {
        Edge::With { id: t } => {
            assert(g.vertices[t].approvers.contains(x));
            assert(mid.vertices.contains_key(t));
            assert(h0.vertices.contains_key(t));
            assert(h.vertices.dom().contains(t));
        },
        Edge::Unresolved => {},
    }
    match g.vertices[x].branch {
        Edge::With { id: b } => {
            assert(g.vertices[b].approvers.contains(x));
            assert(mid.vertices.contains_key(b));
            assert(h0.vertices.contains_key(b));
            assert(h.vertices.dom().contains(b));
        },
        Edge::Unresolved => {},
    }
}

/// Solidity is kept: a vertex that is marked solid and stays in the store
/// when a record is taken in is marked solid afterwards.
pub proof fn lemma_insert_keeps_marks(
    g: TangleView,
    batch: Seq<TransactionId>,
    id: TransactionId,
    trunk: Option<TransactionId>,
    branch: Option<TransactionId>,
    bundle: Option<BundledTransaction>,
    x: TransactionId,
)
    requires
        g.wf(),
        !g.has(id),
        g.admits(),
        g.makes_room(batch),
        g.solid_at(x),
        !batch.contains(x),
    ensures
        g.admitted(batch, id, trunk, branch, bundle).solid_at(x),
{
    let mid = g.without(batch.to_set());
    let h0 = mid.inserted(id, trunk, branch, bundle);
    lemma_admitted_wf(g, batch, id, trunk, branch, bundle);
    lemma_batch_spares(g, batch);
    lemma_inserted_linked(mid, id, trunk, branch, bundle);
    let n = choose|n: nat| g.grounded(x, n);
    assert forall|y: TransactionId| batch.to_set().contains(y) && g.has(
        y,
    ) implies #[trigger] g.vertices[y].approvers == Set::<TransactionId>::empty() by {
        assert(batch.contains(y));
    }
    lemma_without_wf(g, batch.to_set());
    lemma_grounded_carries(g, mid, x, n);
    lemma_grounded_carries(mid, h0, x, n);
}

/// In a ledger graph a vertex is marked solid exactly if it can be shown
/// solid from the solid entry points. So once a solid entry point and the
/// whole of its future are in the store, every vertex whose past lies within
/// that is marked solid.
pub proof fn lemma_marks_follow_the_past(g: TangleView, id: TransactionId)
    requires
        g.wf(),
    ensures
        g.solid_at(id) <==> exists|n: nat| g.grounded(id, n),
        g.has(id) ==> (g.vertices[id].solid <==> g.may_solidify(id)),
{
    lemma_solid_iff_grounded(g, id);
    if g.has(id) {
        lemma_solid_iff_entry_point_or_solid_approvees(g, id);
    }
}

/// The tips are the vertices of the store that nobody approves.
pub proof fn lemma_tips_members(g: TangleView, id: TransactionId)
    requires
        g.wf(),
    ensures
        g.tips().contains(id) <==> g.is_tip(id),
        g.tips().no_duplicates(),
{
    lemma_select_members(g.order, Set::new(|x: TransactionId| g.is_tip(x)));
    if g.has(id) {
        assert(g.vertex_ok(id));
    }
}

/// Tip correctness, first half: a record that nobody waited for and that
/// does not name itself as an approvee is a tip once it is taken in.
pub proof fn lemma_fresh_vertex_is_tip(
    g: TangleView,
    batch: Seq<TransactionId>,
    id: TransactionId,
    trunk: Option<TransactionId>,
    branch: Option<TransactionId>,
    bundle: Option<BundledTransaction>,
)
    requires
        g.wf(),
        !g.has(id),
        g.admits(),
        g.makes_room(batch),
        !g.awaited.contains_key(id),
        trunk != Some(id),
        branch != Some(id),
    ensures
        g.admitted(batch, id, trunk, branch, bundle).is_tip(id),
        g.admitted(batch, id, trunk, branch, bundle).tips().contains(id),
{
    lemma_admitted_wf(g, batch, id, trunk, branch, bundle);
    let h = g.admitted(batch, id, trunk, branch, bundle);
    lemma_tips_members(h, id);
}

/// Tip correctness, second half: a vertex of the store that an arriving
/// record names as its trunk or branch is no tip afterwards.
pub proof fn lemma_approved_vertex_is_no_tip(
    g: TangleView,
    batch: Seq<TransactionId>,
    id: TransactionId,
    trunk: Option<TransactionId>,
    branch: Option<TransactionId>,
    bundle: Option<BundledTransaction>,
    x: TransactionId,
)
    requires
        g.wf(),
        !g.has(id),
        g.admits(),
        g.makes_room(batch),
        g.has(x),
        !batch.contains(x),
        trunk == Some(x) || branch == Some(x),
    ensures
        g.admitted(batch, id, trunk, branch, bundle).has(x),
        g.admitted(batch, id, trunk, branch, bundle).vertices[x].approvers.contains(id),
        !g.admitted(batch, id, trunk, branch, bundle).is_tip(x),
        !g.admitted(batch, id, trunk, branch, bundle).tips().contains(x),
{
    lemma_admitted_wf(g, batch, id, trunk, branch, bundle);
    let h = g.admitted(batch, id, trunk, branch, bundle);
    lemma_tips_members(h, x);
    assert(h.vertices[x].approvers.contains(id));
}

/// Two batches that a pass of eviction may take out of the same ledger
/// graph agree up to position `upto`.
proof fn lemma_batch_prefix(
    g: TangleView,
    first: Seq<TransactionId>,
    second: Seq<TransactionId>,
    upto: int,
)
    requires
        g.is_batch(first),
        g.is_batch(second),
        first.to_set() == second.to_set(),
        0 <= upto <= first.len(),
    ensures
        forall|k: int| 0 <= k < upto ==> first[k] == second[k],
    decreases upto,
{
    if upto > 0 {
        lemma_batch_prefix(g, first, second, upto - 1);
        let i = upto - 1;
        if first[i] != second[i] {
            assert(second.to_set().contains(first[i])) by {
                assert(first.contains(first[i]));
            }
            assert(first.to_set().contains(second[i])) by {
                assert(second.contains(second[i]));
            }
            let j = choose|j: int| 0 <= j < second.len() && second[j] == first[i];
            let k = choose|k: int| 0 <= k < first.len() && first[k] == second[i];
            if j < i {
                assert(first[j] == second[j]);
            }
            if k < i {
                assert(second[k] == first[k]);
            }
            assert(g.ranks_before(second[i], second[j]));
            assert(g.ranks_before(first[i], first[k]));
        }
    }
}

/// What a pass of eviction takes out is settled by the state of the ledger
/// graph: there is one batch only.
pub proof fn lemma_batch_unique(g: TangleView, first: Seq<TransactionId>, second: Seq<TransactionId>)
    requires
        g.is_batch(first),
        g.is_batch(second),
    ensures
        first == second,
{
    first.unique_seq_to_set();
    second.unique_seq_to_set();
    if !first.to_set().subset_of(second.to_set()) {
        let x = choose|x: TransactionId| first.to_set().contains(x) && !second.to_set().contains(x);
        let i = choose|i: int| 0 <= i < first.len() && first[i] == x;
        if second.to_set().subset_of(first.to_set()) {
            vstd::set_lib::lemma_subset_equality(second.to_set(), first.to_set());
            assert(false);
        }
        let y = choose|y: TransactionId| second.to_set().contains(y) && !first.to_set().contains(y);
        let j = choose|j: int| 0 <= j < second.len() && second[j] == y;
        assert(g.evictable(first[i]) && g.evictable(second[j]));
        assert(g.ranks_before(first[i], y));
        assert(g.ranks_before(second[j], x));
        assert(false);
    }
    vstd::set_lib::lemma_subset_equality(first.to_set(), second.to_set());
    lemma_batch_prefix(g, first, second, first.len() as int);
    assert(first =~= second);
}

/// Eviction under capacity: what a pass of eviction leaves behind is a
/// ledger graph within its capacity; every solid entry point and every
/// vertex with an approver is still in the store, and every link of a
/// vertex that is left leads to a vertex that is left.
pub proof fn lemma_eviction_spares(g: TangleView, batch: Seq<TransactionId>)
    requires
        g.wf(),
        g.is_batch(batch),
    ensures
        g.without(batch.to_set()).wf(),
        g.without(batch.to_set()).size() <= g.capacity,
        forall|x: TransactionId|
            #![trigger g.without(batch.to_set()).has(x)]
            g.has(x) && (g.entry_points.contains(x) || g.vertices[x].approvers != Set::<
                TransactionId,
            >::empty()) ==> g.without(batch.to_set()).has(x),
        forall|x: TransactionId, t: TransactionId|
            #![trigger g.without(batch.to_set()).vertices[x].approves(t)]
            g.without(batch.to_set()).has(x) && g.without(batch.to_set()).vertices[x].approves(t)
                ==> g.without(batch.to_set()).has(t),
{
    let h = g.without(batch.to_set());
    assert forall|x: TransactionId| batch.to_set().contains(x) && g.has(
        x,
    ) implies #[trigger] g.vertices[x].approvers == Set::<TransactionId>::empty() by {
        let i = choose|i: int| 0 <= i < batch.len() && batch[i] == x;
        assert(g.evictable(batch[i]));
    }
    lemma_without_wf(g, batch.to_set());
    assert forall|x: TransactionId|
        #![trigger h.has(x)]
        g.has(x) && (g.entry_points.contains(x) || g.vertices[x].approvers != Set::<
            TransactionId,
        >::empty()) implies h.has(x) by {
        if batch.contains(x) {
            let i = choose|i: int| 0 <= i < batch.len() && batch[i] == x;
            assert(g.evictable(batch[i]));
        }
    }
    assert forall|x: TransactionId, t: TransactionId|
        #![trigger h.vertices[x].approves(t)]
        h.has(x) && h.vertices[x].approves(t) implies h.has(t) by {
        assert(h.vertex_ok(x));
    }
}

} // verus!

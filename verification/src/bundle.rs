//! Walking a bundle from its tail to its head.
use crate::edge::Edge;
use crate::id::TransactionId;
use crate::model::TangleView;
use crate::tangle::Tangle;
use vstd::prelude::*;

verus! {

/// A bundle walk that has failed stays failed.
pub proof fn lemma_bundle_walk_stays_failed(
    g: TangleView,
    tail: TransactionId,
    key: u64,
    last: usize,
    i: nat,
    j: nat,
)
    requires
        i <= j,
        g.bundle_walk(tail, key, last, i) is None,
    ensures
        g.bundle_walk(tail, key, last, j) is None,
    decreases j,
{
    if i < j {
        lemma_bundle_walk_stays_failed(g, tail, key, last, i, (j - 1) as nat);
    }
}

impl Tangle {
    /// Whether `id` is in the store and says it is the tail of a bundle.
    pub fn is_tail(&self, id: TransactionId) -> (b: bool)
        requires
            self.wf(),
        ensures
            b == self@.is_tail(id),
    {
        match self.position(id) {
            Some(p) => match self.vertex_at(p).bundle {
                Some(note) => note.index == 0,
                None => false,
            },
            None => false,
        }
    }

    /// The head of the bundle whose tail is `bundle_tail`.
    ///
    /// A bundle of one record is its own head. Otherwise the walk follows
    /// the trunk links from the tail, as many hops as the tail's note says
    /// the head is away. Each vertex it reaches has to carry a note with the
    /// tail's bundle hash and the tail's index of the head, and with an
    /// index one higher than the vertex before. Where a link is not
    /// resolved or a vertex does not fit, there is no head to hand back.
    pub fn walk_bundle(&self, bundle_tail: TransactionId) -> (head: Option<TransactionId>)
        requires
            self.wf(),
            self@.is_tail(bundle_tail),
        ensures
            head == self@.bundle_head(bundle_tail),
            self@.vertices[bundle_tail].bundle->0.last == 0 ==> head == Some(bundle_tail),
            head matches Some(h) ==> self@.has(h),
    {
        let ghost g = self@;
        let tail_note = match self.position(bundle_tail) {
            Some(p) => match self.vertex_at(p).bundle {
                Some(note) => note,
                None => { return None; },
            },
            None => { return None; },
        };
        let bundle_hash = tail_note.bundle_hash;
        let bundle_last = tail_note.last;

        // tail == head?
        if bundle_last == 0 {
            return Some(bundle_tail);
        }
        let mut node = bundle_tail;
        let mut index: usize = 0;
        while index < bundle_last
            invariant
                0 <= index <= bundle_last,
                self.wf(),
                self@ == g,
                g.is_tail(bundle_tail),
                g.vertices[bundle_tail].bundle == Some(tail_note),
                bundle_hash == tail_note.bundle_hash,
                bundle_last == tail_note.last,
                bundle_last > 0,
                g.has(node),
                g.bundle_walk(bundle_tail, bundle_hash, bundle_last, index as nat) == Some(node),
            decreases bundle_last - index,
        {
            let ghost here = index as nat;
            proof {
                assert(g.vertices.contains_key(node));
                assert(g.vertex_ok(node));
            }
            let trunk = match self.position(node) {
                Some(p) => self.vertex_at(p).trunk,
                None => Edge::Unresolved,
            };
            let next = match trunk {
                Edge::With { id: t } => match self.position(t) {
                    Some(q) => match self.vertex_at(q).bundle {
                        Some(note) => {
                            // every record of the bundle names the same
                            // bundle hash and the same head, and the
                            // indices go up by one
                            if note.bundle_hash != bundle_hash {
                                None
                            } else if note.last != bundle_last {
                                None
                            } else if note.index != index + 1 {
                                None
                            } else {
                                Some(t)
                            }
                        },
                        None => None,
                    },
                    None => None,
                },
                Edge::Unresolved => None,
            };
            proof {
                assert(next == g.bundle_hop(node, bundle_hash, bundle_last, (here + 1) as int));
                assert(g.bundle_walk(bundle_tail, bundle_hash, bundle_last, here + 1) == next);
            }
            match next {
                Some(t) => {
                    node = t;
                    index = index + 1;
                },
                None => {
                    proof {
                        lemma_bundle_walk_stays_failed(
                            g,
                            bundle_tail,
                            bundle_hash,
                            bundle_last,
                            here + 1,
                            bundle_last as nat,
                        );
                    }
                    return None;
                },
            }
        }
        Some(node)
    }
}

} // verus!

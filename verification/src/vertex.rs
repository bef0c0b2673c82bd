//! The vertices of the ledger graph and what a record says of its bundle.
use crate::edge::Edge;
use crate::id::TransactionId;
use vstd::prelude::*;

verus! {

/// A record as a member of a bundle: a group of records with a common bundle
/// hash, numbered from the tail (index 0) to the head (index `last`) and
/// linked tail to head by their trunk edges.
#[derive(Clone, Copy, Debug)]
pub struct BundledTransaction {
    /// The record's own hash, already cut down to identity width.
    pub hash: u64,
    /// The record's position in its bundle.
    pub index: usize,
    /// The position of the bundle's head.
    pub last: usize,
    /// The hash that the records of one bundle share.
    pub bundle_hash: u64,
    /// Whether the record's sender took its past for complete.
    pub solid: bool,
}

impl BundledTransaction {
    /// The number of records in this record's bundle.
    pub fn size(&self) -> (n: usize)
        requires
            self.last < usize::MAX,
        ensures
            n == self.last + 1,
    {
        self.last + 1
    }

    /// The identity under which the store keeps this record.
    pub fn id(&self) -> (id: TransactionId)
        ensures
            id == TransactionId(self.hash),
    {
        TransactionId(self.hash)
    }
}

impl PartialEq for BundledTransaction {
    /// Two records are the same record if they have the same hash.
    fn eq(&self, other: &Self) -> (same: bool) {
        self.hash == other.hash
    }
}

impl Eq for BundledTransaction {

}

impl vstd::std_specs::cmp::PartialEqSpecImpl for BundledTransaction {
    open spec fn obeys_eq_spec() -> bool {
        true
    }

    open spec fn eq_spec(&self, other: &Self) -> bool {
        self.hash == other.hash
    }
}

/// A vertex of the ledger graph as the store keeps it.
#[derive(Debug)]
pub struct Vertex {
    pub id: TransactionId,
    /// The link to the first approved record.
    pub trunk: Edge,
    /// The link to the second approved record.
    pub branch: Edge,
    /// The vertices that approve this one, each of them once.
    pub referrers: Vec<TransactionId>,
    /// Whether the whole past of this record is known to be in reach of
    /// the solid entry points.
    pub solid: bool,
    /// The store's counter at the last time this vertex was touched.
    pub last_access: u64,
    /// What the record says of its place in a bundle, where that is known.
    pub bundle: Option<BundledTransaction>,
    /// The record this vertex names as its trunk, while that one is missing.
    pub awaited_trunk: Option<TransactionId>,
    /// The record this vertex names as its branch, while that one is missing.
    pub awaited_branch: Option<TransactionId>,
}

/// A vertex as the contracts speak of it: the vertices that approve it form
/// a set.
pub struct VertexView {
    pub id: TransactionId,
    pub trunk: Edge,
    pub branch: Edge,
    pub approvers: Set<TransactionId>,
    pub solid: bool,
    pub last_access: u64,
    pub bundle: Option<BundledTransaction>,
    pub awaited_trunk: Option<TransactionId>,
    pub awaited_branch: Option<TransactionId>,
}

impl View for Vertex {
    type V = VertexView;

    open spec fn view(&self) -> VertexView {
        VertexView {
            id: self.id,
            trunk: self.trunk,
            branch: self.branch,
            approvers: self.referrers@.to_set(),
            solid: self.solid,
            last_access: self.last_access,
            bundle: self.bundle,
            awaited_trunk: self.awaited_trunk,
            awaited_branch: self.awaited_branch,
        }
    }
}

impl PartialEq for Vertex {
    /// Two vertices are the same vertex if they have the same identity.
    fn eq(&self, other: &Self) -> (same: bool) {
        self.id == other.id
    }
}

impl Eq for Vertex {

}

impl vstd::std_specs::cmp::PartialEqSpecImpl for Vertex {
    open spec fn obeys_eq_spec() -> bool {
        true
    }

    open spec fn eq_spec(&self, other: &Self) -> bool {
        self.id == other.id
    }
}

impl VertexView {
    /// The vertex that a store holds right after it took in a record that
    /// names no approvee: no link, no approver, not solid.
    pub open spec fn fresh(id: TransactionId, last_access: u64) -> VertexView {
        VertexView {
            id,
            trunk: Edge::Unresolved,
            branch: Edge::Unresolved,
            approvers: Set::empty(),
            solid: false,
            last_access,
            bundle: None,
            awaited_trunk: None,
            awaited_branch: None,
        }
    }

    /// Whether one of this vertex's two links leads to `id`.
    pub open spec fn approves(self, id: TransactionId) -> bool {
        self.trunk.leads_to(id) || self.branch.leads_to(id)
    }

    /// This vertex after `id` has arrived: each link that waited for `id`
    /// is resolved and leads to it.
    pub open spec fn resolved(self, id: TransactionId) -> VertexView {
        VertexView {
            trunk: if self.awaited_trunk == Some(id) {
                Edge::With { id }
            } else {
                self.trunk
            },
            awaited_trunk: if self.awaited_trunk == Some(id) {
                None
            } else {
                self.awaited_trunk
            },
            branch: if self.awaited_branch == Some(id) {
                Edge::With { id }
            } else {
                self.branch
            },
            awaited_branch: if self.awaited_branch == Some(id) {
                None
            } else {
                self.awaited_branch
            },
            ..self
        }
    }

    /// This vertex with `approver` among its approvers, touched at `stamp`.
    pub open spec fn approved_by(self, approver: TransactionId, stamp: u64) -> VertexView {
        VertexView { approvers: self.approvers.insert(approver), last_access: stamp, ..self }
    }

    /// This vertex with the vertices of `gone` struck from its approvers.
    pub open spec fn without(self, gone: Set<TransactionId>) -> VertexView {
        VertexView { approvers: self.approvers.difference(gone), ..self }
    }

    /// Whether this vertex waits for `id` to arrive, as its trunk or as its
    /// branch.
    pub open spec fn awaits(self, id: TransactionId) -> bool {
        self.awaited_trunk == Some(id) || self.awaited_branch == Some(id)
    }
}

impl Vertex {
    /// A vertex without links and approvers, last touched at `last_access`.
    pub fn new(id: TransactionId, last_access: u64) -> (v: Self)
        ensures
            v@ == VertexView::fresh(id, last_access),
            v.referrers@ == Seq::<TransactionId>::empty(),
    {
        let v = Self {
            id,
            trunk: Edge::Unresolved,
            branch: Edge::Unresolved,
            referrers: Vec::new(),
            solid: false,
            last_access,
            bundle: None,
            awaited_trunk: None,
            awaited_branch: None,
        };
        assert(v.referrers@.to_set() =~= Set::<TransactionId>::empty());
        v
    }

    /// Whether the trunk link is resolved.
    pub fn has_trunk(&self) -> (b: bool)
        ensures
            b == (self.trunk != Edge::Unresolved),
    {
        match self.trunk {
            Edge::With { .. } => true,
            Edge::Unresolved => false,
        }
    }

    /// Whether the branch link is resolved.
    pub fn has_branch(&self) -> (b: bool)
        ensures
            b == (self.branch != Edge::Unresolved),
    {
        match self.branch {
            Edge::With { .. } => true,
            Edge::Unresolved => false,
        }
    }

    /// Whether any vertex approves this one.
    pub fn has_referrers(&self) -> (b: bool)
        ensures
            b == (self.referrers@.len() > 0),
            b == !(self@.approvers =~= Set::<TransactionId>::empty()),
    {
        proof {
            if self.referrers@.len() > 0 {
                assert(self.referrers@.to_set().contains(self.referrers@[0]));
            } else {
                assert(self.referrers@.to_set() =~= Set::<TransactionId>::empty());
            }
        }
        self.referrers.len() > 0
    }
}

} // verus!

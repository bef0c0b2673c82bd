//! One of the two approvee links of a vertex.
use crate::id::TransactionId;
use vstd::prelude::*;

verus! {

/// A link from a vertex to one of the two records it approves. The link is
/// resolved once the approved record is in the store, and names it then.
#[derive(Clone, Copy, Debug, PartialEq, Eq, Structural)]
pub enum Edge {
    With { id: TransactionId },
    Unresolved,
}

impl Edge {
    /// The vertex this edge leads to, if it is resolved.
    pub open spec fn target(self) -> Option<TransactionId> {
        match self {
            Edge::With { id } => Some(id),
            Edge::Unresolved => None,
        }
    }

    /// Whether this edge leads to `id`.
    pub open spec fn leads_to(self, id: TransactionId) -> bool {
        self == (Edge::With { id })
    }
}

} // verus!

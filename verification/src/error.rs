//! The failures that the ledger graph reports to its host.
use crate::id::TransactionId;
use vstd::prelude::*;

verus! {

/// Why an operation on the ledger graph failed.
#[derive(Debug)]
pub enum FailureCause {
    /// A vertex with the record's identity is already in the store.
    TransactionAlreadyInserted,
    /// A milestone is already recorded under the index.
    MilestoneAlreadyInserted,
    /// No vertex with this identity is in the store.
    VertexDoesNotExist { id: TransactionId },
    /// The store is at capacity and a pass of eviction would reclaim nothing.
    StoreFull,
}

/// A failed operation, by the kind of operation.
#[derive(Debug)]
pub enum TangleError {
    InsertionFailure { cause: FailureCause },
    RetreiveFailure { cause: FailureCause },
}

/// The error of an insertion whose identity is already stored.
pub open spec fn already_inserted() -> TangleError {
    TangleError::InsertionFailure { cause: FailureCause::TransactionAlreadyInserted }
}

/// The error of an insertion into a full store from which nothing can be
/// evicted.
pub open spec fn store_full() -> TangleError {
    TangleError::InsertionFailure { cause: FailureCause::StoreFull }
}

/// The error of an insertion of a milestone under an index that is taken.
pub open spec fn milestone_already_inserted() -> TangleError {
    TangleError::InsertionFailure { cause: FailureCause::MilestoneAlreadyInserted }
}

/// The error of a query about a vertex that is not in the store.
pub open spec fn vertex_missing(id: TransactionId) -> TangleError {
    TangleError::RetreiveFailure { cause: FailureCause::VertexDoesNotExist { id } }
}

} // verus!

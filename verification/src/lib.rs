//! An in-memory index of the causal history of ledger records.
//!
//! Records arrive in any order. Each names two records that it approves,
//! its trunk and its branch. The ledger graph takes a record in before the
//! records it approves are known, tells when the whole past of a record has
//! arrived, lists the records that nobody approves yet, and checks that the
//! records of a bundle form an unbroken chain. It holds a bounded number of
//! vertices and evicts the least recently touched ones that nothing depends
//! on.
pub mod bundle;
pub mod edge;
pub mod error;
pub mod evict;
pub mod id;
pub mod index;
pub mod insert;
pub mod laws;
pub mod link;
pub mod list;
pub mod model;
pub mod neighbors;
pub mod query;
pub mod ring;
pub mod select;
pub mod solidity;
pub mod tangle;
pub mod vertex;

pub use crate::edge::Edge;
pub use crate::error::{FailureCause, TangleError};
pub use crate::id::{Transaction, TransactionHash, TransactionId};
pub use crate::model::MilestoneIndex;
pub use crate::neighbors::{ApproveeList, Approvees, Neighbors};
pub use crate::ring::RingIterator;
pub use crate::tangle::{Tangle, DEFAULT_FREE_SIZE, DEFAULT_TANGLE_CAPACITY};
pub use crate::vertex::{BundledTransaction, Vertex};

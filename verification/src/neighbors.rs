//! What lies next to a vertex: the records it approves and its approvers.
use crate::edge::Edge;
use crate::id::TransactionId;
use smallvec::SmallVec;
use vstd::prelude::*;

verus! {

/// Up to two identities, kept without allocation in a `smallvec::SmallVec`.
/// Verus does not look inside it. What the crate knows about it is stated
/// over the sequence of the identities it holds, and is taken on trust from
/// the documentation of `smallvec`.
#[verifier::external_body]
pub struct ApproveeList {
    items: SmallVec<[TransactionId; 2]>,
}

/// The identities that a list holds, in their order.
pub uninterp spec fn listed(list: ApproveeList) -> Seq<TransactionId>;

/// `SmallVec::new`: a list that holds nothing.
#[verifier::external_body]
fn approvee_list_new() -> (list: ApproveeList)
    ensures
        listed(list) == Seq::<TransactionId>::empty(),
{
    ApproveeList { items: SmallVec::new() }
}

/// `SmallVec::push`: appends `id` to the list.
#[verifier::external_body]
fn approvee_list_push(list: &mut ApproveeList, id: TransactionId)
    ensures
        listed(*final(list)) == listed(*old(list)).push(id),
{
    list.items.push(id)
}

/// `SmallVec::len`: the number of identities in the list.
#[verifier::external_body]
fn approvee_list_len(list: &ApproveeList) -> (n: usize)
    ensures
        n == listed(*list).len(),
{
    list.items.len()
}

/// Indexing a `SmallVec` as a slice: the identity at position `i`.
#[verifier::external_body]
fn approvee_list_get(list: &ApproveeList, i: usize) -> (id: TransactionId)
    requires
        i < listed(*list).len(),
    ensures
        id == listed(*list)[i as int],
{
    list.items[i]
}

impl ApproveeList {
    /// The number of identities in the list.
    pub fn len(&self) -> (n: usize)
        ensures
            n == listed(*self).len(),
    {
        approvee_list_len(self)
    }

    /// The identity at position `i`, if the list is that long.
    pub fn get(&self, i: usize) -> (id: Option<TransactionId>)
        ensures
            id == if i < listed(*self).len() {
                Some(listed(*self)[i as int])
            } else {
                None
            },
    {
        if i < approvee_list_len(self) {
            Some(approvee_list_get(self, i))
        } else {
            None
        }
    }

    /// Whether `id` is in the list.
    pub fn contains(&self, id: TransactionId) -> (found: bool)
        ensures
            found == listed(*self).contains(id),
    {
        let n = approvee_list_len(self);
        let mut i: usize = 0;
        while i < n
            invariant
                0 <= i <= n,
                n == listed(*self).len(),
                forall|k: int| 0 <= k < i ==> listed(*self)[k] != id,
            decreases n - i,
        {
            if approvee_list_get(self, i) == id {
                return true;
            }
            i = i + 1;
        }
        false
    }
}

/// The records that a vertex is linked to as its approvees.
#[derive(Clone, Copy, Debug, PartialEq, Eq, Structural)]
pub enum Approvees {
    Neither,
    Trunk(TransactionId),
    Branch(TransactionId),
    Both(TransactionId, TransactionId),
}

impl Approvees {
    /// The approvees that a vertex with these two links has.
    pub open spec fn of(trunk: Edge, branch: Edge) -> Approvees {
        match (trunk, branch) {
            (Edge::With { id: t }, Edge::With { id: b }) => Approvees::Both(t, b),
            (Edge::With { id: t }, Edge::Unresolved) => Approvees::Trunk(t),
            (Edge::Unresolved, Edge::With { id: b }) => Approvees::Branch(b),
            (Edge::Unresolved, Edge::Unresolved) => Approvees::Neither,
        }
    }

    /// The approvees in a row: the trunk before the branch.
    pub open spec fn row(self) -> Seq<TransactionId> {
        match self {
            Approvees::Neither => Seq::empty(),
            Approvees::Trunk(t) => Seq::empty().push(t),
            Approvees::Branch(b) => Seq::empty().push(b),
            Approvees::Both(t, b) => Seq::empty().push(t).push(b),
        }
    }

    /// The number of approvees.
    pub open spec fn count(self) -> nat {
        match self {
            Approvees::Neither => 0,
            Approvees::Trunk(_) | Approvees::Branch(_) => 1,
            Approvees::Both(_, _) => 2,
        }
    }

    /// The approvees of a vertex with the links `trunk` and `branch`.
    pub fn from_edges(trunk: Edge, branch: Edge) -> (approvees: Approvees)
        ensures
            approvees == Approvees::of(trunk, branch),
    {
        match trunk {
            Edge::With { id: t } => match branch {
                Edge::With { id: b } => Approvees::Both(t, b),
                Edge::Unresolved => Approvees::Trunk(t),
            },
            Edge::Unresolved => match branch {
                Edge::With { id: b } => Approvees::Branch(b),
                Edge::Unresolved => Approvees::Neither,
            },
        }
    }

    /// The approvees in a row: the trunk before the branch.
    pub fn collect(&self) -> (list: ApproveeList)
        ensures
            listed(list) == self.row(),
    {
        let mut list = approvee_list_new();
        match *self {
            Approvees::Neither => {},
            Approvees::Trunk(n) => {
                approvee_list_push(&mut list, n);
            },
            Approvees::Branch(n) => {
                approvee_list_push(&mut list, n);
            },
            Approvees::Both(n1, n2) => {
                approvee_list_push(&mut list, n1);
                approvee_list_push(&mut list, n2);
            },
        }
        list
    }
}

/// The neighbourhood of a vertex at the time it was asked for.
#[derive(Debug)]
pub struct Neighbors {
    pub approvees: Approvees,
    pub approvers: Vec<TransactionId>,
}

impl Neighbors {
    /// The neighbourhood of a vertex that stands alone.
    pub fn new() -> (n: Self)
        ensures
            n.approvees == Approvees::Neither,
            n.approvers@ == Seq::<TransactionId>::empty(),
    {
        Self { approvees: Approvees::Neither, approvers: Vec::new() }
    }

    /// The number of approvers.
    pub fn degree_in(&self) -> (n: usize)
        ensures
            n == self.approvers@.len(),
    {
        self.approvers.len()
    }

    /// The number of approvees.
    pub fn degree_out(&self) -> (n: usize)
        ensures
            n == self.approvees.count(),
    {
        match self.approvees {
            Approvees::Neither => 0,
            Approvees::Trunk(_) => 1,
            Approvees::Branch(_) => 1,
            Approvees::Both(_, _) => 2,
        }
    }

    /// Whether the vertex is a tip: nobody approves it.
    pub fn is_tip(&self) -> (b: bool)
        ensures
            b == (self.approvers@.len() == 0),
    {
        self.degree_in() == 0
    }
}

} // verus!

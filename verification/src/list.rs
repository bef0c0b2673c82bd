//! Lists of identities that name nobody twice.
use crate::id::TransactionId;
use vstd::prelude::*;

verus! {

/// Whether `id` is in `list`.
pub(crate) fn list_contains(list: &Vec<TransactionId>, id: TransactionId) -> (found: bool)
    ensures
        found == list@.contains(id),
{
    let mut i: usize = 0;
    while i < list.len()
        invariant
            0 <= i <= list@.len(),
            forall|k: int| 0 <= k < i ==> list@[k] != id,
        decreases list@.len() - i,
    {
        if list[i] == id {
            return true;
        }
        i = i + 1;
    }
    false
}

/// Adds `id` to `list` unless it is there already.
pub(crate) fn list_insert(list: &mut Vec<TransactionId>, id: TransactionId)
    requires
        old(list)@.no_duplicates(),
    ensures
        final(list)@.no_duplicates(),
        final(list)@.to_set() == old(list)@.to_set().insert(id),
        final(list)@ == if old(list)@.contains(id) {
            old(list)@
        } else {
            old(list)@.push(id)
        },
{
    if !list_contains(list, id) {
        list.push(id);
        proof {
            old(list)@.lemma_push_to_set_commute(id);
        }
    } else {
        assert(list@.to_set() =~= list@.to_set().insert(id));
    }
}

/// Takes `id` out of `list` if it is there.
pub(crate) fn list_remove(list: &mut Vec<TransactionId>, id: TransactionId)
    requires
        old(list)@.no_duplicates(),
    ensures
        final(list)@.no_duplicates(),
        final(list)@.to_set() == old(list)@.to_set().remove(id),
        !old(list)@.contains(id) ==> final(list)@ == old(list)@,
{
    let mut i: usize = 0;
    while i < list.len()
        invariant
            list@ == old(list)@,
            list@.no_duplicates(),
            0 <= i <= list@.len(),
            forall|k: int| 0 <= k < i ==> list@[k] != id,
        decreases list@.len() - i,
    {
        if list[i] == id {
            list.remove(i);
            proof {
                let s = old(list)@;
                let r = s.remove(i as int);
                assert forall|a: int, b: int| 0 <= a < r.len() && 0 <= b < r.len() && a
                    != b implies r[a] != r[b] by {
                    let a0 = if a < i {
                        a
                    } else {
                        a + 1
                    };
                    let b0 = if b < i {
                        b
                    } else {
                        b + 1
                    };
                    assert(r[a] == s[a0] && r[b] == s[b0]);
                }
                assert forall|x: TransactionId| r.to_set().contains(x) <==> s.to_set().remove(
                    id,
                ).contains(x) by {
                    if r.contains(x) {
                        let a = choose|a: int| 0 <= a < r.len() && r[a] == x;
                        let a0 = if a < i {
                            a
                        } else {
                            a + 1
                        };
                        assert(r[a] == s[a0]);
                    }
                    if s.contains(x) && x != id {
                        let a = choose|a: int| 0 <= a < s.len() && s[a] == x;
                        let a1 = if a < i {
                            a
                        } else {
                            a - 1
                        };
                        assert(r[a1] == s[a]);
                    }
                }
                assert(r.to_set() =~= s.to_set().remove(id));
            }
            return ;
        }
        i = i + 1;
    }
    assert(list@.to_set() =~= list@.to_set().remove(id));
}

/// A copy of `list`.
pub(crate) fn list_copy(list: &Vec<TransactionId>) -> (copy: Vec<TransactionId>)
    ensures
        copy@ == list@,
{
    let mut copy: Vec<TransactionId> = Vec::new();
    let mut i: usize = 0;
    while i < list.len()
        invariant
            0 <= i <= list@.len(),
            copy@ == list@.take(i as int),
        decreases list@.len() - i,
    {
        copy.push(list[i]);
        proof {
            assert(list@.take(i as int).push(list@[i as int]) =~= list@.take(i + 1));
        }
        i = i + 1;
    }
    assert(list@.take(list@.len() as int) =~= list@);
    copy
}

} // verus!

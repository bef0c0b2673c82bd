//! Picking the members of a set out of a sequence, in the sequence's order.
use crate::id::TransactionId;
use vstd::prelude::*;

verus! {

/// The elements of `s` that are members of `of`, in the order of `s`.
pub open spec fn select(s: Seq<TransactionId>, of: Set<TransactionId>) -> Seq<TransactionId>
    decreases s.len(),
{
    if s.len() == 0 {
        Seq::empty()
    } else if of.contains(s.last()) {
        select(s.drop_last(), of).push(s.last())
    } else {
        select(s.drop_last(), of)
    }
}

/// The elements of `s` that are not members of `gone`, in the order of `s`.
pub open spec fn reject(s: Seq<TransactionId>, gone: Set<TransactionId>) -> Seq<TransactionId> {
    select(s, gone.complement())
}

/// What is selected is what the sequence holds of the set; nothing is
/// selected twice that the sequence holds once; and what is selected is no
/// longer than the sequence.
pub proof fn lemma_select_members(s: Seq<TransactionId>, of: Set<TransactionId>)
    ensures
        forall|x: TransactionId| #[trigger]
            select(s, of).contains(x) <==> s.contains(x) && of.contains(x),
        s.no_duplicates() ==> select(s, of).no_duplicates(),
        select(s, of).len() <= s.len(),
    decreases s.len(),
{
    if s.len() > 0 {
        let rest = s.drop_last();
        lemma_select_members(rest, of);
        let r = select(rest, of);
        let full = select(s, of);
        assert forall|x: TransactionId| #[trigger]
            full.contains(x) <==> s.contains(x) && of.contains(x) by {
            if full.contains(x) {
                let i = choose|i: int| 0 <= i < full.len() && full[i] == x;
                if i < r.len() {
                    assert(r.contains(x));
                    let j = choose|j: int| 0 <= j < rest.len() && rest[j] == x;
                    assert(s[j] == x);
                } else {
                    assert(s[s.len() - 1] == x);
                }
            }
            if s.contains(x) && of.contains(x) {
                let j = choose|j: int| 0 <= j < s.len() && s[j] == x;
                if j < rest.len() {
                    assert(rest[j] == x);
                    assert(r.contains(x));
                    let i = choose|i: int| 0 <= i < r.len() && r[i] == x;
                    assert(full[i] == x);
                } else {
                    assert(full[full.len() - 1] == x);
                }
            }
        }
        if s.no_duplicates() {
            assert(rest.no_duplicates());
            if of.contains(s.last()) {
                assert(!r.contains(s.last())) by {
                    if rest.contains(s.last()) {
                        let j = choose|j: int| 0 <= j < rest.len() && rest[j] == s.last();
                        assert(s[j] == s[s.len() - 1]);
                    }
                }
                assert forall|i: int, j: int| 0 <= i < full.len() && 0 <= j < full.len() && i
                    != j implies full[i] != full[j] by {
                    if i < r.len() {
                        assert(r.contains(full[i]));
                    }
                    if j < r.len() {
                        assert(r.contains(full[j]));
                    }
                }
            }
        }
    }
}

/// Selecting from a sequence that got one more element.
pub proof fn lemma_select_push(s: Seq<TransactionId>, x: TransactionId, of: Set<TransactionId>)
    ensures
        select(s.push(x), of) == if of.contains(x) {
            select(s, of).push(x)
        } else {
            select(s, of)
        },
{
    assert(s.push(x).drop_last() =~= s);
}

/// Taking one element away from what is left after taking a set away is
/// taking both away at once.
pub proof fn lemma_reject_twice(
    s: Seq<TransactionId>,
    gone: Set<TransactionId>,
    x: TransactionId,
)
    ensures
        reject(reject(s, gone), Set::empty().insert(x)) == reject(s, gone.insert(x)),
    decreases s.len(),
{
    let one = Set::<TransactionId>::empty().insert(x);
    if s.len() > 0 {
        let rest = s.drop_last();
        lemma_reject_twice(rest, gone, x);
        if !gone.contains(s.last()) {
            lemma_select_push(reject(rest, gone), s.last(), one.complement());
        }
    }
}

/// In a sequence without duplicates, rejecting the element at a position is
/// removing that position.
pub proof fn lemma_reject_one(s: Seq<TransactionId>, i: int)
    requires
        s.no_duplicates(),
        0 <= i < s.len(),
    ensures
        reject(s, Set::empty().insert(s[i])) == s.remove(i),
    decreases s.len(),
{
    let one = Set::<TransactionId>::empty().insert(s[i]);
    let rest = s.drop_last();
    if i == s.len() - 1 {
        lemma_reject_none(rest, one);
        assert(s.remove(i) =~= rest);
    } else {
        lemma_reject_one(rest, i);
        assert(s.remove(i) =~= rest.remove(i).push(s.last()));
    }
}

/// Rejecting a set that the sequence holds nothing of changes nothing.
pub proof fn lemma_reject_none(s: Seq<TransactionId>, gone: Set<TransactionId>)
    requires
        forall|j: int| 0 <= j < s.len() ==> !gone.contains(#[trigger] s[j]),
    ensures
        reject(s, gone) == s,
    decreases s.len(),
{
    if s.len() > 0 {
        lemma_reject_none(s.drop_last(), gone);
        assert(s.drop_last().push(s.last()) =~= s);
    } else {
        assert(s =~= Seq::empty());
    }
}

/// What is selected and what is rejected make up the sequence.
pub proof fn lemma_select_reject_len(s: Seq<TransactionId>, of: Set<TransactionId>)
    ensures
        select(s, of).len() + reject(s, of).len() == s.len(),
    decreases s.len(),
{
    if s.len() > 0 {
        lemma_select_reject_len(s.drop_last(), of);
    }
}

/// Rejecting the elements of a list without duplicates, all of which the
/// sequence holds once, makes the sequence shorter by the list's length.
pub proof fn lemma_reject_len(s: Seq<TransactionId>, gone: Seq<TransactionId>)
    requires
        s.no_duplicates(),
        gone.no_duplicates(),
        forall|i: int| 0 <= i < gone.len() ==> s.contains(#[trigger] gone[i]),
    ensures
        reject(s, gone.to_set()).len() + gone.len() == s.len(),
{
    let picked = select(s, gone.to_set());
    lemma_select_members(s, gone.to_set());
    lemma_select_reject_len(s, gone.to_set());
    assert(picked.to_set() =~= gone.to_set()) by {
        assert forall|x: TransactionId| picked.to_set().contains(x) <==> gone.to_set().contains(
            x,
        ) by {
            if gone.contains(x) {
                let i = choose|i: int| 0 <= i < gone.len() && gone[i] == x;
                assert(s.contains(gone[i]));
            }
        }
    }
    picked.unique_seq_to_set();
    gone.unique_seq_to_set();
}

/// In a sequence without duplicates an element is found where it stands.
pub proof fn lemma_index_of(s: Seq<TransactionId>, i: int)
    requires
        s.no_duplicates(),
        0 <= i < s.len(),
    ensures
        s.index_of(s[i]) == i,
{
}

} // verus!

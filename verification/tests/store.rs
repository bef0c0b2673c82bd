use tangle::{
    BundledTransaction, Edge, FailureCause, Tangle, TangleError, Transaction, TransactionHash,
    TransactionId, DEFAULT_FREE_SIZE, DEFAULT_TANGLE_CAPACITY,
};

fn hash(bytes: &[u8]) -> TransactionHash {
    TransactionHash(bytes.to_vec())
}

fn tx(trunk: &[u8], branch: &[u8]) -> Transaction {
    Transaction { trunk: hash(trunk), branch: hash(branch) }
}

fn id(n: u64) -> TransactionId {
    TransactionId(n)
}

fn bare(n: u64) -> BundledTransaction {
    BundledTransaction { hash: n, index: 0, last: 0, bundle_hash: 0, solid: false }
}

fn is_already_inserted<T>(r: &Result<T, TangleError>) -> bool {
    matches!(
        r,
        Err(TangleError::InsertionFailure { cause: FailureCause::TransactionAlreadyInserted })
    )
}

fn is_store_full<T>(r: &Result<T, TangleError>) -> bool {
    matches!(r, Err(TangleError::InsertionFailure { cause: FailureCause::StoreFull }))
}

#[test]
fn new() {
    let tangle = Tangle::new();

    assert_eq!(0, tangle.size());
    assert_eq!(DEFAULT_TANGLE_CAPACITY, tangle.capacity());
    assert_eq!(100000, tangle.capacity());
    assert_eq!(DEFAULT_FREE_SIZE, tangle.free_size());
    assert_eq!(5000, tangle.free_size());
}

#[test]
fn insert_and_get() {
    let mut tangle = Tangle::new();
    let hash = TransactionHash("TANGLE9OLE".into());
    let transaction = Transaction {
        trunk: TransactionHash("TRUNK9HASH".into()),
        branch: TransactionHash("BRANCH9HASH".into()),
    };
    assert!(
        tangle.insert_transaction(&hash, &transaction).is_ok(),
        "insertion failed"
    );
    let id = TransactionId::new(&hash);
    assert!(tangle.contains(id));
    let vertex = tangle.get(id).expect("the vertex is there");
    assert_eq!(id, vertex.id);
    assert_eq!(Edge::Unresolved, vertex.trunk);
    assert_eq!(Edge::Unresolved, vertex.branch);
    assert_eq!(Some(TransactionId::new(&transaction.trunk)), vertex.awaited_trunk);
    assert_eq!(Some(TransactionId::new(&transaction.branch)), vertex.awaited_branch);
}

#[test]
fn with_capacity_sets_the_limits() {
    let tangle = Tangle::with_capacity(7, 2);
    assert_eq!(7, tangle.capacity());
    assert_eq!(2, tangle.free_size());
    assert_eq!(0, tangle.size());
    assert!(tangle.is_empty());
    assert!(!tangle.is_full());
    assert!(Tangle::with_capacity(0, 0).is_full());
}

#[test]
fn duplicate_is_rejected() {
    let mut tangle = Tangle::new();
    let h = hash(b"record-a");
    let t = tx(b"trunk--a", b"branch-a");
    let first = tangle.insert_transaction(&h, &t);
    assert_eq!(TransactionId::new(&h), first.unwrap());
    assert_eq!(1, tangle.size());
    let second = tangle.insert_transaction(&h, &t);
    assert!(is_already_inserted(&second));
    assert_eq!(1, tangle.size());
    // a hash that differs only behind the eighth byte is the same record
    let third = tangle.insert_transaction(&hash(b"record-a-and-more"), &t);
    assert!(is_already_inserted(&third));
    assert_eq!(1, tangle.size());
    let again = tangle.add_node(BundledTransaction {
        hash: TransactionId::new(&h).0,
        index: 0,
        last: 0,
        bundle_hash: 0,
        solid: false,
    });
    assert!(is_already_inserted(&again));
}

#[test]
fn insert_returns_the_position() {
    let mut tangle = Tangle::new();
    assert_eq!(0, tangle.insert_vertex(id(5), None, None, None).unwrap());
    assert_eq!(1, tangle.insert_vertex(id(6), Some(id(5)), None, None).unwrap());
    assert_eq!(2, tangle.insert_vertex(id(7), Some(id(5)), Some(id(6)), None).unwrap());
    assert_eq!(id(7), tangle.get_node(2).unwrap().id);
}

#[test]
fn edges_are_symmetric() {
    let mut tangle = Tangle::new();
    tangle.insert_vertex(id(1), None, None, None).unwrap();
    tangle.insert_vertex(id(2), None, None, None).unwrap();
    tangle.insert_vertex(id(3), Some(id(1)), Some(id(2)), None).unwrap();
    tangle.insert_vertex(id(4), None, None, None).unwrap();
    assert!(tangle.has_edge(id(1), id(3)));
    assert!(tangle.has_edge(id(3), id(1)));
    assert!(tangle.has_edge(id(2), id(3)));
    assert!(tangle.has_edge(id(3), id(2)));
    assert!(!tangle.has_edge(id(1), id(2)));
    assert!(!tangle.has_edge(id(1), id(4)));
    assert!(!tangle.has_edge(id(4), id(3)));
    assert_eq!(Ok(Some(id(1))), tangle.get_trunk(id(3)).map_err(|_| ()));
    assert_eq!(Ok(Some(id(2))), tangle.get_branch(id(3)).map_err(|_| ()));
    assert_eq!(vec![id(3)], tangle.get_approvers(id(1)).unwrap());
    assert_eq!(vec![id(3)], tangle.get_approvers(id(2)).unwrap());
}

#[test]
fn pending_trunk_is_resolved_on_arrival() {
    let mut tangle = Tangle::new();
    let x = id(10);
    let t = id(20);
    tangle.insert_vertex(x, Some(t), None, None).unwrap();
    assert_eq!(None, tangle.get_trunk(x).unwrap());
    assert!(!tangle.has_edge(x, t));
    assert!(!tangle.contains(t));
    assert!(tangle.get_approvers(t).is_err());

    tangle.insert_vertex(t, None, None, None).unwrap();
    assert_eq!(Some(t), tangle.get_trunk(x).unwrap());
    assert_eq!(None, tangle.get_branch(x).unwrap());
    assert_eq!(vec![x], tangle.get_approvers(t).unwrap());
    assert!(tangle.has_edge(x, t));
    assert!(tangle.has_edge(t, x));
    let vx = tangle.get(x).unwrap();
    assert_eq!(None, vx.awaited_trunk);
}

#[test]
fn pending_branch_is_resolved_on_arrival() {
    let mut tangle = Tangle::new();
    let x = id(10);
    let y = id(11);
    let b = id(30);
    tangle.insert_vertex(x, None, Some(b), None).unwrap();
    tangle.insert_vertex(y, Some(b), Some(b), None).unwrap();
    tangle.insert_vertex(b, None, None, None).unwrap();
    assert_eq!(Some(b), tangle.get_branch(x).unwrap());
    assert_eq!(None, tangle.get_trunk(x).unwrap());
    assert_eq!(Some(b), tangle.get_trunk(y).unwrap());
    assert_eq!(Some(b), tangle.get_branch(y).unwrap());
    assert_eq!(vec![x, y], tangle.get_approvers(b).unwrap());
}

fn adjacency(tangle: &Tangle, ids: &[TransactionId]) -> Vec<(Option<TransactionId>, Option<TransactionId>, Vec<TransactionId>)> {
    ids.iter()
        .map(|i| {
            let mut approvers = tangle.get_approvers(*i).unwrap();
            approvers.sort_by_key(|a| a.0);
            (tangle.get_trunk(*i).unwrap(), tangle.get_branch(*i).unwrap(), approvers)
        })
        .collect()
}

#[test]
fn order_of_arrival_does_not_change_the_graph() {
    let records: Vec<(TransactionId, Option<TransactionId>, Option<TransactionId>)> = vec![
        (id(1), None, None),
        (id(2), Some(id(1)), Some(id(1))),
        (id(3), Some(id(1)), Some(id(2))),
        (id(4), Some(id(3)), Some(id(2))),
        (id(5), Some(id(4)), Some(id(3))),
    ];
    let ids: Vec<TransactionId> = records.iter().map(|r| r.0).collect();
    let mut forward = Tangle::new();
    for r in records.iter() {
        forward.insert_vertex(r.0, r.1, r.2, None).unwrap();
    }
    let mut backward = Tangle::new();
    for r in records.iter().rev() {
        backward.insert_vertex(r.0, r.1, r.2, None).unwrap();
    }
    let mut mixed = Tangle::new();
    for k in [2usize, 4, 0, 3, 1] {
        let r = records[k];
        mixed.insert_vertex(r.0, r.1, r.2, None).unwrap();
    }
    let expected = vec![
        (None, None, vec![id(2), id(3)]),
        (Some(id(1)), Some(id(1)), vec![id(3), id(4)]),
        (Some(id(1)), Some(id(2)), vec![id(4), id(5)]),
        (Some(id(3)), Some(id(2)), vec![id(5)]),
        (Some(id(4)), Some(id(3)), vec![]),
    ];
    assert_eq!(expected, adjacency(&forward, &ids));
    assert_eq!(expected, adjacency(&backward, &ids));
    assert_eq!(expected, adjacency(&mixed, &ids));
}

#[test]
fn a_record_may_approve_itself() {
    let mut tangle = Tangle::new();
    tangle.insert_vertex(id(1), Some(id(1)), None, None).unwrap();
    assert_eq!(Some(id(1)), tangle.get_trunk(id(1)).unwrap());
    assert_eq!(vec![id(1)], tangle.get_approvers(id(1)).unwrap());
    assert!(tangle.has_edge(id(1), id(1)));
    assert!(tangle.tips().is_empty());
}

#[test]
fn missing_vertex_is_reported() {
    let mut tangle = Tangle::new();
    tangle.insert_vertex(id(1), None, None, None).unwrap();
    let missing = id(2);
    for r in [tangle.get_trunk(missing), tangle.get_branch(missing)] {
        match r {
            Err(TangleError::RetreiveFailure {
                cause: FailureCause::VertexDoesNotExist { id },
            }) => assert_eq!(missing, id),
            _ => panic!("a missing vertex has to be reported"),
        }
    }
    match tangle.get_approvers(missing) {
        Err(TangleError::RetreiveFailure { cause: FailureCause::VertexDoesNotExist { id } }) => {
            assert_eq!(missing, id)
        }
        _ => panic!("a missing vertex has to be reported"),
    }
    // a vertex without links and approvers is there, with nothing to show
    assert_eq!(None, tangle.get_trunk(id(1)).unwrap());
    assert_eq!(None, tangle.get_branch(id(1)).unwrap());
    assert!(tangle.get_approvers(id(1)).unwrap().is_empty());
    assert!(tangle.get(missing).is_none());
}

#[test]
fn tips_follow_the_approvers() {
    let mut tangle = Tangle::new();
    assert!(tangle.tips().is_empty());
    tangle.insert_vertex(id(1), None, None, None).unwrap();
    assert_eq!(vec![id(1)], tangle.tips());
    tangle.insert_vertex(id(2), None, None, None).unwrap();
    assert_eq!(vec![id(1), id(2)], tangle.tips());
    tangle.insert_vertex(id(3), Some(id(1)), None, None).unwrap();
    assert_eq!(vec![id(2), id(3)], tangle.tips());
    tangle.insert_vertex(id(4), Some(id(3)), Some(id(2)), None).unwrap();
    assert_eq!(vec![id(4)], tangle.tips());
    // a record that others waited for is no tip when it arrives
    tangle.insert_vertex(id(6), Some(id(5)), None, None).unwrap();
    tangle.insert_vertex(id(5), None, None, None).unwrap();
    assert_eq!(vec![id(4), id(6)], tangle.tips());
}

#[test]
fn solidity_spreads_from_an_entry_point() {
    let mut tangle = Tangle::new();
    let genesis = hash(&[1]);
    assert!(!tangle.is_solid_entry_point(hash(&[1])));
    tangle.add_solid_entry_point(genesis).unwrap();
    assert!(tangle.is_solid_entry_point(hash(&[1])));
    assert!(!tangle.is_solid_entry_point(hash(&[2])));

    tangle.insert_vertex(id(1), None, None, None).unwrap();
    assert!(tangle.get(id(1)).unwrap().solid);
    tangle.insert_vertex(id(2), Some(id(1)), Some(id(1)), None).unwrap();
    assert!(tangle.get(id(2)).unwrap().solid);
    tangle.insert_vertex(id(3), Some(id(2)), Some(id(1)), None).unwrap();
    assert!(tangle.get(id(3)).unwrap().solid);
    // one resolved link is not enough
    tangle.insert_vertex(id(4), Some(id(3)), None, None).unwrap();
    assert!(!tangle.get(id(4)).unwrap().solid);
    // a link that waits is not enough either
    tangle.insert_vertex(id(5), Some(id(3)), Some(id(9)), None).unwrap();
    assert!(!tangle.get(id(5)).unwrap().solid);
    tangle.insert_vertex(id(6), Some(id(5)), Some(id(5)), None).unwrap();
    assert!(!tangle.get(id(6)).unwrap().solid);
    // until the missing record arrives, and is solid itself
    tangle.insert_vertex(id(9), Some(id(1)), Some(id(2)), None).unwrap();
    assert!(tangle.get(id(9)).unwrap().solid);
    assert!(tangle.get(id(5)).unwrap().solid);
    assert!(tangle.get(id(6)).unwrap().solid);
    assert!(!tangle.get(id(4)).unwrap().solid);
    for n in [1, 2, 3] {
        assert!(tangle.get(id(n)).unwrap().solid);
    }
}

#[test]
fn solidity_spreads_when_the_entry_point_comes_last() {
    let mut tangle = Tangle::new();
    tangle.insert_vertex(id(3), Some(id(2)), Some(id(1)), None).unwrap();
    tangle.insert_vertex(id(2), Some(id(1)), Some(id(1)), None).unwrap();
    tangle.insert_vertex(id(1), None, None, None).unwrap();
    for n in [1, 2, 3] {
        assert!(!tangle.get(id(n)).unwrap().solid);
    }
    tangle.add_solid_entry_point(hash(&[1])).unwrap();
    for n in [1, 2, 3] {
        assert!(tangle.get(id(n)).unwrap().solid);
    }
    // again, and nothing is taken back
    tangle.add_solid_entry_point(hash(&[1])).unwrap();
    tangle.try_solidify(id(3));
    tangle.try_solidify(id(77));
    for n in [1, 2, 3] {
        assert!(tangle.get(id(n)).unwrap().solid);
    }
}

#[test]
fn solidity_spreads_over_links_set_by_hand() {
    let mut tangle = Tangle::new();
    tangle.add_solid_entry_point(hash(&[1])).unwrap();
    tangle.add_node(bare(1)).unwrap();
    tangle.add_node(bare(2)).unwrap();
    tangle.add_node(bare(3)).unwrap();
    tangle.add_trunk(id(3), id(2));
    tangle.add_branch(id(3), id(2));
    assert!(!tangle.get(id(3)).unwrap().solid);
    tangle.add_trunk(id(2), id(1));
    assert!(!tangle.get(id(2)).unwrap().solid);
    tangle.add_branch(id(2), id(1));
    assert!(tangle.get(id(2)).unwrap().solid);
    assert!(tangle.get(id(3)).unwrap().solid);
}

#[test]
fn a_cycle_does_not_make_itself_solid() {
    let mut tangle = Tangle::new();
    tangle.insert_vertex(id(1), Some(id(2)), Some(id(2)), None).unwrap();
    tangle.insert_vertex(id(2), Some(id(1)), Some(id(1)), None).unwrap();
    assert!(!tangle.get(id(1)).unwrap().solid);
    assert!(!tangle.get(id(2)).unwrap().solid);
    tangle.add_solid_entry_point(hash(&[2])).unwrap();
    assert!(tangle.get(id(1)).unwrap().solid);
    assert!(tangle.get(id(2)).unwrap().solid);
}

#[test]
fn what_the_sender_says_of_solidity_is_only_kept() {
    let mut tangle = Tangle::new();
    let claim = BundledTransaction { hash: 1, index: 0, last: 0, bundle_hash: 0, solid: true };
    tangle.add_node(claim).unwrap();
    let v = tangle.get(id(1)).unwrap();
    assert!(!v.solid);
    assert!(v.bundle.unwrap().solid);
}

#[test]
fn a_lookup_touches_the_vertex() {
    let mut tangle = Tangle::new();
    tangle.insert_vertex(id(1), None, None, None).unwrap();
    tangle.insert_vertex(id(2), None, None, None).unwrap();
    assert_eq!(0, tangle.get_node(0).unwrap().last_access);
    assert_eq!(1, tangle.get_node(1).unwrap().last_access);
    let v = tangle.get(id(1)).unwrap();
    assert_eq!(2, v.last_access);
    assert_eq!(2, tangle.get_node(0).unwrap().last_access);
    let v = tangle.get(id(1)).unwrap();
    assert_eq!(3, v.last_access);
    // an approvee is touched with the stamp of the arriving record
    tangle.insert_vertex(id(3), Some(id(2)), None, None).unwrap();
    assert_eq!(4, tangle.get_node(1).unwrap().last_access);
    assert_eq!(4, tangle.get_node(2).unwrap().last_access);
    // reading without looking up leaves the stamps alone
    tangle.get_trunk(id(3)).unwrap();
    tangle.contains(id(1));
    assert_eq!(3, tangle.get_node(0).unwrap().last_access);
}

#[test]
fn a_full_store_evicts_the_tip_touched_longest_ago() {
    let mut tangle = Tangle::with_capacity(3, 1);
    tangle.insert_vertex(id(1), None, None, None).unwrap();
    tangle.insert_vertex(id(2), None, None, None).unwrap();
    tangle.insert_vertex(id(3), None, None, None).unwrap();
    assert!(tangle.is_full());
    tangle.get(id(1)).unwrap();
    tangle.insert_vertex(id(4), None, None, None).unwrap();
    assert_eq!(3, tangle.size());
    assert!(tangle.contains(id(1)));
    assert!(!tangle.contains(id(2)));
    assert!(tangle.contains(id(3)));
    assert!(tangle.contains(id(4)));
    assert_eq!(vec![id(1), id(3), id(4)], tangle.tips());
}

#[test]
fn eviction_spares_entry_points_and_approved_vertices() {
    let mut tangle = Tangle::with_capacity(4, 1);
    tangle.add_solid_entry_point(hash(&[1])).unwrap();
    tangle.insert_vertex(id(1), None, None, None).unwrap();
    tangle.insert_vertex(id(2), None, None, None).unwrap();
    tangle.insert_vertex(id(3), Some(id(2)), None, None).unwrap();
    tangle.insert_vertex(id(4), None, None, None).unwrap();
    assert!(tangle.is_full());
    // 1 is an entry point, 2 has an approver: 3 is the oldest that may go
    tangle.insert_vertex(id(5), None, None, None).unwrap();
    assert_eq!(4, tangle.size());
    assert!(tangle.contains(id(1)));
    assert!(tangle.contains(id(2)));
    assert!(!tangle.contains(id(3)));
    assert!(tangle.contains(id(4)));
    assert!(tangle.contains(id(5)));
    // what 3 approved has lost its approver
    assert!(tangle.get_approvers(id(2)).unwrap().is_empty());
    assert!(tangle.size() <= tangle.capacity());
}

#[test]
fn a_full_store_without_anything_to_evict_refuses() {
    let mut tangle = Tangle::with_capacity(2, 1);
    tangle.add_solid_entry_point(hash(&[1])).unwrap();
    tangle.insert_vertex(id(1), None, None, None).unwrap();
    tangle.insert_vertex(id(2), Some(id(2)), None, None).unwrap();
    let r = tangle.insert_vertex(id(3), None, None, None);
    assert!(is_store_full(&r));
    assert_eq!(2, tangle.size());
    assert!(tangle.contains(id(1)) && tangle.contains(id(2)) && !tangle.contains(id(3)));
    assert!(tangle.reduce_size().is_empty());
    // a duplicate is told apart from a full store
    let r = tangle.insert_vertex(id(1), None, None, None);
    assert!(is_already_inserted(&r));
}

#[test]
fn eviction_takes_a_whole_batch_or_nothing() {
    let mut tangle = Tangle::with_capacity(3, 2);
    tangle.insert_vertex(id(1), None, None, None).unwrap();
    tangle.insert_vertex(id(2), Some(id(1)), None, None).unwrap();
    tangle.insert_vertex(id(3), Some(id(1)), None, None).unwrap();
    tangle.get(id(2)).unwrap();
    // two tips: the batch is 3 then 2
    let mut probe = Tangle::with_capacity(3, 2);
    probe.insert_vertex(id(1), None, None, None).unwrap();
    probe.insert_vertex(id(2), Some(id(1)), None, None).unwrap();
    probe.insert_vertex(id(3), Some(id(1)), None, None).unwrap();
    probe.get(id(2)).unwrap();
    assert_eq!(vec![id(3), id(2)], probe.reduce_size());
    assert_eq!(1, probe.size());
    assert!(probe.get_approvers(id(1)).unwrap().is_empty());

    tangle.insert_vertex(id(4), Some(id(1)), None, None).unwrap();
    assert_eq!(2, tangle.size());
    assert_eq!(vec![id(4)], tangle.get_approvers(id(1)).unwrap());

    // one tip only, and a batch of two: nothing goes
    let mut stuck = Tangle::with_capacity(2, 2);
    stuck.insert_vertex(id(1), None, None, None).unwrap();
    stuck.insert_vertex(id(2), Some(id(1)), None, None).unwrap();
    assert!(stuck.reduce_size().is_empty());
    assert_eq!(2, stuck.size());
    assert!(is_store_full(&stuck.insert_vertex(id(3), None, None, None)));
}

#[test]
fn a_batch_of_nothing_leaves_a_full_store_full() {
    let mut tangle = Tangle::with_capacity(1, 0);
    tangle.insert_vertex(id(1), None, None, None).unwrap();
    assert!(tangle.reduce_size().is_empty());
    assert!(is_store_full(&tangle.insert_vertex(id(2), None, None, None)));
    let mut none = Tangle::with_capacity(0, 1);
    assert!(is_store_full(&none.insert_vertex(id(1), None, None, None)));
}

#[test]
fn equal_stamps_are_ranked_by_age() {
    let mut tangle = Tangle::with_capacity(4, 2);
    tangle.insert_vertex(id(1), None, None, None).unwrap();
    tangle.insert_vertex(id(2), None, None, None).unwrap();
    // 1 and 2 are touched with the stamp of 3, and 3 carries it too
    tangle.insert_vertex(id(3), Some(id(1)), Some(id(2)), None).unwrap();
    tangle.insert_vertex(id(4), None, None, None).unwrap();
    let three = tangle.remove_node(2).unwrap();
    assert_eq!(id(3), three.id);
    assert_eq!(2, tangle.get_node(0).unwrap().last_access);
    assert_eq!(2, tangle.get_node(1).unwrap().last_access);
    assert_eq!(vec![id(1), id(2)], tangle.reduce_size());
    assert_eq!(vec![id(4)], tangle.tips());
}

#[test]
fn an_evicted_waiter_leaves_the_pending_index() {
    let mut tangle = Tangle::with_capacity(2, 1);
    tangle.insert_vertex(id(1), Some(id(9)), None, None).unwrap();
    tangle.insert_vertex(id(2), None, None, None).unwrap();
    // 1 waits for 9 and is evicted to make room for 3
    tangle.insert_vertex(id(3), None, None, None).unwrap();
    assert!(!tangle.contains(id(1)));
    tangle.remove_node(0).unwrap();
    // 9 arrives and finds nobody waiting
    tangle.insert_vertex(id(9), None, None, None).unwrap();
    assert!(tangle.get_approvers(id(9)).unwrap().is_empty());
    assert_eq!(vec![id(3), id(9)], tangle.tips());
}

#[test]
fn an_evicted_approvee_is_awaited_by_the_next_record() {
    let mut tangle = Tangle::with_capacity(2, 1);
    tangle.insert_vertex(id(1), None, None, None).unwrap();
    tangle.insert_vertex(id(2), None, None, None).unwrap();
    // 1 goes to make room for 3, which names it as trunk
    tangle.insert_vertex(id(3), Some(id(1)), Some(id(2)), None).unwrap();
    assert!(!tangle.contains(id(1)));
    assert_eq!(None, tangle.get_trunk(id(3)).unwrap());
    assert_eq!(Some(id(2)), tangle.get_branch(id(3)).unwrap());
    assert_eq!(Some(id(1)), tangle.get(id(3)).unwrap().awaited_trunk);
}

#[test]
fn milestones_are_recorded_once() {
    let mut tangle = Tangle::new();
    assert!(tangle.get_latest_milestone().is_none());
    assert!(tangle.get_milestone(3).is_none());
    tangle.insert_milestone(3, hash(b"three")).unwrap();
    assert_eq!(b"three".to_vec(), tangle.get_milestone(3).unwrap().0);
    assert_eq!(b"three".to_vec(), tangle.get_latest_milestone().unwrap().0);
    tangle.insert_milestone(7, hash(b"seven")).unwrap();
    tangle.insert_milestone(5, hash(b"five")).unwrap();
    assert_eq!(b"seven".to_vec(), tangle.get_latest_milestone().unwrap().0);
    assert_eq!(b"five".to_vec(), tangle.get_milestone(5).unwrap().0);
    let again = tangle.insert_milestone(5, hash(b"other"));
    assert!(matches!(
        again,
        Err(TangleError::InsertionFailure { cause: FailureCause::MilestoneAlreadyInserted })
    ));
    assert_eq!(b"five".to_vec(), tangle.get_milestone(5).unwrap().0);
    assert!(tangle.get_milestone(4).is_none());
    assert_eq!(0, tangle.size());
}

#[test]
fn identity_converts_from_a_hash() {
    let from: TransactionId = hash(&[7, 1]).into();
    assert_eq!(TransactionId(0x0107), from);
    assert_eq!(TransactionId::new(&hash(&[7, 1])), from);
}

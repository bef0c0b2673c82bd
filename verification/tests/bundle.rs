use tangle::{BundledTransaction, Tangle, TransactionId};

#[test]
fn walk_bundle() {
    let mut tangle = Tangle::new();

    let parent_bundle_tail_a = BundledTransaction {
        hash: 2000,
        index: 0,
        last: 0,
        bundle_hash: 7777,
        solid: false,
    };
    let parent_bundle_tail_b = BundledTransaction {
        hash: 2001,
        index: 0,
        last: 0,
        bundle_hash: 8888,
        solid: false,
    };
    let bundle_head = BundledTransaction {
        hash: 1002,
        index: 2,
        last: 2,
        bundle_hash: 9999,
        solid: false,
    };
    let bundle_body = BundledTransaction {
        hash: 1001,
        index: 1,
        last: 2,
        bundle_hash: 9999,
        solid: false,
    };
    let bundle_tail = BundledTransaction {
        hash: 1000,
        index: 0,
        last: 2,
        bundle_hash: 9999,
        solid: false,
    };

    // Let's add the nodes in the order that might have happened
    tangle.add_node(parent_bundle_tail_a).unwrap();
    tangle.add_node(parent_bundle_tail_b).unwrap();
    tangle.add_node(bundle_head).unwrap();
    tangle.add_node(bundle_body).unwrap();
    tangle.add_node(bundle_tail).unwrap();

    tangle.add_trunk(bundle_head.id(), parent_bundle_tail_a.id());
    tangle.add_branch(bundle_head.id(), parent_bundle_tail_b.id());

    tangle.add_trunk(bundle_body.id(), bundle_head.id());
    tangle.add_branch(bundle_body.id(), parent_bundle_tail_a.id());

    tangle.add_trunk(bundle_tail.id(), bundle_body.id());
    tangle.add_branch(bundle_tail.id(), parent_bundle_tail_a.id());

    assert!(tangle.is_tail(bundle_tail.id()));
    assert_eq!(bundle_head.id(), tangle.walk_bundle(bundle_tail.id()).unwrap());
    let head = tangle.get(tangle.walk_bundle(bundle_tail.id()).unwrap()).unwrap();
    assert_eq!(Some(bundle_head), head.bundle);
}

fn member(hash: u64, index: usize, last: usize, bundle_hash: u64) -> BundledTransaction {
    BundledTransaction { hash, index, last, bundle_hash, solid: false }
}

fn chain_of_three() -> Tangle {
    let mut tangle = Tangle::new();
    tangle.add_node(member(10, 0, 2, 5)).unwrap();
    tangle.add_node(member(11, 1, 2, 5)).unwrap();
    tangle.add_node(member(12, 2, 2, 5)).unwrap();
    tangle.add_trunk(TransactionId(10), TransactionId(11));
    tangle.add_trunk(TransactionId(11), TransactionId(12));
    tangle
}

#[test]
fn bundle_of_three_is_walked_to_its_head() {
    let tangle = chain_of_three();
    assert_eq!(Some(TransactionId(12)), tangle.walk_bundle(TransactionId(10)));
}

#[test]
fn another_bundle_hash_at_the_head_breaks_the_walk() {
    let mut tangle = chain_of_three();
    match tangle.get_node_mut(2) {
        Some(note) => {
            let mut changed = note.unwrap();
            changed.bundle_hash = 6;
            *note = Some(changed);
        }
        None => panic!("the head is at position 2"),
    }
    assert_eq!(6, tangle.get_node(2).unwrap().bundle.unwrap().bundle_hash);
    assert_eq!(None, tangle.walk_bundle(TransactionId(10)));
    // and the walk is whole again once the hash is put back
    if let Some(note) = tangle.get_node_mut(2) {
        *note = Some(member(12, 2, 2, 5));
    }
    assert_eq!(Some(TransactionId(12)), tangle.walk_bundle(TransactionId(10)));
    assert!(tangle.get_node_mut(3).is_none());
}

#[test]
fn single_record_bundle_is_its_own_head() {
    let mut tangle = Tangle::new();
    tangle.add_node(member(1, 0, 0, 5)).unwrap();
    assert_eq!(Some(TransactionId(1)), tangle.walk_bundle(TransactionId(1)));
    // whatever its trunk leads to
    tangle.add_node(member(2, 1, 0, 5)).unwrap();
    tangle.add_trunk(TransactionId(1), TransactionId(2));
    assert_eq!(Some(TransactionId(1)), tangle.walk_bundle(TransactionId(1)));
}

#[test]
fn a_missing_trunk_breaks_the_walk() {
    let mut tangle = Tangle::new();
    tangle.add_node(member(10, 0, 2, 5)).unwrap();
    tangle.add_node(member(11, 1, 2, 5)).unwrap();
    tangle.add_trunk(TransactionId(10), TransactionId(11));
    assert_eq!(None, tangle.walk_bundle(TransactionId(10)));
    let mut alone = Tangle::new();
    alone.add_node(member(10, 0, 1, 5)).unwrap();
    assert_eq!(None, alone.walk_bundle(TransactionId(10)));
}

#[test]
fn a_wrong_index_or_head_breaks_the_walk() {
    // the body says it is the head's place
    let mut tangle = Tangle::new();
    tangle.add_node(member(10, 0, 2, 5)).unwrap();
    tangle.add_node(member(11, 2, 2, 5)).unwrap();
    tangle.add_node(member(12, 2, 2, 5)).unwrap();
    tangle.add_trunk(TransactionId(10), TransactionId(11));
    tangle.add_trunk(TransactionId(11), TransactionId(12));
    assert_eq!(None, tangle.walk_bundle(TransactionId(10)));
    // the body names another head
    let mut tangle = Tangle::new();
    tangle.add_node(member(10, 0, 2, 5)).unwrap();
    tangle.add_node(member(11, 1, 3, 5)).unwrap();
    tangle.add_node(member(12, 2, 2, 5)).unwrap();
    tangle.add_trunk(TransactionId(10), TransactionId(11));
    tangle.add_trunk(TransactionId(11), TransactionId(12));
    assert_eq!(None, tangle.walk_bundle(TransactionId(10)));
    // the body carries no note at all
    let mut tangle = Tangle::new();
    tangle.add_node(member(10, 0, 2, 5)).unwrap();
    tangle.insert_vertex(TransactionId(11), None, None, None).unwrap();
    tangle.add_node(member(12, 2, 2, 5)).unwrap();
    tangle.add_trunk(TransactionId(10), TransactionId(11));
    tangle.add_trunk(TransactionId(11), TransactionId(12));
    assert_eq!(None, tangle.walk_bundle(TransactionId(10)));
}

#[test]
fn only_a_tail_can_be_walked_from() {
    let tangle = chain_of_three();
    assert!(tangle.is_tail(TransactionId(10)));
    assert!(!tangle.is_tail(TransactionId(11)));
    assert!(!tangle.is_tail(TransactionId(12)));
    assert!(!tangle.is_tail(TransactionId(13)));
    let mut plain = Tangle::new();
    plain.insert_vertex(TransactionId(1), None, None, None).unwrap();
    assert!(!plain.is_tail(TransactionId(1)));
}

#[test]
fn a_bundle_arrives_in_any_order() {
    let mut tangle = Tangle::new();
    tangle
        .insert_vertex(TransactionId(10), Some(TransactionId(11)), None, Some(member(10, 0, 2, 5)))
        .unwrap();
    assert_eq!(None, tangle.walk_bundle(TransactionId(10)));
    tangle
        .insert_vertex(TransactionId(12), None, None, Some(member(12, 2, 2, 5)))
        .unwrap();
    tangle
        .insert_vertex(TransactionId(11), Some(TransactionId(12)), None, Some(member(11, 1, 2, 5)))
        .unwrap();
    assert_eq!(Some(TransactionId(12)), tangle.walk_bundle(TransactionId(10)));
}

#[test]
fn records_are_compared_by_hash() {
    assert_eq!(member(1, 0, 2, 5), member(1, 1, 3, 6));
    assert_ne!(member(1, 0, 2, 5), member(2, 0, 2, 5));
}

#[test]
fn a_note_can_be_put_on_a_vertex_that_has_none() {
    let mut tangle = Tangle::new();
    tangle.insert_vertex(TransactionId(1), None, None, None).unwrap();
    assert!(!tangle.is_tail(TransactionId(1)));
    match tangle.get_node_mut(0) {
        Some(note) => {
            assert!(note.is_none());
            *note = Some(member(1, 0, 0, 3));
        }
        None => panic!("the vertex is at position 0"),
    }
    assert!(tangle.is_tail(TransactionId(1)));
    assert_eq!(Some(TransactionId(1)), tangle.walk_bundle(TransactionId(1)));
    assert_eq!(1, tangle.size());
    assert!(tangle.contains(TransactionId(1)));
}

use tangle::{BundledTransaction, Edge, TransactionHash, TransactionId, Vertex};

#[test]
fn new_node() {
    let id = TransactionId::new(&TransactionHash(vec![1, 2, 3]));
    let node = Vertex::new(id, 7);
    assert_eq!(id, node.id);
    assert_eq!(7, node.last_access);
    assert!(!node.solid);
}

#[test]
fn new_vertex() {
    let id = TransactionId::new(&TransactionHash(vec![9]));
    let vertex = Vertex::new(id, 0);
    assert_eq!(TransactionId(9), vertex.id);
    assert_eq!(Edge::Unresolved, vertex.trunk);
    assert_eq!(Edge::Unresolved, vertex.branch);
    assert!(vertex.referrers.is_empty());
    assert!(!vertex.solid);
    assert_eq!(0, vertex.last_access);
    assert!(vertex.bundle.is_none());
    assert!(vertex.awaited_trunk.is_none());
    assert!(vertex.awaited_branch.is_none());
    assert!(!vertex.has_trunk());
    assert!(!vertex.has_branch());
    assert!(!vertex.has_referrers());
}

#[test]
fn vertex_reports_its_links_and_referrers() {
    let mut vertex = Vertex::new(TransactionId(1), 0);
    vertex.trunk = Edge::With { id: TransactionId(2) };
    assert!(vertex.has_trunk());
    assert!(!vertex.has_branch());
    vertex.branch = Edge::With { id: TransactionId(3) };
    assert!(vertex.has_branch());
    vertex.referrers.push(TransactionId(4));
    assert!(vertex.has_referrers());
}

#[test]
fn bundle_size_is_last_plus_one() {
    let tx = BundledTransaction { hash: 5, index: 1, last: 2, bundle_hash: 9, solid: false };
    assert_eq!(3, tx.size());
    assert_eq!(TransactionId(5), tx.id());
    let single = BundledTransaction { hash: 5, index: 0, last: 0, bundle_hash: 9, solid: false };
    assert_eq!(1, single.size());
}

#[test]
fn identity_is_the_little_endian_prefix() {
    assert_eq!(TransactionId(0), TransactionId::new(&TransactionHash(vec![])));
    assert_eq!(TransactionId(1), TransactionId::new(&TransactionHash(vec![1])));
    assert_eq!(TransactionId(0x0201), TransactionId::new(&TransactionHash(vec![1, 2])));
    assert_eq!(
        TransactionId(0x0807_0605_0403_0201),
        TransactionId::new(&TransactionHash(vec![1, 2, 3, 4, 5, 6, 7, 8]))
    );
    assert_eq!(
        TransactionId(u64::MAX),
        TransactionId::new(&TransactionHash(vec![255; 8]))
    );
}

#[test]
fn identity_ignores_what_follows_the_eighth_byte() {
    let a = TransactionId::new(&TransactionHash(vec![1, 2, 3, 4, 5, 6, 7, 8, 9]));
    let b = TransactionId::new(&TransactionHash(vec![1, 2, 3, 4, 5, 6, 7, 8, 200, 201]));
    assert_eq!(a, b);
    let c = TransactionId::new(&TransactionHash(vec![1, 2, 3, 4, 5, 6, 7, 9]));
    assert_ne!(a, c);
}

#[test]
fn same_hash_same_identity() {
    let a = TransactionId::new(&TransactionHash("TANGLE9OLE".into()));
    let b = TransactionId::new(&TransactionHash("TANGLE9OLE".into()));
    assert_eq!(a, b);
    let trunk = TransactionId::new(&TransactionHash("TRUNK9HASH".into()));
    let branch = TransactionId::new(&TransactionHash("BRANCH9HASH".into()));
    assert_ne!(a, trunk);
    assert_ne!(a, branch);
    assert_ne!(trunk, branch);
}

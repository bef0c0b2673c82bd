use tangle::{Approvees, BundledTransaction, Tangle, TransactionId};

fn node(value: u8) -> BundledTransaction {
    BundledTransaction { hash: value as u64, index: 0, last: 0, bundle_hash: 0, solid: false }
}

#[test]
fn tangle_new_tangle() {
    let tangle = Tangle::new();

    assert!(tangle.is_empty());
    assert_eq!(0, tangle.size());
    assert_eq!(None, tangle.tips().into_iter().next());
}

#[test]
fn add_and_contains() {
    let mut tangle = Tangle::new();

    let a = node(0);
    let i = tangle.add_node(a).unwrap();

    assert!(!tangle.is_empty());
    assert_eq!(1, tangle.size());
    assert_eq!(0, i);
    assert!(tangle.contains_index(i));

    let b = node(1);
    let j = tangle.add_node(b).unwrap();

    assert!(!tangle.is_empty());
    assert_eq!(2, tangle.size());
    assert_eq!(1, j);
    assert!(tangle.contains_index(i));
    assert!(tangle.contains_index(j));
    assert!(!tangle.contains_index(2));
}

#[test]
fn add_and_get() {
    let mut tangle = Tangle::new();

    let a = node(0);
    let i = tangle.add_node(a).unwrap();

    let b = tangle.get_node(i).expect("get_node");
    assert_eq!(a.id(), b.id);
    assert_eq!(Some(a), b.bundle);
    assert!(tangle.get_node(i + 1).is_none());
}

#[test]
fn add_and_remove() {
    let mut tangle = Tangle::new();

    let a = node(0);
    let i = tangle.add_node(a).unwrap();
    assert_eq!(1, tangle.size());

    let b = tangle.remove_node(i).expect("remove_node");
    assert_eq!(0, tangle.size());
    assert_eq!(a.id(), b.id);
    assert_eq!(Some(a), b.bundle);
}

#[test]
fn tangle_add_trunk() {
    let mut tangle = Tangle::new();

    let a = node(0);
    let b = node(1);

    tangle.add_node(a).unwrap();
    tangle.add_node(b).unwrap();

    assert!(tangle.can_link(a.id(), b.id(), true));
    tangle.add_trunk(a.id(), b.id());

    assert!(tangle.has_edge(a.id(), b.id()));
    assert!(tangle.has_edge(b.id(), a.id()));
}

#[test]
fn tangle_add_branch() {
    let mut tangle = Tangle::new();

    let a = node(0);
    let b = node(1);

    tangle.add_node(a).unwrap();
    tangle.add_node(b).unwrap();

    assert!(tangle.can_link(a.id(), b.id(), false));
    tangle.add_branch(a.id(), b.id());

    assert!(tangle.has_edge(a.id(), b.id()));
    assert!(tangle.has_edge(b.id(), a.id()));
}

#[test]
fn iter_tips() {
    let mut tangle = Tangle::new();

    let a = node(0);
    let b = node(1);
    let c = node(2);
    let d = node(3);
    let e = node(4);
    let f = node(5);

    tangle.add_node(a).unwrap();
    tangle.add_node(b).unwrap();
    tangle.add_node(c).unwrap();
    tangle.add_node(d).unwrap();
    tangle.add_node(e).unwrap();
    tangle.add_node(f).unwrap();

    let mut num_tips = 0;
    for _ in tangle.tips() {
        num_tips += 1;
    }
    assert_eq!(6, num_tips);

    tangle.add_trunk(c.id(), a.id());
    tangle.add_branch(c.id(), b.id());

    let mut num_tips = 0;
    for _ in tangle.tips() {
        num_tips += 1;
    }
    assert_eq!(4, num_tips);
    assert_eq!(vec![c.id(), d.id(), e.id(), f.id()], tangle.tips());
}

#[test]
fn iter_approvers() {
    let mut tangle = Tangle::new();

    let a = node(0);
    let b = node(1);
    let c = node(2);
    let d = node(3);
    let e = node(4);

    tangle.add_node(a).unwrap();
    tangle.add_node(b).unwrap();
    tangle.add_node(c).unwrap();
    tangle.add_node(d).unwrap();
    tangle.add_node(e).unwrap();

    tangle.add_trunk(c.id(), a.id());
    tangle.add_trunk(d.id(), a.id());
    tangle.add_trunk(e.id(), a.id());

    tangle.add_branch(c.id(), b.id());
    tangle.add_branch(d.id(), b.id());

    assert_eq!(3, tangle.get_approvers(a.id()).unwrap().len());
    assert_eq!(2, tangle.get_approvers(b.id()).unwrap().len());
    assert_eq!(vec![c.id(), d.id(), e.id()], tangle.get_approvers(a.id()).unwrap());
    assert_eq!(vec![c.id(), d.id()], tangle.get_approvers(b.id()).unwrap());
    assert!(tangle.get_approvers(c.id()).unwrap().is_empty());
}

#[test]
fn graph_new_tangle() {
    let tangle = Tangle::new();

    assert!(tangle.is_empty());
    assert_eq!(0, tangle.size());
}

#[test]
fn insert_and_contains() {
    let mut tangle = Tangle::new();

    let a = node(0);
    tangle.add_node(a).unwrap();

    assert!(!tangle.is_empty());
    assert_eq!(1, tangle.size());
    assert!(tangle.contains(a.id()));

    let b = node(1);
    tangle.add_node(b).unwrap();

    assert!(!tangle.is_empty());
    assert_eq!(2, tangle.size());
    assert!(tangle.contains(b.id()));
    assert!(!tangle.contains(TransactionId(2)));
}

#[test]
fn graph_add_trunk() {
    let mut tangle = Tangle::new();

    let a = node(0);
    let b = node(1);

    tangle.add_node(a).unwrap();
    tangle.add_node(b).unwrap();

    tangle.add_trunk(a.id(), b.id());

    assert!(tangle.has_edge(a.id(), b.id()));
    assert!(tangle.has_edge(b.id(), a.id()));
}

#[test]
fn graph_add_branch() {
    let mut tangle = Tangle::new();

    let a = node(0);
    let b = node(1);

    tangle.add_node(a).unwrap();
    tangle.add_node(b).unwrap();

    tangle.add_branch(a.id(), b.id());

    assert!(tangle.has_edge(a.id(), b.id()));
    assert!(tangle.has_edge(b.id(), a.id()));
}

#[test]
fn edges_of_three_nodes() {
    let mut tangle = Tangle::new();

    let a = node(0);
    let b = node(1);
    let c = node(2);

    tangle.add_node(a).unwrap();
    tangle.add_node(b).unwrap();
    tangle.add_node(c).unwrap();

    tangle.add_trunk(c.id(), a.id());
    tangle.add_branch(c.id(), b.id());

    assert!(tangle.has_edge(c.id(), a.id()));
    assert!(tangle.has_edge(a.id(), c.id()));
    assert!(tangle.has_edge(c.id(), b.id()));
    assert!(tangle.has_edge(b.id(), c.id()));
    assert!(!tangle.has_edge(a.id(), b.id()));
    assert!(!tangle.has_edge(b.id(), a.id()));
    assert!(!tangle.has_edge(a.id(), TransactionId(77)));
    assert!(!tangle.has_edge(TransactionId(77), TransactionId(78)));
}

#[test]
fn approvees_come_out_trunk_first() {
    let mut tangle = Tangle::new();
    let a = node(0);
    let b = node(1);
    let c = node(2);
    tangle.add_node(a).unwrap();
    tangle.add_node(b).unwrap();
    tangle.add_node(c).unwrap();

    let none = tangle.get_approvees(c.id()).unwrap();
    assert_eq!(0, none.len());
    assert_eq!(None, none.get(0));

    tangle.add_branch(c.id(), b.id());
    let one = tangle.get_approvees(c.id()).unwrap();
    assert_eq!(1, one.len());
    assert_eq!(Some(b.id()), one.get(0));
    assert!(one.contains(b.id()));
    assert!(!one.contains(a.id()));

    tangle.add_trunk(c.id(), a.id());
    let both = tangle.get_approvees(c.id()).unwrap();
    assert_eq!(2, both.len());
    assert_eq!(Some(a.id()), both.get(0));
    assert_eq!(Some(b.id()), both.get(1));
    assert_eq!(None, both.get(2));

    assert!(tangle.get_approvees(TransactionId(9)).is_err());
}

#[test]
fn collect_lists_what_the_variant_holds() {
    let t = TransactionId(1);
    let b = TransactionId(2);
    let neither = Approvees::Neither.collect();
    assert_eq!(0, neither.len());
    let trunk = Approvees::Trunk(t).collect();
    assert_eq!((1, Some(t)), (trunk.len(), trunk.get(0)));
    let branch = Approvees::Branch(b).collect();
    assert_eq!((1, Some(b)), (branch.len(), branch.get(0)));
    let both = Approvees::Both(t, b).collect();
    assert_eq!((2, Some(t), Some(b)), (both.len(), both.get(0), both.get(1)));
}

#[test]
fn neighbors_of_a_node() {
    let mut tangle = Tangle::new();
    let a = node(0);
    let b = node(1);
    let c = node(2);
    let ia = tangle.add_node(a).unwrap();
    tangle.add_node(b).unwrap();
    let ic = tangle.add_node(c).unwrap();
    tangle.add_trunk(c.id(), a.id());
    tangle.add_branch(b.id(), a.id());

    let na = tangle.get_neighbors(ia).unwrap();
    assert_eq!(Approvees::Neither, na.approvees);
    assert_eq!(2, na.degree_in());
    assert_eq!(0, na.degree_out());
    assert!(!na.is_tip());
    assert_eq!(vec![c.id(), b.id()], na.approvers);

    let nc = tangle.get_neighbors(ic).unwrap();
    assert_eq!(Approvees::Trunk(a.id()), nc.approvees);
    assert_eq!(0, nc.degree_in());
    assert_eq!(1, nc.degree_out());
    assert!(nc.is_tip());

    assert!(tangle.get_neighbors(3).is_none());
}

#[test]
fn fresh_neighbors_stand_alone() {
    let n = tangle::Neighbors::new();
    assert_eq!(0, n.degree_in());
    assert_eq!(0, n.degree_out());
    assert!(n.is_tip());
    let both = tangle::Neighbors {
        approvees: Approvees::Both(TransactionId(1), TransactionId(2)),
        approvers: vec![TransactionId(3)],
    };
    assert_eq!(2, both.degree_out());
    assert_eq!(1, both.degree_in());
    assert!(!both.is_tip());
}

#[test]
fn a_link_is_free_only_once() {
    let mut tangle = Tangle::new();
    let a = node(0);
    let b = node(1);
    tangle.add_node(a).unwrap();
    tangle.add_node(b).unwrap();
    assert!(tangle.can_link(a.id(), b.id(), true));
    assert!(!tangle.can_link(a.id(), TransactionId(9), true));
    assert!(!tangle.can_link(TransactionId(9), b.id(), true));
    tangle.add_trunk(a.id(), b.id());
    assert!(!tangle.can_link(a.id(), b.id(), true));
    assert!(tangle.can_link(a.id(), b.id(), false));
    tangle.add_branch(a.id(), b.id());
    assert!(!tangle.can_link(a.id(), b.id(), false));
    // the same vertex as trunk and branch is listed once as approver
    assert_eq!(vec![a.id()], tangle.get_approvers(b.id()).unwrap());
}

#[test]
fn a_node_with_approvers_is_not_removed() {
    let mut tangle = Tangle::new();
    let a = node(0);
    let b = node(1);
    let ia = tangle.add_node(a).unwrap();
    let ib = tangle.add_node(b).unwrap();
    tangle.add_trunk(b.id(), a.id());
    assert!(tangle.remove_node(ia).is_none());
    assert_eq!(2, tangle.size());
    let gone = tangle.remove_node(ib).expect("a tip can go");
    assert_eq!(b.id(), gone.id);
    assert_eq!(1, tangle.size());
    assert!(tangle.get_approvers(a.id()).unwrap().is_empty());
    assert!(tangle.remove_node(5).is_none());
    let gone = tangle.remove_node(0).expect("now a tip");
    assert_eq!(a.id(), gone.id);
    assert!(tangle.is_empty());
}

#[test]
fn removing_keeps_the_order_of_the_rest() {
    let mut tangle = Tangle::new();
    for v in 0..4u8 {
        tangle.add_node(node(v)).unwrap();
    }
    tangle.remove_node(1).unwrap();
    assert_eq!(
        vec![TransactionId(0), TransactionId(2), TransactionId(3)],
        tangle.tips()
    );
    assert_eq!(TransactionId(2), tangle.get_node(1).unwrap().id);
}

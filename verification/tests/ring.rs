use tangle::RingIterator;

fn forwards(mut ring: RingIterator, n: usize) -> Vec<usize> {
    let mut out = Vec::new();
    while out.len() < n {
        out.push(ring.next().unwrap());
    }
    out
}

fn backwards(mut ring: RingIterator, n: usize) -> Vec<usize> {
    let mut out = Vec::new();
    while out.len() < n {
        out.push(ring.next_back().unwrap());
    }
    out
}

#[test]
fn iter_forwards_from_first() {
    let ring = RingIterator::new(0, 3);

    let check = vec![0, 1, 2, 0, 1, 2];

    let mut index = 0;
    for r in forwards(ring, 6) {
        assert_eq!(check[index], r);
        index += 1;
    }
    assert_eq!(6, index);
}

#[test]
fn iter_forwards_from_mid() {
    let ring = RingIterator::new(1, 3);

    let check = vec![1, 2, 0, 1, 2, 0];

    let mut index = 0;
    for r in forwards(ring, 6) {
        assert_eq!(check[index], r);
        index += 1;
    }
    assert_eq!(6, index);
}

#[test]
fn iter_forwards_from_last() {
    let ring = RingIterator::new(2, 3);

    let check = vec![2, 0, 1, 2, 0, 1];

    let mut index = 0;
    for r in forwards(ring, 6) {
        assert_eq!(check[index], r);
        index += 1;
    }
    assert_eq!(6, index);
}

#[test]
fn iter_backwards_from_first() {
    let ring = RingIterator::new(0, 3);

    let check = vec![0, 2, 1, 0, 2, 1];

    let mut index = 0;
    for r in backwards(ring, 6) {
        assert_eq!(check[index], r);
        index += 1;
    }
    assert_eq!(6, index);
}

#[test]
fn iter_backwards_from_mid() {
    let ring = RingIterator::new(1, 3);

    let check = vec![1, 0, 2, 1, 0, 2];

    let mut index = 0;
    for r in backwards(ring, 6) {
        assert_eq!(check[index], r);
        index += 1;
    }
    assert_eq!(6, index);
}

#[test]
fn iter_backwards_from_last() {
    let ring = RingIterator::new(2, 3);

    let check = vec![2, 1, 0, 2, 1, 0];

    let mut index = 0;
    for r in backwards(ring, 6) {
        assert_eq!(check[index], r);
        index += 1;
    }
    assert_eq!(6, index);
}

#[test]
fn ring_of_one_stays_in_place() {
    let mut ring = RingIterator::new(0, 1);
    assert_eq!(Some(0), ring.next());
    assert_eq!(Some(0), ring.next_back());
    assert_eq!(Some(0), ring.next());
    assert_eq!(0, ring.len());
}

#[test]
fn ring_len_counts_what_is_left_of_the_numbering() {
    assert_eq!(2, RingIterator::new(0, 3).len());
    assert_eq!(1, RingIterator::new(1, 3).len());
    assert_eq!(0, RingIterator::new(2, 3).len());
}

#[test]
fn ring_step_back_undoes_step_forward() {
    let mut ring = RingIterator::new(4, 5);
    assert_eq!(Some(4), ring.next());
    assert_eq!(Some(0), ring.next_back());
    assert_eq!(Some(4), ring.next());
}

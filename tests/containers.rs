use std::collections::VecDeque;
use tcp_rust::cell::Cell;
use tcp_rust::flatten::{flatten, Flatten};

fn nested(v: Vec<Vec<i32>>) -> VecDeque<VecDeque<i32>> {
    v.into_iter().map(|inner| inner.into_iter().collect()).collect()
}

#[test]
fn flatten_from_the_front() {
    let mut f = flatten(nested(vec![vec![1, 2], vec![], vec![3], vec![4, 5]]));
    let mut out = Vec::new();
    while let Some(v) = f.next() {
        out.push(v);
    }
    assert_eq!(out, vec![1, 2, 3, 4, 5]);
    assert_eq!(f.next(), None);
}

#[test]
fn flatten_from_the_back() {
    let mut f = Flatten::new(nested(vec![vec![1, 2], vec![], vec![3], vec![4, 5]]));
    let mut out = Vec::new();
    while let Some(v) = f.next_back() {
        out.push(v);
    }
    assert_eq!(out, vec![5, 4, 3, 2, 1]);
}

#[test]
fn flatten_from_both_ends_meets_in_the_middle() {
    let mut f = flatten(nested(vec![vec![1, 2, 3], vec![4, 5, 6]]));
    assert_eq!(f.next(), Some(1));
    assert_eq!(f.next_back(), Some(6));
    assert_eq!(f.next_back(), Some(5));
    assert_eq!(f.next_back(), Some(4));
    assert_eq!(f.next_back(), Some(3));
    assert_eq!(f.next(), Some(2));
    assert_eq!(f.next(), None);
    assert_eq!(f.next_back(), None);
}

#[test]
fn flatten_of_empty_inners_is_empty() {
    let mut f = flatten(nested(vec![vec![], vec![]]));
    assert_eq!(f.next(), None);
    let mut g = flatten(nested(vec![]));
    assert_eq!(g.next_back(), None);
}

#[test]
fn cell_get_and_set_through_shared_reference() {
    let c = Cell::new(5u32);
    let r1 = &c;
    let r2 = &c;
    assert_eq!(r1.get(), 5);
    r2.set(13);
    assert_eq!(r1.get(), 13);
}

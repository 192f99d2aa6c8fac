use std::collections::VecDeque;

use flattener::{flatten, Flatten};

fn drain_forward<T>(mut f: Flatten<T>) -> Vec<T> {
    let mut out = Vec::new();
    while let Some(x) = f.next() {
        out.push(x);
    }
    out
}

#[test]
fn empty_outer_stays_empty() {
    let mut f = flatten(Vec::<Vec<u32>>::new());
    assert_eq!(f.next(), None);
    assert_eq!(f.next(), None);
    assert_eq!(f.next_back(), None);
    assert_eq!(f.next(), None);
}

#[test]
fn single_element_once() {
    let mut f = flatten(vec![vec![7u32]]);
    assert_eq!(f.next(), Some(7));
    assert_eq!(f.next(), None);
    assert_eq!(f.next(), None);
    assert_eq!(f.next_back(), None);
}

#[test]
fn single_element_from_the_back() {
    let mut f = flatten(vec![vec![7u32]]);
    assert_eq!(f.next_back(), Some(7));
    assert_eq!(f.next(), None);
    assert_eq!(f.next_back(), None);
}

#[test]
fn mixed_lengths_concatenate() {
    let outer = vec![vec![], vec![1u32, 2], vec![], vec![], vec![3], vec![]];
    assert_eq!(drain_forward(flatten(outer)), vec![1, 2, 3]);
}

#[test]
fn mixed_lengths_reverse() {
    let outer = vec![vec![], vec![1u32, 2], vec![], vec![], vec![3], vec![]];
    assert_eq!(flatten(outer).collect_rev(), vec![3, 2, 1]);
}

#[test]
fn forward_order() {
    let f = flatten(vec![vec!["a", "b"], vec!["c", "d"]]);
    assert_eq!(drain_forward(f), vec!["a", "b", "c", "d"]);
}

#[test]
fn backward_reverse() {
    let f = flatten(vec![vec!["a", "b"], vec!["c", "d"]]);
    assert_eq!(f.collect_rev(), vec!["d", "c", "b", "a"]);
}

#[test]
fn forward_drains_the_back_cursor() {
    let mut f = flatten(vec![vec![1u32, 2, 3]]);
    assert_eq!(f.next_back(), Some(3));
    assert_eq!(f.next(), Some(1));
    assert_eq!(f.next(), Some(2));
    assert_eq!(f.next(), None);
    assert_eq!(f.next_back(), None);
}

#[test]
fn backward_drains_the_front_cursor() {
    let mut f = flatten(vec![vec![1u32, 2, 3], vec![]]);
    assert_eq!(f.next(), Some(1));
    assert_eq!(f.next_back(), Some(3));
    assert_eq!(f.next_back(), Some(2));
    assert_eq!(f.next_back(), None);
    assert_eq!(f.next(), None);
}

#[test]
fn exhaustion_is_final_both_ways() {
    let mut f = flatten(vec![vec![1u32], vec![2]]);
    assert_eq!(f.next(), Some(1));
    assert_eq!(f.next_back(), Some(2));
    for _ in 0..4 {
        assert_eq!(f.next(), None);
        assert_eq!(f.next_back(), None);
    }
}

#[test]
fn interleaving_yields_each_once() {
    let outer = vec![vec![1u32, 2, 3], vec![], vec![4], vec![5, 6], vec![], vec![7, 8, 9]];
    let pattern = [true, true, false, true, false, false, true, false, true, true, false, true];
    let mut f = flatten(outer);
    let mut front = Vec::new();
    let mut back = Vec::new();
    let mut nones = 0;
    for &forward in pattern.iter() {
        let r = if forward { f.next() } else { f.next_back() };
        match r {
            Some(x) if forward => front.push(x),
            Some(x) => back.push(x),
            None => nones += 1,
        }
    }
    assert_eq!(front, vec![1, 2, 3, 4, 5]);
    assert_eq!(back, vec![9, 8, 7, 6]);
    assert_eq!(nones, pattern.len() - 9);
}

#[test]
fn count_is_sum_of_lengths() {
    let outer = vec![vec![1u8; 4], vec![], vec![2u8; 3], vec![3u8]];
    assert_eq!(flatten(outer).count(), 8);
}

#[test]
fn count_after_partial_drain() {
    let mut f = flatten(vec![vec![1u8, 2], vec![3, 4, 5]]);
    assert_eq!(f.next(), Some(1));
    assert_eq!(f.next_back(), Some(5));
    assert_eq!(f.count(), 3);
}

#[test]
fn collect_rev_after_partial_drain() {
    let mut f = flatten(vec![vec![1u8, 2], vec![3, 4, 5]]);
    assert_eq!(f.next(), Some(1));
    assert_eq!(f.next(), Some(2));
    assert_eq!(f.next(), Some(3));
    assert_eq!(f.collect_rev(), vec![5, 4]);
}

#[test]
fn new_over_a_deque() {
    let mut outer = VecDeque::new();
    outer.push_back(vec!['x', 'y']);
    outer.push_back(vec![]);
    outer.push_back(vec!['z']);
    let mut f = Flatten::new(outer);
    assert_eq!(f.next_back(), Some('z'));
    assert_eq!(f.next(), Some('x'));
    assert_eq!(f.next(), Some('y'));
    assert_eq!(f.next(), None);
}

#[test]
fn owned_strings_move_through() {
    let outer = vec![vec![String::from("p")], vec![String::from("q"), String::from("r")]];
    let mut f = flatten(outer);
    assert_eq!(f.next_back(), Some(String::from("r")));
    assert_eq!(drain_forward(f), vec![String::from("p"), String::from("q")]);
}

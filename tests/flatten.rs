use flattener::flatten;

#[test]
fn empty() {
    assert_eq!(flatten(Vec::<Vec<()>>::new()).count(), 0)
}

#[test]
fn one() {
    assert_eq!(flatten(vec![vec!["a"]]).count(), 1)
}

#[test]
fn two() {
    assert_eq!(flatten(vec![vec!["a", "b"]]).count(), 2)
}

#[test]
fn two_vec() {
    assert_eq!(flatten(vec![vec!["a"], vec!["b"]]).count(), 2)
}

#[test]
fn empty_two_vec() {
    assert_eq!(flatten(vec![Vec::<()>::new(), vec![]]).count(), 0)
}

#[test]
fn reverse_two() {
    assert_eq!(flatten(vec![vec!["a", "b"]]).collect_rev(), vec!["b", "a"])
}

#[test]
fn reverse_two_vec() {
    assert_eq!(
        flatten(vec![vec!["a"], vec!["b"]]).collect_rev(),
        vec!["b", "a"]
    )
}

#[test]
fn both_ends() {
    let mut iter = flatten(vec![vec!["a", "b"], vec!["c", "d"]]);
    assert_eq!(iter.next(), Some("a"));
    assert_eq!(iter.next_back(), Some("d"));
    assert_eq!(iter.next(), Some("b"));
    assert_eq!(iter.next_back(), Some("c"));
    assert_eq!(iter.next(), None);
    assert_eq!(iter.next_back(), None);
}

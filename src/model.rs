use vstd::prelude::*;

verus! {

/// The elements of the inner sequences, concatenated in outer order.
pub open spec fn flat<T>(outer: Seq<Vec<T>>) -> Seq<T> {
    outer.map_values(|v: Vec<T>| v@).flatten()
}

/// The sum of the lengths of the inner sequences.
pub open spec fn total_len<T>(outer: Seq<Vec<T>>) -> nat
    decreases outer.len(),
{
    if outer.len() == 0 {
        0
    } else {
        outer[0]@.len() + total_len(outer.drop_first())
    }
}

/// One pull from the front of what remains: the element it yields, if any,
/// and what remains afterwards.
pub open spec fn pull_front<T>(s: Seq<T>) -> (Option<T>, Seq<T>) {
    if s.len() == 0 {
        (None, s)
    } else {
        (Some(s[0]), s.drop_first())
    }
}

/// One pull from the back of what remains.
pub open spec fn pull_back<T>(s: Seq<T>) -> (Option<T>, Seq<T>) {
    if s.len() == 0 {
        (None, s)
    } else {
        (Some(s.last()), s.drop_last())
    }
}

/// One pull in the given direction (`true` is forward).
pub open spec fn pull<T>(s: Seq<T>, forward: bool) -> (Option<T>, Seq<T>) {
    if forward {
        pull_front(s)
    } else {
        pull_back(s)
    }
}

/// A run of pulls, in the order given: what each pull yields, and what
/// remains at the end.
pub open spec fn drive<T>(s: Seq<T>, pulls: Seq<bool>) -> (Seq<Option<T>>, Seq<T>)
    decreases pulls.len(),
{
    if pulls.len() == 0 {
        (Seq::empty(), s)
    } else {
        let (o, s2) = pull(s, pulls[0]);
        let (outs, rest) = drive(s2, pulls.drop_first());
        (seq![o] + outs, rest)
    }
}

/// The elements that the forward pulls of a run yielded, in the order yielded.
pub open spec fn yielded_front<T>(outs: Seq<Option<T>>, pulls: Seq<bool>) -> Seq<T>
    decreases pulls.len(),
{
    if pulls.len() == 0 || outs.len() == 0 {
        Seq::empty()
    } else {
        let tail = yielded_front(outs.drop_first(), pulls.drop_first());
        match outs[0] {
            Some(x) if pulls[0] => seq![x] + tail,
            _ => tail,
        }
    }
}

/// The elements that the backward pulls of a run yielded, in the order yielded.
pub open spec fn yielded_back<T>(outs: Seq<Option<T>>, pulls: Seq<bool>) -> Seq<T>
    decreases pulls.len(),
{
    if pulls.len() == 0 || outs.len() == 0 {
        Seq::empty()
    } else {
        let tail = yielded_back(outs.drop_first(), pulls.drop_first());
        match outs[0] {
            Some(x) if !pulls[0] => seq![x] + tail,
            _ => tail,
        }
    }
}

/// A run of `n` pulls in one direction.
pub open spec fn only(forward: bool, n: nat) -> Seq<bool> {
    Seq::new(n, |i: int| forward)
}

/// `k` is the index of the first inner sequence of `outer` that is not empty.
pub open spec fn first_nonempty<T>(outer: Seq<Vec<T>>, k: int) -> bool {
    &&& 0 <= k < outer.len()
    &&& outer[k]@.len() > 0
    &&& forall|j: int| 0 <= j < k ==> #[trigger] outer[j]@.len() == 0
}

/// `k` is the index of the last inner sequence of `outer` that is not empty.
pub open spec fn last_nonempty<T>(outer: Seq<Vec<T>>, k: int) -> bool {
    &&& 0 <= k < outer.len()
    &&& outer[k]@.len() > 0
    &&& forall|j: int| k < j < outer.len() ==> #[trigger] outer[j]@.len() == 0
}

/// Taking the first inner sequence off the outer one.
pub proof fn lemma_flat_front<T>(outer: Seq<Vec<T>>)
    requires
        outer.len() > 0,
    ensures
        flat(outer) == outer[0]@ + flat(outer.drop_first()),
{
    let m = outer.map_values(|v: Vec<T>| v@);
    assert(m.drop_first() =~= outer.drop_first().map_values(|v: Vec<T>| v@));
}

/// Taking the last inner sequence off the outer one.
pub proof fn lemma_flat_back<T>(outer: Seq<Vec<T>>)
    requires
        outer.len() > 0,
    ensures
        flat(outer) == flat(outer.drop_last()) + outer.last()@,
{
    let m = outer.map_values(|v: Vec<T>| v@);
    let d = outer.drop_last().map_values(|v: Vec<T>| v@);
    assert(d.push(outer.last()@) =~= m);
    d.lemma_flatten_push(outer.last()@);
}

} // verus!

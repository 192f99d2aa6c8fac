use std::collections::VecDeque;
use vstd::prelude::*;

use crate::model::{
    first_nonempty, flat, last_nonempty, lemma_flat_back, lemma_flat_front, pull_back, pull_front,
};

verus! {

/// Turns a vector into a cursor that can be drained from either end.
fn into_cursor<U>(v: Vec<U>) -> (r: VecDeque<U>)
    ensures
        r@ == v@,
{
    let mut v = v;
    let ghost whole = v@;
    let mut r: VecDeque<U> = VecDeque::new();
    while v.len() > 0
        invariant
            v@ + r@ == whole,
        decreases v@.len(),
    {
        let x = v.pop().unwrap();
        r.push_front(x);
        assert(v@ + r@ =~= whole);
    }
    assert(r@ =~= whole);
    r
}

/// A flattener over the sequences of `iter`, in order.
pub fn flatten<T>(iter: Vec<Vec<T>>) -> (r: Flatten<T>)
    ensures
        r@ == flat(iter@),
        r.rest_outer() == iter@,
        !r.has_front(),
        !r.has_back(),
{
    Flatten::new(into_cursor(iter))
}

/// What a cursor slot still holds.
pub open spec fn slot<T>(c: Option<VecDeque<T>>) -> Seq<T> {
    match c {
        Some(d) => d@,
        None => Seq::empty(),
    }
}

/// A flat, double-ended sequence over a sequence of sequences.
///
/// The outer sequence is consumed from the front by forward pulls and from
/// the back by backward pulls. Each direction drains one inner sequence at a
/// time through its own cursor; when the outer sequence runs out, a pull
/// drains the cursor of the opposite direction.
pub struct Flatten<T> {
    outer: VecDeque<Vec<T>>,
    next_iter: Option<VecDeque<T>>,
    back_iter: Option<VecDeque<T>>,
}

impl<T> View for Flatten<T> {
    type V = Seq<T>;

    /// The elements not yet yielded, in flat order.
    closed spec fn view(&self) -> Seq<T> {
        slot(self.next_iter) + flat(self.outer@) + slot(self.back_iter)
    }
}

impl<T> Flatten<T> {
    /// What the forward cursor still holds (nothing when it is absent).
    pub closed spec fn front(&self) -> Seq<T> {
        slot(self.next_iter)
    }

    /// The inner sequences that the outer sequence has not yet handed out.
    pub closed spec fn rest_outer(&self) -> Seq<Vec<T>> {
        self.outer@
    }

    /// What the backward cursor still holds (nothing when it is absent).
    pub closed spec fn back(&self) -> Seq<T> {
        slot(self.back_iter)
    }

    /// Whether a forward cursor is installed.
    pub closed spec fn has_front(&self) -> bool {
        self.next_iter is Some
    }

    /// Whether a backward cursor is installed.
    pub closed spec fn has_back(&self) -> bool {
        self.back_iter is Some
    }

    /// What remains is the forward cursor, then the inner sequences still in
    /// the outer one, then the backward cursor.
    pub proof fn lemma_parts(&self)
        ensures
            self@ == self.front() + flat(self.rest_outer()) + self.back(),
    {
    }

    /// A flattener over `outer`, with both cursors absent.
    pub fn new(outer: VecDeque<Vec<T>>) -> (r: Flatten<T>)
        ensures
            r@ == flat(outer@),
            r.rest_outer() == outer@,
            !r.has_front(),
            !r.has_back(),
    {
        let r = Flatten { outer, next_iter: None, back_iter: None };
        assert(r@ =~= flat(outer@));
        r
    }

    /// Drains what remains forward and returns how many elements it held.
    pub fn count(self) -> (r: usize)
        requires
            self@.len() <= usize::MAX,
        ensures
            r == self@.len(),
    {
        let mut it = self;
        let mut n: usize = 0;
        loop
            invariant
                n + it@.len() == self@.len(),
                self@.len() <= usize::MAX,
            decreases it@.len(),
        {
            match it.next() {
                Some(_) => {
                    n = n + 1;
                },
                None => {
                    return n;
                },
            }
        }
    }

    /// Drains what remains backward and returns the elements in the order
    /// they came, that is the rest of the flat sequence reversed.
    pub fn collect_rev(self) -> (r: Vec<T>)
        ensures
            r@ == self@.reverse(),
    {
        let mut it = self;
        let mut out: Vec<T> = Vec::new();
        loop
            invariant
                it@ + out@.reverse() == self@,
            decreases it@.len(),
        {
            let ghost before = it@;
            match it.next_back() {
                Some(x) => {
                    out.push(x);
                    assert(it@ + out@.reverse() =~= before.drop_last() + seq![x] + (out@.reverse().drop_first()));
                    assert(it@ + out@.reverse() =~= self@);
                },
                None => {
                    assert(out@ =~= out@.reverse().reverse());
                    return out;
                },
            }
        }
    }

    /// Yields the next element in flat order, or `None` once none is left.
    ///
    /// It takes from the outer sequence only once the forward cursor is
    /// spent, and then only up to the first inner sequence that is not empty,
    /// which becomes the forward cursor. The backward cursor is drained from
    /// its front only when nothing else remains.
    pub fn next(&mut self) -> (r: Option<T>)
        ensures
            r == pull_front(old(self)@).0,
            final(self)@ == pull_front(old(self)@).1,
            old(self).front().len() > 0 ==> {
                &&& final(self).front() == old(self).front().drop_first()
                &&& final(self).rest_outer() == old(self).rest_outer()
                &&& final(self).back() == old(self).back()
            },
            old(self).front().len() == 0 && flat(old(self).rest_outer()).len() > 0 ==> exists|k: int|
                {
                    &&& first_nonempty(old(self).rest_outer(), k)
                    &&& final(self).front() == old(self).rest_outer()[k]@.drop_first()
                    &&& final(self).rest_outer() == old(self).rest_outer().subrange(
                        k + 1,
                        old(self).rest_outer().len() as int,
                    )
                    &&& final(self).back() == old(self).back()
                },
            old(self).front().len() == 0 && flat(old(self).rest_outer()).len() == 0 ==> {
                &&& final(self).front().len() == 0
                &&& final(self).rest_outer().len() == 0
                &&& final(self).back() == pull_front(old(self).back()).1
            },
    {
        let ghost orig = self.outer@;
        let ghost mut k: int = 0;
        loop
            invariant
                self@ == old(self)@,
                orig == old(self).outer@,
                0 <= k <= orig.len(),
                self.outer@ == orig.subrange(k, orig.len() as int),
                slot(self.back_iter) == slot(old(self).back_iter),
                k == 0 ==> slot(self.next_iter) == slot(old(self).next_iter),
                k > 0 ==> slot(old(self).next_iter).len() == 0,
                k > 0 ==> slot(self.next_iter) == orig[k - 1]@,
                forall|j: int| 0 <= j < k - 1 ==> #[trigger] orig[j]@.len() == 0,
            decreases 2 * self.outer@.len() + if self.next_iter is Some { 1int } else { 0 },
        {
            if let Some(inner) = &mut self.next_iter {
                if let Some(x) = inner.pop_front() {
                    assert(self@ =~= old(self)@.drop_first());
                    proof {
                        if k > 0 {
                            assert(first_nonempty(orig, k - 1));
                        }
                    }
                    return Some(x);
                }
                self.next_iter = None;
            }
            let ghost outer_before = self.outer@;
            match self.outer.pop_front() {
                Some(v) => {
                    proof {
                        lemma_flat_front(outer_before);
                        k = k + 1;
                        assert(outer_before.drop_first() =~= orig.subrange(k, orig.len() as int));
                    }
                    self.next_iter = Some(into_cursor(v));
                    assert(self@ =~= old(self)@);
                },
                None => {
                    let r = match &mut self.back_iter {
                        Some(b) => b.pop_front(),
                        None => None,
                    };
                    assert(self@ =~= pull_front(old(self)@).1);
                    assert(slot(old(self).back_iter) =~= old(self)@.subrange(
                        old(self)@.len() - slot(old(self).back_iter).len(),
                        old(self)@.len() as int,
                    ));
                    return r;
                },
            }
        }
    }

    /// Yields the last element in flat order not yet yielded, or `None` once
    /// none is left.
    ///
    /// It takes from the back of the outer sequence only once the backward
    /// cursor is spent, and then only back to the last inner sequence that is
    /// not empty, which becomes the backward cursor. The forward cursor is
    /// drained from its back only when nothing else remains.
    pub fn next_back(&mut self) -> (r: Option<T>)
        ensures
            r == pull_back(old(self)@).0,
            final(self)@ == pull_back(old(self)@).1,
            old(self).back().len() > 0 ==> {
                &&& final(self).back() == old(self).back().drop_last()
                &&& final(self).rest_outer() == old(self).rest_outer()
                &&& final(self).front() == old(self).front()
            },
            old(self).back().len() == 0 && flat(old(self).rest_outer()).len() > 0 ==> exists|k: int|
                {
                    &&& last_nonempty(old(self).rest_outer(), k)
                    &&& final(self).back() == old(self).rest_outer()[k]@.drop_last()
                    &&& final(self).rest_outer() == old(self).rest_outer().subrange(0, k)
                    &&& final(self).front() == old(self).front()
                },
            old(self).back().len() == 0 && flat(old(self).rest_outer()).len() == 0 ==> {
                &&& final(self).back().len() == 0
                &&& final(self).rest_outer().len() == 0
                &&& final(self).front() == pull_back(old(self).front()).1
            },
    {
        let ghost orig = self.outer@;
        let ghost mut k: int = 0;
        loop
            invariant
                self@ == old(self)@,
                orig == old(self).outer@,
                0 <= k <= orig.len(),
                self.outer@ == orig.subrange(0, orig.len() - k),
                slot(self.next_iter) == slot(old(self).next_iter),
                k == 0 ==> slot(self.back_iter) == slot(old(self).back_iter),
                k > 0 ==> slot(old(self).back_iter).len() == 0,
                k > 0 ==> slot(self.back_iter) == orig[orig.len() - k]@,
                forall|j: int| orig.len() - k < j < orig.len() ==> #[trigger] orig[j]@.len() == 0,
            decreases 2 * self.outer@.len() + if self.back_iter is Some { 1int } else { 0 },
        {
            if let Some(inner) = &mut self.back_iter {
                if let Some(x) = inner.pop_back() {
                    assert(self@ =~= old(self)@.drop_last());
                    proof {
                        if k > 0 {
                            assert(last_nonempty(orig, orig.len() - k));
                        }
                    }
                    return Some(x);
                }
                self.back_iter = None;
            }
            let ghost outer_before = self.outer@;
            match self.outer.pop_back() {
                Some(v) => {
                    proof {
                        lemma_flat_back(outer_before);
                        k = k + 1;
                        assert(outer_before.drop_last() =~= orig.subrange(0, orig.len() - k));
                    }
                    self.back_iter = Some(into_cursor(v));
                    assert(self@ =~= old(self)@);
                },
                None => {
                    let r = match &mut self.next_iter {
                        Some(f) => f.pop_back(),
                        None => None,
                    };
                    assert(self@ =~= pull_back(old(self)@).1);
                    assert(slot(old(self).next_iter) =~= old(self)@.subrange(
                        0,
                        slot(old(self).next_iter).len() as int,
                    ));
                    return r;
                },
            }
        }
    }
}

} // verus!

use vstd::prelude::*;

use crate::model::{
    drive, flat, lemma_flat_front, only, pull, total_len, yielded_back, yielded_front,
};

verus! {

/// What any run of pulls does to a remaining sequence `s`: pull `i` yields
/// an element exactly when `i < s.len()`; the forward pulls take a prefix of
/// `s` in order, the backward pulls a suffix from its end, and what remains
/// lies between them.
proof fn lemma_drive<T>(s: Seq<T>, pulls: Seq<bool>)
    ensures
        drive(s, pulls).0.len() == pulls.len(),
        forall|i: int|
            0 <= i < pulls.len() ==> (#[trigger] drive(s, pulls).0[i] is Some <==> i < s.len()),
        yielded_front(drive(s, pulls).0, pulls) + drive(s, pulls).1 + yielded_back(
            drive(s, pulls).0,
            pulls,
        ).reverse() == s,
        drive(s, pulls).1.len() == if s.len() >= pulls.len() {
            s.len() - pulls.len()
        } else {
            0
        },
    decreases pulls.len(),
{
    if pulls.len() > 0 {
        let (o, s2) = pull(s, pulls[0]);
        let tail = pulls.drop_first();
        lemma_drive(s2, tail);
        let (outs, rest) = drive(s2, tail);
        let all = drive(s, pulls).0;
        assert(all == seq![o] + outs);
        assert forall|i: int| 0 <= i < pulls.len() implies (#[trigger] all[i] is Some <==> i
            < s.len()) by {
            if i > 0 {
                assert(all[i] == outs[i - 1]);
            }
        }
        assert(all.drop_first() =~= outs);
        let yf = yielded_front(outs, tail);
        let yb = yielded_back(outs, tail);
        if s.len() > 0 {
            if pulls[0] {
                assert(s =~= seq![s[0]] + s2);
                assert(yielded_front(all, pulls) == seq![s[0]] + yf);
                assert(yielded_back(all, pulls) == yb);
                assert(yielded_front(all, pulls) + rest + yb.reverse() =~= seq![s[0]] + (yf + rest
                    + yb.reverse()));
            } else {
                assert(s =~= s2 + seq![s.last()]);
                assert(yielded_front(all, pulls) == yf);
                assert(yielded_back(all, pulls) == seq![s.last()] + yb);
                assert((seq![s.last()] + yb).reverse() =~= yb.reverse() + seq![s.last()]);
                assert(yf + rest + (seq![s.last()] + yb).reverse() =~= (yf + rest + yb.reverse())
                    + seq![s.last()]);
            }
        } else {
            assert(yielded_front(all, pulls) == yf);
            assert(yielded_back(all, pulls) == yb);
        }
    } else {
        assert(s =~= Seq::<T>::empty() + s + Seq::<T>::empty().reverse());
    }
}

/// The flat sequence is as long as the inner sequences together.
pub proof fn lemma_flat_len<T>(outer: Seq<Vec<T>>)
    ensures
        flat(outer).len() == total_len(outer),
    decreases outer.len(),
{
    if outer.len() > 0 {
        lemma_flat_front(outer);
        lemma_flat_len(outer.drop_first());
    } else {
        assert(outer.map_values(|v: Vec<T>| v@) =~= Seq::<Seq<T>>::empty());
    }
}

/// Over an outer sequence with no inner sequences, every pull, in either
/// direction, yields nothing.
pub proof fn law_empty_outer<T>(outer: Seq<Vec<T>>, pulls: Seq<bool>)
    requires
        outer.len() == 0,
    ensures
        forall|i: int| 0 <= i < pulls.len() ==> #[trigger] drive(flat(outer), pulls).0[i] is None,
{
    lemma_flat_len(outer);
    lemma_drive(flat(outer), pulls);
}

/// Over one inner sequence of one element, the first pull yields that
/// element and every later pull yields nothing.
pub proof fn law_single_element<T>(outer: Seq<Vec<T>>, x: T, pulls: Seq<bool>)
    requires
        outer.len() == 1,
        outer[0]@ == seq![x],
        pulls.len() > 0,
    ensures
        drive(flat(outer), pulls).0[0] == Some(x),
        forall|i: int| 1 <= i < pulls.len() ==> #[trigger] drive(flat(outer), pulls).0[i] is None,
{
    lemma_flat_front(outer);
    assert(outer.drop_first().map_values(|v: Vec<T>| v@) =~= Seq::<Seq<T>>::empty());
    let s = flat(outer);
    assert(s =~= seq![x]);
    lemma_drive(s, pulls);
    let (o, s2) = pull(s, pulls[0]);
    assert(drive(s, pulls).0 == seq![o] + drive(s2, pulls.drop_first()).0);
}

/// Forward pulls alone yield the inner sequences concatenated in outer
/// order, element by element, and nothing once they are spent.
pub proof fn law_forward_order<T>(outer: Seq<Vec<T>>, n: nat)
    ensures
        forall|i: int|
            0 <= i < n ==> #[trigger] drive(flat(outer), only(true, n)).0[i] == if i < flat(
                outer,
            ).len() {
                Some(flat(outer)[i])
            } else {
                None
            },
{
    lemma_drive_one_way(flat(outer), true, n);
}

/// Backward pulls alone yield the flat sequence reversed, and nothing once
/// it is spent.
pub proof fn law_backward_reverse<T>(outer: Seq<Vec<T>>, n: nat)
    ensures
        forall|i: int|
            0 <= i < n ==> #[trigger] drive(flat(outer), only(false, n)).0[i] == if i < flat(
                outer,
            ).len() {
                Some(flat(outer).reverse()[i])
            } else {
                None
            },
{
    lemma_drive_one_way(flat(outer), false, n);
}

/// Pulls in one direction only walk `s` from that end.
proof fn lemma_drive_one_way<T>(s: Seq<T>, forward: bool, n: nat)
    ensures
        forall|i: int|
            0 <= i < n ==> #[trigger] drive(s, only(forward, n)).0[i] == if i < s.len() {
                Some(
                    if forward {
                        s[i]
                    } else {
                        s.reverse()[i]
                    },
                )
            } else {
                None
            },
    decreases n,
{
    if n > 0 {
        let pulls = only(forward, n);
        assert(pulls.drop_first() =~= only(forward, (n - 1) as nat));
        let (o, s2) = pull(s, forward);
        lemma_drive_one_way(s2, forward, (n - 1) as nat);
        lemma_drive(s2, only(forward, (n - 1) as nat));
        let outs = drive(s2, only(forward, (n - 1) as nat)).0;
        assert(drive(s, pulls).0 == seq![o] + outs);
        assert forall|i: int| 0 <= i < n implies #[trigger] drive(s, pulls).0[i] == if i
            < s.len() {
            Some(
                if forward {
                    s[i]
                } else {
                    s.reverse()[i]
                },
            )
        } else {
            None
        } by {
            if i > 0 {
                assert(drive(s, pulls).0[i] == outs[i - 1]);
            }
        }
    }
}

/// Pulling forward, backward, forward, backward over `[[a, b], [c, d]]`
/// yields `a`, `d`, `b`, `c`; a fifth and a sixth pull, one each way, yield
/// nothing.
pub proof fn law_meet_in_the_middle<T>(outer: Seq<Vec<T>>, a: T, b: T, c: T, d: T)
    requires
        outer.len() == 2,
        outer[0]@ == seq![a, b],
        outer[1]@ == seq![c, d],
    ensures
        drive(flat(outer), seq![true, false, true, false, true, false]).0 == seq![
            Some(a),
            Some(d),
            Some(b),
            Some(c),
            None::<T>,
            None::<T>,
        ],
{
    lemma_flat_front(outer);
    lemma_flat_front(outer.drop_first());
    assert(outer.drop_first().drop_first().map_values(|v: Vec<T>| v@) =~= Seq::<Seq<T>>::empty());
    let s = flat(outer);
    assert(s =~= seq![a, b, c, d]);
    let pulls = seq![true, false, true, false, true, false];
    reveal_with_fuel(drive, 7);
    assert(pulls.drop_first() =~= seq![false, true, false, true, false]);
    assert(pulls.drop_first().drop_first() =~= seq![true, false, true, false]);
    assert(pulls.drop_first().drop_first().drop_first() =~= seq![false, true, false]);
    assert(pulls.drop_first().drop_first().drop_first().drop_first() =~= seq![true, false]);
    assert(pulls.drop_first().drop_first().drop_first().drop_first().drop_first() =~= seq![false]);
    assert(seq![false].drop_first() =~= Seq::<bool>::empty());
    assert(s.drop_first() =~= seq![b, c, d]);
    assert(seq![b, c, d].drop_last() =~= seq![b, c]);
    assert(seq![b, c].drop_first() =~= seq![c]);
    assert(seq![c].drop_last() =~= Seq::<T>::empty());
    assert(drive(flat(outer), pulls).0 =~= seq![
        Some(a),
        Some(d),
        Some(b),
        Some(c),
        None::<T>,
        None::<T>,
    ]);
}

/// Once a pull yields nothing, every later pull, in either direction, yields
/// nothing too.
pub proof fn law_exhaustion_is_final<T>(outer: Seq<Vec<T>>, pulls: Seq<bool>, i: int, j: int)
    requires
        0 <= i < j < pulls.len(),
        drive(flat(outer), pulls).0[i] is None,
    ensures
        drive(flat(outer), pulls).0[j] is None,
{
    lemma_drive(flat(outer), pulls);
}

/// Any run of pulls, forward and backward mixed, yields each element at
/// most once: the forward pulls a prefix of the flat sequence in order, the
/// backward pulls a suffix from its end, with what remains between them. It
/// yields as many elements as it has pulls, up to the sum of the inner
/// lengths; with at least that many pulls, it yields them all.
pub proof fn law_count<T>(outer: Seq<Vec<T>>, pulls: Seq<bool>)
    ensures
        ({
            let (outs, rest) = drive(flat(outer), pulls);
            &&& yielded_front(outs, pulls) + rest + yielded_back(outs, pulls).reverse() == flat(
                outer,
            )
            &&& yielded_front(outs, pulls).len() + yielded_back(outs, pulls).len() == if pulls.len()
                <= total_len(outer) {
                pulls.len() as nat
            } else {
                total_len(outer)
            }
            &&& pulls.len() >= total_len(outer) ==> rest.len() == 0
        }),
{
    lemma_flat_len(outer);
    lemma_drive(flat(outer), pulls);
    let (outs, rest) = drive(flat(outer), pulls);
    let yf = yielded_front(outs, pulls);
    let yb = yielded_back(outs, pulls);
    assert((yf + rest + yb.reverse()).len() == yf.len() + rest.len() + yb.len());
}

} // verus!

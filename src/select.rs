//! Choosing among scored options: every option of the top score is kept, and
//! one of them is drawn at random.
use crate::random::random_below;
use vstd::prelude::*;

verus! {

/// The largest of `s`, or 0 when `s` is empty.
pub open spec fn seq_max(s: Seq<u128>) -> u128
    decreases s.len(),
{
    if s.len() == 0 {
        0
    } else {
        let m = seq_max(s.drop_last());
        if s.last() > m {
            s.last()
        } else {
            m
        }
    }
}

/// The positions in `s` that hold `v`, in increasing order.
pub open spec fn positions_of(s: Seq<u128>, v: u128) -> Seq<usize>
    decreases s.len(),
{
    if s.len() == 0 {
        Seq::empty()
    } else {
        positions_of(s.drop_last(), v) + if s.last() == v {
            seq![(s.len() - 1) as usize]
        } else {
            Seq::empty()
        }
    }
}

/// The positions of the top score of `s`.
pub open spec fn top_positions(s: Seq<u128>) -> Seq<usize> {
    positions_of(s, seq_max(s))
}

/// No score is above the maximum, and a non-empty sequence attains it.
pub proof fn lemma_seq_max(s: Seq<u128>)
    ensures
        forall|j: int| 0 <= j < s.len() ==> s[j] <= seq_max(s),
        s.len() > 0 ==> exists|j: int| 0 <= j < s.len() && s[j] == seq_max(s),
    decreases s.len(),
{
    if s.len() > 0 {
        lemma_seq_max(s.drop_last());
        if s.len() > 1 {
            let j = choose|j: int| 0 <= j < s.drop_last().len() && s.drop_last()[j] == seq_max(
                s.drop_last(),
            );
            assert(s[j] == s.drop_last()[j]);
        }
        assert forall|j: int| 0 <= j < s.len() implies s[j] <= seq_max(s) by {
            if j < s.len() - 1 {
                assert(s[j] == s.drop_last()[j]);
            }
        }
    }
}

/// Every position listed holds `v`, and every position holding `v` is listed.
pub proof fn lemma_positions_of(s: Seq<u128>, v: u128)
    requires
        s.len() <= usize::MAX,
    ensures
        forall|i: int|
            0 <= i < positions_of(s, v).len() ==> positions_of(s, v)[i] < s.len() && s[positions_of(
                s,
                v,
            )[i] as int] == v,
        forall|j: int| 0 <= j < s.len() && s[j] == v ==> positions_of(s, v).contains(j as usize),
    decreases s.len(),
{
    if s.len() > 0 {
        let p = s.drop_last();
        lemma_positions_of(p, v);
        let tail: Seq<usize> = if s.last() == v {
            seq![(s.len() - 1) as usize]
        } else {
            Seq::empty()
        };
        assert forall|i: int| 0 <= i < positions_of(s, v).len() implies positions_of(s, v)[i]
            < s.len() && s[positions_of(s, v)[i] as int] == v by {
            if i < positions_of(p, v).len() {
                assert(positions_of(s, v)[i] == positions_of(p, v)[i]);
                assert(s[positions_of(p, v)[i] as int] == p[positions_of(p, v)[i] as int]);
            }
        }
        assert forall|j: int| 0 <= j < s.len() && s[j] == v implies positions_of(s, v).contains(
            j as usize,
        ) by {
            if j < s.len() - 1 {
                assert(p[j] == s[j]);
                let k = choose|k: int| 0 <= k < positions_of(p, v).len() && positions_of(p, v)[k]
                    == j as usize;
                assert(positions_of(s, v)[k] == j as usize);
            } else {
                assert(positions_of(s, v)[positions_of(p, v).len() as int] == j as usize);
            }
        }
    }
}

/// The positions of the top score in `scores`, in increasing order.
pub fn best_indices(scores: &Vec<u128>) -> (r: Vec<usize>)
    ensures
        r@ == top_positions(scores@),
        forall|i: int|
            0 <= i < r@.len() ==> r@[i] < scores@.len() && scores@[r@[i] as int] == seq_max(
                scores@,
            ),
        forall|j: int| 0 <= j < scores@.len() ==> scores@[j] <= seq_max(scores@),
        scores@.len() > 0 ==> r@.len() > 0,
{
    let mut top: u128 = 0;
    let mut i: usize = 0;
    while i < scores.len()
        invariant
            i <= scores@.len(),
            top == seq_max(scores@.take(i as int)),
        decreases scores@.len() - i,
    {
        assert(scores@.take(i + 1).drop_last() =~= scores@.take(i as int));
        if scores[i] > top {
            top = scores[i];
        }
        i = i + 1;
    }
    assert(scores@.take(scores@.len() as int) =~= scores@);
    let mut r: Vec<usize> = Vec::new();
    let mut i: usize = 0;
    while i < scores.len()
        invariant
            i <= scores@.len(),
            top == seq_max(scores@),
            r@ == positions_of(scores@.take(i as int), top),
        decreases scores@.len() - i,
    {
        assert(scores@.take(i + 1).drop_last() =~= scores@.take(i as int));
        if scores[i] == top {
            r.push(i);
        }
        i = i + 1;
    }
    proof {
        lemma_seq_max(scores@);
        lemma_positions_of(scores@, top);
        if scores@.len() > 0 {
            let j = choose|j: int| 0 <= j < scores@.len() && scores@[j] == seq_max(scores@);
            assert(positions_of(scores@, top).contains(j as usize));
        }
    }
    r
}

/// A position drawn at random from `0..n`.
pub fn choose_index(n: usize) -> (r: usize)
    requires
        n > 0,
    ensures
        r < n,
{
    random_below(n)
}

} // verus!

//! Exact counting of dice outcomes.
//!
//! A probability over `n` fair dice is a count of favourable outcomes out of
//! the `6^n` equally likely ways the dice can fall. Counting keeps every
//! probability exact; the counts are held in `u128`, and the one operation that
//! could leave that range, `6^n` itself, is checked.
use vstd::prelude::*;

verus! {

/// The number of ways `n` dice can fall: 6 to the power `n`.
pub open spec fn outcomes(n: nat) -> nat
    decreases n,
{
    if n == 0 {
        1
    } else {
        6 * outcomes((n - 1) as nat)
    }
}

/// Of the `outcomes(n)` ways `n` dice can fall, the number in which at least
/// `r` of them show one of `m` matching faces.
pub open spec fn ways_at_least(n: nat, r: int, m: nat) -> nat
    decreases n,
{
    if n == 0 {
        if r <= 0 {
            1
        } else {
            0
        }
    } else {
        m * ways_at_least((n - 1) as nat, r - 1, m) + (6 - m) as nat * ways_at_least(
            (n - 1) as nat,
            r,
            m,
        )
    }
}

/// Of the `outcomes(n)` ways `n` dice can fall, the number in which exactly
/// `r` of them show one of `m` matching faces.
pub open spec fn ways_exactly(n: nat, r: int, m: nat) -> nat
    decreases n,
{
    if n == 0 {
        if r == 0 {
            1
        } else {
            0
        }
    } else {
        m * ways_exactly((n - 1) as nat, r - 1, m) + (6 - m) as nat * ways_exactly(
            (n - 1) as nat,
            r,
            m,
        )
    }
}

pub proof fn lemma_outcomes_monotone(a: nat, b: nat)
    requires
        a <= b,
    ensures
        1 <= outcomes(a) <= outcomes(b),
    decreases b,
{
    if b > a {
        lemma_outcomes_monotone(a, (b - 1) as nat);
    } else if a > 0 {
        lemma_outcomes_monotone((a - 1) as nat, (a - 1) as nat);
    }
}

proof fn lemma_mix_bound(m: nat, x: nat, y: nat, p: nat)
    requires
        m <= 6,
        x <= p,
        y <= p,
    ensures
        m * x + (6 - m) as nat * y <= 6 * p,
{
    assert(m * x <= m * p) by (nonlinear_arith)
        requires
            x <= p,
    ;
    assert((6 - m) as nat * y <= (6 - m) as nat * p) by (nonlinear_arith)
        requires
            y <= p,
    ;
    assert(m * p + (6 - m) as nat * p == 6 * p) by (nonlinear_arith)
        requires
            m <= 6,
    ;
}

/// At-least counts never exceed the number of outcomes, and asking for no
/// match at all is met by every outcome.
pub proof fn lemma_at_least_bounds(n: nat, r: int, m: nat)
    requires
        m <= 6,
    ensures
        ways_at_least(n, r, m) <= outcomes(n),
        r <= 0 ==> ways_at_least(n, r, m) == outcomes(n),
    decreases n,
{
    if n > 0 {
        let k = (n - 1) as nat;
        lemma_at_least_bounds(k, r - 1, m);
        lemma_at_least_bounds(k, r, m);
        lemma_mix_bound(m, ways_at_least(k, r - 1, m), ways_at_least(k, r, m), outcomes(k));
        if r <= 0 {
            assert(m * outcomes(k) + (6 - m) as nat * outcomes(k) == 6 * outcomes(k))
                by (nonlinear_arith)
                requires
                    m <= 6,
            ;
        }
    }
}

/// Demanding one more match never adds a favourable outcome.
pub proof fn lemma_at_least_monotone(n: nat, r: int, m: nat)
    ensures
        ways_at_least(n, r + 1, m) <= ways_at_least(n, r, m),
    decreases n,
{
    if n > 0 {
        let k = (n - 1) as nat;
        lemma_at_least_monotone(k, r - 1, m);
        lemma_at_least_monotone(k, r, m);
        let (a1, a0, b1, b0) = (
            ways_at_least(k, r, m),
            ways_at_least(k, r - 1, m),
            ways_at_least(k, r + 1, m),
            ways_at_least(k, r, m),
        );
        assert(m * a1 + (6 - m) as nat * b1 <= m * a0 + (6 - m) as nat * b0) by (nonlinear_arith)
            requires
                a1 <= a0,
                b1 <= b0,
        ;
    }
}

/// Exactly `r` matches are the at-least-`r` outcomes less the at-least-`r + 1`
/// ones.
pub proof fn lemma_exactly_split(n: nat, r: int, m: nat)
    ensures
        ways_exactly(n, r, m) + ways_at_least(n, r + 1, m) == ways_at_least(n, r, m),
    decreases n,
{
    if n > 0 {
        let k = (n - 1) as nat;
        lemma_exactly_split(k, r - 1, m);
        lemma_exactly_split(k, r, m);
        let (e1, e0, a2, a1, a0) = (
            ways_exactly(k, r - 1, m),
            ways_exactly(k, r, m),
            ways_at_least(k, r + 1, m),
            ways_at_least(k, r, m),
            ways_at_least(k, r - 1, m),
        );
        assert((m * e1 + (6 - m) as nat * e0) + (m * a1 + (6 - m) as nat * a2) == m * a0 + (6
            - m) as nat * a1) by (nonlinear_arith)
            requires
                e1 + a1 == a0,
                e0 + a2 == a1,
        ;
    }
}

/// `6^n`, or `None` where it does not fit in a `u128`.
pub fn count_outcomes(n: usize) -> (r: Option<u128>)
    ensures
        r is Some <==> outcomes(n as nat) <= u128::MAX,
        r is Some ==> r->0 == outcomes(n as nat),
{
    let mut acc: u128 = 1;
    let mut i: usize = 0;
    while i < n
        invariant
            i <= n,
            acc == outcomes(i as nat),
        decreases n - i,
    {
        match acc.checked_mul(6) {
            Some(v) => {
                acc = v;
            },
            None => {
                proof {
                    lemma_outcomes_monotone((i + 1) as nat, n as nat);
                }
                return None;
            },
        }
        i = i + 1;
    }
    Some(acc)
}

/// The number of ways `n` dice show at least `r` matches, each die matching
/// on `m` of its faces.
pub fn count_at_least(n: usize, r: usize, m: u8) -> (res: u128)
    requires
        m <= 6,
        outcomes(n as nat) <= u128::MAX,
        r < usize::MAX,
    ensures
        res == ways_at_least(n as nat, r as int, m as nat),
{
    let mm: u128 = m as u128;
    let rest: u128 = 6 - mm;
    let mut row: Vec<u128> = Vec::new();
    let mut j: usize = 0;
    while j <= r
        invariant
            j <= r + 1,
            r < usize::MAX,
            row@.len() == j,
            forall|k: int| 0 <= k < j ==> row@[k] == ways_at_least(0, k, m as nat),
        decreases r + 1 - j,
    {
        if j == 0 {
            row.push(1);
        } else {
            row.push(0);
        }
        j = j + 1;
    }
    let mut full: u128 = 1;
    let mut i: usize = 0;
    while i < n
        invariant
            i <= n,
            m <= 6,
            mm == m,
            rest == 6 - m,
            outcomes(n as nat) <= u128::MAX,
            full == outcomes(i as nat),
            row@.len() == r + 1,
            forall|k: int| 0 <= k <= r ==> row@[k] == ways_at_least(i as nat, k, m as nat),
        decreases n - i,
    {
        proof {
            lemma_outcomes_monotone((i + 1) as nat, n as nat);
        }
        let mut j: usize = r;
        while j > 0
            invariant
                0 <= j <= r,
                i < n,
                m <= 6,
                mm == m,
                rest == 6 - m,
                outcomes((i + 1) as nat) <= u128::MAX,
                row@.len() == r + 1,
                forall|k: int| 0 <= k <= j ==> row@[k] == ways_at_least(i as nat, k, m as nat),
                forall|k: int|
                    j < k <= r ==> row@[k] == ways_at_least((i + 1) as nat, k, m as nat),
            decreases j,
        {
            proof {
                lemma_at_least_bounds(i as nat, j - 1, m as nat);
                lemma_at_least_bounds(i as nat, j as int, m as nat);
                lemma_mix_bound(
                    m as nat,
                    ways_at_least(i as nat, j - 1, m as nat),
                    ways_at_least(i as nat, j as int, m as nat),
                    outcomes(i as nat),
                );
                assert(mm * row@[j - 1] <= 6 * outcomes(i as nat)) by (nonlinear_arith)
                    requires
                        mm * row@[j - 1] + rest * row@[j as int] <= 6 * outcomes(i as nat),
                        0 <= rest * row@[j as int],
                ;
                assert(rest * row@[j as int] <= 6 * outcomes(i as nat)) by (nonlinear_arith)
                    requires
                        mm * row@[j - 1] + rest * row@[j as int] <= 6 * outcomes(i as nat),
                        0 <= mm * row@[j - 1],
                ;
            }
            let v = mm * row[j - 1] + rest * row[j];
            row.set(j, v);
            j = j - 1;
        }
        full = full * 6;
        proof {
            lemma_at_least_bounds(i as nat, -1, m as nat);
            lemma_at_least_bounds(i as nat, 0, m as nat);
            assert(m * outcomes(i as nat) + (6 - m) as nat * outcomes(i as nat) == 6 * outcomes(
                i as nat,
            )) by (nonlinear_arith)
                requires
                    m <= 6,
            ;
        }
        row.set(0, full);
        i = i + 1;
    }
    row[r]
}

} // verus!

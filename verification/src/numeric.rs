//! Integer helpers: exact square roots and ascending sorts.

use vstd::prelude::*;
use vstd::relations::{sorted_by, total_ordering};
use vstd::seq_lib::lemma_sorted_unique;

verus! {

/// `r` is the integer square root of `n`: the largest `r` with `r * r <= n`.
pub open spec fn is_isqrt(n: int, r: int) -> bool {
    0 <= r && r * r <= n < (r + 1) * (r + 1)
}

/// The integer square root of `n`.
pub open spec fn isqrt_of(n: int) -> int {
    choose|r: int| is_isqrt(n, r)
}

/// Two integer square roots of one number are equal.
pub proof fn lemma_isqrt_unique(n: int, a: int, b: int)
    requires
        is_isqrt(n, a),
        is_isqrt(n, b),
    ensures
        a == b,
{
    if a < b {
        assert((a + 1) * (a + 1) <= b * b) by (nonlinear_arith)
            requires
                0 <= a,
                a + 1 <= b,
        ;
    } else if b < a {
        assert((b + 1) * (b + 1) <= a * a) by (nonlinear_arith)
            requires
                0 <= b,
                b + 1 <= a,
        ;
    }
}

/// Computes the integer square root of `n` by bisection.
pub fn isqrt(n: u64) -> (r: u64)
    ensures
        is_isqrt(n as int, r as int),
        r as int == isqrt_of(n as int),
        r < 0x1_0000_0000,
{
    let mut lo: u64 = 0;
    let mut hi: u64 = 0x1_0000_0000;
    assert(0x1_0000_0000int * 0x1_0000_0000int > n) by (nonlinear_arith)
        requires
            n <= u64::MAX,
    ;
    while hi - lo > 1
        invariant
            lo < hi <= 0x1_0000_0000,
            lo * lo <= n < hi * hi,
        decreases hi - lo,
    {
        let mid: u64 = lo + (hi - lo) / 2;
        assert(mid * mid <= 0x1_0000_0000int * 0x1_0000_0000int) by (nonlinear_arith)
            requires
                0 <= mid <= 0x1_0000_0000,
        ;
        let sq: u128 = (mid as u128) * (mid as u128);
        if sq <= n as u128 {
            lo = mid;
        } else {
            hi = mid;
        }
    }
    proof {
        assert(hi == lo + 1);
        let witness = lo as int;
        assert(is_isqrt(n as int, witness));
        lemma_isqrt_unique(n as int, witness, isqrt_of(n as int));
    }
    lo
}

/// Ascending order on levels.
pub open spec fn level_leq() -> spec_fn(i16, i16) -> bool {
    |a: i16, b: i16| a <= b
}

/// Ascending order on scores.
pub open spec fn score_leq() -> spec_fn(i64, i64) -> bool {
    |a: i64, b: i64| a <= b
}

/// The levels of `s` in ascending order.
pub open spec fn sorted_levels(s: Seq<i16>) -> Seq<i16> {
    s.sort_by(level_leq())
}

/// The scores of `s` in ascending order.
pub open spec fn sorted_scores(s: Seq<i64>) -> Seq<i64> {
    s.sort_by(score_leq())
}

/// Sorts levels into ascending order.
pub fn sort_levels(v: &Vec<i16>) -> (r: Vec<i16>)
    ensures
        r@ == sorted_levels(v@),
        r@.len() == v@.len(),
        sorted_by(r@, level_leq()),
        r@.to_multiset() == v@.to_multiset(),
{
    let mut out: Vec<i16> = Vec::new();
    let mut k: usize = 0;
    assert(v@.take(0) =~= out@);
    while k < v.len()
        invariant
            k <= v.len(),
            out@.len() == k,
            sorted_by(out@, level_leq()),
            out@.to_multiset() == v@.take(k as int).to_multiset(),
        decreases v.len() - k,
    {
        let x: i16 = v[k];
        let mut pos: usize = 0;
        while pos < out.len() && out[pos] <= x
            invariant
                pos <= out.len(),
                forall|j: int| 0 <= j < pos ==> out@[j] <= x,
            decreases out.len() - pos,
        {
            pos += 1;
        }
        let ghost before = out@;
        out.insert(pos, x);
        proof {
            broadcast use vstd::seq_lib::group_to_multiset_ensures;

            assert(out@ == before.insert(pos as int, x));
            assert(sorted_by(out@, level_leq())) by {
                assert forall|a: int, b: int| 0 <= a < b < out@.len() implies level_leq()(
                    out@[a],
                    out@[b],
                ) by {
                    if a < pos && b > pos {
                        assert(level_leq()(before[a], before[b - 1]));
                    } else if a < pos && b < pos {
                        assert(level_leq()(before[a], before[b]));
                    } else if a > pos {
                        assert(level_leq()(before[a - 1], before[b - 1]));
                    } else if a == pos {
                        assert(level_leq()(before[pos as int], before[b - 1]));
                    }
                }
            }
            assert(v@.take(k + 1) == v@.take(k as int).push(x));
        }
        k += 1;
    }
    proof {
        assert(v@.take(v@.len() as int) == v@);
        assert(total_ordering(level_leq()));
        v@.lemma_sort_by_ensures(level_leq());
        lemma_sorted_unique(out@, sorted_levels(v@), level_leq());
        v@.to_multiset_ensures();
        out@.to_multiset_ensures();
    }
    out
}

/// Sorts scores into ascending order.
pub fn sort_scores(v: &Vec<i64>) -> (r: Vec<i64>)
    ensures
        r@ == sorted_scores(v@),
        r@.len() == v@.len(),
        sorted_by(r@, score_leq()),
        r@.to_multiset() == v@.to_multiset(),
{
    let mut out: Vec<i64> = Vec::new();
    let mut k: usize = 0;
    assert(v@.take(0) =~= out@);
    while k < v.len()
        invariant
            k <= v.len(),
            out@.len() == k,
            sorted_by(out@, score_leq()),
            out@.to_multiset() == v@.take(k as int).to_multiset(),
        decreases v.len() - k,
    {
        let x: i64 = v[k];
        let mut pos: usize = 0;
        while pos < out.len() && out[pos] <= x
            invariant
                pos <= out.len(),
                forall|j: int| 0 <= j < pos ==> out@[j] <= x,
            decreases out.len() - pos,
        {
            pos += 1;
        }
        let ghost before = out@;
        out.insert(pos, x);
        proof {
            broadcast use vstd::seq_lib::group_to_multiset_ensures;

            assert(out@ == before.insert(pos as int, x));
            assert(sorted_by(out@, score_leq())) by {
                assert forall|a: int, b: int| 0 <= a < b < out@.len() implies score_leq()(
                    out@[a],
                    out@[b],
                ) by {
                    if a < pos && b > pos {
                        assert(score_leq()(before[a], before[b - 1]));
                    } else if a < pos && b < pos {
                        assert(score_leq()(before[a], before[b]));
                    } else if a > pos {
                        assert(score_leq()(before[a - 1], before[b - 1]));
                    } else if a == pos {
                        assert(score_leq()(before[pos as int], before[b - 1]));
                    }
                }
            }
            assert(v@.take(k + 1) == v@.take(k as int).push(x));
        }
        k += 1;
    }
    proof {
        assert(v@.take(v@.len() as int) == v@);
        assert(total_ordering(score_leq()));
        v@.lemma_sort_by_ensures(score_leq());
        lemma_sorted_unique(out@, sorted_scores(v@), score_leq());
        v@.to_multiset_ensures();
        out@.to_multiset_ensures();
    }
    out
}

} // verus!

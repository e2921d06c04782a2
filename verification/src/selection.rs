//! Choices among candidates: an order by a number, the nearest of all, and
//! a count of repeated names.
//!
//! Every choice names candidates by their index in the list that it was
//! given, so that a caller can keep whatever it holds beside the numbers.

use crate::text::same_text;
use vstd::prelude::*;

verus! {

/// Candidate `a` comes before candidate `b`: its key is larger, or they
/// share a key and `a` was listed first.
pub open spec fn precedes(keys: Seq<u64>, a: int, b: int) -> bool {
    keys[a] > keys[b] || (keys[a] == keys[b] && a < b)
}

/// The candidate among `keys[..upto]` that comes next: the one with the
/// largest key that is not yet taken, the first among equals; -1 where all
/// are taken.
pub open spec fn largest_pending(keys: Seq<u64>, taken: Seq<bool>, upto: int) -> int
    decreases upto,
{
    if upto <= 0 {
        -1
    } else {
        let before = largest_pending(keys, taken, upto - 1);
        if !taken[upto - 1] && (before < 0 || keys[upto - 1] > keys[before]) {
            upto - 1
        } else {
            before
        }
    }
}

/// The first `rounds` candidates by falling key, and the candidates taken.
pub open spec fn largest_first(keys: Seq<u64>, rounds: nat) -> (Seq<usize>, Seq<bool>)
    decreases rounds,
{
    if rounds == 0 {
        (Seq::empty(), Seq::new(keys.len(), |i: int| false))
    } else {
        let before = largest_first(keys, (rounds - 1) as nat);
        let pick = largest_pending(keys, before.1, keys.len() as int);
        if pick < 0 {
            before
        } else {
            (before.0.push(pick as usize), before.1.update(pick, true))
        }
    }
}

/// Number of candidates taken among the first `upto`.
pub open spec fn taken_count(taken: Seq<bool>, upto: int) -> int
    decreases upto,
{
    if upto <= 0 {
        0
    } else {
        taken_count(taken, upto - 1) + if taken[upto - 1] {
            1int
        } else {
            0int
        }
    }
}

/// What holds of an order as far as it has been made: it lists taken
/// candidates only, each before those that it precedes, and every taken
/// candidate precedes every one that is left.
pub open spec fn ordered_so_far(keys: Seq<u64>, out: Seq<usize>, taken: Seq<bool>) -> bool {
    &&& taken.len() == keys.len()
    &&& forall|k: int| 0 <= k < out.len() ==> (#[trigger] out[k]) < keys.len() && taken[out[k] as int]
    &&& forall|a: int, b: int|
        0 <= a < b < out.len() ==> precedes(keys, #[trigger] out[a] as int, #[trigger] out[b] as int)
    &&& forall|t: int, u: int|
        0 <= t < keys.len() && 0 <= u < keys.len() && #[trigger] taken[t] && !#[trigger] taken[u]
            ==> precedes(keys, t, u)
    &&& taken_count(taken, keys.len() as int) == out.len()
}

/// The candidate that comes next is not taken and precedes every other one
/// that is left; there is one unless all are taken.
pub proof fn lemma_largest_pending(keys: Seq<u64>, taken: Seq<bool>, upto: int)
    requires
        0 <= upto <= keys.len(),
        taken.len() == keys.len(),
    ensures
        -1 <= largest_pending(keys, taken, upto) < upto,
        largest_pending(keys, taken, upto) >= 0 ==> !taken[largest_pending(keys, taken, upto)],
        forall|k: int|
            0 <= k < upto && !#[trigger] taken[k] ==> largest_pending(keys, taken, upto) >= 0 && (k
                == largest_pending(keys, taken, upto) || precedes(
                keys,
                largest_pending(keys, taken, upto),
                k,
            )),
    decreases upto,
{
    if upto > 0 {
        lemma_largest_pending(keys, taken, upto - 1);
    }
}

proof fn lemma_count_full(taken: Seq<bool>, upto: int)
    requires
        0 <= upto <= taken.len(),
    ensures
        0 <= taken_count(taken, upto) <= upto,
        (forall|k: int| 0 <= k < upto ==> #[trigger] taken[k]) ==> taken_count(taken, upto) == upto,
    decreases upto,
{
    if upto > 0 {
        lemma_count_full(taken, upto - 1);
    }
}

proof fn lemma_count_update(taken: Seq<bool>, pick: int, upto: int)
    requires
        0 <= upto <= taken.len(),
        0 <= pick < taken.len(),
        !taken[pick],
    ensures
        taken_count(taken.update(pick, true), upto) == taken_count(taken, upto) + if pick < upto {
            1int
        } else {
            0int
        },
    decreases upto,
{
    if upto > 0 {
        lemma_count_update(taken, pick, upto - 1);
    }
}

/// An order by falling key lists as many candidates as it was given rounds,
/// each once, the larger key first and equals as they were listed.
pub proof fn lemma_largest_first(keys: Seq<u64>, rounds: nat)
    requires
        rounds <= keys.len() <= usize::MAX,
    ensures
        largest_first(keys, rounds).0.len() == rounds,
        ordered_so_far(keys, largest_first(keys, rounds).0, largest_first(keys, rounds).1),
    decreases rounds,
{
    let n = keys.len() as int;
    if rounds == 0 {
        let taken = Seq::new(keys.len(), |i: int| false);
        lemma_count_full(taken, n);
        assert(taken_count(taken, n) == 0) by {
            lemma_none_taken(taken, n);
        }
    } else {
        lemma_largest_first(keys, (rounds - 1) as nat);
        let before = largest_first(keys, (rounds - 1) as nat);
        let pick = largest_pending(keys, before.1, n);
        lemma_largest_pending(keys, before.1, n);
        lemma_count_full(before.1, n);
        if pick < 0 {
            assert forall|k: int| 0 <= k < n implies #[trigger] before.1[k] by {}
            assert(false);
        }
        lemma_count_update(before.1, pick, n);
        let out = before.0.push(pick as usize);
        let taken = before.1.update(pick, true);
        assert forall|a: int, b: int| 0 <= a < b < out.len() implies precedes(
            keys,
            #[trigger] out[a] as int,
            #[trigger] out[b] as int,
        ) by {
            assert(out[a] == before.0[a]);
            if b == out.len() - 1 {
                assert(before.1[before.0[a] as int]);
                assert(!before.1[pick]);
                assert(out[b] == pick);
            } else {
                assert(out[b] == before.0[b]);
            }
        }
        assert forall|k: int| 0 <= k < out.len() implies (#[trigger] out[k]) < keys.len()
            && taken[out[k] as int] by {
            if k < out.len() - 1 {
                assert(out[k] == before.0[k]);
                assert(before.1[before.0[k] as int]);
            }
        }
        assert forall|t: int, u: int|
            0 <= t < n && 0 <= u < n && #[trigger] taken[t] && !#[trigger] taken[u] implies precedes(
            keys,
            t,
            u,
        ) by {
            assert(!before.1[u]);
            if t != pick {
                assert(before.1[t]);
            }
        }
    }
}

proof fn lemma_none_taken(taken: Seq<bool>, upto: int)
    requires
        0 <= upto <= taken.len(),
        forall|k: int| 0 <= k < upto ==> !#[trigger] taken[k],
    ensures
        taken_count(taken, upto) == 0,
    decreases upto,
{
    if upto > 0 {
        lemma_none_taken(taken, upto - 1);
    }
}

/// The number of candidates that an order of at most `limit` lists.
pub open spec fn rounds_for(len: nat, limit: nat) -> nat {
    if limit < len {
        limit
    } else {
        len
    }
}

/// Orders candidates by falling key and returns the indices of the first
/// `limit` of them, or of all where there are fewer. Candidates with one
/// key stay in the order in which they were listed.
pub fn order_descending(keys: &Vec<u64>, limit: usize) -> (r: Vec<usize>)
    ensures
        r@ == largest_first(keys@, rounds_for(keys@.len(), limit as nat)).0,
        r@.len() == rounds_for(keys@.len(), limit as nat),
        forall|k: int| 0 <= k < r@.len() ==> (#[trigger] r@[k]) < keys@.len(),
        forall|a: int, b: int|
            0 <= a < b < r@.len() ==> precedes(keys@, #[trigger] r@[a] as int, #[trigger] r@[b] as int),
{
    let n: usize = keys.len();
    let rounds: usize = if limit < n {
        limit
    } else {
        n
    };
    let mut taken: Vec<bool> = Vec::new();
    let mut t: usize = 0;
    while t < n
        invariant
            t <= n,
            taken@.len() == t,
            forall|k: int| 0 <= k < t ==> !taken@[k],
        decreases n - t,
    {
        taken.push(false);
        t += 1;
    }
    assert(taken@ =~= Seq::new(keys@.len(), |i: int| false));
    let mut out: Vec<usize> = Vec::new();
    let mut round: usize = 0;
    while round < rounds
        invariant
            round <= rounds <= n,
            n == keys.len(),
            taken@.len() == n,
            (out@, taken@) == largest_first(keys@, round as nat),
        decreases rounds - round,
    {
        let mut found: bool = false;
        let mut best: usize = 0;
        let mut k: usize = 0;
        while k < n
            invariant
                k <= n,
                n == keys.len(),
                taken@.len() == n,
                found ==> best < k && best == largest_pending(keys@, taken@, k as int),
                !found ==> largest_pending(keys@, taken@, k as int) == -1,
            decreases n - k,
        {
            if !taken[k] && (!found || keys[k] > keys[best]) {
                found = true;
                best = k;
            }
            k += 1;
        }
        if found {
            taken.set(best, true);
            out.push(best);
        }
        round += 1;
    }
    proof {
        lemma_largest_first(keys@, rounds as nat);
    }
    out
}

/// Candidate `i` is the nearest: no key is smaller than its own, and none
/// listed before it is as small.
pub open spec fn is_first_smallest(keys: Seq<u64>, i: int) -> bool {
    &&& 0 <= i < keys.len()
    &&& forall|k: int| 0 <= k < keys.len() ==> keys[i] <= #[trigger] keys[k]
    &&& forall|k: int| 0 <= k < i ==> keys[i] < #[trigger] keys[k]
}

/// Returns the index of the candidate with the smallest key, the first of
/// them where several share it; nothing for an empty list.
pub fn first_smallest(keys: &Vec<u64>) -> (r: Option<usize>)
    ensures
        r is None <==> keys@.len() == 0,
        r matches Some(i) ==> is_first_smallest(keys@, i as int),
{
    if keys.len() == 0 {
        return None;
    }
    let mut best: usize = 0;
    let mut k: usize = 1;
    while k < keys.len()
        invariant
            1 <= k <= keys.len(),
            best < k,
            forall|j: int| 0 <= j < k ==> keys@[best as int] <= #[trigger] keys@[j],
            forall|j: int| 0 <= j < best ==> keys@[best as int] < #[trigger] keys@[j],
        decreases keys.len() - k,
    {
        if keys[k] < keys[best] {
            best = k;
        }
        k += 1;
    }
    Some(best)
}

/// The name at `i` was not listed before.
pub open spec fn first_seen(names: Seq<String>, i: int) -> bool {
    forall|j: int| 0 <= j < i ==> (#[trigger] names[j])@ != names[i]@
}

/// How often `name` is listed among `names[..upto]`.
pub open spec fn times_seen(names: Seq<String>, name: Seq<char>, upto: int) -> int
    decreases upto,
{
    if upto <= 0 {
        0
    } else {
        times_seen(names, name, upto - 1) + if names[upto - 1]@ == name {
            1int
        } else {
            0int
        }
    }
}

proof fn lemma_times_seen_bounds(names: Seq<String>, name: Seq<char>, upto: int)
    requires
        0 <= upto <= names.len(),
    ensures
        0 <= times_seen(names, name, upto) <= upto,
        (forall|j: int| 0 <= j < upto ==> (#[trigger] names[j])@ != name) ==> times_seen(
            names,
            name,
            upto,
        ) == 0,
    decreases upto,
{
    if upto > 0 {
        lemma_times_seen_bounds(names, name, upto - 1);
    }
}

/// Some name that `firsts` points at is the name at `j`.
pub open spec fn is_counted(names: Seq<String>, firsts: Seq<usize>, j: int) -> bool {
    exists|k: int| 0 <= k < firsts.len() && names[#[trigger] firsts[k] as int]@ == names[j]@
}

/// What holds of a tally of `names[..upto]`: it points at the first place
/// of each name, in order, with the number of times the name is listed.
pub open spec fn tallies(names: Seq<String>, firsts: Seq<usize>, counts: Seq<u64>, upto: int) -> bool {
    &&& firsts.len() == counts.len()
    &&& forall|k: int|
        0 <= k < firsts.len() ==> {
            &&& (#[trigger] firsts[k]) < upto
            &&& first_seen(names, firsts[k] as int)
            &&& counts[k] == times_seen(names, names[firsts[k] as int]@, upto)
        }
    &&& forall|a: int, b: int| 0 <= a < b < firsts.len() ==> #[trigger] firsts[a] < #[trigger] firsts[b]
    &&& forall|j: int| 0 <= j < upto ==> #[trigger] is_counted(names, firsts, j)
}

/// Counts how often each name is listed. Returns, for each name in the
/// order of its first place, that place and the number of times it is
/// listed.
pub fn tally(names: &Vec<String>) -> (r: (Vec<usize>, Vec<u64>))
    ensures
        tallies(names@, r.0@, r.1@, names@.len() as int),
{
    let mut firsts: Vec<usize> = Vec::new();
    let mut counts: Vec<u64> = Vec::new();
    let mut i: usize = 0;
    while i < names.len()
        invariant
            i <= names.len(),
            tallies(names@, firsts@, counts@, i as int),
        decreases names.len() - i,
    {
        let ghost old_firsts = firsts@;
        let ghost old_counts = counts@;
        let mut at: usize = 0;
        while at < firsts.len() && !same_text(names[firsts[at]].as_str(), names[i].as_str())
            invariant
                at <= firsts.len(),
                i < names.len(),
                forall|k: int| 0 <= k < firsts@.len() ==> (#[trigger] firsts@[k]) < i,
                forall|k: int| 0 <= k < at ==> names@[#[trigger] firsts@[k] as int]@ != names@[i as int]@,
            decreases firsts.len() - at,
        {
            at += 1;
        }
        proof {
            assert forall|k: int| 0 <= k < firsts@.len() implies times_seen(
                names@,
                names@[#[trigger] firsts@[k] as int]@,
                i as int,
            ) <= i by {
                lemma_times_seen_bounds(names@, names@[firsts@[k] as int]@, i as int);
            }
        }
        if at < firsts.len() {
            let more: u64 = counts[at] + 1;
            counts.set(at, more);
            proof {
                assert forall|k: int| 0 <= k < firsts@.len() implies counts@[k] == times_seen(
                    names@,
                    names@[#[trigger] firsts@[k] as int]@,
                    i + 1,
                ) by {
                    if k != at {
                        if k < at {
                            assert(first_seen(names@, firsts@[at as int] as int));
                        } else {
                            assert(first_seen(names@, firsts@[k] as int));
                        }
                    }
                }
                assert(is_counted(names@, firsts@, i as int));
                assert forall|j: int| 0 <= j < i + 1 implies #[trigger] is_counted(
                    names@,
                    firsts@,
                    j,
                ) by {
                    if j < i {
                        assert(is_counted(names@, old_firsts, j));
                    }
                }
            }
        } else {
            proof {
                assert forall|j: int| 0 <= j < i implies (#[trigger] names@[j])@ != names@[i as int]@ by {
                    assert(is_counted(names@, firsts@, j));
                }
                lemma_times_seen_bounds(names@, names@[i as int]@, i as int);
            }
            firsts.push(i);
            counts.push(1);
            proof {
                assert(firsts@[firsts@.len() - 1] == i);
                assert forall|j: int| 0 <= j < i + 1 implies #[trigger] is_counted(
                    names@,
                    firsts@,
                    j,
                ) by {
                    if j < i {
                        assert(is_counted(names@, old_firsts, j));
                        let k = choose|k: int|
                            0 <= k < old_firsts.len() && names@[#[trigger] old_firsts[k] as int]@
                                == names@[j]@;
                        assert(firsts@[k] == old_firsts[k]);
                    } else {
                        assert(names@[firsts@[firsts@.len() - 1] as int]@ == names@[j]@);
                    }
                }
            }
        }
        i += 1;
    }
    (firsts, counts)
}

/// The count at `i` is at most one below the first.
pub open spec fn near_top(counts: Seq<u64>, i: int) -> bool {
    counts[i] + 1 >= counts[0]
}

/// Picks the candidates whose count is at most one below that of the first
/// candidate, at most `limit` of them. Returns their indices, in order.
pub fn top_counts(counts: &Vec<u64>, limit: usize) -> (r: Vec<usize>)
    ensures
        r@.len() <= limit,
        forall|k: int| 0 <= k < r@.len() ==> (#[trigger] r@[k]) < counts@.len() && near_top(
            counts@,
            r@[k] as int,
        ),
        forall|a: int, b: int| 0 <= a < b < r@.len() ==> #[trigger] r@[a] < #[trigger] r@[b],
        forall|i: int|
            0 <= i < counts@.len() && near_top(counts@, i) ==> r@.contains(i as usize) || (r@.len()
                == limit && forall|k: int| 0 <= k < r@.len() ==> (#[trigger] r@[k]) < i),
{
    let mut out: Vec<usize> = Vec::new();
    let mut i: usize = 0;
    while i < counts.len() && out.len() < limit
        invariant
            i <= counts.len(),
            out@.len() <= limit,
            forall|k: int| 0 <= k < out@.len() ==> (#[trigger] out@[k]) < i && near_top(
                counts@,
                out@[k] as int,
            ),
            forall|a: int, b: int| 0 <= a < b < out@.len() ==> #[trigger] out@[a] < #[trigger] out@[b],
            forall|m: int| 0 <= m < i && near_top(counts@, m) ==> out@.contains(m as usize),
        decreases counts.len() - i,
    {
        let ghost before = out@;
        if counts[i] >= counts[0] || counts[0] - counts[i] <= 1 {
            out.push(i);
            assert(out@[out@.len() - 1] == i);
        }
        proof {
            assert forall|m: int| 0 <= m < i + 1 && near_top(counts@, m) implies out@.contains(
                m as usize,
            ) by {
                if m < i {
                    assert(before.contains(m as usize));
                    let k = choose|k: int| 0 <= k < before.len() && before[k] == m as usize;
                    assert(out@[k] == m as usize);
                }
            }
        }
        i += 1;
    }
    out
}

} // verus!

use vstd::multiset::Multiset;
use vstd::prelude::*;

verus! {

/// An exact non-negative rational number `numer / denom`.
#[derive(Clone, Copy, Debug, PartialEq, Eq, Structural)]
pub struct Ratio {
    pub numer: u128,
    pub denom: u128,
}

/// Sum of a sequence of values, as a mathematical integer.
pub open spec fn seq_sum(s: Seq<usize>) -> int
    decreases s.len(),
{
    if s.len() == 0 {
        0
    } else {
        seq_sum(s.drop_last()) + s.last()
    }
}

/// `m` occurs in `s` and no element of `s` exceeds it.
pub open spec fn is_max_of(m: usize, s: Seq<usize>) -> bool {
    &&& s.contains(m)
    &&& forall|i: int| 0 <= i < s.len() ==> s[i] <= m
}

/// `m` occurs in `s` and no element of `s` is below it.
pub open spec fn is_min_of(m: usize, s: Seq<usize>) -> bool {
    &&& s.contains(m)
    &&& forall|i: int| 0 <= i < s.len() ==> m <= s[i]
}

/// The maximum of a non-empty sequence.
pub open spec fn max_of(s: Seq<usize>) -> usize {
    choose|m: usize| is_max_of(m, s)
}

/// The minimum of a non-empty sequence.
pub open spec fn min_of(s: Seq<usize>) -> usize {
    choose|m: usize| is_min_of(m, s)
}

/// The sequence is in ascending order.
pub open spec fn sorted(s: Seq<usize>) -> bool {
    forall|i: int, j: int| 0 <= i <= j < s.len() ==> s[i] <= s[j]
}

/// `e` is the least element of `m` that is not below `value`.
pub open spec fn is_least_not_below(e: usize, m: Multiset<usize>, value: usize) -> bool {
    &&& m.contains(e)
    &&& value <= e
    &&& forall|f: usize| m.contains(f) && value <= f ==> e <= f
}

/// What the sample buffer holds after `value` arrives, given what it held
/// before and its capacity: below capacity the value is kept; at capacity the
/// least retained element that is not below the value gives way to it, and if
/// every retained element is below the value, nothing changes.
pub open spec fn next_samples(m: Multiset<usize>, capacity: nat, value: usize) -> Multiset<usize> {
    if m.len() < capacity {
        m.insert(value)
    } else if exists|e: usize| m.contains(e) && value <= e {
        m.insert(value).remove(choose|e: usize| is_least_not_below(e, m, value))
    } else {
        m
    }
}

/// The estimate for the fraction `numer / denom` (below one) from the sorted,
/// non-empty sample `s`. With `rank = len * numer / denom`: at a whole rank the
/// midpoint of the elements at positions `rank - 1` and `rank` (the first
/// element when the rank is zero), otherwise the element at position
/// `floor(rank)`.
pub open spec fn quantile_of(s: Seq<usize>, numer: nat, denom: nat) -> Ratio {
    let rank_num = s.len() * numer;
    let whole = rank_num / denom;
    if rank_num % denom == 0 {
        if whole == 0 {
            Ratio { numer: s[0] as u128, denom: 1 }
        } else {
            Ratio { numer: (s[whole - 1] + s[whole as int]) as u128, denom: 2 }
        }
    } else {
        Ratio { numer: s[whole as int] as u128, denom: 1 }
    }
}

/// Whatever is the maximum of a sequence is what `max_of` gives.
pub proof fn lemma_max_of_unique(m: usize, s: Seq<usize>)
    requires
        is_max_of(m, s),
    ensures
        max_of(s) == m,
{
    let c = choose|c: usize| is_max_of(c, s);
    assert(is_max_of(c, s));
}

/// Whatever is the minimum of a sequence is what `min_of` gives.
pub proof fn lemma_min_of_unique(m: usize, s: Seq<usize>)
    requires
        is_min_of(m, s),
    ensures
        min_of(s) == m,
{
    let c = choose|c: usize| is_min_of(c, s);
    assert(is_min_of(c, s));
}

} // verus!

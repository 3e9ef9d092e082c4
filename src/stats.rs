use vstd::prelude::*;

use crate::model::{
    Ratio, is_least_not_below, is_max_of, is_min_of, lemma_max_of_unique, lemma_min_of_unique, max_of,
    min_of, next_samples, quantile_of, seq_sum, sorted,
};

verus! {

broadcast use {vstd::seq_lib::group_to_multiset_ensures, vstd::multiset::group_multiset_axioms};

/// Sorts `v` in ascending order, keeping its elements.
fn sort_ascending(v: &mut Vec<usize>)
    ensures
        sorted(final(v)@),
        final(v)@.to_multiset() == old(v)@.to_multiset(),
        final(v)@.len() == old(v)@.len(),
{
    let n = v.len();
    let mut i: usize = 1;
    while i < n
        invariant
            n == v@.len(),
            1 <= i || n == 0,
            v@.to_multiset() == old(v)@.to_multiset(),
            forall|x: int, y: int| 0 <= x <= y < i && y < n ==> v@[x] <= v@[y],
        decreases n - i,
    {
        let mut j: usize = i;
        while j > 0 && v[j - 1] > v[j]
            invariant
                n == v@.len(),
                0 <= j <= i < n,
                v@.to_multiset() == old(v)@.to_multiset(),
                forall|x: int, y: int| 0 <= x <= y <= i && x != j && y != j ==> v@[x] <= v@[y],
                forall|y: int| j < y <= i ==> v@[j as int] <= v@[y],
            decreases j,
        {
            let moving = v[j];
            let below = v[j - 1];
            proof {
                let s = v@;
                assert(s.update(j as int, below).update(j - 1, moving).to_multiset()
                    == s.to_multiset().insert(below).remove(moving).insert(moving).remove(below));
                assert(s.to_multiset().insert(below).remove(moving).insert(moving).remove(below)
                    =~= s.to_multiset());
            }
            v.set(j, below);
            v.set(j - 1, moving);
            j = j - 1;
        }
        i = i + 1;
    }
}

/// The first position in sorted `v` whose element is not below `value`
/// (the length of `v` if there is none).
fn lower_bound(v: &Vec<usize>, value: usize) -> (r: usize)
    requires
        sorted(v@),
    ensures
        r <= v@.len(),
        forall|i: int| 0 <= i < r ==> v@[i] < value,
        forall|i: int| r <= i < v@.len() ==> value <= v@[i],
{
    let mut lo: usize = 0;
    let mut hi: usize = v.len();
    while lo < hi
        invariant
            lo <= hi <= v@.len(),
            sorted(v@),
            forall|i: int| 0 <= i < lo ==> v@[i] < value,
            forall|i: int| hi <= i < v@.len() ==> value <= v@[i],
        decreases hi - lo,
    {
        let mid = lo + (hi - lo) / 2;
        if v[mid] < value {
            lo = mid + 1;
        } else {
            hi = mid;
        }
    }
    lo
}

/// Appending a value adds it to the sum.
proof fn lemma_sum_push(s: Seq<usize>, v: usize)
    ensures
        seq_sum(s.push(v)) == seq_sum(s) + v,
{
    assert(s.push(v).drop_last() =~= s);
}

/// A sum of `usize` values is at most their number times `usize::MAX`, so
/// the running sum fits a `u128` for any count that fits a `usize`.
proof fn lemma_sum_bound(s: Seq<usize>)
    ensures
        0 <= seq_sum(s) <= s.len() * usize::MAX,
    decreases s.len(),
{
    if s.len() > 0 {
        lemma_sum_bound(s.drop_last());
        assert(seq_sum(s) <= (s.len() - 1) * usize::MAX + usize::MAX) by (nonlinear_arith)
            requires
                seq_sum(s) == seq_sum(s.drop_last()) + s.last(),
                seq_sum(s.drop_last()) <= (s.len() - 1) * usize::MAX,
                s.last() <= usize::MAX;
        assert((s.len() - 1) * usize::MAX + usize::MAX == s.len() * usize::MAX) by (nonlinear_arith);
    }
}

/// Capacity of the sample buffer when none is given.
pub const DEFAULT_CAPACITY: usize = 10000;

/// Running statistics over a stream of non-negative integers.
///
/// Maximum, minimum, mean and count cover every value ever added; quantiles
/// are estimated from a sample buffer that never holds more than the
/// capacity given at construction.
pub struct AggregatedStats {
    value_buffer: Vec<usize>,
    value_count: usize,
    max_size: usize,
    max: Option<usize>,
    min: Option<usize>,
    sum: u128,
    history: Ghost<Seq<usize>>,
}

impl AggregatedStats {
    /// Every value added so far, in order of arrival.
    pub closed spec fn observed(&self) -> Seq<usize> {
        self.history@
    }

    /// The retained sample values, in buffer order.
    pub closed spec fn samples(&self) -> Seq<usize> {
        self.value_buffer@
    }

    /// The largest number of values the sample buffer may hold.
    pub closed spec fn capacity(&self) -> nat {
        self.max_size as nat
    }

    /// The internal invariant that every operation preserves.
    pub closed spec fn wf(&self) -> bool {
        &&& self.max_size > 0
        &&& self.value_count == self.history@.len()
        &&& self.value_buffer@.len() <= self.max_size
        &&& self.value_buffer@.len() <= self.value_count
        &&& self.value_buffer@.to_multiset().subset_of(self.history@.to_multiset())
        &&& (self.value_count > 0 ==> self.value_buffer@.len() > 0)
        &&& self.sum == seq_sum(self.history@)
        &&& (self.history@.len() == 0 <==> self.max.is_none())
        &&& (self.history@.len() == 0 <==> self.min.is_none())
        &&& (self.max matches Some(m) ==> is_max_of(m, self.history@))
        &&& (self.min matches Some(m) ==> is_min_of(m, self.history@))
    }

    /// An empty aggregator whose sample buffer holds up to ten thousand values.
    pub fn new() -> (r: AggregatedStats)
        ensures
            r.wf(),
            r.observed() == Seq::<usize>::empty(),
            r.samples() == Seq::<usize>::empty(),
            r.capacity() == DEFAULT_CAPACITY,
    {
        Self::with_capacity(DEFAULT_CAPACITY)
    }

    /// An empty aggregator whose sample buffer holds up to `capacity` values.
    pub fn with_capacity(capacity: usize) -> (r: AggregatedStats)
        requires
            capacity > 0,
        ensures
            r.wf(),
            r.observed() == Seq::<usize>::empty(),
            r.samples() == Seq::<usize>::empty(),
            r.capacity() == capacity,
    {
        AggregatedStats {
            value_buffer: Vec::new(),
            value_count: 0,
            max_size: capacity,
            max: None,
            min: None,
            sum: 0,
            history: Ghost(Seq::empty()),
        }
    }

    /// The number of values added so far.
    pub fn count(&self) -> (r: usize)
        requires
            self.wf(),
        ensures
            r == self.observed().len(),
    {
        self.value_count
    }

    /// The largest value added so far; `None` before the first one.
    pub fn max(&self) -> (r: Option<usize>)
        requires
            self.wf(),
        ensures
            self.observed().len() == 0 ==> r.is_none(),
            self.observed().len() > 0 ==> r == Some(max_of(self.observed())),
            r matches Some(m) ==> is_max_of(m, self.observed()),
    {
        if let Some(m) = self.max {
            proof {
                lemma_max_of_unique(m, self.history@);
            }
        }
        self.max
    }

    /// The smallest value added so far; `None` before the first one.
    pub fn min(&self) -> (r: Option<usize>)
        requires
            self.wf(),
        ensures
            self.observed().len() == 0 ==> r.is_none(),
            self.observed().len() > 0 ==> r == Some(min_of(self.observed())),
            r matches Some(m) ==> is_min_of(m, self.observed()),
    {
        if let Some(m) = self.min {
            proof {
                lemma_min_of_unique(m, self.history@);
            }
        }
        self.min
    }

    /// The exact mean of every value added so far, as the sum over the count;
    /// `None` before the first one.
    pub fn average(&self) -> (r: Option<Ratio>)
        requires
            self.wf(),
        ensures
            self.observed().len() == 0 ==> r.is_none(),
            self.observed().len() > 0 ==> r == Some(
                Ratio { numer: seq_sum(self.observed()) as u128, denom: self.observed().len() as u128 },
            ),
    {
        if self.value_count == 0 {
            None
        } else {
            Some(Ratio { numer: self.sum, denom: self.value_count as u128 })
        }
    }

    /// Records `value`: updates maximum, minimum and sum over the whole
    /// stream and offers the value to the sample buffer.
    pub fn add(&mut self, value: usize)
        requires
            old(self).wf(),
            old(self).observed().len() < usize::MAX,
        ensures
            final(self).wf(),
            final(self).observed() == old(self).observed().push(value),
            final(self).capacity() == old(self).capacity(),
            final(self).samples().to_multiset() == next_samples(
                old(self).samples().to_multiset(),
                old(self).capacity(),
                value,
            ),
    {
        let ghost old_hist = self.history@;
        let ghost new_hist = old_hist.push(value);
        assert(new_hist[old_hist.len() as int] == value);
        match self.max {
            Some(m) if value <= m => {
                assert(new_hist.contains(m)) by {
                    let k = choose|k: int| 0 <= k < old_hist.len() && old_hist[k] == m;
                    assert(new_hist[k] == m);
                }
            },
            _ => {
                self.max = Some(value);
            },
        }
        match self.min {
            Some(m) if m <= value => {
                assert(new_hist.contains(m)) by {
                    let k = choose|k: int| 0 <= k < old_hist.len() && old_hist[k] == m;
                    assert(new_hist[k] == m);
                }
            },
            _ => {
                self.min = Some(value);
            },
        }
        proof {
            lemma_sum_push(old_hist, value);
            lemma_sum_bound(old_hist);
            assert(seq_sum(old_hist) + value <= usize::MAX * usize::MAX) by (nonlinear_arith)
                requires
                    seq_sum(old_hist) <= old_hist.len() * usize::MAX,
                    old_hist.len() < usize::MAX,
                    value <= usize::MAX;
            assert(usize::MAX * usize::MAX < u128::MAX) by (nonlinear_arith)
                requires
                    usize::MAX <= u64::MAX;
        }
        self.sum = self.sum + value as u128;

        let ghost old_samples = self.value_buffer@.to_multiset();
        if self.value_buffer.len() < self.max_size {
            self.value_buffer.push(value);
        } else {
            sort_ascending(&mut self.value_buffer);
            let index = lower_bound(&self.value_buffer, value);
            if index < self.value_buffer.len() {
                proof {
                    let s = self.value_buffer@;
                    let e = s[index as int];
                    assert(is_least_not_below(e, old_samples, value)) by {
                        assert forall|f: usize| old_samples.contains(f) && value <= f implies e <= f by {
                            let k = choose|k: int| 0 <= k < s.len() && s[k] == f;
                        }
                    }
                    let c = choose|c: usize| is_least_not_below(c, old_samples, value);
                    assert(c == e);
                }
                self.value_buffer.set(index, value);
            } else {
                assert forall|f: usize| old_samples.contains(f) implies f < value by {
                    let s = self.value_buffer@;
                    let k = choose|k: int| 0 <= k < s.len() && s[k] == f;
                }
            }
        }
        self.value_count = self.value_count + 1;
        self.history = Ghost(new_hist);
    }

    /// Estimates the value below which the fraction `numer / denom` of the
    /// stream falls, from the retained sample; `None` while the sample is
    /// empty. The fraction one gives the exact maximum of the whole stream.
    /// Sorts the sample buffer in place.
    pub fn quantile(&mut self, numer: u64, denom: u64) -> (r: Option<Ratio>)
        requires
            old(self).wf(),
            0 < denom,
            numer <= denom,
        ensures
            final(self).wf(),
            final(self).observed() == old(self).observed(),
            final(self).capacity() == old(self).capacity(),
            final(self).samples().to_multiset() == old(self).samples().to_multiset(),
            old(self).samples().len() == 0 ==> r.is_none(),
            old(self).observed().len() > 0 ==> r.is_some(),
            old(self).observed().len() > 0 && numer == denom ==> r == Some(
                Ratio { numer: max_of(old(self).observed()) as u128, denom: 1 },
            ),
            old(self).samples().len() > 0 && numer < denom ==> sorted(final(self).samples())
                && r == Some(quantile_of(final(self).samples(), numer as nat, denom as nat)),
    {
        if self.value_buffer.len() == 0 {
            return None;
        }
        if numer == denom {
            return match self.max {
                Some(m) => {
                    proof {
                        lemma_max_of_unique(m, self.history@);
                    }
                    Some(Ratio { numer: m as u128, denom: 1 })
                },
                None => None,
            };
        }
        sort_ascending(&mut self.value_buffer);
        let n = self.value_buffer.len();
        proof {
            assert(n * numer <= u128::MAX) by (nonlinear_arith)
                requires
                    n <= u64::MAX,
                    numer <= u64::MAX;
        }
        let rank_num: u128 = n as u128 * numer as u128;
        let whole: u128 = rank_num / denom as u128;
        proof {
            let (w, rn, d, m, k) = (whole as int, rank_num as int, denom as int, n as int, numer as int);
            vstd::arithmetic::div_mod::lemma_fundamental_div_mod(rn, d);
            assert(w < m) by (nonlinear_arith)
                requires
                    w == rn / d,
                    rn == d * (rn / d) + rn % d,
                    rn % d >= 0,
                    rn == m * k,
                    k < d,
                    0 < m,
                    0 < d;
        }
        if rank_num % denom as u128 == 0 {
            if whole == 0 {
                Some(Ratio { numer: self.value_buffer[0] as u128, denom: 1 })
            } else {
                let upper = whole as usize;
                Some(Ratio {
                    numer: self.value_buffer[upper - 1] as u128 + self.value_buffer[upper] as u128,
                    denom: 2,
                })
            }
        } else {
            Some(Ratio { numer: self.value_buffer[whole as usize] as u128, denom: 1 })
        }
    }

    /// The estimate for the middle of the stream: the quantile one half.
    pub fn median(&mut self) -> (r: Option<Ratio>)
        requires
            old(self).wf(),
        ensures
            final(self).wf(),
            final(self).observed() == old(self).observed(),
            final(self).capacity() == old(self).capacity(),
            final(self).samples().to_multiset() == old(self).samples().to_multiset(),
            old(self).samples().len() == 0 ==> r.is_none(),
            old(self).observed().len() > 0 ==> r.is_some(),
            old(self).samples().len() > 0 ==> sorted(final(self).samples())
                && r == Some(quantile_of(final(self).samples(), 1, 2)),
    {
        self.quantile(1, 2)
    }

    /// The sample buffer never holds more values than its capacity, and what
    /// it holds is drawn from the values added.
    pub proof fn lemma_samples_bounded(&self)
        requires
            self.wf(),
        ensures
            self.samples().len() <= self.capacity(),
            self.samples().len() <= self.observed().len(),
            self.samples().to_multiset().subset_of(self.observed().to_multiset()),
    {
    }

    /// Once a value has been added the sample buffer is never empty, so every
    /// quantile is present; the quantile one is then the maximum of the stream.
    pub proof fn lemma_samples_nonempty(&self)
        requires
            self.wf(),
            self.observed().len() > 0,
        ensures
            self.samples().len() > 0,
    {
    }

    /// The number of values the sample buffer holds now.
    pub fn sample_len(&self) -> (r: usize)
        ensures
            r == self.samples().len(),
    {
        self.value_buffer.len()
    }
}

} // verus!

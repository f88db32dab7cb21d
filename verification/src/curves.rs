//! The binned curve collection.
//!
//! `Data` owns every curve of a run, grouped into bins by initial-condition
//! index, together with the recorded reference length (`inside_len`): the
//! full, untruncated trajectory length seen on the first parsed curve, used
//! as the common denominator of all weighted comparisons.  Samples are IEEE
//! 754 bit patterns (`u64`).

use vstd::prelude::*;

use rand::seq::SliceRandom;

use crate::opts::HeatmapOpts;
use crate::reduce::{reduction_plan, reduction_terms, sum_weights, ReductionTerm};

verus! {

/// Bin-indexed curve storage plus the reference length.
pub struct Data {
    pub data: Vec<Vec<Vec<u64>>>,
    pub inside_len: usize,
    pub inside_len_set: bool,
}

impl Data {
    /// Number of bins.
    pub open spec fn bin_count(&self) -> nat {
        self.data@.len()
    }

    /// Number of curves stored in bin `i`.
    pub open spec fn bin_len(&self, i: int) -> nat {
        self.data@[i]@.len()
    }

    /// The sample sequence of curve `k` of bin `i`.
    pub open spec fn curve(&self, i: int, k: int) -> Seq<u64> {
        self.data@[i]@[k]@
    }

    /// Every stored curve has at least one sample.
    pub open spec fn all_curves_nonempty(&self) -> bool {
        forall|i: int, k: int|
            0 <= i < self.bin_count() && 0 <= k < self.bin_len(i) ==> #[trigger] self.curve(
                i,
                k,
            ).len() >= 1
    }

    /// At least one curve is stored somewhere.
    pub open spec fn has_any_curve(&self) -> bool {
        exists|i: int| 0 <= i < self.bin_count() && self.bin_len(i) > 0
    }

    /// Empty storage with one empty bin per initial-condition index and no
    /// reference length recorded yet.
    pub fn new_from_heatmap_options(opts: &HeatmapOpts) -> (d: Self)
        ensures
            d.bin_count() == opts.bin_count,
            forall|i: int| 0 <= i < d.bin_count() ==> #[trigger] d.bin_len(i) == 0,
            !d.inside_len_set,
            d.inside_len == 0,
    {
        let mut data: Vec<Vec<Vec<u64>>> = Vec::new();
        for i in 0..opts.bin_count
            invariant
                data@.len() == i,
                forall|a: int| 0 <= a < i ==> (#[trigger] data@[a])@.len() == 0,
        {
            data.push(Vec::new());
        }
        Self { data, inside_len: 0, inside_len_set: false }
    }

    /// Whether the reference length has been recorded.
    pub fn is_inside_len_set(&self) -> (r: bool)
        ensures
            r == self.inside_len_set,
    {
        self.inside_len_set
    }

    /// The recorded reference length.
    pub fn get_inside_len(&self) -> (r: usize)
        ensures
            r == self.inside_len,
    {
        self.inside_len
    }

    /// Records the reference length observed on the first parsed curve.
    pub fn set_inside_len(&mut self, len: usize)
        ensures
            final(self).inside_len == len,
            final(self).inside_len_set,
            final(self).data == old(self).data,
    {
        self.inside_len = len;
        self.inside_len_set = true;
    }

    /// Appends a curve to bin `index`.
    pub fn push(&mut self, index: usize, v: Vec<u64>)
        requires
            index < old(self).bin_count(),
        ensures
            final(self).bin_count() == old(self).bin_count(),
            final(self).data@[index as int]@ == old(self).data@[index as int]@.push(v),
            forall|i: int|
                0 <= i < old(self).bin_count() && i != index ==> final(self).data@[i] == old(
                    self,
                ).data@[i],
            final(self).inside_len == old(self).inside_len,
            final(self).inside_len_set == old(self).inside_len_set,
    {
        self.data[index].push(v);
    }

    /// Read access to the raw bins.
    pub fn data(&self) -> (r: &Vec<Vec<Vec<u64>>>)
        ensures
            r == &self.data,
    {
        &self.data
    }

    /// The range of valid bin indices.
    pub fn range_iter(&self) -> (r: core::ops::Range<usize>)
        ensures
            r.start == 0,
            r.end == self.bin_count(),
    {
        0..self.data.len()
    }

    /// Number of curves in bin `index`.
    pub fn get_len_at_index(&self, index: usize) -> (r: usize)
        requires
            index < self.bin_count(),
        ensures
            r == self.bin_len(index as int),
    {
        self.data[index].len()
    }

    /// Longest curve length among the first `upto` curves of `bin`.
    pub open spec fn bin_max_upto(bin: Seq<Vec<u64>>, upto: int) -> int
        decreases upto,
    {
        if upto <= 0 {
            0
        } else {
            vstd::math::max(Self::bin_max_upto(bin, upto - 1), bin[upto - 1]@.len() as int)
        }
    }

    /// Longest curve length among the first `upto` bins.
    pub open spec fn data_max_upto(data: Seq<Vec<Vec<u64>>>, upto: int) -> int
        decreases upto,
    {
        if upto <= 0 {
            0
        } else {
            vstd::math::max(
                Self::data_max_upto(data, upto - 1),
                Self::bin_max_upto(data[upto - 1]@, data[upto - 1]@.len() as int),
            )
        }
    }

    /// Length of the longest stored curve (0 when no curve is stored).
    pub open spec fn max_curve_len(&self) -> int {
        Self::data_max_upto(self.data@, self.data@.len() as int)
    }

    /// Pads every curve to the length of the longest stored curve by
    /// repeating its own final sample, the one-time preprocessing step that
    /// correlation mode needs before any pairwise work.  Curve prefixes are
    /// untouched.
    #[verifier::loop_isolation(false)]
    pub fn make_same_len(&mut self)
        requires
            old(self).has_any_curve(),
            old(self).all_curves_nonempty(),
        ensures
            final(self).bin_count() == old(self).bin_count(),
            forall|i: int|
                0 <= i < old(self).bin_count() ==> #[trigger] final(self).bin_len(i) == old(
                    self,
                ).bin_len(i),
            forall|i: int, k: int|
                0 <= i < old(self).bin_count() && 0 <= k < old(self).bin_len(i)
                    ==> #[trigger] final(self).curve(i, k) == old(self).curve(i, k) + Seq::new(
                    (old(self).max_curve_len() - old(self).curve(i, k).len()) as nat,
                    |t: int| old(self).curve(i, k).last(),
                ),
            forall|i: int, k: int|
                0 <= i < old(self).bin_count() && 0 <= k < old(self).bin_len(i)
                    ==> #[trigger] final(self).curve(i, k).len() == old(self).max_curve_len(),
            final(self).inside_len == old(self).inside_len,
            final(self).inside_len_set == old(self).inside_len_set,
    {
        let n = self.data.len();
        let mut m: usize = 0;
        for i in 0..n
            invariant
                self == old(self),
                m == Self::data_max_upto(self.data@, i as int),
        {
            let bl = self.data[i].len();
            for k in 0..bl
                invariant
                    self == old(self),
                    bl == self.bin_len(i as int),
                    m == vstd::math::max(
                        Self::data_max_upto(self.data@, i as int),
                        Self::bin_max_upto(self.data@[i as int]@, k as int),
                    ),
            {
                let l = self.data[i][k].len();
                if l > m {
                    m = l;
                }
            }
        }
        proof {
            Self::lemma_data_max_bounds(self.data@, n as int);
        }
        for i in 0..n
            invariant
                self.data@.len() == n,
                forall|a: int|
                    0 <= a < n ==> #[trigger] self.bin_len(a) == old(self).bin_len(a),
                forall|a: int, k: int|
                    0 <= a < i && 0 <= k < old(self).bin_len(a) ==> #[trigger] self.curve(a, k)
                        == old(self).curve(a, k) + Seq::new(
                        (m - old(self).curve(a, k).len()) as nat,
                        |t: int| old(self).curve(a, k).last(),
                    ),
                forall|a: int, k: int|
                    i <= a < n && 0 <= k < old(self).bin_len(a) ==> #[trigger] self.curve(a, k)
                        == old(self).curve(a, k),
                self.inside_len == old(self).inside_len,
                self.inside_len_set == old(self).inside_len_set,
        {
            let bl = self.data[i].len();
            proof {
                assert(self.bin_len(i as int) == old(self).bin_len(i as int));
                assert(bl == self.bin_len(i as int));
                assert(forall|kk: int|
                    0 <= kk < bl ==> #[trigger] self.curve(i as int, kk) == old(self).curve(
                        i as int,
                        kk,
                    ));
            }
            for k in 0..bl
                invariant
                    self.data@.len() == n,
                    bl == old(self).bin_len(i as int),
                    forall|a: int|
                        0 <= a < n ==> #[trigger] self.bin_len(a) == old(self).bin_len(a),
                    forall|a: int, kk: int|
                        0 <= a < i && 0 <= kk < old(self).bin_len(a) ==> #[trigger] self.curve(
                            a,
                            kk,
                        ) == old(self).curve(a, kk) + Seq::new(
                            (m - old(self).curve(a, kk).len()) as nat,
                            |t: int| old(self).curve(a, kk).last(),
                        ),
                    forall|kk: int|
                        0 <= kk < k ==> #[trigger] self.curve(i as int, kk) == old(self).curve(
                            i as int,
                            kk,
                        ) + Seq::new(
                            (m - old(self).curve(i as int, kk).len()) as nat,
                            |t: int| old(self).curve(i as int, kk).last(),
                        ),
                    forall|kk: int|
                        k <= kk < bl ==> #[trigger] self.curve(i as int, kk) == old(self).curve(
                            i as int,
                            kk,
                        ),
                    forall|a: int, kk: int|
                        i < a < n && 0 <= kk < old(self).bin_len(a) ==> #[trigger] self.curve(
                            a,
                            kk,
                        ) == old(self).curve(a, kk),
                    self.inside_len == old(self).inside_len,
                    self.inside_len_set == old(self).inside_len_set,
            {
                proof {
                    assert(self.bin_len(i as int) == old(self).bin_len(i as int));
                }
                let cur_len = self.data[i][k].len();
                let ghost orig = self.curve(i as int, k as int);
                if cur_len < m {
                    let last = self.data[i][k][cur_len - 1];
                    while self.data[i][k].len() < m
                        invariant
                            i < n,
                            k < self.bin_len(i as int),
                            orig.len() <= self.curve(i as int, k as int).len() <= m,
                            self.curve(i as int, k as int) == orig + Seq::new(
                                (self.curve(i as int, k as int).len() - orig.len()) as nat,
                                |t: int| orig.last(),
                            ),
                            self.data@.len() == n,
                            forall|a: int|
                                0 <= a < n ==> #[trigger] self.bin_len(a) == old(self).bin_len(a),
                            forall|a: int, kk: int|
                                0 <= a < n && 0 <= kk < old(self).bin_len(a) && !(a == i && kk
                                    == k) ==> #[trigger] self.curve(a, kk) == old(self).curve(
                                    a,
                                    kk,
                                ) + (if a < i || (a == i && kk < k) {
                                    Seq::new(
                                        (m - old(self).curve(a, kk).len()) as nat,
                                        |t: int| old(self).curve(a, kk).last(),
                                    )
                                } else {
                                    Seq::<u64>::empty()
                                }),
                            self.inside_len == old(self).inside_len,
                            self.inside_len_set == old(self).inside_len_set,
                        decreases m - self.curve(i as int, k as int).len(),
                    {
                        let ghost prev = *self;
                        self.data[i][k].push(last);
                        proof {
                            assert forall|a: int| 0 <= a < n implies #[trigger] self.bin_len(a)
                                == prev.bin_len(a) by {
                                if a != i {
                                    assert(self.data@[a] == prev.data@[a]);
                                }
                            }
                            assert forall|a: int, kk: int|
                                0 <= a < n && 0 <= kk < prev.bin_len(a) && !(a == i && kk
                                    == k) implies #[trigger] self.curve(a, kk) == prev.curve(
                                a,
                                kk,
                            ) by {
                                if a != i {
                                    assert(self.data@[a] == prev.data@[a]);
                                } else {
                                    assert(self.data@[a]@[kk] == prev.data@[a]@[kk]);
                                }
                            }
                            let cur = self.curve(i as int, k as int);
                            assert(cur =~= orig + Seq::new(
                                (cur.len() - orig.len()) as nat,
                                |t: int| orig.last(),
                            ));
                        }
                    }
                    proof {
                        assert(forall|a: int, kk: int|
                            0 <= a < n && 0 <= kk < old(self).bin_len(a) && a == i && kk == k
                                ==> #[trigger] self.curve(a, kk) == orig + Seq::new(
                                (m - orig.len()) as nat,
                                |t: int| orig.last(),
                            ));
                    }
                } else {
                    proof {
                        assert(orig + Seq::new(
                            (m - orig.len()) as nat,
                            |t: int| orig.last(),
                        ) =~= orig);
                    }
                }
            }
        }
    }

    /// Total number of curves in the first `upto` bins.
    pub open spec fn total_entries_upto(data: Seq<Vec<Vec<u64>>>, upto: int) -> int
        decreases upto,
    {
        if upto <= 0 {
            0
        } else {
            Self::total_entries_upto(data, upto - 1) + data[upto - 1]@.len()
        }
    }

    /// Total number of stored curves.
    pub open spec fn total_entries(&self) -> int {
        Self::total_entries_upto(self.data@, self.data@.len() as int)
    }

    proof fn lemma_total_entries_mono(data: Seq<Vec<Vec<u64>>>, a: int, b: int)
        requires
            a <= b,
        ensures
            Self::total_entries_upto(data, a) <= Self::total_entries_upto(data, b),
        decreases b - a,
    {
        if a < b {
            Self::lemma_total_entries_mono(data, a, b - 1);
        }
    }

    /// Mean bin population, rounded down.
    pub fn average_entries(&self) -> (r: usize)
        requires
            self.bin_count() > 0,
            self.total_entries() <= usize::MAX,
        ensures
            r == self.total_entries() / self.bin_count() as int,
    {
        let n = self.data.len();
        let mut sum: usize = 0;
        for i in 0..n
            invariant
                n == self.bin_count(),
                sum == Self::total_entries_upto(self.data@, i as int),
                self.total_entries() <= usize::MAX,
        {
            proof {
                Self::lemma_total_entries_mono(self.data@, i + 1, n as int);
            }
            sum = sum + self.data[i].len();
        }
        sum / n
    }

    proof fn lemma_bin_max_bounds(bin: Seq<Vec<u64>>, upto: int)
        ensures
            forall|k: int| 0 <= k < upto ==> (#[trigger] bin[k]@).len() <= Self::bin_max_upto(
                bin,
                upto,
            ),
        decreases upto,
    {
        if upto > 0 {
            Self::lemma_bin_max_bounds(bin, upto - 1);
        }
    }

    /// Every curve among the first `upto` bins is at most `data_max_upto` long.
    proof fn lemma_data_max_bounds(data: Seq<Vec<Vec<u64>>>, upto: int)
        ensures
            forall|i: int, k: int|
                #![trigger data[i]@[k]]
                0 <= i < upto && 0 <= k < data[i]@.len() ==> data[i]@[k]@.len()
                    <= Self::data_max_upto(data, upto),
        decreases upto,
    {
        if upto > 0 {
            Self::lemma_data_max_bounds(data, upto - 1);
            Self::lemma_bin_max_bounds(data[upto - 1]@, data[upto - 1]@.len() as int);
        }
    }

    /// The populations of the `n` largest bins, largest first (all bins
    /// when there are fewer than `n`).
    pub fn max_n_entries(&self, n: usize) -> (r: Vec<usize>)
        ensures
            r@.len() == vstd::math::min(n as int, self.bin_count() as int),
            sorted_desc(r@),
            exists|full: Seq<usize>|
                #![auto]
                full.to_multiset() == self.bin_lens().to_multiset() && sorted_desc(full) && r@
                    == full.subrange(0, r@.len() as int),
    {
        let mut lens = self.collect_lens();
        sort_asc(&mut lens);
        let ghost sorted_full = lens@;
        let mut rev: Vec<usize> = Vec::new();
        let total = lens.len();
        for t in 0..total
            invariant
                total == lens@.len(),
                rev@.len() == t,
                forall|a: int| 0 <= a < t ==> rev@[a] == lens@[total - 1 - a],
                lens@ == sorted_full,
        {
            rev.push(lens[total - 1 - t]);
        }
        proof {
            assert(rev@ =~= sorted_full.reverse());
            sorted_full.lemma_reverse_to_multiset();
        }
        rev.truncate(n);
        proof {
            assert(sorted_desc(sorted_full.reverse()));
            if n < total {
                assert(rev@ == sorted_full.reverse().subrange(0, n as int));
            } else {
                assert(rev@ =~= sorted_full.reverse().subrange(
                    0,
                    sorted_full.reverse().len() as int,
                ));
            }
        }
        rev
    }

    /// The populations of the `n` smallest bins, smallest first (all bins
    /// when there are fewer than `n`).
    pub fn min_n_entries(&self, n: usize) -> (r: Vec<usize>)
        ensures
            r@.len() == vstd::math::min(n as int, self.bin_count() as int),
            sorted_asc(r@),
            exists|full: Seq<usize>|
                #![auto]
                full.to_multiset() == self.bin_lens().to_multiset() && sorted_asc(full) && r@
                    == full.subrange(0, r@.len() as int),
    {
        let mut lens = self.collect_lens();
        sort_asc(&mut lens);
        let ghost sorted_full = lens@;
        lens.truncate(n);
        proof {
            if n >= sorted_full.len() {
                assert(lens@ =~= sorted_full.subrange(0, sorted_full.len() as int));
            }
        }
        lens
    }

    /// Caps every bin at `maximum` curves.  An over-full bin is shuffled
    /// with the caller's generator and truncated, so its survivors are a
    /// random sample of its curves; which ones survive depends on the
    /// generator, but every survivor was in the bin before, and bins within
    /// the cap are left exactly as they were.
    #[verifier::loop_isolation(false)]
    pub fn limit_entries(&mut self, maximum: usize, rng: &mut rand_pcg::Pcg64)
        requires
            maximum >= 1,
        ensures
            final(self).bin_count() == old(self).bin_count(),
            forall|i: int|
                0 <= i < old(self).bin_count() ==> #[trigger] final(self).bin_len(i)
                    == vstd::math::min(old(self).bin_len(i) as int, maximum as int),
            forall|i: int|
                0 <= i < old(self).bin_count() && old(self).bin_len(i) <= maximum
                    ==> #[trigger] final(self).data@[i] == old(self).data@[i],
            forall|i: int, k: int|
                0 <= i < old(self).bin_count() && 0 <= k < final(self).bin_len(i) ==> old(
                    self,
                ).data@[i]@.to_multiset().count(#[trigger] final(self).data@[i]@[k]) > 0,
            final(self).inside_len == old(self).inside_len,
            final(self).inside_len_set == old(self).inside_len_set,
    {
        broadcast use vstd::seq_lib::group_to_multiset_ensures;

        let n = self.data.len();
        for i in 0..n
            invariant
                self.data@.len() == n,
                forall|a: int|
                    0 <= a < i ==> #[trigger] self.bin_len(a) == vstd::math::min(
                        old(self).bin_len(a) as int,
                        maximum as int,
                    ),
                forall|a: int|
                    0 <= a < i && old(self).bin_len(a) <= maximum ==> #[trigger] self.data@[a]
                        == old(self).data@[a],
                forall|a: int, k: int|
                    0 <= a < i && 0 <= k < self.bin_len(a) ==> old(
                        self,
                    ).data@[a]@.to_multiset().count(#[trigger] self.data@[a]@[k]) > 0,
                forall|a: int| i <= a < n ==> #[trigger] self.data@[a] == old(self).data@[a],
                self.inside_len == old(self).inside_len,
                self.inside_len_set == old(self).inside_len_set,
        {
            let ghost prev = *self;
            if self.data[i].len() > maximum {
                let ghost orig_bin = self.data@[i as int]@;
                shuffle_curves(&mut self.data[i], rng);
                let ghost shuffled = self.data@[i as int]@;
                self.data[i].truncate(maximum);
                proof {
                    assert(self.data@[i as int]@ == shuffled.subrange(0, maximum as int));
                    assert forall|k: int| 0 <= k < self.bin_len(i as int) implies orig_bin
                        .to_multiset().count(#[trigger] self.data@[i as int]@[k]) > 0 by {
                        assert(shuffled.contains(shuffled[k]));
                        assert(shuffled.to_multiset().count(shuffled[k]) > 0);
                    }
                    assert(self.bin_len(i as int) == maximum);
                }
            } else {
                proof {
                    assert(self.data@[i as int] == old(self).data@[i as int]);
                    assert(self.bin_len(i as int) == old(self).bin_len(i as int));
                }
            }
            proof {
                assert forall|a: int| 0 <= a < n && a != i implies self.data@[a] == prev.data@[a]
                    by {}
                assert forall|a: int| 0 <= a < i implies #[trigger] self.bin_len(a)
                    == vstd::math::min(old(self).bin_len(a) as int, maximum as int) by {
                    assert(self.data@[a] == prev.data@[a]);
                    assert(prev.bin_len(a) == vstd::math::min(
                        old(self).bin_len(a) as int,
                        maximum as int,
                    ));
                }
                assert forall|a: int|
                    0 <= a < i && old(self).bin_len(a) <= maximum implies #[trigger] self.data@[a]
                    == old(self).data@[a] by {
                    assert(prev.data@[a] == old(self).data@[a]);
                }
                assert forall|a: int, k: int|
                    0 <= a < i && 0 <= k < self.bin_len(a) implies old(
                    self,
                ).data@[a]@.to_multiset().count(#[trigger] self.data@[a]@[k]) > 0 by {
                    assert(self.data@[a] == prev.data@[a]);
                    assert(old(self).data@[a]@.to_multiset().count(prev.data@[a]@[k]) > 0);
                }
                assert forall|a: int| i + 1 <= a < n implies #[trigger] self.data@[a] == old(
                    self,
                ).data@[a] by {
                    assert(self.data@[a] == prev.data@[a]);
                    assert(prev.data@[a] == old(self).data@[a]);
                }
            }
        }
    }

    /// The per-bin populations, in bin order.
    pub open spec fn bin_lens(&self) -> Seq<usize> {
        Seq::new(self.data@.len(), |i: int| self.data@[i]@.len() as usize)
    }

    fn collect_lens(&self) -> (r: Vec<usize>)
        ensures
            r@ == self.bin_lens(),
    {
        let n = self.data.len();
        let mut lens: Vec<usize> = Vec::new();
        for i in 0..n
            invariant
                n == self.bin_count(),
                lens@.len() == i,
                forall|a: int| 0 <= a < i ==> lens@[a] == self.bin_lens()[a],
        {
            lens.push(self.data[i].len());
        }
        proof {
            assert(lens@ =~= self.bin_lens());
        }
        lens
    }

    /// The reduction-term list for comparing curve `k` of bin `i` with curve
    /// `l` of bin `j` against the recorded reference length: the exact
    /// ragged-length weighted-mean plan of [`crate::reduce`], whose weights
    /// sum to the reference length.  Folding these terms with the selected
    /// combinator and dividing by the total weight yields the pair's scalar.
    pub fn calc_mean_terms(&self, i: usize, j: usize, k: usize, l: usize) -> (r: Vec<ReductionTerm>)
        requires
            self.inside_len_set,
            i < self.bin_count(),
            j < self.bin_count(),
            k < self.bin_len(i as int),
            l < self.bin_len(j as int),
            1 <= self.curve(i as int, k as int).len() <= self.inside_len,
            1 <= self.curve(j as int, l as int).len() <= self.inside_len,
        ensures
            r@ == reduction_plan(
                self.curve(i as int, k as int),
                self.curve(j as int, l as int),
                self.inside_len,
            ),
            sum_weights(r@) == self.inside_len,
    {
        reduction_terms(&self.data[i][k], &self.data[j][l], self.inside_len)
    }
}

/// Relies on rand_pcg::Lcg128Xsl64 (`Pcg64`), the PCG-XSL-RR 128/64
/// pseudo-random generator that drives curve subsampling.  Its values are
/// opaque here; the caller owns and seeds the generator.
#[verifier::external_type_specification]
#[verifier::external_body]
pub struct ExLcg128Xsl64(rand_pcg::Lcg128Xsl64);

/// Relies on rand::seq::SliceRandom::shuffle: a Fisher-Yates shuffle that
/// permutes the slice in place by swaps, so afterwards the bin holds
/// exactly the curves it held before, in some order that depends on the
/// generator.
#[verifier::external_body]
fn shuffle_curves(bin: &mut Vec<Vec<u64>>, rng: &mut rand_pcg::Pcg64)
    ensures
        final(bin)@.to_multiset() == old(bin)@.to_multiset(),
        final(bin)@.len() == old(bin)@.len(),
{
    bin.shuffle(rng);
}

/// Non-decreasing order.
pub open spec fn sorted_asc(s: Seq<usize>) -> bool {
    forall|a: int, b: int| 0 <= a < b < s.len() ==> s[a] <= s[b]
}

/// Non-increasing order.
pub open spec fn sorted_desc(s: Seq<usize>) -> bool {
    forall|a: int, b: int| 0 <= a < b < s.len() ==> s[a] >= s[b]
}

proof fn lemma_to_multiset_insert(s: Seq<usize>, pos: int, x: usize)
    requires
        0 <= pos <= s.len(),
    ensures
        s.insert(pos, x).to_multiset() == s.to_multiset().insert(x),
    decreases s.len() - pos,
{
    broadcast use vstd::seq_lib::group_to_multiset_ensures;

    if pos == s.len() {
        assert(s.insert(pos, x) =~= s.push(x));
    } else {
        lemma_to_multiset_insert(s.drop_last(), pos, x);
        assert(s.insert(pos, x) =~= s.drop_last().insert(pos, x).push(s.last()));
        assert(s.drop_last().insert(pos, x).push(s.last()).to_multiset() == s.drop_last().insert(
            pos,
            x,
        ).to_multiset().insert(s.last()));
        assert(s.drop_last().push(s.last()) =~= s);
        assert(s.to_multiset() == s.drop_last().to_multiset().insert(s.last()));
        assert(s.drop_last().to_multiset().insert(x).insert(s.last())
            =~= s.drop_last().to_multiset().insert(s.last()).insert(x));
    }
}

/// Insertion sort, smallest first.
#[verifier::spinoff_prover]
fn sort_asc(v: &mut Vec<usize>)
    ensures
        sorted_asc(final(v)@),
        final(v)@.to_multiset() == old(v)@.to_multiset(),
        final(v)@.len() == old(v)@.len(),
{
    broadcast use vstd::seq_lib::group_to_multiset_ensures;

    let len = v.len();
    if len == 0 {
        return ;
    }
    for i in 1..len
        invariant
            len == v@.len(),
            v@.to_multiset() == old(v)@.to_multiset(),
            sorted_asc(v@.subrange(0, i as int)),
    {
        let x = v[i];
        let mut pos: usize = 0;
        while pos < i && v[pos] <= x
            invariant
                pos <= i < len == v@.len(),
                forall|a: int| 0 <= a < pos ==> v@[a] <= x,
            decreases i - pos,
        {
            pos = pos + 1;
        }
        let ghost before = v@;
        let removed: usize = v.remove(i);
        let ghost mid = v@;
        v.insert(pos, x);
        proof {
            before.to_multiset_ensures();
            assert(before.remove(i as int).to_multiset() == before.to_multiset().remove(
                before[i as int],
            ));
            lemma_to_multiset_insert(mid, pos as int, x);
            assert(before.to_multiset().count(x) > 0) by {
                assert(before.contains(before[i as int]));
            }
            assert(before.to_multiset().remove(x).insert(x) =~= before.to_multiset());
            assert(v@.to_multiset() == old(v)@.to_multiset());
            // the sorted prefix grew by one
            before.remove_ensures(i as int);
            mid.insert_ensures(pos as int, x);
            assert(forall|t: int|
                0 <= t < i ==> #[trigger] before.subrange(0, i as int)[t] == before[t]);
            assert(forall|t: int| 0 <= t < pos ==> #[trigger] v@[t] == before[t]);
            assert(v@[pos as int] == x);
            assert forall|t: int| pos < t <= i implies #[trigger] v@[t] == before[t - 1] by {
                assert(v@[t] == mid[t - 1]);
            }
            assert forall|a: int, b: int| 0 <= a < b < i + 1 implies v@[a] <= v@[b] by {
                if pos < i {
                    assert(before[pos as int] > x);
                }
                if b < pos {
                    assert(v@[a] == before[a] && v@[b] == before[b]);
                } else if b == pos {
                    assert(v@[a] == before[a] && v@[b] == x);
                } else if a < pos {
                    assert(v@[a] == before[a] && v@[b] == before[b - 1]);
                    assert(before[a] <= x);
                    assert(pos <= b - 1 < i);
                    if pos < b - 1 {
                        assert(before.subrange(0, i as int)[pos as int] <= before.subrange(
                            0,
                            i as int,
                        )[b - 1]);
                    }
                    assert(x < before[b - 1]);
                } else if a == pos {
                    assert(v@[a] == x && v@[b] == before[b - 1]);
                    assert(pos <= b - 1 < i);
                    if pos < b - 1 {
                        assert(before.subrange(0, i as int)[pos as int] <= before.subrange(
                            0,
                            i as int,
                        )[b - 1]);
                    }
                    assert(x < before[b - 1]);
                } else {
                    assert(v@[a] == before[a - 1] && v@[b] == before[b - 1]);
                }
            }
            assert(sorted_asc(v@.subrange(0, i + 1)));
        }
    }
    proof {
        assert(v@.subrange(0, len as int) =~= v@);
    }
}

} // verus!

//! Symmetric result container for the pairwise comparison of bins.
//!
//! `Stats` keeps three co-indexed structures: a square matrix of pair means
//! (stored as IEEE 754 bit patterns), a square matrix of iteration counts,
//! and a per-bin population vector.  Writes always go to both `(i, j)` and
//! `(j, i)`, so a matrix that starts symmetric stays symmetric.

use vstd::prelude::*;

use crate::NAN_BITS;

verus! {

/// Result of one bin-pair comparison job: the pair mean (bit pattern), how
/// many curve pairs contributed to it, and the bin indices of the pair.
pub struct JobRes {
    pub mean: u64,
    pub iterations: usize,
    pub i: usize,
    pub j: usize,
}

/// A pair mean together with its contribution count, without the indices.
#[derive(Clone, Copy)]
pub struct CompareRes {
    pub mean: u64,
    pub iterations: usize,
}

impl From<JobRes> for CompareRes {
    fn from(mat_res: JobRes) -> (r: Self) {
        Self { mean: mat_res.mean, iterations: mat_res.iterations }
    }
}

impl vstd::std_specs::convert::FromSpecImpl<JobRes> for CompareRes {
    open spec fn obeys_from_spec() -> bool {
        true
    }

    open spec fn from_spec(mat_res: JobRes) -> Self {
        CompareRes { mean: mat_res.mean, iterations: mat_res.iterations }
    }
}

impl Default for CompareRes {
    /// The "pair never computed" placeholder: NaN mean, zero iterations.
    fn default() -> (r: Self)
        ensures
            r.mean == NAN_BITS,
            r.iterations == 0,
    {
        Self { mean: NAN_BITS, iterations: 0 }
    }
}

/// Symmetric comparison-result container: mean matrix, iteration-count
/// matrix, and per-bin curve population.
#[derive(Clone)]
pub struct Stats {
    mean: Vec<Vec<u64>>,
    iteration_count: Vec<Vec<usize>>,
    curve_count: Vec<usize>,
}

impl Stats {
    /// Number of bins this container was sized for.
    pub closed spec fn bin_count(&self) -> nat {
        self.curve_count@.len()
    }

    /// Both matrices are square with one row and one column per bin.
    pub closed spec fn wf(&self) -> bool {
        &&& self.mean@.len() == self.bin_count()
        &&& self.iteration_count@.len() == self.bin_count()
        &&& forall|i: int|
            0 <= i < self.bin_count() ==> (#[trigger] self.mean@[i])@.len() == self.bin_count()
        &&& forall|i: int|
            0 <= i < self.bin_count() ==> (#[trigger] self.iteration_count@[i])@.len()
                == self.bin_count()
    }

    /// Mean entry at `(i, j)`, as a bit pattern.
    pub closed spec fn mean_at(&self, i: int, j: int) -> u64 {
        self.mean@[i]@[j]
    }

    /// Iteration-count entry at `(i, j)`.
    pub closed spec fn iterations_at(&self, i: int, j: int) -> usize {
        self.iteration_count@[i]@[j]
    }

    /// Recorded number of curves in bin `i`.
    pub closed spec fn population(&self, i: int) -> usize {
        self.curve_count@[i]
    }

    /// Both matrices are mirror images of themselves.
    pub closed spec fn symmetric(&self) -> bool {
        &&& forall|i: int, j: int|
            0 <= i < self.bin_count() && 0 <= j < self.bin_count() ==> #[trigger] self.mean_at(
                i,
                j,
            ) == self.mean_at(j, i)
        &&& forall|i: int, j: int|
            0 <= i < self.bin_count() && 0 <= j < self.bin_count()
                ==> #[trigger] self.iterations_at(i, j) == self.iterations_at(j, i)
    }

    /// Fresh container: every mean is the NaN sentinel, every iteration count
    /// is zero, and the population vector records each bin's curve count.
    pub fn new(data: &Vec<Vec<Vec<u64>>>) -> (s: Stats)
        ensures
            s.wf(),
            s.bin_count() == data@.len(),
            forall|i: int, j: int|
                0 <= i < s.bin_count() && 0 <= j < s.bin_count() ==> #[trigger] s.mean_at(i, j)
                    == NAN_BITS,
            forall|i: int, j: int|
                0 <= i < s.bin_count() && 0 <= j < s.bin_count() ==> #[trigger] s.iterations_at(
                    i,
                    j,
                ) == 0,
            forall|i: int|
                0 <= i < s.bin_count() ==> #[trigger] s.population(i) == data@[i]@.len(),
            s.symmetric(),
    {
        let length = data.len();
        let mut mean: Vec<Vec<u64>> = Vec::new();
        let mut iteration_count: Vec<Vec<usize>> = Vec::new();
        let mut curve_count: Vec<usize> = Vec::new();
        for i in 0..length
            invariant
                mean@.len() == i,
                iteration_count@.len() == i,
                curve_count@.len() == i,
                length == data@.len(),
                forall|a: int| 0 <= a < i ==> (#[trigger] mean@[a])@ == Seq::new(
                    length as nat,
                    |b: int| NAN_BITS,
                ),
                forall|a: int| 0 <= a < i ==> (#[trigger] iteration_count@[a])@ == Seq::new(
                    length as nat,
                    |b: int| 0usize,
                ),
                forall|a: int| 0 <= a < i ==> #[trigger] curve_count@[a] == data@[a]@.len(),
        {
            let mut mean_row: Vec<u64> = Vec::new();
            let mut iter_row: Vec<usize> = Vec::new();
            for j in 0..length
                invariant
                    mean_row@.len() == j,
                    iter_row@.len() == j,
                    forall|b: int| 0 <= b < j ==> mean_row@[b] == NAN_BITS,
                    forall|b: int| 0 <= b < j ==> iter_row@[b] == 0usize,
            {
                mean_row.push(NAN_BITS);
                iter_row.push(0);
            }
            proof {
                assert(mean_row@ =~= Seq::new(length as nat, |b: int| NAN_BITS));
                assert(iter_row@ =~= Seq::new(length as nat, |b: int| 0usize));
            }
            mean.push(mean_row);
            iteration_count.push(iter_row);
            curve_count.push(data[i].len());
        }
        Self { mean, curve_count, iteration_count }
    }

    /// Forwards a job result into the matrix; see [`Stats::push_unchecked`].
    pub fn push_job_res_unchecked(&mut self, mat_res: JobRes)
        requires
            old(self).wf(),
            mat_res.i < old(self).bin_count(),
            mat_res.j < old(self).bin_count(),
        ensures
            final(self).wf(),
            final(self).bin_count() == old(self).bin_count(),
            final(self).mean_at(mat_res.i as int, mat_res.j as int) == mat_res.mean,
            final(self).mean_at(mat_res.j as int, mat_res.i as int) == mat_res.mean,
            final(self).iterations_at(mat_res.i as int, mat_res.j as int) == mat_res.iterations,
            final(self).iterations_at(mat_res.j as int, mat_res.i as int) == mat_res.iterations,
            forall|a: int, b: int|
                0 <= a < old(self).bin_count() && 0 <= b < old(self).bin_count() && !(a
                    == mat_res.i && b == mat_res.j) && !(a == mat_res.j && b == mat_res.i)
                    ==> #[trigger] final(self).mean_at(a, b) == old(self).mean_at(a, b),
            forall|a: int, b: int|
                0 <= a < old(self).bin_count() && 0 <= b < old(self).bin_count() && !(a
                    == mat_res.i && b == mat_res.j) && !(a == mat_res.j && b == mat_res.i)
                    ==> #[trigger] final(self).iterations_at(a, b) == old(self).iterations_at(a, b),
            forall|a: int|
                0 <= a < old(self).bin_count() ==> #[trigger] final(self).population(a) == old(
                    self,
                ).population(a),
            old(self).symmetric() ==> final(self).symmetric(),
    {
        self.push_unchecked(mat_res.i, mat_res.j, mat_res.mean, mat_res.iterations);
    }

    /// Symmetric write: stores `mean` and `iteration_count` at both `(i, j)`
    /// and `(j, i)` and touches nothing else.  The caller guarantees that
    /// each unordered pair is written at most once; the container itself
    /// does not check that.
    pub fn push_unchecked(&mut self, i: usize, j: usize, mean: u64, iteration_count: usize)
        requires
            old(self).wf(),
            i < old(self).bin_count(),
            j < old(self).bin_count(),
        ensures
            final(self).wf(),
            final(self).bin_count() == old(self).bin_count(),
            final(self).mean_at(i as int, j as int) == mean,
            final(self).mean_at(j as int, i as int) == mean,
            final(self).iterations_at(i as int, j as int) == iteration_count,
            final(self).iterations_at(j as int, i as int) == iteration_count,
            forall|a: int, b: int|
                0 <= a < old(self).bin_count() && 0 <= b < old(self).bin_count() && !(a == i && b
                    == j) && !(a == j && b == i) ==> #[trigger] final(self).mean_at(a, b) == old(
                    self,
                ).mean_at(a, b),
            forall|a: int, b: int|
                0 <= a < old(self).bin_count() && 0 <= b < old(self).bin_count() && !(a == i && b
                    == j) && !(a == j && b == i) ==> #[trigger] final(self).iterations_at(a, b)
                    == old(self).iterations_at(a, b),
            forall|a: int|
                0 <= a < old(self).bin_count() ==> #[trigger] final(self).population(a) == old(
                    self,
                ).population(a),
            old(self).symmetric() ==> final(self).symmetric(),
    {
        self.mean[i][j] = mean;
        self.mean[j][i] = mean;
        self.iteration_count[i][j] = iteration_count;
        self.iteration_count[j][i] = iteration_count;
        proof {
            let n = old(self).bin_count() as int;
            if old(self).symmetric() {
                assert forall|a: int, b: int| 0 <= a < n && 0 <= b < n implies #[trigger] self
                    .mean_at(a, b) == self.mean_at(b, a) by {
                    if !((a == i && b == j) || (a == j && b == i)) {
                        assert(old(self).mean_at(a, b) == old(self).mean_at(b, a));
                    }
                }
                assert forall|a: int, b: int| 0 <= a < n && 0 <= b < n implies #[trigger] self
                    .iterations_at(a, b) == self.iterations_at(b, a) by {
                    if !((a == i && b == j) || (a == j && b == i)) {
                        assert(old(self).iterations_at(a, b) == old(self).iterations_at(b, a));
                    }
                }
            }
        }
    }

    /// The mean matrix, row-major.
    pub fn get_mean(&self) -> (r: &Vec<Vec<u64>>)
        ensures
            self.wf() ==> r@.len() == self.bin_count(),
            self.wf() ==> forall|i: int|
                0 <= i < r@.len() ==> (#[trigger] r@[i])@.len() == self.bin_count(),
            forall|i: int, j: int|
                #![trigger r@[i]@[j]]
                0 <= i < r@.len() && 0 <= j < r@[i]@.len() ==> r@[i]@[j] == self.mean_at(i, j),
    {
        &self.mean
    }

    /// The iteration-count matrix, row-major.
    pub fn get_iteration_count(&self) -> (r: &Vec<Vec<usize>>)
        ensures
            self.wf() ==> r@.len() == self.bin_count(),
            self.wf() ==> forall|i: int|
                0 <= i < r@.len() ==> (#[trigger] r@[i])@.len() == self.bin_count(),
            forall|i: int, j: int|
                #![trigger r@[i]@[j]]
                0 <= i < r@.len() && 0 <= j < r@[i]@.len() ==> r@[i]@[j]
                    == self.iterations_at(i, j),
    {
        &self.iteration_count
    }

    /// The per-bin curve populations.
    pub fn get_curve_count(&self) -> (r: &Vec<usize>)
        ensures
            r@.len() == self.bin_count(),
            forall|i: int| 0 <= i < r@.len() ==> #[trigger] r@[i] == self.population(i),
    {
        &self.curve_count
    }

    /// Writes a whole batch of job results into the matrix, one symmetric
    /// write per result.  The outcome is characterised pointwise by
    /// [`merged_from`], so it does not depend on the order of the batch.
    pub fn merge_results(&mut self, results: &Vec<JobRes>)
        requires
            old(self).wf(),
            forall|a: int|
                0 <= a < results@.len() ==> (#[trigger] results@[a]).i < old(self).bin_count()
                    && results@[a].j < old(self).bin_count(),
            pairwise_distinct(results@),
        ensures
            final(self).wf(),
            final(self).bin_count() == old(self).bin_count(),
            merged_from(*old(self), results@, *final(self)),
            old(self).symmetric() ==> final(self).symmetric(),
    {
        let ghost all = results@;
        let mut idx: usize = 0;
        while idx < results.len()
            invariant
                self.wf(),
                self.bin_count() == old(self).bin_count(),
                idx <= results@.len(),
                results@ == all,
                forall|a: int|
                    0 <= a < all.len() ==> (#[trigger] all[a]).i < old(self).bin_count()
                        && all[a].j < old(self).bin_count(),
                pairwise_distinct(all),
                forall|a: int| 0 <= a < idx ==> result_applied(#[trigger] all[a], *self),
                forall|i: int, j: int|
                    #![trigger self.mean_at(i, j)]
                    #![trigger self.iterations_at(i, j)]
                    0 <= i < self.bin_count() && 0 <= j < self.bin_count() && !covered(
                        all.subrange(0, idx as int),
                        i,
                        j,
                    ) ==> self.mean_at(i, j) == old(self).mean_at(i, j) && self.iterations_at(i, j)
                        == old(self).iterations_at(i, j),
                forall|a: int|
                    0 <= a < self.bin_count() ==> #[trigger] self.population(a) == old(
                        self,
                    ).population(a),
                old(self).symmetric() ==> self.symmetric(),
            decreases results@.len() - idx,
        {
            let r = &results[idx];
            let ghost prev = *self;
            self.push_unchecked(r.i, r.j, r.mean, r.iterations);
            proof {
                let cur = all[idx as int];
                assert forall|a: int| 0 <= a < idx + 1 implies result_applied(
                    #[trigger] all[a],
                    *self,
                ) by {
                    if a < idx {
                        assert(!covers(cur, all[a].i as int, all[a].j as int));
                        assert(result_applied(all[a], prev));
                    }
                }
                assert forall|i: int, j: int|
                    #![trigger self.mean_at(i, j)]
                    #![trigger self.iterations_at(i, j)]
                    0 <= i < self.bin_count() && 0 <= j < self.bin_count() && !covered(
                        all.subrange(0, idx + 1),
                        i,
                        j,
                    ) implies self.mean_at(i, j) == old(self).mean_at(i, j) && self.iterations_at(
                    i,
                    j,
                ) == old(self).iterations_at(i, j) by {
                    let sub = all.subrange(0, idx + 1);
                    assert(sub[idx as int] == cur);
                    assert(!covers(cur, i, j));
                    assert(!covered(all.subrange(0, idx as int), i, j)) by {
                        if covered(all.subrange(0, idx as int), i, j) {
                            let a = choose|a: int|
                                0 <= a < idx && covers(
                                    #[trigger] all.subrange(0, idx as int)[a],
                                    i,
                                    j,
                                );
                            assert(sub[a] == all.subrange(0, idx as int)[a]);
                        }
                    }
                }
            }
            idx = idx + 1;
        }
        proof {
            assert(all.subrange(0, all.len() as int) =~= all);
        }
    }
}

/// A job result `r` writes the two cells `(r.i, r.j)` and `(r.j, r.i)`;
/// `covers` says whether `(i, j)` is one of them.
pub open spec fn covers(r: JobRes, i: int, j: int) -> bool {
    (r.i == i && r.j == j) || (r.i == j && r.j == i)
}

/// Some result in the batch writes cell `(i, j)`.
pub open spec fn covered(rs: Seq<JobRes>, i: int, j: int) -> bool {
    exists|a: int| 0 <= a < rs.len() && #[trigger] covers(rs[a], i, j)
}

/// No two results of the batch write to the same unordered bin pair.
pub open spec fn pairwise_distinct(rs: Seq<JobRes>) -> bool {
    forall|a: int, b: int|
        0 <= a < rs.len() && 0 <= b < rs.len() && a != b ==> !#[trigger] covers(
            rs[b],
            rs[a].i as int,
            rs[a].j as int,
        )
}

/// Both cells of `r` hold `r`'s mean and iteration count in `m`.
pub open spec fn result_applied(r: JobRes, m: Stats) -> bool {
    &&& m.mean_at(r.i as int, r.j as int) == r.mean
    &&& m.mean_at(r.j as int, r.i as int) == r.mean
    &&& m.iterations_at(r.i as int, r.j as int) == r.iterations
    &&& m.iterations_at(r.j as int, r.i as int) == r.iterations
}

/// Pointwise description of a finished merge: every cell written by some
/// result holds that result's values, every other cell is untouched, and the
/// population vector is unchanged.
pub open spec fn merged_from(base: Stats, rs: Seq<JobRes>, m: Stats) -> bool {
    &&& m.wf()
    &&& m.bin_count() == base.bin_count()
    &&& forall|a: int| 0 <= a < rs.len() ==> result_applied(#[trigger] rs[a], m)
    &&& forall|i: int, j: int|
        #![trigger m.mean_at(i, j)]
        #![trigger m.iterations_at(i, j)]
        0 <= i < m.bin_count() && 0 <= j < m.bin_count() && !covered(rs, i, j) ==> m.mean_at(i, j)
            == base.mean_at(i, j) && m.iterations_at(i, j) == base.iterations_at(i, j)
    &&& forall|a: int| 0 <= a < m.bin_count() ==> #[trigger] m.population(a) == base.population(a)
}

/// The final matrix does not depend on the order in which the per-pair
/// results arrive: merging any reordering of the same batch of results onto
/// the same base yields the same matrices, cell by cell.  This is what makes
/// parallel execution, which completes jobs in an arbitrary order, agree
/// with sequential execution.
pub proof fn lemma_merge_order_independent(
    base: Stats,
    m1: Stats,
    m2: Stats,
    r1: Seq<JobRes>,
    r2: Seq<JobRes>,
)
    requires
        pairwise_distinct(r1),
        r1.to_multiset() == r2.to_multiset(),
        merged_from(base, r1, m1),
        merged_from(base, r2, m2),
    ensures
        forall|i: int, j: int|
            #![trigger m1.mean_at(i, j)]
            #![trigger m2.mean_at(i, j)]
            0 <= i < base.bin_count() && 0 <= j < base.bin_count() ==> m1.mean_at(i, j)
                == m2.mean_at(i, j) && m1.iterations_at(i, j) == m2.iterations_at(i, j),
{
    broadcast use vstd::seq_lib::group_to_multiset_ensures;

    assert forall|i: int, j: int|
        #![trigger m1.mean_at(i, j)]
        #![trigger m2.mean_at(i, j)]
        0 <= i < base.bin_count() && 0 <= j < base.bin_count() implies m1.mean_at(i, j)
        == m2.mean_at(i, j) && m1.iterations_at(i, j) == m2.iterations_at(i, j) by {
        if covered(r1, i, j) {
            let a = choose|a: int| 0 <= a < r1.len() && #[trigger] covers(r1[a], i, j);
            assert(r1.contains(r1[a]));
            assert(r1.to_multiset().count(r1[a]) > 0);
            assert(r2.to_multiset().count(r1[a]) > 0);
            assert(r2.contains(r1[a]));
            let b = choose|b: int| 0 <= b < r2.len() && r2[b] == r1[a];
            assert(covers(r2[b], i, j));
            assert(result_applied(r1[a], m1));
            assert(result_applied(r2[b], m2));
        } else {
            assert(!covered(r2, i, j)) by {
                if covered(r2, i, j) {
                    let b = choose|b: int| 0 <= b < r2.len() && #[trigger] covers(r2[b], i, j);
                    assert(r2.contains(r2[b]));
                    assert(r2.to_multiset().count(r2[b]) > 0);
                    assert(r1.to_multiset().count(r2[b]) > 0);
                    assert(r1.contains(r2[b]));
                    let a = choose|a: int| 0 <= a < r1.len() && r1[a] == r2[b];
                    assert(covers(r1[a], i, j));
                }
            }
        }
    }
}

} // verus!

//! The comparison scheduler's decision structure.
//!
//! The scheduler enumerates the eligible bin pairs of the upper-triangular
//! comparison matrix, estimates the total elementwise workload for progress
//! reporting, and lists the curve-index pairs each job must compare.  The
//! per-pair floating-point folds happen outside; every decision about
//! *which* comparison runs, and where its result lands, is made and proved
//! here.

use vstd::prelude::*;

use crate::curves::Data;
use crate::stats::{covered, covers, merged_from, JobRes, Stats};
use crate::NAN_BITS;

verus! {

/// A bin pair `(i, j)` with `i >= j` is eligible when both bins hold at
/// least `cutoff` curves.
pub open spec fn eligible_pair(d: &Data, cutoff: usize, i: int, j: int) -> bool {
    &&& 0 <= j <= i < d.bin_count()
    &&& d.bin_len(i) >= cutoff
    &&& d.bin_len(j) >= cutoff
}

/// `jobs` holds exactly the eligible pairs, in bin-index order, each once.
pub open spec fn job_list_exact(d: &Data, cutoff: usize, jobs: Seq<(usize, usize)>) -> bool {
    &&& forall|i: usize, j: usize|
        #[trigger] jobs.contains((i, j)) <==> eligible_pair(d, cutoff, i as int, j as int)
    &&& forall|a: int, b: int|
        0 <= a < b < jobs.len() ==> (#[trigger] jobs[a]).0 < (#[trigger] jobs[b]).0 || (jobs[a].0
            == jobs[b].0 && jobs[a].1 < jobs[b].1)
}

/// Enumerates the comparison jobs: every bin pair `(i, j)` with `i >= j`
/// whose two bins both hold at least `cutoff` curves, in bin-index order.
/// With `cutoff == 0` this is the full upper-triangular pair list, which is
/// what the workload estimate of the sequential driver runs over.
pub fn enumerate_jobs(d: &Data, cutoff: usize) -> (jobs: Vec<(usize, usize)>)
    ensures
        job_list_exact(d, cutoff, jobs@),
{
    let n = d.data.len();
    let mut jobs: Vec<(usize, usize)> = Vec::new();
    for i in 0..n
        invariant
            n == d.bin_count(),
            forall|a: usize, b: usize|
                #[trigger] jobs@.contains((a, b)) <==> eligible_pair(d, cutoff, a as int, b as int)
                    && a < i,
            forall|idx: int| 0 <= idx < jobs@.len() ==> (#[trigger] jobs@[idx]).0 < i,
            forall|a: int, b: int|
                0 <= a < b < jobs@.len() ==> (#[trigger] jobs@[a]).0 < (#[trigger] jobs@[b]).0 || (
                jobs@[a].0 == jobs@[b].0 && jobs@[a].1 < jobs@[b].1),
    {
        if d.data[i].len() >= cutoff {
            for j in 0..i + 1
                invariant
                    n == d.bin_count(),
                    i < n,
                    d.bin_len(i as int) >= cutoff,
                    forall|a: usize, b: usize|
                        #[trigger] jobs@.contains((a, b)) <==> eligible_pair(
                            d,
                            cutoff,
                            a as int,
                            b as int,
                        ) && (a < i || (a == i && b < j)),
                    forall|idx: int|
                        0 <= idx < jobs@.len() ==> (#[trigger] jobs@[idx]).0 < i || (jobs@[idx].0
                            == i && jobs@[idx].1 < j),
                    forall|a: int, b: int|
                        0 <= a < b < jobs@.len() ==> (#[trigger] jobs@[a]).0
                            < (#[trigger] jobs@[b]).0 || (jobs@[a].0 == jobs@[b].0 && jobs@[a].1
                            < jobs@[b].1),
            {
                if d.data[j].len() >= cutoff {
                    let ghost prev = jobs@;
                    jobs.push((i, j));
                    proof {
                        assert forall|a: usize, b: usize| #[trigger]
                            jobs@.contains((a, b)) implies eligible_pair(
                            d,
                            cutoff,
                            a as int,
                            b as int,
                        ) && (a < i || (a == i && b < j + 1)) by {
                            let idx = choose|idx: int|
                                0 <= idx < jobs@.len() && jobs@[idx] == (a, b);
                            if idx < prev.len() {
                                assert(prev.contains((a, b)));
                            }
                        }
                        assert forall|a: usize, b: usize|
                            eligible_pair(d, cutoff, a as int, b as int) && (a < i || (a == i && b
                                < j + 1)) implies #[trigger] jobs@.contains((a, b)) by {
                            if a < i || (a == i && b < j) {
                                assert(prev.contains((a, b)));
                                let idx = choose|idx: int|
                                    0 <= idx < prev.len() && prev[idx] == (a, b);
                                assert(jobs@[idx] == (a, b));
                            } else {
                                assert(jobs@[jobs@.len() - 1] == (a, b));
                            }
                        }
                    }
                } else {
                    proof {
                        assert forall|a: usize, b: usize|
                            eligible_pair(d, cutoff, a as int, b as int) && (a < i || (a == i && b
                                < j + 1)) implies #[trigger] jobs@.contains((a, b)) by {
                            assert(!(a == i && b == j));
                        }
                    }
                }
            }
        } else {
            proof {
                assert forall|a: usize, b: usize|
                    eligible_pair(d, cutoff, a as int, b as int) && a < i + 1 implies #[trigger]
                    jobs@.contains((a, b)) by {
                    assert(a != i);
                }
            }
        }
    }
    jobs
}

/// Elementwise workload of the first `upto` jobs: the sum of the two bin
/// populations' product over each pair.
pub open spec fn workload_upto(d: &Data, jobs: Seq<(usize, usize)>, upto: int) -> int
    decreases upto,
{
    if upto <= 0 {
        0
    } else {
        workload_upto(d, jobs, upto - 1) + d.bin_len(jobs[upto - 1].0 as int) * d.bin_len(
            jobs[upto - 1].1 as int,
        )
    }
}

proof fn lemma_workload_mono(d: &Data, jobs: Seq<(usize, usize)>, a: int, b: int)
    requires
        a <= b,
        forall|t: int|
            0 <= t < jobs.len() ==> (#[trigger] jobs[t]).0 < d.bin_count() && jobs[t].1
                < d.bin_count(),
    ensures
        workload_upto(d, jobs, a) <= workload_upto(d, jobs, b),
    decreases b - a,
{
    if a < b {
        lemma_workload_mono(d, jobs, a, b - 1);
        if 0 < b <= jobs.len() {
            assert(d.bin_len(jobs[b - 1].0 as int) * d.bin_len(jobs[b - 1].1 as int) >= 0) by (nonlinear_arith);
        }
    }
}

/// Total elementwise workload of a job list, used to size the progress
/// indicator.  Returns `None` exactly when the sum does not fit in a `u64`.
pub fn estimate_workload(d: &Data, jobs: &Vec<(usize, usize)>) -> (r: Option<u64>)
    requires
        forall|t: int|
            0 <= t < jobs@.len() ==> (#[trigger] jobs@[t]).0 < d.bin_count() && jobs@[t].1
                < d.bin_count(),
    ensures
        match r {
            Some(w) => w == workload_upto(d, jobs@, jobs@.len() as int),
            None => workload_upto(d, jobs@, jobs@.len() as int) > u64::MAX,
        },
{
    let total = jobs.len();
    let mut acc: u128 = 0;
    for t in 0..total
        invariant
            total == jobs@.len(),
            forall|a: int|
                0 <= a < jobs@.len() ==> (#[trigger] jobs@[a]).0 < d.bin_count() && jobs@[a].1
                    < d.bin_count(),
            acc == workload_upto(d, jobs@, t as int),
            acc <= u64::MAX,
    {
        let (i, j) = jobs[t];
        let len_i = d.data[i].len() as u128;
        let len_j = d.data[j].len() as u128;
        proof {
            assert(len_i * len_j <= 0xffff_ffff_ffff_ffff * 0xffff_ffff_ffff_ffff) by (nonlinear_arith)
                requires
                    len_i <= 0xffff_ffff_ffff_ffff,
                    len_j <= 0xffff_ffff_ffff_ffff,
            ;
        }
        let work = len_i * len_j;
        acc = acc + work;
        if acc > u64::MAX as u128 {
            proof {
                lemma_workload_mono(d, jobs@, t + 1, total as int);
            }
            return None;
        }
    }
    Some(acc as u64)
}

/// The curve-index pairs a job compares: every `(k, l)` with `k < n_i` and
/// `l < n_j`, in index order; for a self pair (`same`) the diagonal
/// `k == l` is excluded, so exactly `n * (n - 1)` pairs remain rather than
/// `n * n`.
pub fn curve_pair_indices(n_i: usize, n_j: usize, same: bool) -> (r: Vec<(usize, usize)>)
    requires
        same ==> n_i == n_j,
    ensures
        !same ==> r@.len() == n_i * n_j,
        same ==> r@.len() == n_i * (n_i - 1),
        forall|k: usize, l: usize|
            #[trigger] r@.contains((k, l)) <==> k < n_i && l < n_j && !(same && k == l),
        forall|a: int, b: int|
            0 <= a < b < r@.len() ==> (#[trigger] r@[a]).0 < (#[trigger] r@[b]).0 || (r@[a].0
                == r@[b].0 && r@[a].1 < r@[b].1),
{
    let mut r: Vec<(usize, usize)> = Vec::new();
    for k in 0..n_i
        invariant
            same ==> n_i == n_j,
            !same ==> r@.len() == k * n_j,
            same ==> r@.len() == k * (n_i - 1),
            forall|a: usize, b: usize|
                #[trigger] r@.contains((a, b)) <==> a < k && b < n_j && !(same && a == b),
            forall|idx: int| 0 <= idx < r@.len() ==> (#[trigger] r@[idx]).0 < k,
            forall|a: int, b: int|
                0 <= a < b < r@.len() ==> (#[trigger] r@[a]).0 < (#[trigger] r@[b]).0 || (r@[a].0
                    == r@[b].0 && r@[a].1 < r@[b].1),
    {
        let ghost start_len = r@.len();
        for l in 0..n_j
            invariant
                same ==> n_i == n_j,
                k < n_i,
                start_len == if same {
                    k * (n_i - 1)
                } else {
                    k * n_j
                },
                r@.len() == start_len + if same && l > k {
                    l - 1
                } else {
                    l as int
                },
                forall|a: usize, b: usize|
                    #[trigger] r@.contains((a, b)) <==> (a < k && b < n_j && !(same && a == b)) || (
                    a == k && b < l && !(same && a == b)),
                forall|idx: int|
                    0 <= idx < r@.len() ==> (#[trigger] r@[idx]).0 < k || (r@[idx].0 == k
                        && r@[idx].1 < l),
                forall|a: int, b: int|
                    0 <= a < b < r@.len() ==> (#[trigger] r@[a]).0 < (#[trigger] r@[b]).0 || (
                    r@[a].0 == r@[b].0 && r@[a].1 < r@[b].1),
        {
            if !(same && k == l) {
                let ghost prev = r@;
                r.push((k, l));
                proof {
                    assert forall|a: usize, b: usize| #[trigger]
                        r@.contains((a, b)) implies (a < k && b < n_j && !(same && a == b)) || (a
                        == k && b < l + 1 && !(same && a == b)) by {
                        let idx = choose|idx: int| 0 <= idx < r@.len() && r@[idx] == (a, b);
                        if idx < prev.len() {
                            assert(prev.contains((a, b)));
                        }
                    }
                    assert forall|a: usize, b: usize|
                        (a < k && b < n_j && !(same && a == b)) || (a == k && b < l + 1 && !(same
                            && a == b)) implies #[trigger] r@.contains((a, b)) by {
                        if a < k || (a == k && b < l) {
                            assert(prev.contains((a, b)));
                            let idx = choose|idx: int| 0 <= idx < prev.len() && prev[idx] == (a, b);
                            assert(r@[idx] == (a, b));
                        } else {
                            assert(r@[r@.len() - 1] == (a, b));
                        }
                    }
                }
            } else {
                proof {
                    assert forall|a: usize, b: usize|
                        (a < k && b < n_j && !(same && a == b)) || (a == k && b < l + 1 && !(same
                            && a == b)) implies #[trigger] r@.contains((a, b)) by {
                        assert(!(a == k && b == l));
                    }
                }
            }
        }
        proof {
            if same {
                assert(r@.len() == start_len + n_i - 1);
                assert((k + 1) * (n_i - 1) == k * (n_i - 1) + (n_i - 1)) by (nonlinear_arith);
            } else {
                assert((k + 1) * n_j == k * n_j + n_j) by (nonlinear_arith);
            }
        }
    }
    proof {
        if same && n_i == 0 {
            assert(n_i * (n_i - 1) == 0);
        }
    }
    r
}

/// A bin below the population cutoff never appears in any job, so after the
/// merge of any batch of results produced from the job list, its whole row
/// and column still hold the NaN sentinel and zero iteration counts they
/// started with.
pub proof fn lemma_below_cutoff_row_stays_nan(
    d: &Data,
    cutoff: usize,
    base: Stats,
    m: Stats,
    rs: Seq<JobRes>,
    b: int,
    x: int,
)
    requires
        base.bin_count() == d.bin_count(),
        forall|i: int, j: int|
            0 <= i < base.bin_count() && 0 <= j < base.bin_count() ==> #[trigger] base.mean_at(i, j)
                == NAN_BITS,
        forall|i: int, j: int|
            0 <= i < base.bin_count() && 0 <= j < base.bin_count() ==> #[trigger] base.iterations_at(
                i,
                j,
            ) == 0,
        forall|a: int|
            0 <= a < rs.len() ==> eligible_pair(
                d,
                cutoff,
                (#[trigger] rs[a]).i as int,
                rs[a].j as int,
            ),
        merged_from(base, rs, m),
        0 <= b < d.bin_count(),
        d.bin_len(b) < cutoff,
        0 <= x < d.bin_count(),
    ensures
        m.mean_at(b, x) == NAN_BITS,
        m.mean_at(x, b) == NAN_BITS,
        m.iterations_at(b, x) == 0,
        m.iterations_at(x, b) == 0,
{
    assert(!covered(rs, b, x)) by {
        if covered(rs, b, x) {
            let a = choose|a: int| 0 <= a < rs.len() && #[trigger] covers(rs[a], b, x);
            assert(eligible_pair(d, cutoff, rs[a].i as int, rs[a].j as int));
        }
    }
    assert(!covered(rs, x, b)) by {
        if covered(rs, x, b) {
            let a = choose|a: int| 0 <= a < rs.len() && #[trigger] covers(rs[a], x, b);
            assert(eligible_pair(d, cutoff, rs[a].i as int, rs[a].j as int));
        }
    }
}

} // verus!

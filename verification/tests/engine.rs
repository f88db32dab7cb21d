//! End-to-end tests of the comparison engine: the term lists are folded
//! with real floating-point combinators exactly the way a driver would.

use sir_compare::analyse::{curve_pair_indices, enumerate_jobs, estimate_workload};
use sir_compare::curves::Data;
use sir_compare::opts::{DataMode, HeatmapOpts, Mode};
use sir_compare::reduce::{reduction_terms, reduction_weights, ReductionTerm};
use rayon::iter::{IndexedParallelIterator, IntoParallelRefIterator, ParallelIterator};
use sir_compare::stats::{JobRes, Stats};
use sir_compare::NAN_BITS;

fn opts_with_bins(bin_count: usize) -> HeatmapOpts {
    HeatmapOpts {
        n: 4,
        n_real: None,
        bin_count,
        files: String::new(),
        bin_size: 1,
        save: String::new(),
        j: 1,
        no_p_bar: true,
        every: 1,
        cutoff: 2,
        mode: Mode::Abs,
        suffix: String::new(),
        data_mode: DataMode::Sparse,
        norm: false,
        no_subtract: true,
        max_entries: None,
        print_bin_lens: false,
        c0: false,
    }
}

fn to_bits(samples: &[f64]) -> Vec<u64> {
    samples.iter().map(|s| s.to_bits()).collect()
}

fn mode_fn(mode: Mode) -> fn(f64, f64) -> f64 {
    match mode {
        Mode::Abs => |a: f64, b: f64| (a - b).abs(),
        Mode::Sqrt => |a: f64, b: f64| (a - b).abs().sqrt(),
        Mode::Cbrt => |a: f64, b: f64| (a - b).abs().cbrt(),
        Mode::Corr => panic!("Corr is not an elementwise reduction"),
    }
}

/// Folds a term list the way the comparison driver does: each reduction
/// outcome times its weight, divided by the total weight.
fn fold_terms(terms: &[ReductionTerm], f: fn(f64, f64) -> f64) -> f64 {
    let mut sum = 0.0;
    let mut weight = 0usize;
    for t in terms {
        sum += f(f64::from_bits(t.a), f64::from_bits(t.b)) * t.weight as f64;
        weight += t.weight;
    }
    sum / weight as f64
}

/// Sequential driver: every eligible bin pair, every curve pair, folded and
/// written symmetrically.
fn compare_all(data: &Data, cutoff: usize, mode: Mode) -> Stats {
    let mut stats = Stats::new(data.data());
    for &(i, j) in enumerate_jobs(data, cutoff).iter() {
        let (mean, iterations) = pair_job(data, i, j, mode);
        stats.push_unchecked(i, j, mean, iterations);
    }
    stats
}

fn pair_job(data: &Data, i: usize, j: usize, mode: Mode) -> (u64, usize) {
    let f = mode_fn(mode);
    let pairs = curve_pair_indices(data.get_len_at_index(i), data.get_len_at_index(j), i == j);
    let mut sum = 0.0;
    for &(k, l) in pairs.iter() {
        let terms = data.calc_mean_terms(i, j, k, l);
        sum += fold_terms(&terms, f);
    }
    let iterations = pairs.len();
    ((sum / iterations as f64).to_bits(), iterations)
}

/// The worked example: two bins, reference length 4, cutoff 1, mode Abs.
#[test]
fn example_two_bins() {
    let mut data = Data::new_from_heatmap_options(&opts_with_bins(2));
    data.set_inside_len(4);
    data.push(0, to_bits(&[1.0, 2.0, 3.0]));
    data.push(0, to_bits(&[1.0, 2.0, 4.0]));
    data.push(1, to_bits(&[1.0, 3.0, 5.0, 5.0]));
    let stats = compare_all(&data, 1, Mode::Abs);

    let iter = stats.get_iteration_count();
    assert_eq!(iter[0][0], 2); // 2 * (2 - 1), never n^2
    assert_eq!(iter[0][1], 2); // 2 * 1 cross pairs
    assert_eq!(iter[1][0], 2);
    assert_eq!(iter[1][1], 0); // a single curve yields no self comparison

    let mean = stats.get_mean();
    assert_eq!(f64::from_bits(mean[0][0]), 0.5);
    assert_eq!(f64::from_bits(mean[0][1]), 1.0);
    assert!(f64::from_bits(mean[1][1]).is_nan());

    let pop = stats.get_curve_count();
    assert_eq!(pop, &vec![2, 1]);
}

/// Symmetry: every mean and iteration entry mirrors across the diagonal.
#[test]
fn matrix_is_symmetric() {
    let mut data = Data::new_from_heatmap_options(&opts_with_bins(3));
    data.set_inside_len(4);
    data.push(0, to_bits(&[1.0, 2.0, 3.0]));
    data.push(0, to_bits(&[2.0, 2.0]));
    data.push(1, to_bits(&[0.5, 1.5, 2.5, 3.5]));
    data.push(1, to_bits(&[4.0]));
    data.push(2, to_bits(&[1.0, 1.0, 1.0]));
    data.push(2, to_bits(&[3.0, 2.0, 1.0]));
    let stats = compare_all(&data, 2, Mode::Sqrt);
    let mean = stats.get_mean();
    let iter = stats.get_iteration_count();
    for i in 0..3 {
        for j in 0..3 {
            assert_eq!(mean[i][j], mean[j][i]);
            assert_eq!(iter[i][j], iter[j][i]);
        }
    }
}

/// Self-pair exclusion: n curves give n * (n - 1) comparisons.
#[test]
fn self_pair_excludes_diagonal() {
    let pairs = curve_pair_indices(3, 3, true);
    assert_eq!(pairs.len(), 6);
    assert!(!pairs.contains(&(0, 0)));
    assert!(!pairs.contains(&(1, 1)));
    assert!(pairs.contains(&(2, 1)));
    let cross = curve_pair_indices(3, 2, false);
    assert_eq!(cross.len(), 6);
    assert!(cross.contains(&(2, 1)));
    assert!(cross.contains(&(0, 0)));
}

/// Weight conservation: prefix, tail and extrapolation weights sum to the
/// reference length for every length combination.
#[test]
fn weights_sum_to_reference_length() {
    for e1 in 1..=6usize {
        for e2 in 1..=6usize {
            for target in [6usize, 8, 11] {
                let (p, t, x) = reduction_weights(e1, e2, target);
                assert_eq!(p + t + x, target);
                assert_eq!(p, e1.min(e2));
                assert_eq!(t, e1.max(e2) - e1.min(e2));
                assert_eq!(x, target - e1.max(e2));
            }
        }
    }
    let c1 = to_bits(&[1.0, 2.0]);
    let c2 = to_bits(&[0.0, 1.0, 2.0, 3.0, 4.0]);
    let terms = reduction_terms(&c1, &c2, 9);
    let total: usize = terms.iter().map(|t| t.weight).sum();
    assert_eq!(total, 9);
}

/// Degenerate equal-length case: when both curves already have the
/// reference length, the weighted mean is the plain arithmetic mean.
#[test]
fn equal_length_degenerates_to_plain_mean() {
    let a = [1.0, 4.0, 2.0, 8.0];
    let b = [0.5, 6.0, 2.0, 3.0];
    let terms = reduction_terms(&to_bits(&a), &to_bits(&b), 4);
    assert_eq!(terms.len(), 4);
    assert!(terms.iter().all(|t| t.weight == 1));
    let f = mode_fn(Mode::Abs);
    let weighted = fold_terms(&terms, f);
    let plain = a.iter().zip(b.iter()).map(|(x, y)| (x - y).abs()).sum::<f64>() / 4.0;
    assert_eq!(weighted.to_bits(), plain.to_bits());
}

/// The ragged-length plan: overlapping prefix, the shorter curve's final
/// sample against the longer curve's tail, then one weighted
/// extrapolation term.
#[test]
fn ragged_term_list_is_exact() {
    let c1 = to_bits(&[1.0, 2.0, 3.0]);
    let c2 = to_bits(&[5.0, 6.0]);
    let terms = reduction_terms(&c1, &c2, 6);
    assert_eq!(terms.len(), 4);
    assert_eq!(terms[0], ReductionTerm { a: 1.0f64.to_bits(), b: 5.0f64.to_bits(), weight: 1 });
    assert_eq!(terms[1], ReductionTerm { a: 2.0f64.to_bits(), b: 6.0f64.to_bits(), weight: 1 });
    // the shorter curve's final sample stands in for its missing samples
    assert_eq!(terms[2], ReductionTerm { a: 6.0f64.to_bits(), b: 3.0f64.to_bits(), weight: 1 });
    // both curves held at their final values out to the reference length
    assert_eq!(terms[3], ReductionTerm { a: 3.0f64.to_bits(), b: 6.0f64.to_bits(), weight: 3 });
}

/// When the longest curve already reaches the reference length, no
/// extrapolation term is produced.
#[test]
fn no_extrapolation_term_at_full_length() {
    let c1 = to_bits(&[1.0, 2.0]);
    let c2 = to_bits(&[5.0, 6.0, 7.0]);
    let terms = reduction_terms(&c1, &c2, 3);
    assert_eq!(terms.len(), 3);
    assert_eq!(terms[2], ReductionTerm { a: 2.0f64.to_bits(), b: 7.0f64.to_bits(), weight: 1 });
}

/// Abs is non-negative, and its square/cube roots invert within tolerance.
#[test]
fn abs_family_laws() {
    let samples = [(-3.5, 2.0), (2.0, 2.0), (0.25, 8.5), (-1.0, -4.0)];
    for (a, b) in samples {
        let abs = (a - b as f64).abs();
        assert!(abs >= 0.0);
        let sqrt = mode_fn(Mode::Sqrt)(a, b);
        let cbrt = mode_fn(Mode::Cbrt)(a, b);
        assert!((sqrt * sqrt - abs).abs() < 1e-12);
        assert!((cbrt * cbrt * cbrt - abs).abs() < 1e-12);
    }
}

/// Below-cutoff skip: a bin with too few curves appears in no job and its
/// row and column stay at the NaN sentinel.
#[test]
fn below_cutoff_row_stays_nan() {
    let mut data = Data::new_from_heatmap_options(&opts_with_bins(3));
    data.set_inside_len(3);
    data.push(0, to_bits(&[1.0, 2.0, 3.0]));
    data.push(0, to_bits(&[1.0, 2.0, 2.0]));
    data.push(1, to_bits(&[2.0, 2.0, 2.0])); // only one curve: below cutoff 2
    data.push(2, to_bits(&[0.0, 1.0, 2.0]));
    data.push(2, to_bits(&[2.0, 1.0, 0.0]));

    let jobs = enumerate_jobs(&data, 2);
    assert_eq!(jobs, vec![(0, 0), (2, 0), (2, 2)]);
    for &(i, j) in jobs.iter() {
        assert_ne!(i, 1);
        assert_ne!(j, 1);
    }

    let stats = compare_all(&data, 2, Mode::Abs);
    let mean = stats.get_mean();
    let iter = stats.get_iteration_count();
    for x in 0..3 {
        assert_eq!(mean[1][x], NAN_BITS);
        assert_eq!(mean[x][1], NAN_BITS);
        assert_eq!(iter[1][x], 0);
        assert_eq!(iter[x][1], 0);
    }
    assert_ne!(mean[0][0], NAN_BITS);
    assert_ne!(mean[2][0], NAN_BITS);
}

/// Sequential/parallel equivalence: merging the per-job results in any
/// order yields the bit-identical matrix.
#[test]
fn merge_order_does_not_matter() {
    let mut data = Data::new_from_heatmap_options(&opts_with_bins(3));
    data.set_inside_len(4);
    data.push(0, to_bits(&[1.0, 2.0, 3.0]));
    data.push(0, to_bits(&[2.0, 2.0]));
    data.push(1, to_bits(&[0.5, 1.5, 2.5, 3.5]));
    data.push(1, to_bits(&[4.0, 0.5]));
    data.push(2, to_bits(&[1.0, 1.0, 1.0]));
    data.push(2, to_bits(&[3.0, 2.0, 1.0]));

    let jobs = enumerate_jobs(&data, 2);
    let results: Vec<JobRes> = jobs
        .iter()
        .map(|&(i, j)| {
            let (mean, iterations) = pair_job(&data, i, j, Mode::Cbrt);
            JobRes { mean, iterations, i, j }
        })
        .collect();
    let reversed: Vec<JobRes> = results
        .iter()
        .rev()
        .map(|r| JobRes { mean: r.mean, iterations: r.iterations, i: r.i, j: r.j })
        .collect();

    let mut forward = Stats::new(data.data());
    forward.merge_results(&results);
    let mut backward = Stats::new(data.data());
    backward.merge_results(&reversed);

    assert_eq!(forward.get_mean(), backward.get_mean());
    assert_eq!(forward.get_iteration_count(), backward.get_iteration_count());
    assert_eq!(forward.get_curve_count(), backward.get_curve_count());

    // and the sequential path writes the same cells one by one
    let sequential = compare_all(&data, 2, Mode::Cbrt);
    assert_eq!(sequential.get_mean(), forward.get_mean());
}

/// Sequential/parallel equivalence with a real worker pool: jobs computed
/// on four threads, completed in whatever order the pool chooses, merge
/// into the bit-identical matrix the sequential pass produces.
#[test]
fn thread_pool_matches_sequential() {
    let mut data = Data::new_from_heatmap_options(&opts_with_bins(4));
    data.set_inside_len(5);
    for b in 0..4 {
        for c in 0..3 {
            let base = (b * 3 + c) as f64;
            data.push(b, to_bits(&[base, base + 1.0, base * 0.5]));
        }
    }

    let jobs = enumerate_jobs(&data, 2);
    let pool = rayon::ThreadPoolBuilder::new().num_threads(4).build().unwrap();
    let mut results: Vec<JobRes> = Vec::new();
    pool.install(|| {
        jobs.par_iter()
            .map(|&(i, j)| {
                let (mean, iterations) = pair_job(&data, i, j, Mode::Sqrt);
                JobRes { mean, iterations, i, j }
            })
            .collect_into_vec(&mut results);
    });
    let mut parallel = Stats::new(data.data());
    parallel.merge_results(&results);

    let sequential = compare_all(&data, 2, Mode::Sqrt);
    assert_eq!(sequential.get_mean(), parallel.get_mean());
    assert_eq!(sequential.get_iteration_count(), parallel.get_iteration_count());
    assert_eq!(sequential.get_curve_count(), parallel.get_curve_count());
}

/// The workload estimate is the sum of the population products.
#[test]
fn workload_estimate_is_exact() {
    let mut data = Data::new_from_heatmap_options(&opts_with_bins(2));
    data.set_inside_len(2);
    for _ in 0..3 {
        data.push(0, to_bits(&[1.0, 2.0]));
    }
    for _ in 0..5 {
        data.push(1, to_bits(&[2.0, 1.0]));
    }
    let all_pairs = enumerate_jobs(&data, 0);
    assert_eq!(all_pairs, vec![(0, 0), (1, 0), (1, 1)]);
    // 3*3 + 5*3 + 5*5
    assert_eq!(estimate_workload(&data, &all_pairs), Some(49));
}

//! Tests of the curve store, the option types, and the histogram bins.

use std::str::FromStr;

use sir_compare::curves::Data;
use sir_compare::histogram::Histogram;
use sir_compare::opts::{DataMode, HeatmapOpts, HistReduce, HistogramOpts, Mode};
use sir_compare::stats::{CompareRes, JobRes};
use sir_compare::NAN_BITS;

fn opts_with_bins(bin_count: usize) -> HeatmapOpts {
    HeatmapOpts {
        n: 4,
        n_real: None,
        bin_count,
        files: String::new(),
        bin_size: 1,
        save: String::new(),
        j: 1,
        no_p_bar: true,
        every: 1,
        cutoff: 2,
        mode: Mode::Abs,
        suffix: String::new(),
        data_mode: DataMode::Sparse,
        norm: false,
        no_subtract: true,
        max_entries: None,
        print_bin_lens: false,
        c0: false,
    }
}

fn to_bits(samples: &[f64]) -> Vec<u64> {
    samples.iter().map(|s| s.to_bits()).collect()
}

fn from_bits(curve: &[u64]) -> Vec<f64> {
    curve.iter().map(|b| f64::from_bits(*b)).collect()
}

#[test]
fn nan_sentinel_is_nan() {
    assert!(f64::from_bits(NAN_BITS).is_nan());
    assert_eq!(f64::NAN.to_bits(), NAN_BITS);
}

#[test]
fn compare_res_default_is_nan() {
    let r = CompareRes::default();
    assert!(f64::from_bits(r.mean).is_nan());
    assert_eq!(r.iterations, 0);
    let from_job = CompareRes::from(JobRes { mean: 7, iterations: 3, i: 1, j: 0 });
    assert_eq!(from_job.mean, 7);
    assert_eq!(from_job.iterations, 3);
}

#[test]
fn make_same_len_pads_with_final_value() {
    let mut data = Data::new_from_heatmap_options(&opts_with_bins(2));
    data.set_inside_len(5);
    data.push(0, to_bits(&[1.0, 2.0]));
    data.push(0, to_bits(&[3.0, 1.0, 4.0, 1.0]));
    data.push(1, to_bits(&[7.0]));
    data.make_same_len();
    let bins = data.data();
    assert_eq!(from_bits(&bins[0][0]), vec![1.0, 2.0, 2.0, 2.0]);
    assert_eq!(from_bits(&bins[0][1]), vec![3.0, 1.0, 4.0, 1.0]);
    assert_eq!(from_bits(&bins[1][0]), vec![7.0, 7.0, 7.0, 7.0]);
}

#[test]
fn entry_statistics() {
    let mut data = Data::new_from_heatmap_options(&opts_with_bins(4));
    data.set_inside_len(1);
    for _ in 0..5 {
        data.push(0, to_bits(&[1.0]));
    }
    for _ in 0..2 {
        data.push(1, to_bits(&[1.0]));
    }
    for _ in 0..7 {
        data.push(3, to_bits(&[1.0]));
    }
    assert_eq!(data.average_entries(), (5 + 2 + 0 + 7) / 4);
    assert_eq!(data.max_n_entries(2), vec![7, 5]);
    assert_eq!(data.max_n_entries(9), vec![7, 5, 2, 0]);
    assert_eq!(data.min_n_entries(3), vec![0, 2, 5]);
    assert_eq!(data.get_len_at_index(3), 7);
}

#[test]
fn limit_entries_truncates_to_cap() {
    let mut data = Data::new_from_heatmap_options(&opts_with_bins(2));
    data.set_inside_len(1);
    let originals: Vec<Vec<u64>> = (0..6).map(|v| to_bits(&[v as f64])).collect();
    for c in originals.iter() {
        data.push(0, c.clone());
    }
    data.push(1, to_bits(&[9.0]));
    let mut rng = rand_pcg::Pcg64::new(0xcafef00dd15ea5e5, 0xa02bdbf7bb3c0a7ac28fa16a64abf96);
    data.limit_entries(2, &mut rng);
    let bins = data.data();
    assert_eq!(bins[0].len(), 2);
    for survivor in bins[0].iter() {
        assert!(originals.contains(survivor));
    }
    assert_ne!(bins[0][0], bins[0][1]);
    // a bin within the cap is untouched
    assert_eq!(bins[1], vec![to_bits(&[9.0])]);
}

#[test]
fn mode_numbers_decode() {
    assert_eq!(Mode::try_from_num(0), Some(Mode::Abs));
    assert_eq!(Mode::try_from_num(1), Some(Mode::Sqrt));
    assert_eq!(Mode::try_from_num(2), Some(Mode::Cbrt));
    assert_eq!(Mode::try_from_num(3), Some(Mode::Corr));
    assert_eq!(Mode::try_from_num(4), None);
}

#[test]
fn hist_reduce_parses_case_insensitively() {
    assert_eq!(HistReduce::from_str("indexmax"), Ok(HistReduce::IndexMax));
    assert_eq!(HistReduce::from_str("Index_Max"), Ok(HistReduce::IndexMax));
    assert_eq!(HistReduce::from_str("VALMAX"), Ok(HistReduce::ValMax));
    assert_eq!(HistReduce::from_str("val_max"), Ok(HistReduce::ValMax));
    assert_eq!(HistReduce::from_str("Median"), Ok(HistReduce::Median));
    assert!(HistReduce::from_str("average").is_err());
    assert!(HistReduce::from_str("").is_err());
}

#[test]
fn histogram_filename_is_exact() {
    let o = HistogramOpts {
        n: 1200,
        bins: 30,
        files: String::from("glob"),
        bin_size: 40,
        save: String::from("run7"),
        j: 4,
        no_p_bar: false,
        every: 2,
        suffix: String::from("dat"),
        hist_reduce: HistReduce::ValMax,
    };
    assert_eq!(o.generate_filename(".dat"), "v0.1.0_ValMax_N1200_b30_e2_run7.dat..dat");
}

#[test]
fn heatmap_filename_is_exact() {
    let mut o = opts_with_bins(16);
    o.n = 3200;
    o.n_real = Some(6400);
    o.every = 1;
    o.save = String::from("a");
    o.suffix = String::from("curves");
    o.norm = true;
    o.mode = Mode::Sqrt;
    assert_eq!(
        o.generate_filename("stats.mean"),
        "v0.1.0_Sqrt_norm_N6400_Reach3200_b16_e1_a.curves.stats.mean"
    );
    o.norm = false;
    o.n_real = None;
    assert_eq!(
        o.generate_filename("stats.mean"),
        "v0.1.0_Sqrt_NoNorm_N3200_Reach3200_b16_e1_a.curves.stats.mean"
    );
}

#[test]
fn histogram_bins_collect_and_merge() {
    let mut h = Histogram::new(2);
    h.push(0, 1.5f64.to_bits());
    h.push(1, 2.5f64.to_bits());
    let mut other = Histogram::new(3);
    other.push(0, 3.5f64.to_bits());
    other.push(2, 4.5f64.to_bits());
    h.append(other);
    let bins = h.into_vec();
    assert_eq!(bins.len(), 3);
    assert_eq!(from_bits(&bins[0]), vec![1.5, 3.5]);
    assert_eq!(from_bits(&bins[1]), vec![2.5]);
    assert_eq!(from_bits(&bins[2]), vec![4.5]);
}

use ndvi_engine::clip::{bits_of_key, clip_by_percent, collect_valid, order_key, percentile_bounds};
use ndvi_engine::collect::{assemble_rows, Collector};
use ndvi_engine::error::EngineError;
use ndvi_engine::grid::Grid;
use ndvi_engine::partition::{rows_for_worker, worker_count, worker_of};
use ndvi_engine::pixel::{evaluate_row, pixel_rule, IndexMode, PixelRule, PixelTest};
use ndvi_engine::progress::{percent, ProgressTracker};
use ndvi_engine::validate::{check_dimensions, prepare_output};

const NODATA: f64 = -32768.0;

/// Computes one output row the way a worker does: the float tests and
/// quotients here, the rule in the library.
fn compute_row(a: &[f64], b: &[f64], a_nodata: f64, b_nodata: f64, mode: IndexMode) -> Vec<f64> {
    let c = mode.correction_hundredths() as f64 / 100.0;
    let mut tests = Vec::new();
    let mut quotients = Vec::new();
    for i in 0..a.len() {
        let denominator = a[i] + b[i] + c;
        tests.push(PixelTest {
            a_nodata: a[i] == a_nodata,
            b_nodata: b[i] == b_nodata,
            denominator_zero: denominator == 0.0,
        });
        quotients.push((a[i] - b[i]) / denominator);
    }
    evaluate_row(&tests, &quotients, a_nodata)
}

fn grid(rows: usize, columns: usize, nodata: f64, cells: Vec<f64>) -> Grid<f64> {
    Grid::new(rows, columns, nodata, cells).unwrap()
}

/// Runs the whole engine on two grids with the given number of workers.
fn run(a: &Grid<f64>, b: &Grid<f64>, workers: usize, mode: IndexMode) -> Result<Grid<f64>, EngineError> {
    let (rows, columns) = check_dimensions(a, b)?;
    let mut messages = Vec::new();
    for w in 0..workers {
        for row in rows_for_worker(rows, workers, w) {
            messages.push((row, compute_row(&a.row(row), &b.row(row), a.nodata(), b.nodata(), mode)));
        }
    }
    assemble_rows(rows, columns, a.nodata(), &messages)
}

fn close(x: f64, y: f64) -> bool {
    (x - y).abs() < 1e-9
}

#[test]
fn two_by_two_scenario() {
    let a = grid(2, 2, NODATA, vec![0.8, 0.6, NODATA, 0.5]);
    let b = grid(2, 2, NODATA, vec![0.2, 0.3, 0.1, NODATA]);
    let out = run(&a, &b, 2, IndexMode::Standard).unwrap();
    assert!(close(out.get(0, 0), 0.6));
    assert!(close(out.get(0, 1), 1.0 / 3.0));
    assert_eq!(out.get(1, 0), NODATA);
    assert_eq!(out.get(1, 1), NODATA);
}

#[test]
fn soil_adjusted_scenario() {
    let a = grid(1, 1, NODATA, vec![0.8]);
    let b = grid(1, 1, NODATA, vec![0.2]);
    let out = run(&a, &b, 1, IndexMode::SoilAdjusted).unwrap();
    assert!(close(out.get(0, 0), (0.8 - 0.2) / (0.8 + 0.2 + 0.16)));
    assert!((out.get(0, 0) - 0.5172).abs() < 1e-4);
}

#[test]
fn zero_denominator_row_is_nodata() {
    let a = grid(1, 5, NODATA, vec![0.5; 5]);
    let b = grid(1, 5, NODATA, vec![-0.5; 5]);
    let out = run(&a, &b, 3, IndexMode::Standard).unwrap();
    for c in 0..5 {
        assert_eq!(out.get(0, c), NODATA);
    }
}

#[test]
fn worker_count_does_not_change_output() {
    let a = grid(5, 3, NODATA, (0..15).map(|i| 0.1 + i as f64 * 0.05).collect());
    let b = grid(5, 3, NODATA, (0..15).map(|i| 0.9 - i as f64 * 0.03).collect());
    let one = run(&a, &b, 1, IndexMode::Standard).unwrap();
    for w in 2..8 {
        let many = run(&a, &b, w, IndexMode::Standard).unwrap();
        for r in 0..5 {
            assert_eq!(one.row(r), many.row(r));
        }
    }
}

#[test]
fn nodata_in_either_band_propagates() {
    let a_nodata = -9999.0;
    let b_nodata = 0.0;
    let row = compute_row(&[-9999.0, 0.4, 0.3], &[0.2, 0.0, 0.1], a_nodata, b_nodata, IndexMode::Standard);
    assert_eq!(row[0], a_nodata);
    assert_eq!(row[1], a_nodata);
    assert!(close(row[2], 0.5));
}

#[test]
fn pixel_rule_cases() {
    let t = |a, b, d| PixelTest { a_nodata: a, b_nodata: b, denominator_zero: d };
    assert_eq!(pixel_rule(t(false, false, false)), PixelRule::Ratio);
    assert_eq!(pixel_rule(t(true, false, false)), PixelRule::Nodata);
    assert_eq!(pixel_rule(t(false, true, false)), PixelRule::Nodata);
    assert_eq!(pixel_rule(t(false, false, true)), PixelRule::Nodata);
}

#[test]
fn index_mode_correction() {
    assert_eq!(IndexMode::from_flag(false), IndexMode::Standard);
    assert_eq!(IndexMode::from_flag(true), IndexMode::SoilAdjusted);
    assert_eq!(IndexMode::Standard.correction_hundredths(), 0);
    assert_eq!(IndexMode::SoilAdjusted.correction_hundredths(), 16);
}

#[test]
fn mismatched_shapes_are_rejected() {
    let a = grid(2, 2, NODATA, vec![0.0; 4]);
    let b = grid(2, 3, NODATA, vec![0.0; 6]);
    let c = grid(1, 4, NODATA, vec![0.0; 4]);
    assert_eq!(check_dimensions(&a, &b), Err(EngineError::DimensionMismatch));
    assert_eq!(check_dimensions(&a, &c), Err(EngineError::DimensionMismatch));
    assert!(prepare_output(&a, &b).is_err());
    assert_eq!(check_dimensions(&a, &a), Ok((2, 2)));
}

#[test]
fn prepared_output_is_all_nodata() {
    let a = Grid::new(2, 3, 7u32, vec![1, 2, 3, 4, 5, 6]).unwrap();
    let collector = prepare_output(&a, &a).unwrap();
    assert_eq!(collector.received(), 0);
    assert!(!collector.is_complete());
    assert_eq!(collector.finish().err(), Some(EngineError::WorkerStall));
}

#[test]
fn grid_new_checks_cell_count() {
    assert!(Grid::new(2, 2, 0u8, vec![1, 2, 3]).is_none());
    let g = Grid::new(2, 2, 0u8, vec![1, 2, 3, 4]).unwrap();
    assert_eq!(g.rows(), 2);
    assert_eq!(g.columns(), 2);
    assert_eq!(g.nodata(), 0);
    assert_eq!(g.cell_count(), 4);
    assert_eq!(g.get(1, 0), 3);
    assert_eq!(g.row(1), vec![3, 4]);
}

#[test]
fn collector_accepts_each_row_once() {
    let mut c = Collector::new(3, 2, 0i32).unwrap();
    assert_eq!(c.accept(2, &vec![5, 6]), Ok(()));
    assert_eq!(c.accept(2, &vec![7, 8]), Err(EngineError::DuplicateRow));
    assert_eq!(c.accept(3, &vec![1, 1]), Err(EngineError::RowOutOfRange));
    assert_eq!(c.accept(0, &vec![1]), Err(EngineError::RowLengthMismatch));
    assert_eq!(c.accept(0, &vec![1, 2]), Ok(()));
    assert!(!c.is_complete());
    assert_eq!(c.accept(1, &vec![3, 4]), Ok(()));
    assert_eq!(c.received(), 3);
    assert!(c.is_complete());
    let g = c.finish().unwrap();
    assert_eq!(g.row(0), vec![1, 2]);
    assert_eq!(g.row(1), vec![3, 4]);
    assert_eq!(g.row(2), vec![5, 6]);
}

#[test]
fn assembly_reports_missing_and_repeated_rows() {
    let missing = vec![(0usize, vec![1u8]), (2, vec![3])];
    assert_eq!(assemble_rows(3, 1, 0u8, &missing).err(), Some(EngineError::WorkerStall));
    let repeated = vec![(0usize, vec![1u8]), (0, vec![1]), (1, vec![2])];
    assert_eq!(assemble_rows(3, 1, 0u8, &repeated).err(), Some(EngineError::DuplicateRow));
    let shuffled = vec![(2usize, vec![3u8]), (0, vec![1]), (1, vec![2])];
    let g = assemble_rows(3, 1, 0u8, &shuffled).unwrap();
    assert_eq!(g.row(0), vec![1]);
    assert_eq!(g.row(2), vec![3]);
}

#[test]
fn stripes_partition_rows() {
    assert_eq!(rows_for_worker(10, 3, 0), vec![0, 3, 6, 9]);
    assert_eq!(rows_for_worker(10, 3, 1), vec![1, 4, 7]);
    assert_eq!(rows_for_worker(10, 3, 2), vec![2, 5, 8]);
    assert_eq!(rows_for_worker(2, 4, 3), Vec::<usize>::new());
    assert_eq!(rows_for_worker(0, 1, 0), Vec::<usize>::new());
    assert_eq!(worker_of(7, 3), 1);
    let mut seen = vec![0; 23];
    for w in 0..5 {
        for r in rows_for_worker(23, 5, w) {
            assert_eq!(worker_of(r, 5), w);
            seen[r] += 1;
        }
    }
    assert!(seen.iter().all(|&n| n == 1));
}

#[test]
fn worker_pool_is_not_empty() {
    assert!(worker_count() >= 1);
}

#[test]
fn progress_percentages() {
    assert_eq!(percent(0, 5), 0);
    assert_eq!(percent(2, 5), 50);
    assert_eq!(percent(4, 5), 100);
    assert_eq!(percent(0, 1), 100);
    assert_eq!(percent(1, 4), 33);
}

#[test]
fn progress_reported_once_per_change() {
    let mut t = ProgressTracker::new();
    let rows = 250;
    let mut reported = Vec::new();
    for done in 0..rows {
        if let Some(p) = t.observe(done, rows) {
            reported.push(p);
        }
    }
    assert_eq!(reported.len(), 101);
    assert_eq!(reported[0], 0);
    assert_eq!(reported[100], 100);
    assert!(reported.windows(2).all(|w| w[0] < w[1]));
}

fn key(x: f64) -> u64 {
    order_key(x.to_bits())
}

fn value(k: u64) -> f64 {
    f64::from_bits(bits_of_key(k))
}

#[test]
fn order_keys_follow_numeric_order() {
    let xs = [-1e9, -2.5, -0.0, 0.0, 1e-300, 0.5, 3.0, 1e300];
    for w in xs.windows(2) {
        assert!(key(w[0]) < key(w[1]));
    }
    for &x in &xs {
        assert_eq!(value(key(x)).to_bits(), x.to_bits());
    }
    assert_eq!(order_key(0), 1u64 << 63);
    assert_eq!(bits_of_key(0), u64::MAX);
}

#[test]
fn clip_zero_leaves_values() {
    let original: Vec<u64> = vec![9, 1, 0, 5, 7];
    let mut v = original.clone();
    assert_eq!(clip_by_percent(&mut v, 0, 0), None);
    assert_eq!(v, original);
}

#[test]
fn clip_bounds_come_from_sorted_ranks() {
    let values: Vec<u64> = vec![50, 10, 0, 40, 20, 30, 90, 60, 80, 70, 100];
    // ten values besides the nodata 0; 20% clips one value from each tail
    assert_eq!(collect_valid(&values, 0).len(), 10);
    assert_eq!(percentile_bounds(&values, 0, 2000), Some((20, 90)));
    let mut v = values.clone();
    assert_eq!(clip_by_percent(&mut v, 0, 2000), Some((20, 90)));
    assert_eq!(v, vec![50, 20, 0, 40, 20, 30, 90, 60, 80, 70, 90]);
}

#[test]
fn clip_small_percent_keeps_extremes() {
    let mut v: Vec<u64> = vec![3, 1, 2];
    assert_eq!(clip_by_percent(&mut v, 0, 100), Some((1, 3)));
    assert_eq!(v, vec![3, 1, 2]);
}

#[test]
fn clip_large_percent_meets_in_middle() {
    let mut v: Vec<u64> = vec![4, 1, 3, 2];
    assert_eq!(percentile_bounds(&v, 0, 10000), Some((2, 3)));
    assert_eq!(clip_by_percent(&mut v, 0, 10000), Some((2, 3)));
    assert_eq!(v, vec![3, 2, 3, 2]);
}

#[test]
fn clip_of_only_nodata_is_none() {
    let mut v: Vec<u64> = vec![0, 0];
    assert_eq!(clip_by_percent(&mut v, 0, 500), None);
    assert_eq!(v, vec![0, 0]);
}

#[test]
fn clip_on_float_keys() {
    let xs = [-0.2, 0.9, 0.1, NODATA, 0.4, -0.9, 0.3];
    let mut keys: Vec<u64> = xs.iter().map(|&x| key(x)).collect();
    let bounds = clip_by_percent(&mut keys, key(NODATA), 4000).unwrap();
    assert_eq!((value(bounds.0), value(bounds.1)), (-0.2, 0.4));
    let out: Vec<f64> = keys.iter().map(|&k| value(k)).collect();
    assert_eq!(out, vec![-0.2, 0.4, 0.1, NODATA, 0.4, -0.2, 0.3]);
}

#[test]
fn error_messages_are_present() {
    assert!(!EngineError::WorkerStall.message().is_empty());
    assert!(!EngineError::DimensionMismatch.message().is_empty());
}

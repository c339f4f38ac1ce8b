use altigrid::aggregate::CellAccum;
use altigrid::aggregate::GridAggregator;
use altigrid::fixed::round_to_unit;
use altigrid::pipeline::gate_sample;

const FILL: i64 = -999_900_000;

#[test]
fn simple_finalize_of_all_fill_cell_keeps_sentinel_and_zero_count() {
    let mut acc = CellAccum::new();
    for _ in 0..5 {
        acc.accumulate(FILL, true);
    }
    assert_eq!(acc.finalize_simple(FILL), (FILL, 0));
}

#[test]
fn simple_finalize_of_fresh_cell_keeps_sentinel_and_zero_count() {
    let acc = CellAccum::new();
    assert_eq!(acc.finalize_simple(FILL), (FILL, 0));
}

#[test]
fn simple_finalize_takes_mean_of_valid_samples_only() {
    let mut acc = CellAccum::new();
    acc.accumulate(10, false);
    acc.accumulate(FILL, true);
    acc.accumulate(20, false);
    acc.accumulate(30, false);
    assert_eq!(acc.finalize_simple(FILL), (20, 3));
}

#[test]
fn mean_rounds_to_nearest_ties_away_from_zero() {
    let mut acc = CellAccum::new();
    acc.accumulate(1, false);
    acc.accumulate(2, false);
    assert_eq!(acc.finalize_simple(FILL), (2, 2));
    let mut acc = CellAccum::new();
    acc.accumulate(-1, false);
    acc.accumulate(-2, false);
    assert_eq!(acc.finalize_simple(FILL), (-2, 2));
}

#[test]
fn gated_finalize_yields_mean_on_exact_count() {
    let mut acc = CellAccum::new();
    for v in [10i64, 20, 30, 40, 50, 60, 70] {
        acc.accumulate(v, false);
    }
    assert_eq!(acc.finalize_gated(7), Some(40));
}

#[test]
fn gated_finalize_yields_missing_on_any_other_count() {
    let mut acc = CellAccum::new();
    for v in [10i64, 20, 30] {
        acc.accumulate(v, false);
    }
    assert_eq!(acc.finalize_gated(7), None);
    acc.accumulate(40, false);
    acc.accumulate(50, false);
    acc.accumulate(60, false);
    acc.accumulate(70, false);
    assert_eq!(acc.finalize_gated(7), Some(40));
    acc.accumulate(80, false);
    assert_eq!(acc.finalize_gated(7), None);
}

#[test]
fn grid_aggregator_keeps_cells_independent() {
    let mut g = GridAggregator::new(3);
    g.accumulate(0, 100, false);
    g.accumulate(0, 300, false);
    g.accumulate(1, 7, false);
    g.accumulate(2, FILL, true);
    let (means, counts) = g.finalize_simple(FILL);
    assert_eq!(means, vec![200, 7, FILL]);
    assert_eq!(counts, vec![2, 1, 0]);
}

#[test]
fn grid_aggregator_gated_mode_per_cell() {
    let mut g = GridAggregator::new(2);
    g.accumulate(0, 4, false);
    g.accumulate(0, 6, false);
    g.accumulate(1, 9, false);
    let out = g.finalize_gated(2);
    assert_eq!(out, vec![Some(5), None]);
}

#[test]
fn gate_sample_requires_exact_count_and_real_value() {
    assert_eq!(gate_sample(5, 7, FILL, 7), Some(5));
    assert_eq!(gate_sample(5, 6, FILL, 7), None);
    assert_eq!(gate_sample(FILL, 7, FILL, 7), None);
}

#[test]
fn rounding_to_unit_is_ties_away_from_zero() {
    assert_eq!(round_to_unit(123_449, 100), 123_400);
    assert_eq!(round_to_unit(123_450, 100), 123_500);
    assert_eq!(round_to_unit(-123_450, 100), -123_500);
    assert_eq!(round_to_unit(-123_449, 100), -123_400);
    assert_eq!(round_to_unit(0, 1000), 0);
    assert_eq!(round_to_unit(777, 1), 777);
}

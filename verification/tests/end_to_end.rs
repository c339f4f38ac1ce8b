use altigrid::aggregate::GridAggregator;
use altigrid::basin::BasinGrid;
use altigrid::pipeline::aggregate_window;
use altigrid::pipeline::process_row;

const FILL: i64 = -999_900_000;

/// Three synthetic daily 10-by-10 grids for one variable. Row 0 is land:
/// fill on every day. Elsewhere the fill pattern is a checkerboard rotated
/// across the three days — cell (i, j) is valid on day t exactly when
/// (i + j + t) is even — so every ocean cell has at least one valid sample.
fn checkerboard_days() -> Vec<Vec<Vec<i64>>> {
    let mut days = Vec::new();
    for t in 0..3i64 {
        let mut grid = Vec::new();
        for i in 0..10i64 {
            let mut row = Vec::new();
            for j in 0..10i64 {
                if i == 0 || (i + j + t) % 2 != 0 {
                    row.push(FILL);
                } else {
                    row.push(i + j + 100 * t);
                }
            }
            grid.push(row);
        }
        days.push(grid);
    }
    days
}

#[test]
fn three_day_window_means_and_counts_are_exact() {
    let days = checkerboard_days();
    let (means, counts) = aggregate_window(&days, 10, 10, FILL);
    assert_eq!(means.len(), 10);
    assert_eq!(counts.len(), 10);
    for i in 0..10i64 {
        for j in 0..10i64 {
            let (m, c) = (means[i as usize][j as usize], counts[i as usize][j as usize]);
            if i == 0 {
                // Land: valid on no day keeps the fill sentinel.
                assert_eq!(m, FILL);
                assert_eq!(c, 0);
            } else if (i + j) % 2 == 0 {
                // Valid on days 0 and 2: the exact mean of the two values.
                assert_eq!(c, 2);
                assert_eq!(m, i + j + 100);
            } else {
                // Valid on day 1 only.
                assert_eq!(c, 1);
                assert_eq!(m, i + j + 100);
            }
        }
    }
}

#[test]
fn window_aggregation_matches_per_cell_aggregator() {
    let days = checkerboard_days();
    let (means, counts) = aggregate_window(&days, 10, 10, FILL);
    for i in 0..10usize {
        for j in 0..10usize {
            let mut g = GridAggregator::new(1);
            for t in 0..3usize {
                let v = days[t][i][j];
                g.accumulate(0, v, v == FILL);
            }
            let (ms, cs) = g.finalize_simple(FILL);
            assert_eq!(ms[0], means[i][j]);
            assert_eq!(cs[0], counts[i][j]);
        }
    }
}

#[test]
fn row_processing_drops_empty_cells_and_classifies_the_rest() {
    // Three longitude cells for one latitude row, two variables, three
    // periods each. The middle cell is entirely missing and must vanish.
    let series_by_lon: Vec<Vec<Vec<Option<i64>>>> = vec![
        vec![vec![Some(123_449), None, None], vec![None, None, None]],
        vec![vec![None, None, None], vec![None, None, None]],
        vec![vec![None, None, Some(-50)], vec![Some(1_000), None, None]],
    ];
    let lons: Vec<i64> = vec![700, 1_000, 1_300];
    let lat: i64 = 600;
    let basins = BasinGrid::new(500, 500, 2, 2, vec![1, 2, 3, 4]);
    let out = process_row(&series_by_lon, &lons, lat, &basins, 100).unwrap();
    assert_eq!(out.len(), 2);

    assert_eq!(out[0].lon, 700);
    assert_eq!(out[0].lat, 600);
    assert_eq!(out[0].basin, 1);
    assert_eq!(out[0].id, "0.700_0.600");
    assert_eq!(out[0].series[0], vec![Some(123_400), None, None]);
    assert_eq!(out[0].series[1], vec![None, None, None]);

    assert_eq!(out[1].lon, 1_300);
    assert_eq!(out[1].basin, 2);
    assert_eq!(out[1].id, "1.300_0.600");
    assert_eq!(out[1].series[0], vec![None, None, Some(-100)]);
    assert_eq!(out[1].series[1], vec![Some(1_000), None, None]);
}

#[test]
fn row_processing_reports_basin_mismatch() {
    let series_by_lon: Vec<Vec<Vec<Option<i64>>>> = vec![vec![vec![Some(1)]]];
    let lons: Vec<i64> = vec![-10_000];
    let basins = BasinGrid::new(500, 500, 2, 2, vec![1, 2, 3, 4]);
    assert!(process_row(&series_by_lon, &lons, 600, &basins, 100).is_err());
}

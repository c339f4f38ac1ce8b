use altigrid::assemble::assemble_cell;
use altigrid::assemble::any_observation;
use altigrid::assemble::record_id;
use altigrid::basin::BasinError;
use altigrid::basin::BasinGrid;
use altigrid::pipeline::AttrError;
use altigrid::pipeline::AttrValue;
use altigrid::pipeline::attr_text;
use altigrid::pipeline::round_series;

/// A 2-by-2 basin grid with centers at (0.5, 0.5), (0.5, 1.5), (1.5, 0.5)
/// and (1.5, 1.5) degrees, ids row-major by latitude index.
fn square_grid() -> BasinGrid {
    BasinGrid::new(500, 500, 2, 2, vec![1, 2, 3, 4])
}

#[test]
fn locate_returns_strictly_nearest_corner() {
    let g = square_grid();
    // Slightly toward the lower-left center.
    assert_eq!(g.locate(700, 600), Ok(1));
    // Slightly toward the upper-right center.
    assert_eq!(g.locate(1300, 1400), Ok(4));
    // Toward the upper-left center (higher latitude, lower longitude).
    assert_eq!(g.locate(600, 1400), Ok(3));
    // Toward the lower-right center.
    assert_eq!(g.locate(1400, 600), Ok(2));
}

#[test]
fn locate_at_exact_corner_returns_that_corner() {
    let g = square_grid();
    assert_eq!(g.locate(500, 500), Ok(1));
    assert_eq!(g.locate(1500, 1500), Ok(4));
}

#[test]
fn locate_tie_resolves_clockwise_from_lower_left() {
    let g = square_grid();
    // Midpoint in longitude between the two lower centers: the lower-left
    // corner comes first in the clockwise-from-lower-left enumeration.
    assert_eq!(g.locate(1000, 500), Ok(1));
    // Midpoint in latitude between the two left centers: lower-left is
    // enumerated before upper-left.
    assert_eq!(g.locate(500, 1000), Ok(1));
    // Center of the square: all four corners tie; lower-left wins.
    assert_eq!(g.locate(1000, 1000), Ok(1));
}

#[test]
fn locate_outside_grid_is_an_error() {
    let g = square_grid();
    assert_eq!(g.locate(5000, 600), Err(BasinError::IndexOutOfBounds));
    assert_eq!(g.locate(-700, 600), Err(BasinError::IndexOutOfBounds));
}

#[test]
fn record_ids_of_distinct_cells_differ() {
    let ids = [
        record_id(250, -10_500),
        record_id(250, 10_500),
        record_id(-250, 10_500),
        record_id(2_500, 1_050),
        record_id(25, -105_000),
    ];
    for i in 0..ids.len() {
        for j in 0..ids.len() {
            if i != j {
                assert_ne!(ids[i], ids[j]);
            }
        }
    }
}

#[test]
fn record_id_joins_decimal_coordinates() {
    assert_eq!(record_id(250, -10_500), "0.250_-10.500");
    assert_eq!(record_id(-159_750, 77_125), "-159.750_77.125");
    assert_eq!(record_id(0, 0), "0.000_0.000");
}

#[test]
fn any_observation_sees_single_entry() {
    let empty: Vec<Vec<Option<i64>>> = vec![vec![None, None], vec![None, None]];
    assert!(!any_observation(&empty));
    let one = vec![vec![None, None], vec![None, Some(3)]];
    assert!(any_observation(&one));
}

#[test]
fn assemble_drops_all_missing_cell() {
    let series: Vec<Vec<Option<i64>>> = vec![vec![None, None, None], vec![None, None, None]];
    assert!(assemble_cell(200_000, 40_000, 5, &series, 100).is_none());
}

#[test]
fn assemble_retains_cell_with_one_observation() {
    let series: Vec<Vec<Option<i64>>> = vec![vec![None, None, None], vec![None, Some(123_449), None]];
    let rec = assemble_cell(200_000, 40_000, 5, &series, 100).unwrap();
    // The longitude is normalized before it reaches the id or the record.
    assert_eq!(rec.lon, -160_000);
    assert_eq!(rec.lat, 40_000);
    assert_eq!(rec.basin, 5);
    assert_eq!(rec.id, "-160.000_40.000");
    // Missing entries stay missing; the one value is rounded.
    assert_eq!(rec.series[0], vec![None, None, None]);
    assert_eq!(rec.series[1], vec![None, Some(123_400), None]);
}

#[test]
fn attr_text_decodes_text_and_rejects_numbers() {
    assert_eq!(attr_text(AttrValue::Text(String::from("meters"))), Ok(String::from("meters")));
    assert_eq!(attr_text(AttrValue::Number(7)), Err(AttrError::WrongVariant));
}

#[test]
fn round_series_rounds_each_correction() {
    let vals = vec![123_449i64, 123_450, -123_450, 0];
    assert_eq!(round_series(&vals, 100), vec![123_400, 123_500, -123_500, 0]);
}

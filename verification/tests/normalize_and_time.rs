use altigrid::COORD_SCALE;
use altigrid::longitude::normalize;
use altigrid::timeindex::Date;
use altigrid::timeindex::ParseError;
use altigrid::timeindex::TimeIndexer;
use altigrid::timeindex::format_token;
use altigrid::timeindex::next_date;
use altigrid::timeindex::parse_token;
use altigrid::timeindex::prev_date;
use altigrid::timeindex::window;

// Coordinates are fixed-point thousandths of a degree.

#[test]
fn normalize_shifts_far_side() {
    assert_eq!(normalize(200 * COORD_SCALE), -160 * COORD_SCALE);
}

#[test]
fn normalize_keeps_half_turn() {
    assert_eq!(normalize(180_000), 180_000);
}

#[test]
fn normalize_keeps_zero() {
    assert_eq!(normalize(0), 0);
}

#[test]
fn normalize_is_idempotent_on_canonical_range() {
    for lon in [-179_999i64, -90_000, -1, 0, 1, 90_000, 179_999, 180_000] {
        assert_eq!(normalize(lon), lon);
        assert_eq!(normalize(normalize(lon)), normalize(lon));
    }
}

#[test]
fn normalize_of_source_range_lands_in_canonical_range() {
    for lon in (0i64..360_000).step_by(7_321) {
        let n = normalize(lon);
        assert!(-180_000 < n && n <= 180_000);
        assert_eq!(normalize(n), n);
    }
}

#[test]
fn parse_token_accepts_valid_date() {
    assert_eq!(
        parse_token("19930101"),
        Ok(Date { year: 1993, month: 1, day: 1 })
    );
}

#[test]
fn parse_token_rejects_short_token() {
    assert_eq!(parse_token("1993010"), Err(ParseError::Malformed));
}

#[test]
fn parse_token_rejects_non_digits() {
    assert_eq!(parse_token("199301ab"), Err(ParseError::Malformed));
}

#[test]
fn parse_token_rejects_month_thirteen() {
    assert_eq!(parse_token("19931301"), Err(ParseError::InvalidDate));
}

#[test]
fn parse_token_rejects_nonleap_february_twentyninth() {
    assert_eq!(parse_token("19930229"), Err(ParseError::InvalidDate));
    assert!(parse_token("19960229").is_ok());
    assert_eq!(parse_token("19000229"), Err(ParseError::InvalidDate));
    assert!(parse_token("20000229").is_ok());
}

#[test]
fn format_token_is_zero_padded() {
    let d = Date { year: 481, month: 3, day: 7 };
    assert_eq!(format_token(&d), "04810307");
}

#[test]
fn next_and_prev_cross_boundaries() {
    let d = next_date(&Date { year: 1993, month: 12, day: 31 });
    assert_eq!(d, Date { year: 1994, month: 1, day: 1 });
    let d = next_date(&Date { year: 1996, month: 2, day: 28 });
    assert_eq!(d, Date { year: 1996, month: 2, day: 29 });
    let d = prev_date(&Date { year: 1994, month: 1, day: 1 });
    assert_eq!(d, Date { year: 1993, month: 12, day: 31 });
}

#[test]
fn day_offset_counts_from_epoch() {
    let t = TimeIndexer::new(Date { year: 1993, month: 1, day: 1 });
    assert_eq!(t.day_offset(&Date { year: 1993, month: 1, day: 1 }), 0);
    assert_eq!(t.day_offset(&Date { year: 1993, month: 1, day: 2 }), 1);
    assert_eq!(t.day_offset(&Date { year: 1992, month: 12, day: 31 }), -1);
    assert_eq!(t.day_offset(&Date { year: 1994, month: 1, day: 1 }), 365);
    assert_eq!(t.day_offset(&Date { year: 1997, month: 1, day: 1 }), 365 * 4 + 1);
}

#[test]
fn window_is_consecutive_ascending_with_center_in_middle() {
    let w = window("19930105", 2).unwrap();
    assert_eq!(w, vec!["19930103", "19930104", "19930105", "19930106", "19930107"]);
}

#[test]
fn window_radius_zero_is_center_alone() {
    let w = window("19930105", 0).unwrap();
    assert_eq!(w, vec!["19930105"]);
}

#[test]
fn window_crosses_month_year_and_leap_boundaries() {
    let w = window("19940101", 1).unwrap();
    assert_eq!(w, vec!["19931231", "19940101", "19940102"]);
    let w = window("20000229", 1).unwrap();
    assert_eq!(w, vec!["20000228", "20000229", "20000301"]);
}

#[test]
fn window_has_distinct_entries() {
    let w = window("19930105", 10).unwrap();
    assert_eq!(w.len(), 21);
    for i in 0..w.len() {
        for j in 0..w.len() {
            if i != j {
                assert_ne!(w[i], w[j]);
            }
        }
    }
}

#[test]
fn window_fails_on_bad_center() {
    assert_eq!(window("1993", 2), Err(ParseError::Malformed));
    assert_eq!(window("19930132", 2), Err(ParseError::InvalidDate));
}

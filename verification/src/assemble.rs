//! Assembly of sparse per-location records: fixed-precision rounding of
//! every non-missing value, decimal record ids from normalized coordinates,
//! and the sparsity policy that silently drops cells whose whole series is
//! missing — ocean cells permanently masked out are expected to vanish
//! from output, so the drop is policy, not failure.

use vstd::prelude::*;
use vstd::arithmetic::div_mod::lemma_fundamental_div_mod;
use crate::fixed::lemma_floor_div_bounds;
use crate::fixed::round_to_unit;
use crate::fixed::round_to_unit_spec;
use crate::digits::dec_digits;
use crate::digits::digit_char;
use crate::digits::is_digit;
use crate::digits::lemma_dec_digits_all_digits;
use crate::digits::lemma_dec_digits_injective;
use crate::digits::lemma_dec_digits_len;
use crate::digits::lemma_digit_char_val;
use crate::digits::push_digit;
use crate::digits::push_uint;
use crate::longitude::normalize;
use crate::longitude::normalize_spec;

verus! {

/// Decimal rendering of a fixed-point coordinate: optional minus sign,
/// the whole degrees, a point, and exactly three fractional digits.
pub open spec fn coord_token(v: int) -> Seq<char> {
    let a = if v < 0 {
        -v
    } else {
        v
    };
    let sign: Seq<char> = if v < 0 {
        seq!['-']
    } else {
        Seq::empty()
    };
    sign + dec_digits(a / 1000) + seq!['.'] + seq![
        digit_char((a % 1000) / 100),
        digit_char(((a % 1000) % 100) / 10),
        digit_char(((a % 1000) % 100) % 10),
    ]
}

/// The record id of a cell: the normalized longitude and the latitude in
/// decimal form, joined by an underscore.
pub open spec fn record_id_spec(lon: int, lat: int) -> Seq<char> {
    coord_token(lon) + seq!['_'] + coord_token(lat)
}

/// No character of a coordinate token is an underscore: the token is made
/// of digits, at most one minus sign and one point.
pub proof fn lemma_coord_token_no_underscore(v: int)
    ensures
        forall|i: int| 0 <= i < coord_token(v).len() ==> (#[trigger] coord_token(v)[i]) != '_',
{
    let a = if v < 0 {
        -v
    } else {
        v
    };
    lemma_dec_digits_len(a / 1000);
    lemma_dec_digits_all_digits(a / 1000);
    lemma_floor_div_bounds(a % 1000, 100);
    lemma_floor_div_bounds((a % 1000) % 100, 10);
    lemma_fundamental_div_mod(a, 1000);
    lemma_floor_div_bounds(a, 1000);
    lemma_fundamental_div_mod(a % 1000, 100);
    lemma_fundamental_div_mod((a % 1000) % 100, 10);
    let t = coord_token(v);
    let sign: Seq<char> = if v < 0 {
        seq!['-']
    } else {
        Seq::empty()
    };
    let s = sign.len() as int;
    let d = dec_digits(a / 1000);
    assert forall|i: int| 0 <= i < t.len() implies (#[trigger] t[i]) != '_' by {
        if i < s {
            assert(t[i] == '-');
        } else if i < s + d.len() {
            assert(t[i] == d[i - s]);
            assert(is_digit(d[i - s]));
        } else if i == s + d.len() {
            assert(t[i] == '.');
        } else {
            lemma_digit_char_val((a % 1000) / 100);
            lemma_digit_char_val(((a % 1000) % 100) / 10);
            lemma_digit_char_val(((a % 1000) % 100) % 10);
            assert(is_digit(t[i]));
        }
    }
}

/// Coordinate tokens name their coordinate uniquely: equal decimal forms
/// mean equal fixed-point values.
pub proof fn lemma_coord_token_injective(v1: int, v2: int)
    requires
        coord_token(v1) == coord_token(v2),
    ensures
        v1 == v2,
{
    let a1 = if v1 < 0 {
        -v1
    } else {
        v1
    };
    let a2 = if v2 < 0 {
        -v2
    } else {
        v2
    };
    let d1 = dec_digits(a1 / 1000);
    let d2 = dec_digits(a2 / 1000);
    lemma_dec_digits_len(a1 / 1000);
    lemma_dec_digits_len(a2 / 1000);
    lemma_dec_digits_all_digits(a1 / 1000);
    lemma_dec_digits_all_digits(a2 / 1000);
    lemma_floor_div_bounds(a1, 1000);
    lemma_floor_div_bounds(a2, 1000);
    lemma_fundamental_div_mod(a1, 1000);
    lemma_fundamental_div_mod(a2, 1000);
    lemma_floor_div_bounds(a1 % 1000, 100);
    lemma_floor_div_bounds(a2 % 1000, 100);
    lemma_fundamental_div_mod(a1 % 1000, 100);
    lemma_fundamental_div_mod(a2 % 1000, 100);
    lemma_floor_div_bounds((a1 % 1000) % 100, 10);
    lemma_floor_div_bounds((a2 % 1000) % 100, 10);
    lemma_fundamental_div_mod((a1 % 1000) % 100, 10);
    lemma_fundamental_div_mod((a2 % 1000) % 100, 10);
    let t = coord_token(v1);

    // The sign is determined by the first character: a minus sign is not
    // a digit, and an unsigned token starts with a digit.
    if v1 < 0 {
        assert(t[0] == '-');
    } else {
        assert(t[0] == d1[0]);
        assert(is_digit(t[0]));
    }
    if v2 < 0 {
        assert(coord_token(v2)[0] == '-');
    } else {
        assert(coord_token(v2)[0] == d2[0]);
        assert(is_digit(coord_token(v2)[0]));
    }
    assert((v1 < 0) <==> (v2 < 0));
    let s: int = if v1 < 0 {
        1
    } else {
        0
    };

    // The point sits right after the whole-degree digits, and digits are
    // not points, so both renderings agree on where the digits end.
    if d1.len() < d2.len() {
        assert(t[s + d1.len()] == '.');
        assert(t[s + d1.len()] == d2[d1.len() as int]);
        assert(is_digit(d2[d1.len() as int]));
        assert(false);
    }
    if d2.len() < d1.len() {
        assert(t[s + d2.len()] == '.');
        assert(t[s + d2.len()] == d1[d2.len() as int]);
        assert(is_digit(d1[d2.len() as int]));
        assert(false);
    }
    assert forall|k: int| 0 <= k < d1.len() implies d1[k] == d2[k] by {
        assert(t[s + k] == d1[k]);
        assert(t[s + k] == d2[k]);
    }
    assert(d1 =~= d2);
    lemma_dec_digits_injective(a1 / 1000, a2 / 1000);

    // The three fraction digits pin the sub-degree part.
    let e = s + d1.len() as int;
    lemma_digit_char_val((a1 % 1000) / 100);
    lemma_digit_char_val(((a1 % 1000) % 100) / 10);
    lemma_digit_char_val(((a1 % 1000) % 100) % 10);
    lemma_digit_char_val((a2 % 1000) / 100);
    lemma_digit_char_val(((a2 % 1000) % 100) / 10);
    lemma_digit_char_val(((a2 % 1000) % 100) % 10);
    assert(t[e + 1] == digit_char((a1 % 1000) / 100) && t[e + 1] == digit_char((a2 % 1000) / 100));
    assert(t[e + 2] == digit_char(((a1 % 1000) % 100) / 10) && t[e + 2] == digit_char(
        ((a2 % 1000) % 100) / 10,
    ));
    assert(t[e + 3] == digit_char(((a1 % 1000) % 100) % 10) && t[e + 3] == digit_char(
        ((a2 % 1000) % 100) % 10,
    ));
    assert(a1 % 1000 == a2 % 1000);
    assert(a1 == a2);
}

/// Record ids are unique: two cells at different coordinates never share
/// an id, because the underscore separates two unambiguous decimal forms.
pub proof fn lemma_record_id_unique(lon1: int, lat1: int, lon2: int, lat2: int)
    requires
        record_id_spec(lon1, lat1) == record_id_spec(lon2, lat2),
    ensures
        lon1 == lon2,
        lat1 == lat2,
{
    lemma_coord_token_no_underscore(lon1);
    lemma_coord_token_no_underscore(lon2);
    let id = record_id_spec(lon1, lat1);
    let c1 = coord_token(lon1);
    let c2 = coord_token(lon2);

    // The first underscore ends the longitude part in both readings.
    if c1.len() < c2.len() {
        assert(id[c1.len() as int] == '_');
        assert(id[c1.len() as int] == c2[c1.len() as int]);
        assert(false);
    }
    if c2.len() < c1.len() {
        assert(id[c2.len() as int] == '_');
        assert(id[c2.len() as int] == c1[c2.len() as int]);
        assert(false);
    }
    assert forall|k: int| 0 <= k < c1.len() implies c1[k] == c2[k] by {
        assert(id[k] == c1[k]);
        assert(id[k] == c2[k]);
    }
    assert(c1 =~= c2);
    lemma_coord_token_injective(lon1, lon2);
    let n = c1.len() as int;
    assert(record_id_spec(lon1, lat1).len() == n + 1 + coord_token(lat1).len());
    assert(record_id_spec(lon2, lat2).len() == n + 1 + coord_token(lat2).len());
    assert(coord_token(lat1).len() == coord_token(lat2).len());
    assert forall|k: int| 0 <= k < coord_token(lat1).len() implies coord_token(lat1)[k]
        == coord_token(lat2)[k] by {
        assert(id[n + 1 + k] == coord_token(lat1)[k]);
        assert(id[n + 1 + k] == coord_token(lat2)[k]);
    }
    assert(coord_token(lat1) =~= coord_token(lat2));
    lemma_coord_token_injective(lat1, lat2);
}

/// Append the decimal form of a fixed-point coordinate to a string.
fn push_coord(s: &mut String, v: i64)
    requires
        -1_000_000_000 <= v <= 1_000_000_000,
    ensures
        final(s)@ == old(s)@ + coord_token(v as int),
{
    let a: u64 = if v < 0 {
        s.append("-");
        proof {
            reveal_strlit("-");
        }
        (-v) as u64
    } else {
        v as u64
    };
    proof {
        lemma_fundamental_div_mod(a as int, 1000);
        lemma_floor_div_bounds(a as int, 1000);
        lemma_fundamental_div_mod(a as int % 1000, 100);
        lemma_floor_div_bounds(a as int % 1000, 100);
        lemma_fundamental_div_mod((a as int % 1000) % 100, 10);
        lemma_floor_div_bounds((a as int % 1000) % 100, 10);
    }
    push_uint(s, a / 1000);
    s.append(".");
    proof {
        reveal_strlit(".");
    }
    push_digit(s, (a % 1000) / 100);
    push_digit(s, ((a % 1000) % 100) / 10);
    push_digit(s, ((a % 1000) % 100) % 10);
    proof {
        assert(s@ =~= old(s)@ + coord_token(v as int));
    }
}

/// Render the record id for a normalized longitude and a latitude.
pub fn record_id(lon: i64, lat: i64) -> (s: String)
    requires
        -1_000_000_000 <= lon <= 1_000_000_000,
        -1_000_000_000 <= lat <= 1_000_000_000,
    ensures
        s@ == record_id_spec(lon as int, lat as int),
{
    let mut out = String::new();
    push_coord(&mut out, lon);
    out.append("_");
    proof {
        reveal_strlit("_");
    }
    push_coord(&mut out, lat);
    proof {
        assert(out@ =~= record_id_spec(lon as int, lat as int));
    }
    out
}

/// Whether any (variable, time) entry of a cell's series is non-missing.
pub open spec fn cell_has_observation(series: Seq<Vec<Option<i64>>>) -> bool {
    exists|i: int, j: int|
        0 <= i < series.len() && 0 <= j < series[i]@.len() && (#[trigger] series[i]@[j]) is Some
}

/// Every entry of a cell's series is small enough to round.
pub open spec fn series_values_bounded(series: Seq<Vec<Option<i64>>>) -> bool {
    forall|i: int, j: int|
        0 <= i < series.len() && 0 <= j < series[i]@.len() && (#[trigger] series[i]@[j]) is Some
            ==> -0x7000_0000_0000_0000 <= series[i]@[j]->0 <= 0x7000_0000_0000_0000
}

/// One output record: a stable id derived from the normalized coordinates,
/// the basin classification, the point geolocation, and one time series
/// per tracked variable, aligned to the shared timestamp sequence.
pub struct LocationRecord {
    /// Normalized longitude and latitude in decimal form, joined by `_`.
    pub id: String,
    /// Basin id of the nearest basin-grid center.
    pub basin: i32,
    /// Normalized longitude of the cell, fixed-point degrees.
    pub lon: i64,
    /// Latitude of the cell, fixed-point degrees.
    pub lat: i64,
    /// Per tracked variable, the series of rounded means; a missing entry
    /// is a period with no qualifying mean.
    pub series: Vec<Vec<Option<i64>>>,
}

/// Decide whether a cell survives the sparsity policy: true exactly when
/// some entry of some variable's series is non-missing.
pub fn any_observation(series: &Vec<Vec<Option<i64>>>) -> (b: bool)
    ensures
        b == cell_has_observation(series@),
{
    let nv = series.len();
    let mut i: usize = 0;
    while i < nv
        invariant
            nv == series@.len(),
            i <= nv,
            forall|a: int, b: int|
                0 <= a < i && 0 <= b < series@[a]@.len() ==> (#[trigger] series@[a]@[b]) is None,
        decreases nv - i,
    {
        let nt = series[i].len();
        let mut j: usize = 0;
        while j < nt
            invariant
                nv == series@.len(),
                i < nv,
                nt == series@[i as int]@.len(),
                j <= nt,
                forall|a: int, b: int|
                    0 <= a < i && 0 <= b < series@[a]@.len() ==> (#[trigger] series@[a]@[b]) is None,
                forall|b: int| 0 <= b < j ==> (#[trigger] series@[i as int]@[b]) is None,
            decreases nt - j,
        {
            if series[i][j].is_some() {
                proof {
                    assert(series@[i as int]@[j as int] is Some);
                }
                return true;
            }
            j = j + 1;
        }
        i = i + 1;
    }
    false
}

/// Build the record for a cell that survived the sparsity policy: the
/// longitude is normalized, every non-missing entry is rounded to the
/// nearest multiple of `unit`, and the id is the decimal form of the
/// normalized coordinates.
pub fn build_record(lon_raw: i64, lat: i64, basin: i32, series: &Vec<Vec<Option<i64>>>, unit: i64)
    -> (rec: LocationRecord)
    requires
        1 <= unit <= 1_000_000_000_000,
        -1_000_000_000 <= lon_raw <= 999_000_000,
        -1_000_000_000 <= lat <= 1_000_000_000,
        series_values_bounded(series@),
    ensures
        rec.lon == normalize_spec(lon_raw as int),
        rec.lat == lat,
        rec.basin == basin,
        rec.id@ == record_id_spec(normalize_spec(lon_raw as int), lat as int),
        rec.series@.len() == series@.len(),
        forall|i: int|
            0 <= i < series@.len() ==> (#[trigger] rec.series@[i])@.len() == series@[i]@.len(),
        forall|i: int, j: int|
            0 <= i < series@.len() && 0 <= j < series@[i]@.len() ==> #[trigger] rec.series@[i]@[j]
                == match series@[i]@[j] {
                    None => None::<i64>,
                    Some(v) => Some(round_to_unit_spec(v as int, unit as int) as i64),
                },
{
    let lon = normalize(lon_raw);
    let id = record_id(lon, lat);
    let nv = series.len();
    let mut rounded: Vec<Vec<Option<i64>>> = Vec::new();
    let mut i: usize = 0;
    while i < nv
        invariant
            nv == series@.len(),
            i <= nv,
            1 <= unit <= 1_000_000_000_000,
            series_values_bounded(series@),
            rounded@.len() == i,
            forall|a: int|
                0 <= a < i ==> (#[trigger] rounded@[a])@.len() == series@[a]@.len(),
            forall|a: int, b: int|
                0 <= a < i && 0 <= b < series@[a]@.len() ==> #[trigger] rounded@[a]@[b]
                    == match series@[a]@[b] {
                        None => None::<i64>,
                        Some(v) => Some(round_to_unit_spec(v as int, unit as int) as i64),
                    },
        decreases nv - i,
    {
        let nt = series[i].len();
        let mut row: Vec<Option<i64>> = Vec::new();
        let mut j: usize = 0;
        while j < nt
            invariant
                nv == series@.len(),
                i < nv,
                nt == series@[i as int]@.len(),
                j <= nt,
                1 <= unit <= 1_000_000_000_000,
                series_values_bounded(series@),
                row@.len() == j,
                forall|b: int|
                    0 <= b < j ==> #[trigger] row@[b] == match series@[i as int]@[b] {
                        None => None::<i64>,
                        Some(v) => Some(round_to_unit_spec(v as int, unit as int) as i64),
                    },
            decreases nt - j,
        {
            let e = match series[i][j] {
                None => None,
                Some(v) => Some(round_to_unit(v, unit)),
            };
            row.push(e);
            j = j + 1;
        }
        rounded.push(row);
        i = i + 1;
    }
    LocationRecord { id, basin, lon, lat, series: rounded }
}

/// Assemble a cell into a record, or drop it: a cell whose every
/// (variable, time) entry is missing yields nothing, a cell with at least
/// one non-missing entry anywhere in its series yields its record.
pub fn assemble_cell(
    lon_raw: i64,
    lat: i64,
    basin: i32,
    series: &Vec<Vec<Option<i64>>>,
    unit: i64,
) -> (r: Option<LocationRecord>)
    requires
        1 <= unit <= 1_000_000_000_000,
        -1_000_000_000 <= lon_raw <= 999_000_000,
        -1_000_000_000 <= lat <= 1_000_000_000,
        series_values_bounded(series@),
    ensures
        r is Some <==> cell_has_observation(series@),
        r matches Some(rec) ==> {
            &&& rec.lon == normalize_spec(lon_raw as int)
            &&& rec.lat == lat
            &&& rec.basin == basin
            &&& rec.id@ == record_id_spec(normalize_spec(lon_raw as int), lat as int)
            &&& rec.series@.len() == series@.len()
            &&& forall|i: int|
                0 <= i < series@.len() ==> (#[trigger] rec.series@[i])@.len() == series@[i]@.len()
            &&& forall|i: int, j: int|
                0 <= i < series@.len() && 0 <= j < series@[i]@.len()
                    ==> #[trigger] rec.series@[i]@[j] == match series@[i]@[j] {
                    None => None::<i64>,
                    Some(v) => Some(round_to_unit_spec(v as int, unit as int) as i64),
                }
        },
{
    if any_observation(series) {
        Some(build_record(lon_raw, lat, basin, series, unit))
    } else {
        None
    }
}

} // verus!

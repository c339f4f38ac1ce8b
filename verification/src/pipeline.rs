//! The configurable pipeline core: fill-aware aggregation of a window of
//! daily grids, quality gating of pre-averaged sources, and row-by-row
//! conversion of one latitude row into sparse location records with basin
//! classification. The external gridded source and the document sink stay
//! outside: callers hand in plain in-memory values row by row, which bounds
//! peak memory to one row's data, and take batches of records back.

use vstd::prelude::*;
use crate::aggregate::CellAccum;
use crate::aggregate::mean_of;
use crate::assemble::LocationRecord;
use crate::assemble::any_observation;
use crate::assemble::build_record;
use crate::assemble::cell_has_observation;
use crate::assemble::record_id_spec;
use crate::assemble::series_values_bounded;
use crate::basin::BasinError;
use crate::basin::BasinGrid;
use crate::basin::chosen_clat;
use crate::basin::chosen_clon;
use crate::fixed::round_to_unit_spec;
use crate::longitude::normalize;
use crate::longitude::normalize_spec;

verus! {

/// Gate one sample of a pre-averaged source: the value passes only when it
/// is not the fill sentinel and its own contribution count equals the
/// completeness-gate window length exactly.
pub fn gate_sample(value: i64, nobs: i64, fill: i64, expected: i64) -> (r: Option<i64>)
    ensures
        r == if value != fill && nobs == expected {
            Some(value)
        } else {
            None::<i64>
        },
{
    if value != fill && nobs == expected {
        Some(value)
    } else {
        None
    }
}

/// The non-fill samples the first `t` grids contribute to cell `(i, j)`,
/// in grid order.
pub open spec fn contributions(
    grids: Seq<Vec<Vec<i64>>>,
    t: int,
    i: int,
    j: int,
    fill: int,
) -> Seq<int>
    decreases t,
{
    if t <= 0 {
        Seq::empty()
    } else {
        let rest = contributions(grids, t - 1, i, j, fill);
        if grids[t - 1]@[i]@[j] as int != fill {
            rest.push(grids[t - 1]@[i]@[j] as int)
        } else {
            rest
        }
    }
}

/// The non-fill samples all grids contribute to cell `(i, j)`.
pub open spec fn cell_contributions(grids: Seq<Vec<Vec<i64>>>, i: int, j: int, fill: int) -> Seq<
    int,
> {
    contributions(grids, grids.len() as int, i, j, fill)
}

/// Every grid is `nlat` rows of `nlon` values.
pub open spec fn grids_have_dims(grids: Seq<Vec<Vec<i64>>>, nlat: int, nlon: int) -> bool {
    &&& forall|t: int| 0 <= t < grids.len() ==> (#[trigger] grids[t])@.len() == nlat
    &&& forall|t: int, i: int|
        0 <= t < grids.len() && 0 <= i < nlat ==> (#[trigger] grids[t]@[i])@.len() == nlon
}

/// Aggregate a window of daily grids in simple-mean mode: per cell, the
/// rounded mean of the values valid on at least one day, or the fill
/// sentinel for cells valid on no day, together with the observation-count
/// grid counting the valid contributing days exactly.
pub fn aggregate_window(grids: &Vec<Vec<Vec<i64>>>, nlat: usize, nlon: usize, fill: i64) -> (r: (
    Vec<Vec<i64>>,
    Vec<Vec<u32>>,
))
    requires
        grids_have_dims(grids@, nlat as int, nlon as int),
        grids@.len() < 0xffff_ffff,
    ensures
        r.0@.len() == nlat,
        r.1@.len() == nlat,
        forall|i: int| 0 <= i < nlat ==> (#[trigger] r.0@[i])@.len() == nlon,
        forall|i: int| 0 <= i < nlat ==> (#[trigger] r.1@[i])@.len() == nlon,
        forall|i: int, j: int|
            0 <= i < nlat && 0 <= j < nlon ==> (#[trigger] r.1@[i]@[j]) as int == cell_contributions(
                grids@,
                i,
                j,
                fill as int,
            ).len() as int,
        forall|i: int, j: int|
            0 <= i < nlat && 0 <= j < nlon ==> (#[trigger] r.0@[i]@[j]) as int
                == if cell_contributions(grids@, i, j, fill as int).len() == 0 {
                fill as int
            } else {
                mean_of(cell_contributions(grids@, i, j, fill as int))
            },
{
    let nt = grids.len();
    let mut means: Vec<Vec<i64>> = Vec::new();
    let mut counts: Vec<Vec<u32>> = Vec::new();
    let mut i: usize = 0;
    while i < nlat
        invariant
            grids_have_dims(grids@, nlat as int, nlon as int),
            grids@.len() < 0xffff_ffff,
            nt == grids@.len(),
            i <= nlat,
            means@.len() == i,
            counts@.len() == i,
            forall|a: int| 0 <= a < i ==> (#[trigger] means@[a])@.len() == nlon,
            forall|a: int| 0 <= a < i ==> (#[trigger] counts@[a])@.len() == nlon,
            forall|a: int, b: int|
                0 <= a < i && 0 <= b < nlon ==> (#[trigger] counts@[a]@[b]) as int
                    == cell_contributions(grids@, a, b, fill as int).len() as int,
            forall|a: int, b: int|
                0 <= a < i && 0 <= b < nlon ==> (#[trigger] means@[a]@[b]) as int
                    == if cell_contributions(grids@, a, b, fill as int).len() == 0 {
                    fill as int
                } else {
                    mean_of(cell_contributions(grids@, a, b, fill as int))
                },
        decreases nlat - i,
    {
        let mut mrow: Vec<i64> = Vec::new();
        let mut crow: Vec<u32> = Vec::new();
        let mut j: usize = 0;
        while j < nlon
            invariant
                grids_have_dims(grids@, nlat as int, nlon as int),
                grids@.len() < 0xffff_ffff,
                nt == grids@.len(),
                i < nlat,
                j <= nlon,
                mrow@.len() == j,
                crow@.len() == j,
                forall|b: int|
                    0 <= b < j ==> (#[trigger] crow@[b]) as int == cell_contributions(
                        grids@,
                        i as int,
                        b,
                        fill as int,
                    ).len() as int,
                forall|b: int|
                    0 <= b < j ==> (#[trigger] mrow@[b]) as int == if cell_contributions(
                        grids@,
                        i as int,
                        b,
                        fill as int,
                    ).len() == 0 {
                        fill as int
                    } else {
                        mean_of(cell_contributions(grids@, i as int, b, fill as int))
                    },
            decreases nlon - j,
        {
            let mut acc = CellAccum::new();
            let mut t: usize = 0;
            while t < nt
                invariant
                    grids_have_dims(grids@, nlat as int, nlon as int),
                    grids@.len() < 0xffff_ffff,
                    nt == grids@.len(),
                    i < nlat,
                    j < nlon,
                    t <= nt,
                    acc.wf(),
                    acc.vals() == contributions(grids@, t as int, i as int, j as int, fill as int),
                    acc.vals().len() <= t,
                decreases nt - t,
            {
                let v = grids[t][i][j];
                acc.accumulate(v, v == fill);
                t = t + 1;
            }
            let (m, c) = acc.finalize_simple(fill);
            mrow.push(m);
            crow.push(c);
            j = j + 1;
        }
        means.push(mrow);
        counts.push(crow);
        i = i + 1;
    }
    (means, counts)
}

/// The cells of one latitude row that survive the sparsity policy: the
/// indices, in ascending order, of the cells with at least one non-missing
/// (variable, time) entry.
pub open spec fn kept_cells(rows: Seq<Vec<Vec<Option<i64>>>>) -> Seq<int>
    decreases rows.len(),
{
    if rows.len() == 0 {
        Seq::empty()
    } else {
        let init = kept_cells(rows.drop_last());
        if cell_has_observation(rows.last()@) {
            init.push(rows.len() - 1)
        } else {
            init
        }
    }
}

/// Kept cells are exactly the cells with an observation: every kept index
/// is in range, has an observation, and the list ascends strictly.
pub proof fn lemma_kept_cells_sound(rows: Seq<Vec<Vec<Option<i64>>>>)
    ensures
        forall|k: int|
            0 <= k < kept_cells(rows).len() ==> 0 <= #[trigger] kept_cells(rows)[k] < rows.len(),
        forall|k: int|
            0 <= k < kept_cells(rows).len() ==> cell_has_observation(
                rows[kept_cells(rows)[k]]@,
            ),
        forall|k1: int, k2: int|
            0 <= k1 < k2 < kept_cells(rows).len() ==> #[trigger] kept_cells(rows)[k1]
                < #[trigger] kept_cells(rows)[k2],
    decreases rows.len(),
{
    if rows.len() > 0 {
        lemma_kept_cells_sound(rows.drop_last());
        let init = kept_cells(rows.drop_last());
        assert forall|k: int| 0 <= k < kept_cells(rows).len() implies 0 <= #[trigger] kept_cells(
            rows,
        )[k] < rows.len() && cell_has_observation(rows[kept_cells(rows)[k]]@) by {
            if k < init.len() {
                assert(kept_cells(rows)[k] == init[k]);
                assert(rows.drop_last()[init[k]] == rows[init[k]]);
            } else {
                assert(kept_cells(rows)[k] == rows.len() - 1);
                assert(rows.last() == rows[rows.len() - 1]);
            }
        }
        assert forall|k1: int, k2: int|
            0 <= k1 < k2 < kept_cells(rows).len() implies #[trigger] kept_cells(rows)[k1]
            < #[trigger] kept_cells(rows)[k2] by {
            if k2 < init.len() {
            } else {
                if k1 < init.len() {
                    assert(kept_cells(rows)[k1] == init[k1]);
                    assert(init[k1] < rows.drop_last().len());
                }
            }
        }
    }
}

/// Every cell with an observation is kept: dropping is the only omission
/// path and applies only to all-missing cells.
pub proof fn lemma_kept_cells_complete(rows: Seq<Vec<Vec<Option<i64>>>>, c: int)
    requires
        0 <= c < rows.len(),
        cell_has_observation(rows[c]@),
    ensures
        kept_cells(rows).contains(c),
    decreases rows.len(),
{
    if c == rows.len() - 1 {
        assert(kept_cells(rows).last() == c);
    } else {
        lemma_kept_cells_complete(rows.drop_last(), c);
        let i = choose|i: int|
            0 <= i < kept_cells(rows.drop_last()).len() && kept_cells(rows.drop_last())[i] == c;
        assert(kept_cells(rows)[i] == c);
    }
}

/// Whether the basin lookup for a query point lands inside the grid.
pub open spec fn basin_ok(basins: &BasinGrid, lon: int, lat: int) -> bool {
    basins.center_in_bounds(chosen_clon(lon, lat), chosen_clat(lon, lat))
}

/// The basin id the locator assigns to a query point.
pub open spec fn basin_id_of(basins: &BasinGrid, lon: int, lat: int) -> int {
    basins.id_at(
        basins.lat_index_of(chosen_clat(lon, lat)),
        basins.lon_index_of(chosen_clon(lon, lat)),
    )
}

/// What one output record must hold for one kept cell: normalized
/// longitude, the cell's latitude, the locator's basin id, the decimal id,
/// and the cell's series with every non-missing entry rounded.
pub open spec fn record_matches_cell(
    rec: LocationRecord,
    lon_raw: int,
    lat: int,
    basins: &BasinGrid,
    series: Seq<Vec<Option<i64>>>,
    unit: int,
) -> bool {
    let lonn = normalize_spec(lon_raw);
    &&& rec.lon == lonn
    &&& rec.lat == lat
    &&& rec.basin as int == basin_id_of(basins, lonn, lat)
    &&& rec.id@ == record_id_spec(lonn, lat)
    &&& rec.series@.len() == series.len()
    &&& forall|i: int|
        0 <= i < series.len() ==> (#[trigger] rec.series@[i])@.len() == series[i]@.len()
    &&& forall|i: int, j: int|
        0 <= i < series.len() && 0 <= j < series[i]@.len() ==> #[trigger] rec.series@[i]@[j]
            == match series[i]@[j] {
            None => None::<i64>,
            Some(v) => Some(round_to_unit_spec(v as int, unit) as i64),
        }
}

/// Convert one latitude row into its sparse records: cells whose whole
/// series is missing are dropped, every other cell is classified against
/// the basin grid and assembled, in ascending longitude order. A basin
/// lookup that leaves the grid aborts the row: it is a configuration
/// mismatch, not a data defect.
pub fn process_row(
    series_by_lon: &Vec<Vec<Vec<Option<i64>>>>,
    lons: &Vec<i64>,
    lat: i64,
    basins: &BasinGrid,
    unit: i64,
) -> (r: Result<Vec<LocationRecord>, BasinError>)
    requires
        basins.wf(),
        1 <= unit <= 1_000_000_000_000,
        lons@.len() == series_by_lon@.len(),
        -1_000_000 <= lat <= 1_000_000,
        forall|c: int| 0 <= c < lons@.len() ==> -1_000_000 <= #[trigger] lons@[c] <= 1_000_000,
        forall|c: int|
            0 <= c < series_by_lon@.len() ==> series_values_bounded(
                (#[trigger] series_by_lon@[c])@,
            ),
    ensures
        r is Ok <==> (forall|c: int|
            0 <= c < series_by_lon@.len() && cell_has_observation((#[trigger] series_by_lon@[c])@)
                ==> basin_ok(basins, normalize_spec(lons@[c] as int), lat as int)),
        r matches Ok(out) ==> {
            &&& out@.len() == kept_cells(series_by_lon@).len()
            &&& forall|k: int|
                0 <= k < out@.len() ==> record_matches_cell(
                    #[trigger] out@[k],
                    lons@[kept_cells(series_by_lon@)[k]] as int,
                    lat as int,
                    basins,
                    series_by_lon@[kept_cells(series_by_lon@)[k]]@,
                    unit as int,
                )
        },
        r is Err ==> r == Err::<Vec<LocationRecord>, BasinError>(BasinError::IndexOutOfBounds),
{
    let n = series_by_lon.len();
    let mut out: Vec<LocationRecord> = Vec::new();
    let mut c: usize = 0;
    while c < n
        invariant
            basins.wf(),
            1 <= unit <= 1_000_000_000_000,
            n == series_by_lon@.len(),
            lons@.len() == n,
            -1_000_000 <= lat <= 1_000_000,
            forall|cc: int| 0 <= cc < n ==> -1_000_000 <= #[trigger] lons@[cc] <= 1_000_000,
            forall|cc: int|
                0 <= cc < n ==> series_values_bounded((#[trigger] series_by_lon@[cc])@),
            c <= n,
            out@.len() == kept_cells(series_by_lon@.subrange(0, c as int)).len(),
            forall|cc: int|
                0 <= cc < c && cell_has_observation((#[trigger] series_by_lon@[cc])@) ==> basin_ok(
                    basins,
                    normalize_spec(lons@[cc] as int),
                    lat as int,
                ),
            forall|k: int|
                0 <= k < out@.len() ==> record_matches_cell(
                    #[trigger] out@[k],
                    lons@[kept_cells(series_by_lon@.subrange(0, c as int))[k]] as int,
                    lat as int,
                    basins,
                    series_by_lon@[kept_cells(series_by_lon@.subrange(0, c as int))[k]]@,
                    unit as int,
                ),
        decreases n - c,
    {
        proof {
            assert(series_by_lon@.subrange(0, c as int + 1).drop_last() =~= series_by_lon@.subrange(
                0,
                c as int,
            ));
            assert(series_by_lon@.subrange(0, c as int + 1).last() == series_by_lon@[c as int]);
            lemma_kept_cells_sound(series_by_lon@.subrange(0, c as int));
            lemma_kept_cells_sound(series_by_lon@.subrange(0, c as int + 1));
        }
        if any_observation(&series_by_lon[c]) {
            let lonn = normalize(lons[c]);
            match basins.locate(lonn, lat) {
                Err(e) => {
                    return Err(e);
                },
                Ok(b) => {
                    let rec = build_record(lons[c], lat, b, &series_by_lon[c], unit);
                    out.push(rec);
                },
            }
        }
        c = c + 1;
    }
    proof {
        assert(series_by_lon@.subrange(0, n as int) =~= series_by_lon@);
        lemma_kept_cells_sound(series_by_lon@);
        assert forall|cc: int|
            0 <= cc < series_by_lon@.len() && cell_has_observation(
                (#[trigger] series_by_lon@[cc])@,
            ) implies basin_ok(basins, normalize_spec(lons@[cc] as int), lat as int) by {}
    }
    Ok(out)
}

/// A tagged attribute value read from the gridded source: sources store
/// descriptive attributes as a discriminated union.
pub enum AttrValue {
    /// A textual attribute, such as a unit or a long name.
    Text(String),
    /// An integral attribute.
    Number(i64),
}

/// Failure to decode an attribute as text: it held the other variant.
#[derive(Clone, Copy, Debug, PartialEq, Eq, Structural)]
pub enum AttrError {
    WrongVariant,
}

/// Decode a tagged attribute value into a plain string, reporting the
/// wrong-variant case as an explicit failure rather than a panic.
pub fn attr_text(a: AttrValue) -> (r: Result<String, AttrError>)
    ensures
        a matches AttrValue::Text(s) ==> r == Ok::<String, AttrError>(s),
        !(a is Text) ==> r == Err::<String, AttrError>(AttrError::WrongVariant),
{
    match a {
        AttrValue::Text(s) => Ok(s),
        AttrValue::Number(_) => Err(AttrError::WrongVariant),
    }
}

/// The dataset description submitted once per run beside the data records:
/// variable names, their per-variable descriptive info, the shared
/// timestamp sequence as day offsets from the epoch, source attribution,
/// and optional global per-timestep scalar corrections.
pub struct MetadataDocument {
    /// Stable id of the metadata document.
    pub id: String,
    /// Human-readable dataset kind.
    pub data_type: String,
    /// Tracked variable names, in series order.
    pub variables: Vec<String>,
    /// Names of the per-variable info columns.
    pub info_keys: Vec<String>,
    /// Per variable, one value per info column.
    pub variable_info: Vec<Vec<String>>,
    /// Shared timestamp sequence, as day offsets from the epoch.
    pub timeseries: Vec<i64>,
    /// Names of the upstream sources.
    pub source_names: Vec<String>,
    /// Reference locations of the upstream sources.
    pub source_urls: Vec<String>,
    /// Optional global per-timestep scalar corrections, rounded.
    pub corrections: Vec<i64>,
}

/// The per-run summary document describing the effective grid geometry.
pub struct SummaryDocument {
    /// Stable id of the summary document.
    pub id: String,
    /// Names of the variables the summary covers.
    pub data: Vec<String>,
    /// Longitude spacing of the working grid, fixed-point degrees.
    pub lon_spacing: i64,
    /// Latitude spacing of the working grid, fixed-point degrees.
    pub lat_spacing: i64,
    /// Longitude offset of cell centers, fixed-point degrees.
    pub lon_center: i64,
    /// Latitude offset of cell centers, fixed-point degrees.
    pub lat_center: i64,
}

/// Round a series of scalar corrections to the output precision.
pub fn round_series(vals: &Vec<i64>, unit: i64) -> (r: Vec<i64>)
    requires
        1 <= unit <= 1_000_000_000_000,
        forall|i: int|
            0 <= i < vals@.len() ==> -0x7000_0000_0000_0000 <= #[trigger] vals@[i]
                <= 0x7000_0000_0000_0000,
    ensures
        r@.len() == vals@.len(),
        forall|i: int|
            0 <= i < vals@.len() ==> #[trigger] r@[i] as int == round_to_unit_spec(
                vals@[i] as int,
                unit as int,
            ),
{
    let mut out: Vec<i64> = Vec::new();
    let n = vals.len();
    let mut i: usize = 0;
    while i < n
        invariant
            n == vals@.len(),
            1 <= unit <= 1_000_000_000_000,
            forall|k: int|
                0 <= k < n ==> -0x7000_0000_0000_0000 <= #[trigger] vals@[k]
                    <= 0x7000_0000_0000_0000,
            i <= n,
            out@.len() == i,
            forall|k: int|
                0 <= k < i ==> #[trigger] out@[k] as int == round_to_unit_spec(
                    vals@[k] as int,
                    unit as int,
                ),
        decreases n - i,
    {
        let v = crate::fixed::round_to_unit(vals[i], unit);
        out.push(v);
        i = i + 1;
    }
    out
}

} // verus!

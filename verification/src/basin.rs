//! Nearest-of-four-corners basin classification.
//!
//! A query point in the working grid's coordinate space is matched against
//! the four surrounding cell centers of a coarser reference grid whose
//! centers sit at half-degree offsets with one-degree spacing. The nearest
//! center wins; on an exact tie the first candidate in the
//! clockwise-from-lower-left enumeration wins. The chosen center is then
//! translated into grid indices against the grid's own origin, and an index
//! outside the grid is reported as an error: it signals a resolution or
//! origin mismatch between the grids, not a data defect.

use vstd::prelude::*;
use crate::fixed::floor_div;
use crate::fixed::ceil_div;
use crate::fixed::lemma_floor_div_bounds;

verus! {

/// Basin-grid cell spacing: one degree, in fixed-point coordinate units.
pub const BASIN_SPACING: i64 = 1000;

/// Offset of basin-grid cell centers from whole degrees: half a degree,
/// in fixed-point coordinate units.
pub const BASIN_HALF: i64 = 500;

/// The basin-grid center at or just below a coordinate: floor of
/// `coord - half` to a whole degree, shifted back up by half a degree.
pub open spec fn lower_center(c: int) -> int {
    (c - BASIN_HALF as int) / (BASIN_SPACING as int) * BASIN_SPACING as int + BASIN_HALF as int
}

/// The basin-grid center at or just above a coordinate: ceiling of
/// `coord - half` to a whole degree, shifted back up by half a degree.
pub open spec fn upper_center(c: int) -> int {
    -((-(c - BASIN_HALF as int)) / (BASIN_SPACING as int)) * BASIN_SPACING as int
        + BASIN_HALF as int
}

/// Squared Euclidean distance between the query point and a candidate
/// center, in squared coordinate units. Distances are compared, never
/// reported, and squaring preserves strict comparison of non-negative
/// lengths, so the square root is not needed.
pub open spec fn dist2(lon: int, lat: int, clon: int, clat: int) -> int {
    (lon - clon) * (lon - clon) + (lat - clat) * (lat - clat)
}

/// Latitude of candidate corner `k`; corners are enumerated lower-left
/// first, then clockwise: (lo, lo), (hi, lo), (hi, hi), (lo, hi) as
/// (lat, lon) pairs.
pub open spec fn corner_lat(lat: int, k: int) -> int {
    if k == 0 || k == 3 {
        lower_center(lat)
    } else {
        upper_center(lat)
    }
}

/// Longitude of candidate corner `k` in the clockwise-from-lower-left
/// enumeration.
pub open spec fn corner_lon(lon: int, k: int) -> int {
    if k == 0 || k == 1 {
        lower_center(lon)
    } else {
        upper_center(lon)
    }
}

/// Squared distance from the query point to candidate corner `k`.
pub open spec fn corner_dist2(lon: int, lat: int, k: int) -> int {
    dist2(lon, lat, corner_lon(lon, k), corner_lat(lat, k))
}

/// The index of the winning corner: the first corner, in enumeration
/// order, whose squared distance is strictly smaller than that of every
/// earlier winner — i.e. the first minimum, since a later corner replaces
/// the current winner only on strict less-than.
pub open spec fn best_corner(lon: int, lat: int) -> int {
    let b1 = if corner_dist2(lon, lat, 1) < corner_dist2(lon, lat, 0) {
        1int
    } else {
        0int
    };
    let b2 = if corner_dist2(lon, lat, 2) < corner_dist2(lon, lat, b1) {
        2int
    } else {
        b1
    };
    if corner_dist2(lon, lat, 3) < corner_dist2(lon, lat, b2) {
        3int
    } else {
        b2
    }
}

/// Latitude of the winning corner's center.
pub open spec fn chosen_clat(lon: int, lat: int) -> int {
    corner_lat(lat, best_corner(lon, lat))
}

/// Longitude of the winning corner's center.
pub open spec fn chosen_clon(lon: int, lat: int) -> int {
    corner_lon(lon, best_corner(lon, lat))
}

/// The winning corner is a minimum: no corner is strictly nearer, and
/// every earlier corner is strictly farther — so an exact tie resolves to
/// the first corner in the clockwise-from-lower-left enumeration.
pub proof fn lemma_best_corner_first_argmin(lon: int, lat: int)
    ensures
        0 <= best_corner(lon, lat) < 4,
        forall|j: int|
            0 <= j < 4 ==> corner_dist2(lon, lat, best_corner(lon, lat)) <= #[trigger] corner_dist2(
                lon,
                lat,
                j,
            ),
        forall|j: int|
            0 <= j < best_corner(lon, lat) ==> corner_dist2(lon, lat, best_corner(lon, lat))
                < #[trigger] corner_dist2(lon, lat, j),
{
}

/// A corner strictly nearer than every other corner always wins.
pub proof fn lemma_strictly_nearest_corner_wins(lon: int, lat: int, k: int)
    requires
        0 <= k < 4,
        forall|j: int|
            0 <= j < 4 && j != k ==> corner_dist2(lon, lat, k) < corner_dist2(lon, lat, j),
    ensures
        best_corner(lon, lat) == k,
{
    assert(corner_dist2(lon, lat, k) < corner_dist2(lon, lat, (k + 1) % 4));
    assert(corner_dist2(lon, lat, k) < corner_dist2(lon, lat, (k + 2) % 4));
    assert(corner_dist2(lon, lat, k) < corner_dist2(lon, lat, (k + 3) % 4));
}

/// Failure of a basin lookup: the nearest reference-grid center falls
/// outside the reference grid, a configuration mismatch between the
/// working grid and the basin grid. Fatal for the run.
#[derive(Clone, Copy, Debug, PartialEq, Eq, Structural)]
pub enum BasinError {
    IndexOutOfBounds,
}

/// The coarse reference grid of basin ids: cell centers start at
/// (`lat0`, `lon0`) and advance by one degree per index, row-major by
/// latitude index.
pub struct BasinGrid {
    /// Latitude of the center at latitude index 0.
    pub lat0: i64,
    /// Longitude of the center at longitude index 0.
    pub lon0: i64,
    /// Number of latitude rows.
    pub nlat: usize,
    /// Number of longitude columns.
    pub nlon: usize,
    /// Basin ids, row-major by latitude index.
    pub ids: Vec<i32>,
}

impl BasinGrid {
    /// The id table covers exactly the advertised extent, and the origin
    /// and extent are small enough that all index arithmetic stays exact.
    pub open spec fn wf(&self) -> bool {
        &&& self.ids@.len() == self.nlat * self.nlon
        &&& -1_000_000 <= self.lat0 as int <= 1_000_000
        &&& -1_000_000 <= self.lon0 as int <= 1_000_000
        &&& self.nlat <= 20_000
        &&& self.nlon <= 40_000
    }

    /// Latitude index of a center coordinate: its offset from the grid
    /// origin in whole spacings.
    pub open spec fn lat_index_of(&self, clat: int) -> int {
        (clat - self.lat0 as int) / (BASIN_SPACING as int)
    }

    /// Longitude index of a center coordinate.
    pub open spec fn lon_index_of(&self, clon: int) -> int {
        (clon - self.lon0 as int) / (BASIN_SPACING as int)
    }

    /// Whether a chosen center lands inside this grid.
    pub open spec fn center_in_bounds(&self, clon: int, clat: int) -> bool {
        &&& clat >= self.lat0 as int
        &&& clon >= self.lon0 as int
        &&& self.lat_index_of(clat) < self.nlat as int
        &&& self.lon_index_of(clon) < self.nlon as int
    }

    /// The id stored for an index pair.
    pub open spec fn id_at(&self, ilat: int, ilon: int) -> int {
        self.ids@[ilat * self.nlon as int + ilon] as int
    }

    /// Build a basin grid from its origin, extent and row-major id table.
    pub fn new(lat0: i64, lon0: i64, nlat: usize, nlon: usize, ids: Vec<i32>) -> (g: BasinGrid)
        requires
            ids@.len() == nlat * nlon,
            -1_000_000 <= lat0 as int <= 1_000_000,
            -1_000_000 <= lon0 as int <= 1_000_000,
            nlat <= 20_000,
            nlon <= 40_000,
        ensures
            g.wf(),
            g.lat0 == lat0,
            g.lon0 == lon0,
            g.nlat == nlat,
            g.nlon == nlon,
            g.ids@ == ids@,
    {
        BasinGrid { lat0, lon0, nlat, nlon, ids }
    }

    /// Classify a query point: return the basin id of the nearest of the
    /// four reference-grid centers bracketing it, ties resolved to the
    /// first corner clockwise from lower-left, or an error if that center
    /// falls outside this grid.
    pub fn locate(&self, lon: i64, lat: i64) -> (r: Result<i32, BasinError>)
        requires
            self.wf(),
            -1_000_000 <= lon <= 1_000_000,
            -1_000_000 <= lat <= 1_000_000,
        ensures
            self.center_in_bounds(chosen_clon(lon as int, lat as int), chosen_clat(lon as int, lat as int))
                ==> r == Ok::<i32, BasinError>(self.ids[self.lat_index_of(chosen_clat(lon as int, lat as int))
                    * self.nlon as int + self.lon_index_of(chosen_clon(lon as int, lat as int))]),
            !self.center_in_bounds(chosen_clon(lon as int, lat as int), chosen_clat(lon as int, lat as int))
                ==> r == Err::<i32, BasinError>(BasinError::IndexOutOfBounds),
    {
        let lon_lo = lower_center_exec(lon);
        let lon_hi = upper_center_exec(lon);
        let lat_lo = lower_center_exec(lat);
        let lat_hi = upper_center_exec(lat);

        let d0 = sq_dist(lon, lat, lon_lo, lat_lo);
        let d1 = sq_dist(lon, lat, lon_lo, lat_hi);
        let d2 = sq_dist(lon, lat, lon_hi, lat_hi);
        let d3 = sq_dist(lon, lat, lon_hi, lat_lo);

        let mut bd = d0;
        let mut bclon = lon_lo;
        let mut bclat = lat_lo;
        if d1 < bd {
            bd = d1;
            bclon = lon_lo;
            bclat = lat_hi;
        }
        if d2 < bd {
            bd = d2;
            bclon = lon_hi;
            bclat = lat_hi;
        }
        if d3 < bd {
            bd = d3;
            bclon = lon_hi;
            bclat = lat_lo;
        }
        proof {
            assert(bclon == chosen_clon(lon as int, lat as int));
            assert(bclat == chosen_clat(lon as int, lat as int));
        }

        if bclat < self.lat0 || bclon < self.lon0 {
            return Err(BasinError::IndexOutOfBounds);
        }
        let ilat = (((bclat - self.lat0) as u64) / (BASIN_SPACING as u64)) as usize;
        let ilon = (((bclon - self.lon0) as u64) / (BASIN_SPACING as u64)) as usize;
        if ilat >= self.nlat || ilon >= self.nlon {
            return Err(BasinError::IndexOutOfBounds);
        }
        proof {
            assert((ilat * self.nlon + ilon) < self.nlat * self.nlon && self.nlat * self.nlon
                <= 800_000_000) by (nonlinear_arith)
                requires
                    ilat as int <= self.nlat as int - 1,
                    (ilon as int) < self.nlon as int,
                    self.nlat as int <= 20_000,
                    self.nlon as int <= 40_000,
                    ilat as int >= 0,
                    ilon as int >= 0,
            ;
        }
        let idx = ilat * self.nlon + ilon;
        Ok(self.ids[idx])
    }
}

/// Compute the basin-grid center at or just below a coordinate.
fn lower_center_exec(c: i64) -> (r: i64)
    requires
        -1_000_000 <= c <= 1_000_000,
    ensures
        r == lower_center(c as int),
        c - BASIN_SPACING < r <= c,
{
    let q = floor_div(c - BASIN_HALF, BASIN_SPACING);
    proof {
        lemma_floor_div_bounds(c as int - BASIN_HALF as int, BASIN_SPACING as int);
    }
    q * BASIN_SPACING + BASIN_HALF
}

/// Compute the basin-grid center at or just above a coordinate.
fn upper_center_exec(c: i64) -> (r: i64)
    requires
        -1_000_000 <= c <= 1_000_000,
    ensures
        r == upper_center(c as int),
        c <= r < c + BASIN_SPACING,
{
    let q = ceil_div(c - BASIN_HALF, BASIN_SPACING);
    proof {
        lemma_floor_div_bounds(-(c as int - BASIN_HALF as int), BASIN_SPACING as int);
    }
    q * BASIN_SPACING + BASIN_HALF
}

/// Compute the squared distance between the query point and a center.
fn sq_dist(lon: i64, lat: i64, clon: i64, clat: i64) -> (r: i64)
    requires
        -2_000_000 <= lon <= 2_000_000,
        -2_000_000 <= lat <= 2_000_000,
        -2_000_000 <= clon <= 2_000_000,
        -2_000_000 <= clat <= 2_000_000,
    ensures
        r == dist2(lon as int, lat as int, clon as int, clat as int),
{
    let dx = lon - clon;
    let dy = lat - clat;
    proof {
        assert(0 <= dx as int * dx as int <= 16_000_000_000_000 && 0 <= dy as int * dy as int
            <= 16_000_000_000_000) by (nonlinear_arith)
            requires
                -4_000_000 <= dx as int <= 4_000_000,
                -4_000_000 <= dy as int <= 4_000_000,
        ;
    }
    dx * dx + dy * dy
}

} // verus!

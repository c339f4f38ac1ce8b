//! Canonicalization of longitudes into the half-open interval (-180, 180].
//!
//! Source grids index longitude on [0, 360) degrees; record ids, geolocations
//! and basin lookups all use the signed convention, so every longitude is
//! normalized once before it reaches any of those.

use vstd::prelude::*;

verus! {

/// One full turn, in fixed-point coordinate units (thousandths of a degree).
pub const FULL_TURN: i64 = 360_000;

/// Half a turn, in fixed-point coordinate units.
pub const HALF_TURN: i64 = 180_000;

/// What `normalize` returns: longitudes at most half a turn stay as they
/// are, anything beyond is shifted down one full turn.
pub open spec fn normalize_spec(lon: int) -> int {
    if lon <= HALF_TURN as int {
        lon
    } else {
        lon - FULL_TURN as int
    }
}

/// Whether a longitude is already in the canonical interval (-180, 180].
pub open spec fn is_canonical_lon(lon: int) -> bool {
    -(HALF_TURN as int) < lon <= HALF_TURN as int
}

/// Map a longitude given on [0, 360) degrees to the signed convention
/// (-180, 180] used by ids, geolocations and basin lookups.
pub fn normalize(lon: i64) -> (r: i64)
    requires
        -i64::MAX <= lon,
    ensures
        r == normalize_spec(lon as int),
{
    if lon <= HALF_TURN {
        lon
    } else {
        lon - FULL_TURN
    }
}

/// On inputs from [0, 360) degrees, normalization lands in (-180, 180].
pub proof fn lemma_normalize_range(lon: int)
    requires
        0 <= lon < FULL_TURN as int,
    ensures
        is_canonical_lon(normalize_spec(lon)),
{
}

/// Normalization is idempotent on its own output range: a longitude already
/// in (-180, 180] is returned unchanged, so normalizing twice is the same
/// as normalizing once.
pub proof fn lemma_normalize_idempotent(lon: int)
    requires
        is_canonical_lon(lon),
    ensures
        normalize_spec(lon) == lon,
{
}

} // verus!

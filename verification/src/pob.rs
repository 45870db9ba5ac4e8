//! The point of beginning of a traverse, and the bounds it must lie in.

use vstd::prelude::*;

verus! {

/// The southern bound, 25 degrees north.
pub const MIN_LATITUDE: i64 = 25_000_000_000_000;

/// The northern bound, 50 degrees north.
pub const MAX_LATITUDE: i64 = 50_000_000_000_000;

/// The western bound, 125 degrees west.
pub const MIN_LONGITUDE: i64 = -125_000_000_000_000;

/// The eastern bound, 60 degrees west.
pub const MAX_LONGITUDE: i64 = -60_000_000_000_000;

/// The point of beginning: the first vertex of a traverse. Both coordinates
/// count units of 10^-12 degree; the longitude is that of a western point,
/// so it is never positive.
#[derive(Clone, Copy, Debug, PartialEq, Eq, Structural)]
pub struct Pob {
    pub lat: i64,
    pub lon: i64,
}

/// A longitude given by size alone or with either sign, as that of a western
/// point: a positive one is negated.
pub open spec fn western(lon: int) -> int {
    if lon > 0 {
        -lon
    } else {
        lon
    }
}

/// Whether a latitude and a western longitude lie in the continental bounds,
/// the bounds themselves included.
pub open spec fn in_bounds(lat: int, lon: int) -> bool {
    &&& MIN_LATITUDE <= lat <= MAX_LATITUDE
    &&& MIN_LONGITUDE <= lon <= MAX_LONGITUDE
}

/// The point of beginning that a latitude and a longitude give, if there is
/// one.
pub open spec fn pob_of(lat: int, lon: int) -> Option<Pob> {
    if in_bounds(lat, western(lon)) {
        Some(Pob { lat: lat as i64, lon: western(lon) as i64 })
    } else {
        None
    }
}

impl Pob {
    /// Whether the point lies in the continental bounds.
    pub open spec fn is_valid(self) -> bool {
        in_bounds(self.lat as int, self.lon as int)
    }

    /// Makes a point of beginning from a latitude and a longitude. The
    /// longitude is first taken as western, then the point is held against
    /// the continental bounds: `None` where it lies outside.
    pub fn new(lat: i64, lon: i64) -> (pob: Option<Pob>)
        ensures
            pob == pob_of(lat as int, lon as int),
            pob matches Some(p) ==> p.is_valid(),
    {
        if lon == i64::MIN {
            return None;
        }
        let west: i64 = if lon > 0 { -lon } else { lon };
        if lat < MIN_LATITUDE || lat > MAX_LATITUDE || west < MIN_LONGITUDE || west > MAX_LONGITUDE {
            None
        } else {
            Some(Pob { lat, lon: west })
        }
    }
}

} // verus!

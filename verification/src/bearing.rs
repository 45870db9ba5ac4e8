//! Surveyor bearings: the quadrant that a pair of tokens names, and the
//! azimuth of a bearing angle in that quadrant.
//!
//! Angles are counted in units of 10^-12 arcsecond. An azimuth is measured
//! clockwise from north.

use vstd::prelude::*;

verus! {

/// Half a turn, 180 degrees, in units of 10^-12 arcsecond.
pub const HALF_TURN: i128 = 648_000_000_000_000_000;

/// A full turn, 360 degrees, in units of 10^-12 arcsecond.
pub const FULL_TURN: i128 = 1_296_000_000_000_000_000;

/// The quarter of the compass in which a bearing lies.
#[derive(Clone, Copy, Debug, PartialEq, Eq, Structural)]
pub enum Quadrant {
    NorthEast,
    NorthWest,
    SouthEast,
    SouthWest,
}

/// Whether a token is the one letter whose capital is `capital`, in either
/// case.
pub open spec fn is_letter(token: Seq<u8>, capital: u8) -> bool {
    token.len() == 1 && (token[0] == capital || token[0] == capital + 32)
}

/// The quadrant that a north-or-south token and an east-or-west token name,
/// if they name one.
pub open spec fn quadrant_of(ns: Seq<u8>, ew: Seq<u8>) -> Option<Quadrant> {
    if is_letter(ns, 78) && is_letter(ew, 69) {
        Some(Quadrant::NorthEast)
    } else if is_letter(ns, 78) && is_letter(ew, 87) {
        Some(Quadrant::NorthWest)
    } else if is_letter(ns, 83) && is_letter(ew, 69) {
        Some(Quadrant::SouthEast)
    } else if is_letter(ns, 83) && is_letter(ew, 87) {
        Some(Quadrant::SouthWest)
    } else {
        None
    }
}

/// The bearing angle `degrees + minutes / 60 + seconds / 3600`, each part
/// given in units of 10^-12 of its own unit, in units of 10^-12 arcsecond.
pub open spec fn bearing_angle(degrees: int, minutes: int, seconds: int) -> int {
    degrees * 3600 + minutes * 60 + seconds
}

/// The azimuth of a bearing angle in a quadrant. Where the tokens named no
/// quadrant the azimuth is zero, whatever the angle.
pub open spec fn azimuth_of(quadrant: Option<Quadrant>, angle: int) -> int {
    match quadrant {
        Some(Quadrant::NorthEast) => angle,
        Some(Quadrant::NorthWest) => FULL_TURN - angle,
        Some(Quadrant::SouthEast) => HALF_TURN - angle,
        Some(Quadrant::SouthWest) => HALF_TURN + angle,
        None => 0,
    }
}

/// The azimuth of a bearing whose angle is between nothing and a quarter turn
/// lies within one full turn, in the quarter that its quadrant names.
pub proof fn lemma_azimuth_in_quadrant(quadrant: Option<Quadrant>, angle: int)
    requires
        0 <= angle <= HALF_TURN / 2,
    ensures
        0 <= azimuth_of(quadrant, angle) <= FULL_TURN,
        quadrant == Some(Quadrant::NorthEast) ==> azimuth_of(quadrant, angle) <= HALF_TURN / 2,
        quadrant == Some(Quadrant::SouthEast) ==> HALF_TURN / 2 <= azimuth_of(quadrant, angle)
            <= HALF_TURN,
        quadrant == Some(Quadrant::SouthWest) ==> HALF_TURN <= azimuth_of(quadrant, angle)
            <= HALF_TURN + HALF_TURN / 2,
        quadrant == Some(Quadrant::NorthWest) ==> HALF_TURN + HALF_TURN / 2 <= azimuth_of(
            quadrant,
            angle,
        ),
{
}

fn letter(token: &[u8], capital: u8) -> (found: bool)
    requires
        capital <= 127,
    ensures
        found == is_letter(token@, capital),
{
    token.len() == 1 && (token[0] == capital || token[0] == capital + 32)
}

/// Finds the quadrant that the two bearing tokens of a call name.
pub fn quadrant(ns: &[u8], ew: &[u8]) -> (q: Option<Quadrant>)
    ensures
        q == quadrant_of(ns@, ew@),
{
    let north = letter(ns, 78);
    let south = letter(ns, 83);
    let east = letter(ew, 69);
    let west = letter(ew, 87);
    if north && east {
        Some(Quadrant::NorthEast)
    } else if north && west {
        Some(Quadrant::NorthWest)
    } else if south && east {
        Some(Quadrant::SouthEast)
    } else if south && west {
        Some(Quadrant::SouthWest)
    } else {
        None
    }
}

/// Computes the azimuth of a call from its quadrant and the three parts of
/// its angle.
pub fn azimuth(quadrant: Option<Quadrant>, degrees: i64, minutes: i64, seconds: i64) -> (a: i128)
    ensures
        a == azimuth_of(quadrant, bearing_angle(degrees as int, minutes as int, seconds as int)),
{
    let angle: i128 = (degrees as i128) * 3600 + (minutes as i128) * 60 + (seconds as i128);
    match quadrant {
        Some(Quadrant::NorthEast) => angle,
        Some(Quadrant::NorthWest) => FULL_TURN - angle,
        Some(Quadrant::SouthEast) => HALF_TURN - angle,
        Some(Quadrant::SouthWest) => HALF_TURN + angle,
        None => 0,
    }
}

} // verus!

//! Walking the legs of a survey into vertices.
//!
//! Each leg moves the last vertex by an offset in longitude and one in
//! latitude. The offset is the leg's length in feet times the sine (for
//! longitude) or cosine (for latitude) of its azimuth, times the number of
//! degrees that one foot covers in that direction. Sines, cosines and the
//! two ratios are inputs: the ratios are chosen once, for the latitude of the
//! point of beginning, and serve every leg.

use vstd::prelude::*;
use crate::decimal::SCALE;
use crate::fixed::{fits_i64, mul_div, scaled_product};
use crate::error::TraverseError;
use crate::pob::Pob;
use crate::ring::Vertex;
use crate::survey::{call_count, lemma_one_leg_per_call, survey_of, Leg};
use crate::text::lines;
use crate::units::Unit;

verus! {

/// How many units of a ratio make one degree per foot: 10^18.
pub const RATIO_SCALE: i64 = 1_000_000_000_000_000_000;

/// The sine and the cosine of an azimuth, in units of 10^-12.
#[derive(Clone, Copy, Debug, PartialEq, Eq, Structural)]
pub struct Direction {
    pub sin: i64,
    pub cos: i64,
}

/// The degrees of longitude and of latitude that one foot covers, in units
/// of 10^-18 degree per foot.
#[derive(Clone, Copy, Debug, PartialEq, Eq, Structural)]
pub struct Ratios {
    pub lon: i64,
    pub lat: i64,
}

/// The part of a leg along one axis, in units of 10^-12 foot: the leg's
/// length times the sine or cosine of its azimuth, rounded toward zero.
pub open spec fn planar_offset(component: int, feet: int) -> int {
    scaled_product(component, feet, SCALE as int)
}

/// A planar offset as an offset in degrees, in units of 10^-12 degree: the
/// offset in feet times the ratio, rounded toward zero.
pub open spec fn degree_offset(planar: int, ratio: int) -> int {
    scaled_product(planar, ratio, RATIO_SCALE as int)
}

/// Where a coordinate comes to lie after a leg, if every step of the way is
/// in range: the planar offset, the offset in degrees and the coordinate
/// itself.
pub open spec fn moved(coordinate: int, component: int, feet: int, ratio: int) -> Option<int> {
    let planar = planar_offset(component, feet);
    let degrees = degree_offset(planar, ratio);
    if fits_i64(planar) && fits_i64(degrees) && fits_i64(coordinate + degrees) {
        Some(coordinate + degrees)
    } else {
        None
    }
}

/// The vertex that a leg leads to from `from`: the sine moves the longitude,
/// the cosine the latitude.
pub open spec fn next_vertex(from: Vertex, leg: Leg, direction: Direction, ratios: Ratios) -> Option<
    Vertex,
> {
    match (
        moved(from.lon as int, direction.sin as int, leg.feet as int, ratios.lon as int),
        moved(from.lat as int, direction.cos as int, leg.feet as int, ratios.lat as int),
    ) {
        (Some(lon), Some(lat)) => Some(Vertex { lon: lon as i64, lat: lat as i64 }),
        _ => None,
    }
}

/// The vertices of a traverse that starts at `start` and takes the legs in
/// order, each with the direction at its position: the start, then one
/// vertex for each leg. `None` where a leg leads out of range.
pub open spec fn path_of(
    start: Vertex,
    legs: Seq<Leg>,
    directions: Seq<Direction>,
    ratios: Ratios,
) -> Option<Seq<Vertex>>
    decreases legs.len(),
{
    if legs.len() == 0 {
        Some(seq![start])
    } else {
        match path_of(start, legs.drop_last(), directions.drop_last(), ratios) {
            None => None,
            Some(path) => match next_vertex(path.last(), legs.last(), directions.last(), ratios) {
                None => None,
                Some(v) => Some(path.push(v)),
            },
        }
    }
}

/// The vertices of the traverse of a survey, or why there are none.
pub open spec fn traverse_of(
    pob: Pob,
    legs: Seq<Leg>,
    directions: Seq<Direction>,
    ratios: Ratios,
) -> Result<Seq<Vertex>, TraverseError> {
    if legs.len() != directions.len() {
        Err(TraverseError::DirectionCount)
    } else {
        match path_of(Vertex { lon: pob.lon, lat: pob.lat }, legs, directions, ratios) {
            Some(path) => Ok(path),
            None => Err(TraverseError::Overflow),
        }
    }
}

/// A traverse has one vertex for the point of beginning and one for each
/// leg, and starts at the point of beginning.
pub proof fn lemma_path_length(
    start: Vertex,
    legs: Seq<Leg>,
    directions: Seq<Direction>,
    ratios: Ratios,
)
    ensures
        path_of(start, legs, directions, ratios) matches Some(path) ==> path.len() == legs.len() + 1
            && path[0] == start,
    decreases legs.len(),
{
    if legs.len() > 0 {
        lemma_path_length(start, legs.drop_last(), directions.drop_last(), ratios);
    }
}

/// A description that can be read and walked gives one vertex for its point
/// of beginning and one for each line after the first that has six fields or
/// more; the lines that are passed over give none.
pub proof fn lemma_one_vertex_per_call(
    text: Seq<u8>,
    unit: Unit,
    directions: Seq<Direction>,
    ratios: Ratios,
)
    ensures
        survey_of(text, unit) matches Ok(survey) ==> (traverse_of(
            survey.pob,
            survey.legs,
            directions,
            ratios,
        ) matches Ok(path) ==> path.len() == call_count(lines(text)) + 1),
{
    lemma_one_leg_per_call(lines(text), unit);
    if let Ok(survey) = survey_of(text, unit) {
        lemma_path_length(
            Vertex { lon: survey.pob.lon, lat: survey.pob.lat },
            survey.legs,
            directions,
            ratios,
        );
    }
}

/// A leg that leads out of range among the first legs leaves the whole
/// traverse without vertices.
proof fn lemma_overflow_stays(
    start: Vertex,
    legs: Seq<Leg>,
    directions: Seq<Direction>,
    ratios: Ratios,
    k: int,
)
    requires
        legs.len() == directions.len(),
        0 <= k <= legs.len(),
        path_of(start, legs.take(k), directions.take(k), ratios) is None,
    ensures
        path_of(start, legs, directions, ratios) is None,
    decreases legs.len() - k,
{
    if k < legs.len() {
        assert(legs.take(k + 1).drop_last() =~= legs.take(k));
        assert(directions.take(k + 1).drop_last() =~= directions.take(k));
        lemma_overflow_stays(start, legs, directions, ratios, k + 1);
    } else {
        assert(legs.take(k) =~= legs);
        assert(directions.take(k) =~= directions);
    }
}

fn move_coordinate(coordinate: i64, component: i64, feet: i64, ratio: i64) -> (out: Option<i64>)
    ensures
        match out {
            Some(c) => moved(coordinate as int, component as int, feet as int, ratio as int)
                == Some(c as int),
            None => moved(coordinate as int, component as int, feet as int, ratio as int) is None,
        },
{
    match mul_div(component, feet, SCALE) {
        None => None,
        Some(planar) => match mul_div(planar, ratio, RATIO_SCALE) {
            None => None,
            Some(degrees) => coordinate.checked_add(degrees),
        },
    }
}

/// Takes one leg from `from`. The result is the vertex that the leg leads
/// to, or `None` where an offset or a coordinate is out of range.
pub fn advance(from: Vertex, leg: Leg, direction: Direction, ratios: Ratios) -> (to: Option<Vertex>)
    ensures
        to == next_vertex(from, leg, direction, ratios),
{
    let lon = move_coordinate(from.lon, direction.sin, leg.feet, ratios.lon);
    let lat = move_coordinate(from.lat, direction.cos, leg.feet, ratios.lat);
    match (lon, lat) {
        (Some(lon), Some(lat)) => Some(Vertex { lon, lat }),
        _ => None,
    }
}

/// Walks the legs of a survey from its point of beginning.
///
/// `directions` holds the sine and cosine of each leg's azimuth, in the
/// order of the legs. The result is the point of beginning followed by one
/// vertex for each leg. It is `DirectionCount` where there are not as many
/// directions as legs, and otherwise `Overflow` where a leg leads out of
/// range.
pub fn build_traverse(
    pob: &Pob,
    legs: &Vec<Leg>,
    directions: &Vec<Direction>,
    ratios: Ratios,
) -> (result: Result<Vec<Vertex>, TraverseError>)
    ensures
        match result {
            Ok(path) => traverse_of(*pob, legs@, directions@, ratios) == Ok::<
                Seq<Vertex>,
                TraverseError,
            >(path@),
            Err(e) => traverse_of(*pob, legs@, directions@, ratios) == Err::<
                Seq<Vertex>,
                TraverseError,
            >(e),
        },
        result matches Ok(path) ==> path.len() == legs.len() + 1 && path[0] == (Vertex {
            lon: pob.lon,
            lat: pob.lat,
        }),
{
    if legs.len() != directions.len() {
        return Err(TraverseError::DirectionCount);
    }
    let start = Vertex { lon: pob.lon, lat: pob.lat };
    let mut path: Vec<Vertex> = Vec::new();
    path.push(start);
    let mut last = start;
    let mut i: usize = 0;
    assert(path@ =~= seq![start]);
    while i < legs.len()
        invariant
            i <= legs.len(),
            legs.len() == directions.len(),
            path.len() == i + 1,
            start == (Vertex { lon: pob.lon, lat: pob.lat }),
            last == path@.last(),
            path_of(start, legs@.take(i as int), directions@.take(i as int), ratios) == Some(path@),
        decreases legs.len() - i,
    {
        proof {
            assert(legs@.take(i + 1).drop_last() =~= legs@.take(i as int));
            assert(directions@.take(i + 1).drop_last() =~= directions@.take(i as int));
        }
        match advance(last, legs[i], directions[i], ratios) {
            Some(v) => {
                path.push(v);
                last = v;
            },
            None => {
                proof {
                    lemma_overflow_stays(start, legs@, directions@, ratios, i + 1);
                }
                return Err(TraverseError::Overflow);
            },
        }
        i = i + 1;
    }
    proof {
        assert(legs@.take(i as int) =~= legs@);
        assert(directions@.take(i as int) =~= directions@);
        lemma_path_length(start, legs@, directions@, ratios);
    }
    Ok(path)
}

} // verus!

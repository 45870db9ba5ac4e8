//! Reading a survey description: the point of beginning on the first line,
//! then one call to a line.
//!
//! The first line holds the latitude and the longitude of the point of
//! beginning. Each later line with six fields or more is a call: a north or
//! south token, degrees, minutes, seconds, an east or west token and a
//! distance. A later line with fewer fields is passed over.

use vstd::prelude::*;
use crate::bearing::{azimuth, azimuth_of, bearing_angle, quadrant, quadrant_of};
use crate::decimal::{decimal_value, parse_decimal};
use crate::fixed::fits_i64;
use crate::error::SurveyError;
use crate::pob::{pob_of, Pob};
use crate::text::{byte_rows, fields, lines, split_fields, split_lines};
use crate::units::{feet_of, to_feet, Unit};

verus! {

/// One leg of a traverse: its azimuth in units of 10^-12 arcsecond and its
/// length in units of 10^-12 foot.
#[derive(Clone, Copy, Debug, PartialEq, Eq, Structural)]
pub struct Leg {
    pub azimuth: i128,
    pub feet: i64,
}

/// What a description holds: the point of beginning, the legs of its calls
/// in order, and the positions of the lines that were passed over, counted
/// from zero for the first line of the text.
#[derive(Debug)]
pub struct Survey {
    pub pob: Pob,
    pub legs: Vec<Leg>,
    pub skipped: Vec<usize>,
}

/// What a `Survey` holds, with sequences in place of vectors.
pub struct SurveyView {
    pub pob: Pob,
    pub legs: Seq<Leg>,
    pub skipped: Seq<usize>,
}

impl View for Survey {
    type V = SurveyView;

    open spec fn view(&self) -> SurveyView {
        SurveyView { pob: self.pob, legs: self.legs@, skipped: self.skipped@ }
    }
}

/// Whether a line after the first is a call, that is, has six fields or more.
pub open spec fn is_call(line: Seq<u8>) -> bool {
    fields(line).len() >= 6
}

/// The leg of a call with the fields `f`, on distances given in `unit`.
pub open spec fn leg_of(f: Seq<Seq<u8>>, unit: Unit) -> Result<Leg, SurveyError> {
    match (decimal_value(f[1]), decimal_value(f[2]), decimal_value(f[3]), decimal_value(f[5])) {
        (Some(degrees), Some(minutes), Some(seconds), Some(distance)) => {
            if fits_i64(feet_of(distance, unit)) {
                Ok(
                    Leg {
                        azimuth: azimuth_of(
                            quadrant_of(f[0], f[4]),
                            bearing_angle(degrees, minutes, seconds),
                        ) as i128,
                        feet: feet_of(distance, unit) as i64,
                    },
                )
            } else {
                Err(SurveyError::Overflow)
            }
        },
        _ => Err(SurveyError::InvalidNumber),
    }
}

/// The legs of the calls among the lines of a text, the first line left
/// aside. The first call that gives no leg decides the error.
pub open spec fn legs_of(all: Seq<Seq<u8>>, unit: Unit) -> Result<Seq<Leg>, SurveyError>
    decreases all.len(),
{
    if all.len() <= 1 {
        Ok(Seq::empty())
    } else {
        match legs_of(all.drop_last(), unit) {
            Err(e) => Err(e),
            Ok(legs) => if is_call(all.last()) {
                match leg_of(fields(all.last()), unit) {
                    Ok(leg) => Ok(legs.push(leg)),
                    Err(e) => Err(e),
                }
            } else {
                Ok(legs)
            },
        }
    }
}

/// The positions of the lines after the first that are no calls.
pub open spec fn skipped_of(all: Seq<Seq<u8>>) -> Seq<usize>
    decreases all.len(),
{
    if all.len() <= 1 {
        Seq::empty()
    } else if is_call(all.last()) {
        skipped_of(all.drop_last())
    } else {
        skipped_of(all.drop_last()).push((all.len() - 1) as usize)
    }
}

/// How many of the lines after the first are calls.
pub open spec fn call_count(all: Seq<Seq<u8>>) -> nat
    decreases all.len(),
{
    if all.len() <= 1 {
        0
    } else if is_call(all.last()) {
        call_count(all.drop_last()) + 1
    } else {
        call_count(all.drop_last())
    }
}

/// The point of beginning that the first line of a text gives: its first
/// field is the latitude, its second the longitude. A text without any line
/// has its point of beginning at zero latitude and longitude, which is out
/// of bounds.
pub open spec fn beginning_of(all: Seq<Seq<u8>>) -> Result<Pob, SurveyError> {
    if all.len() == 0 {
        Err(SurveyError::OutOfBounds)
    } else if fields(all[0]).len() < 2 {
        Err(SurveyError::MissingCoordinates)
    } else {
        match (decimal_value(fields(all[0])[0]), decimal_value(fields(all[0])[1])) {
            (Some(lat), Some(lon)) => match pob_of(lat, lon) {
                None => Err(SurveyError::OutOfBounds),
                Some(pob) => Ok(pob),
            },
            _ => Err(SurveyError::InvalidNumber),
        }
    }
}

/// What a description holds, or why it holds no survey. The point of
/// beginning is looked at before any call.
pub open spec fn survey_of(text: Seq<u8>, unit: Unit) -> Result<SurveyView, SurveyError> {
    let all = lines(text);
    match beginning_of(all) {
        Err(e) => Err(e),
        Ok(pob) => match legs_of(all, unit) {
            Err(e) => Err(e),
            Ok(legs) => Ok(SurveyView { pob, legs, skipped: skipped_of(all) }),
        },
    }
}

/// An error among the first lines stays the error of the whole text.
proof fn lemma_error_stays(all: Seq<Seq<u8>>, k: int, unit: Unit)
    requires
        0 <= k <= all.len(),
        legs_of(all.take(k), unit) is Err,
    ensures
        legs_of(all, unit) == legs_of(all.take(k), unit),
    decreases all.len() - k,
{
    if k < all.len() {
        assert(all.take(k + 1).drop_last() =~= all.take(k));
        lemma_error_stays(all, k + 1, unit);
    } else {
        assert(all.take(k) =~= all);
    }
}

/// Every line after the first is either a call, which gives one leg, or is
/// passed over: a description that can be read has as many legs as it has
/// lines with six fields or more after the first, whatever the other lines
/// hold.
pub proof fn lemma_one_leg_per_call(all: Seq<Seq<u8>>, unit: Unit)
    ensures
        legs_of(all, unit) matches Ok(legs) ==> legs.len() == call_count(all),
        all.len() >= 1 ==> call_count(all) + skipped_of(all).len() == all.len() - 1,
        all.len() == 0 ==> call_count(all) + skipped_of(all).len() == 0,
    decreases all.len(),
{
    if all.len() > 1 {
        lemma_one_leg_per_call(all.drop_last(), unit);
    }
}

fn parse_call(f: &Vec<Vec<u8>>, unit: Unit) -> (leg: Result<Leg, SurveyError>)
    requires
        f.len() >= 6,
    ensures
        leg == leg_of(byte_rows(f@), unit),
{
    let ghost rows = byte_rows(f@);
    assert(rows[0] == f[0]@ && rows[1] == f[1]@ && rows[2] == f[2]@ && rows[3] == f[3]@ && rows[4]
        == f[4]@ && rows[5] == f[5]@);
    let degrees = parse_decimal(f[1].as_slice());
    let minutes = parse_decimal(f[2].as_slice());
    let seconds = parse_decimal(f[3].as_slice());
    let distance = parse_decimal(f[5].as_slice());
    match (degrees, minutes, seconds, distance) {
        (Some(d), Some(m), Some(s), Some(dist)) => {
            match to_feet(dist, unit) {
                Some(feet) => {
                    let q = quadrant(f[0].as_slice(), f[4].as_slice());
                    Ok(Leg { azimuth: azimuth(q, d, m, s), feet })
                },
                None => Err(SurveyError::Overflow),
            }
        },
        _ => Err(SurveyError::InvalidNumber),
    }
}

/// Reads a description whose distances are given in `unit`.
///
/// The result is the survey that the text holds. The errors, in the order in
/// which they are looked for: the first line has fewer than two fields; one
/// of its first two fields is no number in range; the point of beginning is
/// out of bounds, which a text without lines is counted as; and, call by
/// call, a field of the call's angle or its distance is no number in range,
/// or its distance in feet is out of range.
pub fn parse_survey(text: &[u8], unit: Unit) -> (result: Result<Survey, SurveyError>)
    ensures
        match result {
            Ok(survey) => survey_of(text@, unit) == Ok::<SurveyView, SurveyError>(survey@),
            Err(e) => survey_of(text@, unit) == Err::<SurveyView, SurveyError>(e),
        },
        result matches Ok(survey) ==> survey.pob.is_valid(),
{
    let all = split_lines(text);
    let ghost rows = byte_rows(all@);
    if all.len() == 0 {
        return Err(SurveyError::OutOfBounds);
    }
    assert(rows[0] == all[0]@);
    let first = split_fields(all[0].as_slice());
    if first.len() < 2 {
        return Err(SurveyError::MissingCoordinates);
    }
    assert(byte_rows(first@)[0] == first[0]@ && byte_rows(first@)[1] == first[1]@);
    let lat = parse_decimal(first[0].as_slice());
    let lon = parse_decimal(first[1].as_slice());
    let pob = match (lat, lon) {
        (Some(lat), Some(lon)) => match Pob::new(lat, lon) {
            Some(pob) => pob,
            None => {
                return Err(SurveyError::OutOfBounds);
            },
        },
        _ => {
            return Err(SurveyError::InvalidNumber);
        },
    };
    let mut legs: Vec<Leg> = Vec::new();
    let mut skipped: Vec<usize> = Vec::new();
    let mut i: usize = 1;
    assert(rows.take(1).len() == 1);
    assert(beginning_of(rows) == Ok::<Pob, SurveyError>(pob));
    while i < all.len()
        invariant
            1 <= i <= all.len(),
            rows == byte_rows(all@),
            rows == lines(text@),
            beginning_of(rows) == Ok::<Pob, SurveyError>(pob),
            legs_of(rows.take(i as int), unit) == Ok::<Seq<Leg>, SurveyError>(legs@),
            skipped_of(rows.take(i as int)) == skipped@,
        decreases all.len() - i,
    {
        let f = split_fields(all[i].as_slice());
        proof {
            assert(rows.take(i + 1).drop_last() =~= rows.take(i as int));
            assert(rows.take(i + 1).last() == all[i as int]@);
        }
        if f.len() < 6 {
            skipped.push(i);
        } else {
            match parse_call(&f, unit) {
                Ok(leg) => {
                    legs.push(leg);
                },
                Err(e) => {
                    proof {
                        lemma_error_stays(rows, i + 1, unit);
                    }
                    return Err(e);
                },
            }
        }
        i = i + 1;
    }
    assert(rows.take(i as int) =~= rows);
    Ok(Survey { pob, legs, skipped })
}

} // verus!

//! Why a description gives no survey, and why a survey gives no traverse.

use vstd::prelude::*;

verus! {

/// Why a description cannot be read.
#[derive(Clone, Copy, Debug, PartialEq, Eq, Structural)]
pub enum SurveyError {
    /// The first line holds fewer than two fields.
    MissingCoordinates,
    /// A field that must hold a number holds no numeral, or one whose value
    /// is out of range.
    InvalidNumber,
    /// The point of beginning lies outside the continental bounds.
    OutOfBounds,
    /// The distance of a call, in feet, is out of range.
    Overflow,
}

/// Why the legs of a survey cannot be walked.
#[derive(Clone, Copy, Debug, PartialEq, Eq, Structural)]
pub enum TraverseError {
    /// There are not as many directions as legs.
    DirectionCount,
    /// An offset or a coordinate is out of range.
    Overflow,
}

} // verus!

//! Metes-and-bounds traverses in exact fixed-point arithmetic.
//!
//! A survey description names a point of beginning and a sequence of
//! bearing-and-distance calls. This crate reads such a description, turns the
//! calls into legs, walks the legs into a sequence of geographic vertices and
//! brings the resulting ring into counterclockwise order for output.
//!
//! Every quantity is an integer count of a fixed unit, so that each result is
//! stated exactly: coordinates, angles, distances and unit-vector components
//! are counted in units of 10^-12, conversion ratios in units of 10^-18.
//! Sines, cosines and the conversion ratios themselves are not computed here:
//! the caller supplies them as such counts.

pub mod bearing;
pub mod decimal;
pub mod emit;
pub mod error;
pub mod fixed;
pub mod pob;
pub mod ring;
pub mod survey;
pub mod text;
pub mod traverse;
pub mod units;

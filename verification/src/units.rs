//! Units of length, and the conversion of a distance to feet.

use vstd::prelude::*;
use crate::fixed::{fits_i64, mul_div, scaled_product};
use crate::text::{byte_rows, fields, split_fields};

verus! {

/// The unit in which the distances of a description are given.
/// `Unrecognized` stands for any selection that names no unit: with it every
/// distance is zero feet.
#[derive(Clone, Copy, Debug, PartialEq, Eq, Structural)]
pub enum Unit {
    Feet,
    Varas,
    Rods,
    Chains,
    Poles,
    Yards,
    Unrecognized,
}

/// The unit that a selection names: the selection is one letter among
/// `f v r c p y`, in either case, with white space around it at most.
pub open spec fn unit_of(selection: Seq<u8>) -> Unit {
    let f = fields(selection);
    if f.len() == 1 && f[0].len() == 1 {
        let c = f[0][0];
        if c == 102 || c == 70 {
            Unit::Feet
        } else if c == 118 || c == 86 {
            Unit::Varas
        } else if c == 114 || c == 82 {
            Unit::Rods
        } else if c == 99 || c == 67 {
            Unit::Chains
        } else if c == 112 || c == 80 {
            Unit::Poles
        } else if c == 121 || c == 89 {
            Unit::Yards
        } else {
            Unit::Unrecognized
        }
    } else {
        Unit::Unrecognized
    }
}

/// The number of feet in one unit is `feet_numerator / feet_denominator`:
/// 1 for the foot, 2.77778333333 for the vara, 16.5 for the rod and the pole,
/// 66 for the chain, 3 for the yard, and 0 where no unit was recognized.
pub open spec fn feet_numerator(unit: Unit) -> int {
    match unit {
        Unit::Feet => 1,
        Unit::Varas => 277_778_333_333,
        Unit::Rods => 33,
        Unit::Chains => 66,
        Unit::Poles => 33,
        Unit::Yards => 3,
        Unit::Unrecognized => 0,
    }
}

/// The lower part of the fraction that `feet_numerator` describes.
pub open spec fn feet_denominator(unit: Unit) -> int {
    match unit {
        Unit::Feet => 1,
        Unit::Varas => 100_000_000_000,
        Unit::Rods => 2,
        Unit::Chains => 1,
        Unit::Poles => 2,
        Unit::Yards => 1,
        Unit::Unrecognized => 1,
    }
}

/// A distance in feet, rounded toward zero to a whole number of units of
/// 10^-12 foot. The distance is given in units of 10^-12 of `unit`.
pub open spec fn feet_of(distance: int, unit: Unit) -> int {
    scaled_product(distance, feet_numerator(unit), feet_denominator(unit))
}

/// Reads a unit selection.
pub fn select_unit(selection: &[u8]) -> (unit: Unit)
    ensures
        unit == unit_of(selection@),
{
    let f = split_fields(selection);
    assert(byte_rows(f@).len() == f.len());
    if f.len() == 1 && f[0].len() == 1 {
        assert(byte_rows(f@)[0] == f[0]@);
        let c = f[0][0];
        if c == 102 || c == 70 {
            Unit::Feet
        } else if c == 118 || c == 86 {
            Unit::Varas
        } else if c == 114 || c == 82 {
            Unit::Rods
        } else if c == 99 || c == 67 {
            Unit::Chains
        } else if c == 112 || c == 80 {
            Unit::Poles
        } else if c == 121 || c == 89 {
            Unit::Yards
        } else {
            Unit::Unrecognized
        }
    } else {
        proof {
            if f.len() == 1 {
                assert(byte_rows(f@)[0] == f[0]@);
            }
        }
        Unit::Unrecognized
    }
}

/// Converts a distance to feet. The result is `None` where the distance in
/// feet is out of the signed 64-bit range.
pub fn to_feet(distance: i64, unit: Unit) -> (feet: Option<i64>)
    ensures
        match feet {
            Some(f) => f == feet_of(distance as int, unit),
            None => !fits_i64(feet_of(distance as int, unit)),
        },
{
    match unit {
        Unit::Feet => mul_div(distance, 1, 1),
        Unit::Varas => mul_div(distance, 277_778_333_333, 100_000_000_000),
        Unit::Rods => mul_div(distance, 33, 2),
        Unit::Chains => mul_div(distance, 66, 1),
        Unit::Poles => mul_div(distance, 33, 2),
        Unit::Yards => mul_div(distance, 3, 1),
        Unit::Unrecognized => mul_div(distance, 0, 1),
    }
}

} // verus!

use metes_bounds::decimal::SCALE;
use metes_bounds::units::{select_unit, to_feet, Unit};

#[test]
fn the_six_letters() {
    assert_eq!(select_unit(b"f"), Unit::Feet);
    assert_eq!(select_unit(b"v"), Unit::Varas);
    assert_eq!(select_unit(b"r"), Unit::Rods);
    assert_eq!(select_unit(b"c"), Unit::Chains);
    assert_eq!(select_unit(b"p"), Unit::Poles);
    assert_eq!(select_unit(b"y"), Unit::Yards);
}

#[test]
fn capitals_and_white_space_around() {
    assert_eq!(select_unit(b"F"), Unit::Feet);
    assert_eq!(select_unit(b"V\n"), Unit::Varas);
    assert_eq!(select_unit(b"  R \r\n"), Unit::Rods);
    assert_eq!(select_unit(b"\tC"), Unit::Chains);
    assert_eq!(select_unit(b"P"), Unit::Poles);
    assert_eq!(select_unit(b"Y"), Unit::Yards);
}

#[test]
fn anything_else_is_unrecognized() {
    assert_eq!(select_unit(b""), Unit::Unrecognized);
    assert_eq!(select_unit(b"\n"), Unit::Unrecognized);
    assert_eq!(select_unit(b"x"), Unit::Unrecognized);
    assert_eq!(select_unit(b"ff"), Unit::Unrecognized);
    assert_eq!(select_unit(b"f f"), Unit::Unrecognized);
    assert_eq!(select_unit(b"feet"), Unit::Unrecognized);
    assert_eq!(select_unit(b"1"), Unit::Unrecognized);
}

#[test]
fn one_vara_is_2_77778333333_feet() {
    assert_eq!(to_feet(SCALE, Unit::Varas), Some(2_777_783_333_330));
}

#[test]
fn one_chain_is_66_feet() {
    assert_eq!(to_feet(SCALE, Unit::Chains), Some(66 * SCALE));
}

#[test]
fn the_other_factors() {
    assert_eq!(to_feet(SCALE, Unit::Feet), Some(SCALE));
    assert_eq!(to_feet(SCALE, Unit::Rods), Some(16_500_000_000_000));
    assert_eq!(to_feet(SCALE, Unit::Poles), Some(16_500_000_000_000));
    assert_eq!(to_feet(SCALE, Unit::Yards), Some(3 * SCALE));
    assert_eq!(to_feet(250 * SCALE, Unit::Varas), Some(694_445_833_332_500));
}

#[test]
fn an_unrecognized_unit_gives_zero_feet() {
    assert_eq!(to_feet(SCALE, Unit::Unrecognized), Some(0));
    assert_eq!(to_feet(i64::MAX, Unit::Unrecognized), Some(0));
    assert_eq!(to_feet(i64::MIN, Unit::Unrecognized), Some(0));
}

#[test]
fn feet_round_toward_zero() {
    assert_eq!(to_feet(1, Unit::Rods), Some(16));
    assert_eq!(to_feet(-1, Unit::Rods), Some(-16));
    assert_eq!(to_feet(1, Unit::Varas), Some(2));
    assert_eq!(to_feet(-1, Unit::Varas), Some(-2));
    assert_eq!(to_feet(-3 * SCALE, Unit::Yards), Some(-9 * SCALE));
}

#[test]
fn feet_out_of_range() {
    assert_eq!(to_feet(i64::MAX, Unit::Feet), Some(i64::MAX));
    assert_eq!(to_feet(i64::MIN, Unit::Feet), Some(i64::MIN));
    assert_eq!(to_feet(i64::MAX, Unit::Chains), None);
    assert_eq!(to_feet(i64::MAX, Unit::Varas), None);
    assert_eq!(to_feet(i64::MIN, Unit::Yards), None);
    assert_eq!(to_feet(i64::MAX / 66, Unit::Chains), Some(66 * (i64::MAX / 66)));
    assert_eq!(to_feet(i64::MAX / 66 + 1, Unit::Chains), None);
}

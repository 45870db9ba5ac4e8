use metes_bounds::decimal::SCALE;
use metes_bounds::error::TraverseError;
use metes_bounds::pob::Pob;
use metes_bounds::ring::{polygon_ring, Vertex};
use metes_bounds::survey::{parse_survey, Leg};
use metes_bounds::traverse::{advance, build_traverse, Direction, Ratios, RATIO_SCALE};
use metes_bounds::units::Unit;

// Degrees per foot near latitude 40, in units of 10^-18.
const RX: i64 = 3_570_000_000_000;
const RY: i64 = 2_747_000_000_000;

fn ratios() -> Ratios {
    Ratios { lon: RX, lat: RY }
}

fn direction_of(azimuth: i128) -> Direction {
    let degrees = azimuth as f64 / 3.6e15;
    let radians = degrees.to_radians();
    Direction {
        sin: (radians.sin() * 1e12).round() as i64,
        cos: (radians.cos() * 1e12).round() as i64,
    }
}

fn pob() -> Pob {
    Pob { lat: 40 * SCALE, lon: -100 * SCALE }
}

#[test]
fn ratio_scale_is_ten_to_the_eighteenth() {
    assert_eq!(RATIO_SCALE, 10i64.pow(18));
}

#[test]
fn one_hundred_feet_due_north() {
    let survey = parse_survey(b"40 -100\nN 0 0 0 E 100\n", Unit::Feet).unwrap();
    assert_eq!(survey.legs[0].azimuth, 0);
    let directions: Vec<Direction> = survey.legs.iter().map(|l| direction_of(l.azimuth)).collect();
    assert_eq!(directions[0], Direction { sin: 0, cos: SCALE });
    let path = build_traverse(&survey.pob, &survey.legs, &directions, ratios()).unwrap();
    assert_eq!(path.len(), 2);
    assert_eq!(path[0], Vertex { lon: -100 * SCALE, lat: 40 * SCALE });
    // 100 ft * 2.747e-6 deg/ft = 0.0002747 deg
    assert_eq!(path[1].lon - path[0].lon, 0);
    assert_eq!(path[1].lat - path[0].lat, 274_700_000);
    assert_eq!(path[1].lat - path[0].lat, ((100 * RY as i128) / 1_000_000) as i64);
}

#[test]
fn fifty_feet_due_west() {
    let survey = parse_survey(b"40 -100\nS 90 0 0 W 50\n", Unit::Feet).unwrap();
    assert_eq!(survey.legs[0].azimuth, 270 * 3600 * (SCALE as i128));
    let directions: Vec<Direction> = survey.legs.iter().map(|l| direction_of(l.azimuth)).collect();
    assert_eq!(directions[0], Direction { sin: -SCALE, cos: 0 });
    let path = build_traverse(&survey.pob, &survey.legs, &directions, ratios()).unwrap();
    // -50 ft * 3.57e-6 deg/ft = -0.0001785 deg
    assert_eq!(path[1].lon - path[0].lon, -178_500_000);
    assert_eq!(path[1].lat - path[0].lat, 0);
}

#[test]
fn one_vara_moves_2_77778333333_feet() {
    let survey = parse_survey(b"40 -100\nN 0 0 0 E 1\n", Unit::Varas).unwrap();
    let one_degree_per_foot = Ratios { lon: RATIO_SCALE, lat: RATIO_SCALE };
    let path = build_traverse(
        &survey.pob,
        &survey.legs,
        &vec![Direction { sin: 0, cos: SCALE }],
        one_degree_per_foot,
    )
    .unwrap();
    assert_eq!(path[1].lat - path[0].lat, 2_777_783_333_330);
}

#[test]
fn one_leg_by_hand() {
    // 30 degrees: sin 0.5, cos 0.866025403784; 200 ft
    let from = Vertex { lon: -100 * SCALE, lat: 40 * SCALE };
    let leg = Leg { azimuth: 30 * 3600 * (SCALE as i128), feet: 200 * SCALE };
    let direction = Direction { sin: 500_000_000_000, cos: 866_025_403_784 };
    let to = advance(from, leg, direction, ratios()).unwrap();
    // east: 100 ft * 3.57e-6 = 0.000357 deg; north: 173.2050807568 ft * 2.747e-6
    assert_eq!(to.lon, -100 * SCALE + 357_000_000);
    assert_eq!(to.lat, 40 * SCALE + 475_794_356);
}

#[test]
fn offsets_round_toward_zero_both_ways() {
    let from = Vertex { lon: 0, lat: 0 };
    let leg = Leg { azimuth: 0, feet: 3 };
    let half = Direction { sin: SCALE / 2, cos: -SCALE / 2 };
    let one = Ratios { lon: RATIO_SCALE, lat: RATIO_SCALE };
    assert_eq!(advance(from, leg, half, one), Some(Vertex { lon: 1, lat: -1 }));
}

#[test]
fn the_ratios_of_the_start_serve_every_leg() {
    let legs = vec![Leg { azimuth: 0, feet: 1_000_000 * SCALE }; 3];
    let north = Direction { sin: 0, cos: SCALE };
    let path = build_traverse(&pob(), &legs, &vec![north; 3], ratios()).unwrap();
    let step = path[1].lat - path[0].lat;
    assert_eq!(step, 2_747_000_000_000);
    assert_eq!(path[2].lat - path[1].lat, step);
    assert_eq!(path[3].lat - path[2].lat, step);
}

#[test]
fn a_traverse_without_legs_is_the_point_of_beginning() {
    let path = build_traverse(&pob(), &Vec::new(), &Vec::new(), ratios()).unwrap();
    assert_eq!(path, vec![Vertex { lon: -100 * SCALE, lat: 40 * SCALE }]);
}

#[test]
fn one_vertex_for_each_call_and_one_for_the_start() {
    let text = b"40 -100\nN 0 0 0 E 100\nthree fields only\nN 90 0 0 E 100\n\nS 0 0 0 E 100\nS 90 0 0 W 100\n";
    let survey = parse_survey(text, Unit::Feet).unwrap();
    let directions: Vec<Direction> = survey.legs.iter().map(|l| direction_of(l.azimuth)).collect();
    let path = build_traverse(&survey.pob, &survey.legs, &directions, ratios()).unwrap();
    assert_eq!(path.len(), 5);
    assert_eq!(survey.skipped.len(), 2);
    // the square closes on itself
    assert_eq!(path[4], path[0]);
    let ring = polygon_ring(&path);
    assert_eq!(ring.len(), 6);
    assert_eq!(ring[0], ring[5]);
}

#[test]
fn directions_must_match_the_legs_in_number() {
    let legs = vec![Leg { azimuth: 0, feet: SCALE }; 2];
    let north = Direction { sin: 0, cos: SCALE };
    assert_eq!(
        build_traverse(&pob(), &legs, &vec![north], ratios()),
        Err(TraverseError::DirectionCount)
    );
    assert_eq!(
        build_traverse(&pob(), &legs, &vec![north; 3], ratios()),
        Err(TraverseError::DirectionCount)
    );
    assert_eq!(
        build_traverse(&pob(), &Vec::new(), &vec![north], ratios()),
        Err(TraverseError::DirectionCount)
    );
}

#[test]
fn a_leg_that_leads_out_of_range() {
    let north = Direction { sin: 0, cos: SCALE };
    let steep = Ratios { lon: RATIO_SCALE, lat: RATIO_SCALE };
    let legs = vec![Leg { azimuth: 0, feet: i64::MAX }, Leg { azimuth: 0, feet: SCALE }];
    assert_eq!(
        build_traverse(&pob(), &legs, &vec![north; 2], steep),
        Err(TraverseError::Overflow)
    );
    // the planar offset alone is out of range
    let doubled = Direction { sin: 0, cos: 2 * SCALE };
    assert_eq!(
        advance(Vertex { lon: 0, lat: 0 }, Leg { azimuth: 0, feet: i64::MAX }, doubled, ratios()),
        None
    );
    // the offset in degrees is out of range
    let huge = Ratios { lon: i64::MAX, lat: i64::MAX };
    assert_eq!(
        advance(Vertex { lon: 0, lat: 0 }, Leg { azimuth: 0, feet: i64::MAX }, north, huge),
        None
    );
    // only the sum is out of range
    assert_eq!(
        advance(Vertex { lon: 0, lat: i64::MAX }, Leg { azimuth: 0, feet: SCALE }, north, steep),
        None
    );
    assert_eq!(
        advance(Vertex { lon: 0, lat: i64::MAX - SCALE }, Leg { azimuth: 0, feet: SCALE }, north, steep),
        Some(Vertex { lon: 0, lat: i64::MAX })
    );
}

#[test]
fn offsets_agree_with_the_floating_point_formula() {
    let survey = parse_survey(b"40 -100\nN 37 15 20 E 1234.56\nS 12 0 30.5 W 987.65\n", Unit::Feet).unwrap();
    let directions: Vec<Direction> = survey.legs.iter().map(|l| direction_of(l.azimuth)).collect();
    let path = build_traverse(&survey.pob, &survey.legs, &directions, ratios()).unwrap();
    let rx = RX as f64 / 1e18;
    let ry = RY as f64 / 1e18;
    let mut lon = -100.0_f64;
    let mut lat = 40.0_f64;
    let calls = [
        (37.0 + 15.0 / 60.0 + 20.0 / 3600.0, 1234.56),
        (180.0 + 12.0 + 0.0 / 60.0 + 30.5 / 3600.0, 987.65),
    ];
    for (i, (azimuth, feet)) in calls.iter().enumerate() {
        let radians = f64::to_radians(*azimuth);
        lon += radians.sin() * feet * rx;
        lat += radians.cos() * feet * ry;
        let got_lon = path[i + 1].lon as f64 / 1e12;
        let got_lat = path[i + 1].lat as f64 / 1e12;
        assert!((got_lon - lon).abs() < 1e-11, "{} {}", got_lon, lon);
        assert!((got_lat - lat).abs() < 1e-11, "{} {}", got_lat, lat);
    }
}

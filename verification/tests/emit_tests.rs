use metes_bounds::decimal::{parse_decimal, SCALE};
use metes_bounds::emit::{format_decimal, path_document, polygon_document, push_decimal};
use metes_bounds::ring::Vertex;

fn text(v: i64) -> String {
    String::from_utf8(format_decimal(v)).unwrap()
}

fn v(lon: i64, lat: i64) -> Vertex {
    Vertex { lon, lat }
}

const PATH_HEAD: &str = "<?xml version=\"1.0\" encoding=\"UTF-8\"?>\n\
<kml xmlns=\"http://www.opengis.net/kml/2.2\">\n\
<Document>\n\
<Placemark>\n\
<Polygon>\n\
<outerBoundaryIs>\n\
<LinearRing>\n\
<coordinates>\n";

const PATH_TAIL: &str = "</coordinates>\n\
</LinearRing>\n\
</outerBoundaryIs>\n\
</Polygon>\n\
</Placemark>\n\
</Document>\n\
</kml>\n";

fn polygon_head() -> String {
    [
        "{",
        "  \"type\": \"FeatureCollection\",",
        "  \"features\": [",
        "    {",
        "      \"type\": \"Feature\",",
        "      \"geometry\": {",
        "        \"type\": \"Polygon\",",
        "        \"coordinates\": [",
        "          [",
        "",
    ]
    .join("\n")
}

fn polygon_tail() -> String {
    [
        "          ]",
        "        ]",
        "      },",
        "      \"properties\": {}",
        "    }",
        "  ]",
        "}",
        "",
    ]
    .join("\n")
}

#[test]
fn whole_values_have_no_point() {
    assert_eq!(text(0), "0");
    assert_eq!(text(SCALE), "1");
    assert_eq!(text(-100 * SCALE), "-100");
    assert_eq!(text(10 * SCALE), "10");
    assert_eq!(text(1_000_000 * SCALE), "1000000");
}

#[test]
fn fractions_lose_the_zeros_at_their_end() {
    assert_eq!(text(500_000_000_000), "0.5");
    assert_eq!(text(40_000_274_700_000), "40.0002747");
    assert_eq!(text(-99_999_821_500_000), "-99.9998215");
    assert_eq!(text(2_777_783_333_330), "2.77778333333");
    assert_eq!(text(1_050_000_000_000), "1.05");
    assert_eq!(text(100_000_000_010), "0.10000000001");
}

#[test]
fn the_smallest_fractions() {
    assert_eq!(text(1), "0.000000000001");
    assert_eq!(text(-1), "-0.000000000001");
    assert_eq!(text(10), "0.00000000001");
    assert_eq!(text(999_999_999_999), "0.999999999999");
}

#[test]
fn the_ends_of_the_range_are_written_in_full() {
    assert_eq!(text(i64::MAX), "9223372.036854775807");
    assert_eq!(text(-i64::MAX), "-9223372.036854775807");
    assert_eq!(text(i64::MIN), "-9223372.036854775808");
}

#[test]
fn a_numeral_is_appended_to_what_is_there() {
    let mut out = b"x=".to_vec();
    push_decimal(&mut out, -1_500_000_000_000);
    push_decimal(&mut out, 7 * SCALE);
    assert_eq!(out, b"x=-1.57".to_vec());
}

#[test]
fn what_is_written_reads_back_as_the_same_value() {
    for value in [
        0,
        1,
        -1,
        SCALE,
        -SCALE,
        40_000_274_700_000,
        -99_999_821_500_000,
        123_456_789_012_345_678,
        i64::MAX,
        -i64::MAX,
        1_000_000_000_010,
        999_999_999_999,
    ] {
        assert_eq!(parse_decimal(&format_decimal(value)), Some(value));
    }
}

#[test]
fn path_document_of_a_counterclockwise_ring() {
    let ring = vec![v(-100 * SCALE, 40 * SCALE), v(-99_500_000_000_000, 40 * SCALE), v(-99_500_000_000_000, 40_250_000_000_000)];
    let expected = format!("{}-100,40,0\n-99.5,40,0\n-99.5,40.25,0\n{}", PATH_HEAD, PATH_TAIL);
    assert_eq!(String::from_utf8(path_document(&ring)).unwrap(), expected);
}

#[test]
fn path_document_of_a_clockwise_ring_is_reversed_and_not_closed() {
    let ring = vec![v(-99_500_000_000_000, 40_250_000_000_000), v(-99_500_000_000_000, 40 * SCALE), v(-100 * SCALE, 40 * SCALE)];
    let expected = format!("{}-100,40,0\n-99.5,40,0\n-99.5,40.25,0\n{}", PATH_HEAD, PATH_TAIL);
    assert_eq!(String::from_utf8(path_document(&ring)).unwrap(), expected);
}

#[test]
fn path_document_without_vertices() {
    let expected = format!("{}{}", PATH_HEAD, PATH_TAIL);
    assert_eq!(String::from_utf8(path_document(&Vec::new())).unwrap(), expected);
}

#[test]
fn polygon_document_is_counterclockwise_and_closed() {
    let ring = vec![v(-99_500_000_000_000, 40_250_000_000_000), v(-99_500_000_000_000, 40 * SCALE), v(-100 * SCALE, 40 * SCALE)];
    let expected = format!(
        "{}          [-100, 40],\n          [-99.5, 40],\n          [-99.5, 40.25],\n          [-100, 40]\n{}",
        polygon_head(),
        polygon_tail()
    );
    assert_eq!(String::from_utf8(polygon_document(&ring)).unwrap(), expected);
}

#[test]
fn polygon_document_without_vertices_holds_an_empty_ring() {
    let expected = format!("{}{}", polygon_head(), polygon_tail());
    let document = String::from_utf8(polygon_document(&Vec::new())).unwrap();
    assert_eq!(document, expected);
    let packed: String = document.chars().filter(|c| !c.is_whitespace()).collect();
    assert!(packed.contains("\"coordinates\":[[]]"));
}

#[test]
fn polygon_document_of_one_vertex_repeats_it() {
    let expected = format!(
        "{}          [-100, 40],\n          [-100, 40]\n{}",
        polygon_head(),
        polygon_tail()
    );
    let document = String::from_utf8(polygon_document(&vec![v(-100 * SCALE, 40 * SCALE)])).unwrap();
    assert_eq!(document, expected);
}

#[test]
fn both_documents_list_the_same_vertices_in_the_same_order() {
    let ring = vec![v(3 * SCALE, 1), v(-7, 2 * SCALE), v(5, 5), v(-1, -1)];
    let path = String::from_utf8(path_document(&ring)).unwrap();
    let polygon = String::from_utf8(polygon_document(&ring)).unwrap();
    let from_path: Vec<(String, String)> = path[PATH_HEAD.len()..path.len() - PATH_TAIL.len()]
        .lines()
        .map(|l| {
            let parts: Vec<&str> = l.split(',').collect();
            assert_eq!(parts.len(), 3);
            assert_eq!(parts[2], "0");
            (parts[0].to_string(), parts[1].to_string())
        })
        .collect();
    let from_polygon: Vec<(String, String)> = polygon
        [polygon_head().len()..polygon.len() - polygon_tail().len()]
        .lines()
        .map(|l| {
            let inner = l.trim().trim_end_matches(',');
            let inner = &inner[1..inner.len() - 1];
            let parts: Vec<&str> = inner.split(", ").collect();
            assert_eq!(parts.len(), 2);
            (parts[0].to_string(), parts[1].to_string())
        })
        .collect();
    assert_eq!(from_path.len(), 4);
    assert_eq!(from_polygon.len(), 5);
    assert_eq!(&from_polygon[..4], &from_path[..]);
    assert_eq!(from_polygon[4], from_polygon[0]);
}

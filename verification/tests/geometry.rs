use transit_sync::geometry::{flatten_multiline, parse_tracks, parse_wkt};
use transit_sync::models::database::LatLng;

fn numbers(points: &[LatLng]) -> Vec<(f64, f64)> {
    points
        .iter()
        .map(|p| (p.lat.parse::<f64>().unwrap(), p.lng.parse::<f64>().unwrap()))
        .collect()
}

fn position(values: &[&str]) -> Vec<String> {
    values.iter().map(|v| v.to_string()).collect()
}

#[test]
fn wkt_segments_become_ordered_points() {
    let points = parse_wkt("LINESTRING (10.0 20.0, 11.5 21.5)|LINESTRING (12.0 22.0)");
    assert_eq!(numbers(&points), vec![(20.0, 10.0), (21.5, 11.5), (22.0, 12.0)]);
    assert_eq!(points[0].lat, "20.0");
    assert_eq!(points[0].lng, "10.0");
}

#[test]
fn wkt_malformed_pairs_are_dropped() {
    let points = parse_wkt("LINESTRING (10.0 20.0, oops 21.5, 11 , 12.0 22.0 5, 13 23)");
    assert_eq!(numbers(&points), vec![(20.0, 10.0), (23.0, 13.0)]);
}

#[test]
fn wkt_without_a_body_has_no_points() {
    assert!(parse_wkt("").is_empty());
    assert!(parse_wkt("LINESTRING").is_empty());
    assert!(parse_wkt("LINESTRING (1 2").is_empty());
    assert!(parse_wkt("|").is_empty());
    assert!(parse_wkt("LINESTRING ()").is_empty());
}

#[test]
fn wkt_segments_keep_their_order() {
    let points = parse_wkt("LINESTRING (1 2)||LINESTRING EMPTY|LINESTRING (3 4,5 6)");
    assert_eq!(numbers(&points), vec![(2.0, 1.0), (4.0, 3.0), (6.0, 5.0)]);
}

#[test]
fn tracks_are_latitude_first() {
    let tracks = vec!["38.4237,27.1428 38.4240,27.1431".to_string(), " 38.5,27.2\n".to_string()];
    let points = parse_tracks(&tracks);
    assert_eq!(numbers(&points), vec![(38.4237, 27.1428), (38.4240, 27.1431), (38.5, 27.2)]);
}

#[test]
fn tracks_drop_what_cannot_be_read() {
    let tracks = vec!["38.4,27.1 nonsense 38.5 ,27 38.6,x 38.7,27.3,9".to_string(), String::new()];
    let points = parse_tracks(&tracks);
    assert_eq!(numbers(&points), vec![(38.4, 27.1), (38.7, 27.3)]);
    assert!(parse_tracks(&Vec::new()).is_empty());
}

#[test]
fn multiline_is_flattened_by_one_level() {
    let coordinates = vec![
        vec![position(&["28.9", "41.0"]), position(&["29.0", "41.1"])],
        vec![],
        vec![position(&["29.1", "41.2", "12.5"])],
    ];
    let points = flatten_multiline(&coordinates);
    assert_eq!(numbers(&points), vec![(41.0, 28.9), (41.1, 29.0), (41.2, 29.1)]);
}

#[test]
fn multiline_drops_short_positions() {
    let coordinates = vec![vec![position(&["28.9"]), position(&[]), position(&["x", "41"]), position(&["29", "41"])]];
    let points = flatten_multiline(&coordinates);
    assert_eq!(numbers(&points), vec![(41.0, 29.0)]);
}

#[test]
fn both_formats_converge() {
    let from_wkt = parse_wkt("LINESTRING (28.9 41.0, 29.0 41.1)");
    let from_geojson =
        flatten_multiline(&vec![vec![position(&["28.9", "41.0"]), position(&["29.0", "41.1"])]]);
    assert_eq!(numbers(&from_wkt), numbers(&from_geojson));
}

use cyclemetrics::elevation::segment_elevation_gain;
use cyclemetrics::{gpx_elevation_gain, Point, Position, Segment, Track, TrackDocument};

fn at_height(elevation_mm: Option<i64>) -> Point {
    Point { position: Position { latitude_e9: 0, longitude_e9: 0 }, elevation_mm, time: None }
}

fn segment_of_heights(heights: Vec<Option<i64>>) -> Segment {
    Segment { points: heights.into_iter().map(at_height).collect() }
}

fn document_of_heights(heights: Vec<Option<i64>>) -> TrackDocument {
    TrackDocument { tracks: vec![Track { name: None, segments: vec![segment_of_heights(heights)] }] }
}

#[test]
fn rises_are_added_and_falls_are_not() {
    let doc = document_of_heights(vec![Some(100_000), Some(150_000), Some(120_000), Some(200_000)]);
    assert_eq!(gpx_elevation_gain(&doc), 50_000 + 80_000);
}

#[test]
fn a_point_without_elevation_does_not_reset_the_last_height() {
    let doc = document_of_heights(vec![Some(100_000), None, Some(130_000)]);
    assert_eq!(gpx_elevation_gain(&doc), 30_000);
}

#[test]
fn a_fall_across_a_gap_still_lowers_the_last_height() {
    let doc = document_of_heights(vec![Some(100_000), None, Some(90_000), None, None, Some(95_000)]);
    assert_eq!(gpx_elevation_gain(&doc), 5_000);
}

#[test]
fn heights_that_never_rise_gain_nothing() {
    let doc = document_of_heights(vec![Some(500), Some(500), Some(499), Some(-3), Some(-3), Some(-40)]);
    assert_eq!(gpx_elevation_gain(&doc), 0);
}

#[test]
fn heights_that_always_rise_gain_last_minus_first() {
    let doc = document_of_heights(vec![Some(-250), Some(-1), Some(0), Some(7), Some(1_000), Some(1_001)]);
    assert_eq!(gpx_elevation_gain(&doc), 1_001 + 250);
}

#[test]
fn an_empty_document_gains_nothing() {
    let doc = TrackDocument { tracks: vec![] };
    assert_eq!(gpx_elevation_gain(&doc), 0);
}

#[test]
fn tracks_without_segments_and_segments_without_points_gain_nothing() {
    let doc = TrackDocument {
        tracks: vec![
            Track { name: None, segments: vec![] },
            Track { name: None, segments: vec![segment_of_heights(vec![]), segment_of_heights(vec![])] },
        ],
    };
    assert_eq!(gpx_elevation_gain(&doc), 0);
}

#[test]
fn a_single_point_gains_nothing() {
    assert_eq!(gpx_elevation_gain(&document_of_heights(vec![Some(123_456)])), 0);
    assert_eq!(gpx_elevation_gain(&document_of_heights(vec![None])), 0);
}

#[test]
fn points_without_any_elevation_gain_nothing() {
    assert_eq!(gpx_elevation_gain(&document_of_heights(vec![None, None, None])), 0);
}

#[test]
fn no_rise_is_counted_from_one_segment_to_the_next() {
    let doc = TrackDocument {
        tracks: vec![Track {
            name: None,
            segments: vec![
                segment_of_heights(vec![Some(100_000), Some(110_000)]),
                segment_of_heights(vec![Some(500_000), Some(505_000)]),
            ],
        }],
    };
    assert_eq!(gpx_elevation_gain(&doc), 10_000 + 5_000);
}

#[test]
fn no_rise_is_counted_from_one_track_to_the_next() {
    let doc = TrackDocument {
        tracks: vec![
            Track { name: None, segments: vec![segment_of_heights(vec![Some(0), Some(1_000)])] },
            Track { name: None, segments: vec![segment_of_heights(vec![Some(9_000)])] },
            Track { name: None, segments: vec![segment_of_heights(vec![Some(20_000), Some(20_250)])] },
        ],
    };
    assert_eq!(gpx_elevation_gain(&doc), 1_000 + 250);
}

#[test]
fn the_largest_rise_between_two_points_is_held() {
    let doc = document_of_heights(vec![Some(i64::MIN), Some(i64::MAX)]);
    assert_eq!(gpx_elevation_gain(&doc), u64::MAX as u128);
}

#[test]
fn the_largest_rise_can_be_repeated() {
    let doc = document_of_heights(vec![Some(i64::MIN), Some(i64::MAX), Some(i64::MIN), Some(i64::MAX)]);
    assert_eq!(gpx_elevation_gain(&doc), 2 * (u64::MAX as u128));
}

#[test]
fn the_gain_of_one_segment_alone() {
    let segment = segment_of_heights(vec![Some(10), Some(30), None, Some(20), Some(25)]);
    assert_eq!(segment_elevation_gain(&segment), 20 + 5);
    assert_eq!(segment_elevation_gain(&segment_of_heights(vec![])), 0);
}

#[test]
fn the_points_of_a_document_are_counted() {
    let doc = TrackDocument {
        tracks: vec![
            Track { name: None, segments: vec![segment_of_heights(vec![None, None]), segment_of_heights(vec![])] },
            Track { name: None, segments: vec![] },
            Track { name: None, segments: vec![segment_of_heights(vec![Some(1), None, Some(2)])] },
        ],
    };
    assert_eq!(doc.count_points(), Some(5));
    assert_eq!(TrackDocument { tracks: vec![] }.count_points(), Some(0));
}

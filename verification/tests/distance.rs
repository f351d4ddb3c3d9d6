use cyclemetrics::distance::{count_legs, segment_legs};
use cyclemetrics::{gpx_legs, gpx_total_distance, Leg, Point, Position, Segment, Track, TrackDocument};
use geo::Distance;

fn place(latitude_e9: i64, longitude_e9: i64) -> Position {
    Position { latitude_e9, longitude_e9 }
}

fn sample(position: Position) -> Point {
    Point { position, elevation_mm: None, time: None }
}

fn segment_through(places: Vec<Position>) -> Segment {
    Segment { points: places.into_iter().map(sample).collect() }
}

fn degrees(value_e9: i64) -> f64 {
    value_e9 as f64 / 1e9
}

fn haversine_mm(leg: &Leg) -> u64 {
    let from = geo::Point::new(degrees(leg.from.longitude_e9), degrees(leg.from.latitude_e9));
    let to = geo::Point::new(degrees(leg.to.longitude_e9), degrees(leg.to.latitude_e9));
    (geo::Haversine.distance(from, to) * 1000.0).round() as u64
}

fn measured_distance(doc: &TrackDocument) -> u128 {
    let lengths: Vec<u64> = gpx_legs(doc).iter().map(haversine_mm).collect();
    gpx_total_distance(&lengths)
}

#[test]
fn a_segment_has_a_leg_from_each_point_to_the_next() {
    let a = place(10, 20);
    let b = place(30, 40);
    let c = place(50, 60);
    let legs = segment_legs(&segment_through(vec![a, b, c]));
    assert_eq!(legs, vec![Leg { from: a, to: b }, Leg { from: b, to: c }]);
}

#[test]
fn a_segment_with_fewer_than_two_points_has_no_leg() {
    assert_eq!(segment_legs(&segment_through(vec![])), vec![]);
    assert_eq!(segment_legs(&segment_through(vec![place(1, 2)])), vec![]);
}

#[test]
fn no_leg_joins_two_segments_or_two_tracks() {
    let a = place(1, 1);
    let b = place(2, 2);
    let c = place(3, 3);
    let d = place(4, 4);
    let e = place(5, 5);
    let f = place(6, 6);
    let doc = TrackDocument {
        tracks: vec![
            Track { name: None, segments: vec![segment_through(vec![a, b]), segment_through(vec![c])] },
            Track { name: None, segments: vec![] },
            Track { name: None, segments: vec![segment_through(vec![]), segment_through(vec![d, e, f])] },
        ],
    };
    assert_eq!(
        gpx_legs(&doc),
        vec![Leg { from: a, to: b }, Leg { from: d, to: e }, Leg { from: e, to: f }]
    );
    assert_eq!(count_legs(&doc), 3);
}

#[test]
fn the_legs_are_counted_without_being_listed() {
    assert_eq!(count_legs(&TrackDocument { tracks: vec![] }), 0);
    let doc = TrackDocument {
        tracks: vec![Track {
            name: None,
            segments: vec![
                segment_through(vec![]),
                segment_through(vec![place(1, 1)]),
                segment_through(vec![place(1, 1), place(2, 2)]),
                segment_through(vec![place(1, 1), place(2, 2), place(3, 3), place(4, 4)]),
            ],
        }],
    };
    assert_eq!(count_legs(&doc), 4);
    assert_eq!(gpx_legs(&doc).len(), 4);
}

#[test]
fn a_document_without_tracks_has_no_leg_and_no_distance() {
    let doc = TrackDocument { tracks: vec![] };
    assert_eq!(gpx_legs(&doc), vec![]);
    assert_eq!(measured_distance(&doc), 0);
}

#[test]
fn the_distance_is_the_total_of_the_lengths() {
    assert_eq!(gpx_total_distance(&vec![]), 0);
    assert_eq!(gpx_total_distance(&vec![0]), 0);
    assert_eq!(gpx_total_distance(&vec![1_250]), 1_250);
    assert_eq!(gpx_total_distance(&vec![1, 20, 300, 4_000]), 4_321);
}

#[test]
fn the_longest_lengths_are_added_without_loss() {
    assert_eq!(gpx_total_distance(&vec![u64::MAX, u64::MAX, u64::MAX]), 3 * (u64::MAX as u128));
}

#[test]
fn one_degree_of_latitude_is_about_111_195_metres() {
    let doc = TrackDocument {
        tracks: vec![Track {
            name: None,
            segments: vec![segment_through(vec![place(47_000_000_000, 8_000_000_000), place(48_000_000_000, 8_000_000_000)])],
        }],
    };
    let metres = measured_distance(&doc) as f64 / 1000.0;
    assert!((metres - 111_195.0).abs() <= 50.0, "{} m", metres);
}

#[test]
fn a_single_point_has_no_distance() {
    let doc = TrackDocument {
        tracks: vec![Track { name: None, segments: vec![segment_through(vec![place(47_000_000_000, 8_000_000_000)])] }],
    };
    assert_eq!(measured_distance(&doc), 0);
}

#[test]
fn a_segment_is_as_long_backwards_as_forwards() {
    let places = vec![
        place(47_366_400_000, 8_550_000_000),
        place(47_370_050_000, 8_541_700_000),
        place(47_405_000_000, 8_530_012_345),
        place(47_390_000_000, 8_600_000_000),
    ];
    let mut turned = places.clone();
    turned.reverse();
    let forwards = TrackDocument { tracks: vec![Track { name: None, segments: vec![segment_through(places)] }] };
    let backwards = TrackDocument { tracks: vec![Track { name: None, segments: vec![segment_through(turned)] }] };
    assert!(measured_distance(&forwards) > 0);
    assert_eq!(measured_distance(&forwards), measured_distance(&backwards));
}

#[test]
fn the_legs_of_a_reversed_segment_are_the_legs_reversed() {
    let a = place(1, 2);
    let b = place(3, 4);
    let c = place(5, 6);
    assert_eq!(
        segment_legs(&segment_through(vec![c, b, a])),
        vec![Leg { from: c, to: b }, Leg { from: b, to: a }]
    );
}

#[test]
fn the_gap_between_two_segments_adds_no_distance() {
    let near = place(47_000_000_000, 8_000_000_000);
    let far = place(48_000_000_000, 8_000_000_000);
    let split = TrackDocument {
        tracks: vec![Track { name: None, segments: vec![segment_through(vec![near]), segment_through(vec![far])] }],
    };
    assert_eq!(measured_distance(&split), 0);
}

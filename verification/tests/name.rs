use cyclemetrics::{gpx_track_name, Track, TrackDocument};

fn track_named(name: Option<&str>) -> Track {
    Track { name: name.map(String::from), segments: vec![] }
}

#[test]
fn a_document_without_tracks_has_no_name() {
    assert_eq!(gpx_track_name(&TrackDocument { tracks: vec![] }), None);
}

#[test]
fn the_name_of_the_first_track_is_the_name() {
    let doc = TrackDocument { tracks: vec![track_named(Some("Morning Ride")), track_named(Some("Other"))] };
    assert_eq!(gpx_track_name(&doc), Some("Morning Ride"));
}

#[test]
fn a_nameless_first_track_gives_no_name_whatever_follows() {
    let doc = TrackDocument { tracks: vec![track_named(None), track_named(Some("Second"))] };
    assert_eq!(gpx_track_name(&doc), None);
}

#[test]
fn an_empty_name_is_still_a_name() {
    let doc = TrackDocument { tracks: vec![track_named(Some(""))] };
    assert_eq!(gpx_track_name(&doc), Some(""));
}

#[test]
fn a_name_keeps_every_character() {
    let doc = TrackDocument { tracks: vec![track_named(Some("Tour de l'\u{e9}t\u{e9} \u{1f6b4}"))] };
    assert_eq!(gpx_track_name(&doc), Some("Tour de l'\u{e9}t\u{e9} \u{1f6b4}"));
}

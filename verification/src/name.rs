//! The display name of a track document.

use vstd::prelude::*;
use crate::track::{TrackDocument, TrackView};

verus! {

/// The name of the first track, if there is a first track and it has one.
pub open spec fn track_name(tracks: Seq<TrackView>) -> Option<Seq<char>> {
    if tracks.len() == 0 {
        None
    } else {
        tracks[0].name
    }
}

/// The name of the first track, if the document has a track and that track
/// has a name. No other track is ever consulted.
pub fn gpx_track_name(doc: &TrackDocument) -> (name: Option<&str>)
    ensures
        match name {
            Some(text) => track_name(doc@) == Some(text@),
            None => track_name(doc@) is None,
        },
        name is None <==> doc@.len() == 0 || doc@[0].name is None,
{
    if doc.tracks.len() == 0 {
        return None;
    }
    match &doc.tracks[0].name {
        Some(text) => Some(text.as_str()),
        None => None,
    }
}

} // verus!

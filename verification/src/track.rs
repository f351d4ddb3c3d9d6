//! The track document: tracks, their segments, and the points of each segment.

use vstd::prelude::*;
use vstd::seq_lib::lemma_flatten_concat;
use crate::series::{sum, lemma_sum_prefix, lemma_sum_push};

verus! {

/// A moment on the time line, with the offset from UTC it was recorded under.
///
/// `unix_seconds` and `nanosecond` count from 1970-01-01T00:00:00 UTC;
/// `offset_seconds` is local time minus UTC and never affects the order of
/// two instants.
#[derive(Clone, Copy, Debug, PartialEq, Eq)]
pub struct Instant {
    pub unix_seconds: i64,
    pub nanosecond: u32,
    pub offset_seconds: i32,
}

impl Instant {
    /// `self` lies strictly before `other` on the time line.
    pub open spec fn precedes(self, other: Instant) -> bool {
        self.unix_seconds < other.unix_seconds || (self.unix_seconds == other.unix_seconds
            && self.nanosecond < other.nanosecond)
    }

    /// Whether `self` lies strictly before `other` on the time line.
    pub fn is_before(&self, other: &Instant) -> (before: bool)
        ensures
            before == self.precedes(*other),
    {
        self.unix_seconds < other.unix_seconds || (self.unix_seconds == other.unix_seconds
            && self.nanosecond < other.nanosecond)
    }
}

/// A place on the Earth's surface, in billionths of a degree: north and
/// east are positive.
#[derive(Clone, Copy, Debug, PartialEq, Eq)]
pub struct Position {
    pub latitude_e9: i64,
    pub longitude_e9: i64,
}

/// One GPS sample: where, and optionally how high and when.
#[derive(Clone, Copy, Debug, PartialEq, Eq)]
pub struct Point {
    pub position: Position,
    /// Height above the reference surface in millimetres.
    pub elevation_mm: Option<i64>,
    pub time: Option<Instant>,
}

/// A contiguous run of points, in the order they were recorded.
#[derive(Clone, Debug, PartialEq, Eq)]
pub struct Segment {
    pub points: Vec<Point>,
}

impl View for Segment {
    type V = Seq<Point>;

    open spec fn view(&self) -> Seq<Point> {
        self.points@
    }
}

/// One recorded activity.
#[derive(Clone, Debug, PartialEq, Eq)]
pub struct Track {
    pub name: Option<String>,
    pub segments: Vec<Segment>,
}

/// What a `Track` holds, as mathematical values.
pub struct TrackView {
    pub name: Option<Seq<char>>,
    pub segments: Seq<Seq<Point>>,
}

impl View for Track {
    type V = TrackView;

    open spec fn view(&self) -> TrackView {
        TrackView {
            name: match self.name {
                Some(name) => Some(name@),
                None => None,
            },
            segments: self.segments@.map_values(|segment: Segment| segment@),
        }
    }
}

/// A parsed track log: its tracks in document order.
#[derive(Clone, Debug, PartialEq, Eq)]
pub struct TrackDocument {
    pub tracks: Vec<Track>,
}

impl View for TrackDocument {
    type V = Seq<TrackView>;

    open spec fn view(&self) -> Seq<TrackView> {
        self.tracks@.map_values(|track: Track| track@)
    }
}

impl TrackDocument {
    /// The points of the document can be counted in a `usize`, as those of
    /// any document held in memory can.
    pub open spec fn wf(&self) -> bool {
        point_count(self@) <= usize::MAX
    }

    /// The number of points in the document, or `None` where a `usize`
    /// cannot hold it: the document is well formed exactly where this is
    /// `Some`.
    pub fn count_points(&self) -> (count: Option<usize>)
        ensures
            match count {
                Some(n) => n == point_count(self@),
                None => point_count(self@) > usize::MAX,
            },
            count is Some <==> self.wf(),
    {
        let mut count: usize = 0;
        let mut t: usize = 0;
        proof {
            assert(self@.take(0) =~= Seq::<TrackView>::empty());
            assert(all_segments(self@.take(0)) =~= Seq::<Seq<Point>>::empty());
            assert(Seq::<Seq<Point>>::empty().map_values(|points: Seq<Point>| points.len())
                =~= Seq::<nat>::empty());
        }
        while t < self.tracks.len()
            invariant
                t <= self.tracks.len(),
                count == points_in(all_segments(self@.take(t as int))),
            decreases self.tracks.len() - t,
        {
            let track = &self.tracks[t];
            let ghost before = all_segments(self@.take(t as int));
            let mut s: usize = 0;
            proof {
                assert(before + track@.segments.take(0) =~= before);
            }
            while s < track.segments.len()
                invariant
                    s <= track.segments.len(),
                    t < self.tracks.len(),
                    self@[t as int] == track@,
                    before == all_segments(self@.take(t as int)),
                    count == points_in(before + track@.segments.take(s as int)),
                decreases track.segments.len() - s,
            {
                proof {
                    let walked = before + track@.segments.take(s as int);
                    let points = track.segments[s as int]@;
                    assert(track@.segments[s as int] == points);
                    assert(before + track@.segments.take(s + 1) =~= walked.push(points));
                    lemma_points_in_push(walked, points);
                    lemma_all_segments_prefix(self@, t as int, s + 1);
                    lemma_points_in_prefix(all_segments(self@), before.len() + s + 1);
                }
                match count.checked_add(track.segments[s].points.len()) {
                    Some(more) => {
                        count = more;
                    },
                    None => {
                        return None;
                    },
                }
                s = s + 1;
            }
            proof {
                assert(track@.segments.take(s as int) =~= track@.segments);
                lemma_all_segments_step(self@, t as int);
            }
            t = t + 1;
        }
        proof {
            assert(self@.take(t as int) =~= self@);
        }
        Some(count)
    }
}

/// Every segment of the document, in document order, whatever track it is in.
pub open spec fn all_segments(tracks: Seq<TrackView>) -> Seq<Seq<Point>> {
    tracks.map_values(|track: TrackView| track.segments).flatten()
}

/// The number of points in a run of segments.
pub open spec fn points_in(segments: Seq<Seq<Point>>) -> nat {
    sum(segments.map_values(|points: Seq<Point>| points.len()))
}

/// The number of points in the whole document.
pub open spec fn point_count(tracks: Seq<TrackView>) -> nat {
    points_in(all_segments(tracks))
}

/// The segments of the first `t + 1` tracks are those of the first `t`
/// tracks followed by those of track `t`.
pub proof fn lemma_all_segments_step(tracks: Seq<TrackView>, t: int)
    requires
        0 <= t < tracks.len(),
    ensures
        all_segments(tracks.take(t + 1)) == all_segments(tracks.take(t)) + tracks[t].segments,
{
    let parts = tracks.map_values(|track: TrackView| track.segments);
    assert(tracks.take(t + 1).map_values(|track: TrackView| track.segments) =~= parts.take(
        t,
    ).push(tracks[t].segments));
    assert(tracks.take(t).map_values(|track: TrackView| track.segments) =~= parts.take(t));
    parts.take(t).lemma_flatten_push(tracks[t].segments);
}

/// What has been walked through when a traversal stands at segment `s` of
/// track `t` is a prefix of all the document's segments.
pub proof fn lemma_all_segments_prefix(tracks: Seq<TrackView>, t: int, s: int)
    requires
        0 <= t < tracks.len(),
        0 <= s <= tracks[t].segments.len(),
    ensures
        all_segments(tracks.take(t)).len() + s <= all_segments(tracks).len(),
        all_segments(tracks.take(t)) + tracks[t].segments.take(s) == all_segments(tracks).take(
            all_segments(tracks.take(t)).len() + s,
        ),
{
    let parts = tracks.map_values(|track: TrackView| track.segments);
    let before = parts.take(t);
    let after = parts.skip(t);
    assert(tracks.take(t).map_values(|track: TrackView| track.segments) =~= before);
    assert(parts =~= before + after);
    lemma_flatten_concat(before, after);
    assert(after.first() == tracks[t].segments);
    assert(after.flatten() == after.first() + after.drop_first().flatten());
    assert(all_segments(tracks.take(t)) + tracks[t].segments.take(s) =~= all_segments(
        tracks,
    ).take(all_segments(tracks.take(t)).len() + s));
}

/// The segments of a document are those of the tracks before track `t`,
/// then those of track `t`, then those of the tracks after it.
pub proof fn lemma_all_segments_split(tracks: Seq<TrackView>, t: int)
    requires
        0 <= t < tracks.len(),
    ensures
        all_segments(tracks) == all_segments(tracks.take(t)) + tracks[t].segments + all_segments(
            tracks.skip(t + 1),
        ),
{
    let parts = tracks.map_values(|track: TrackView| track.segments);
    let before = parts.take(t);
    let after = parts.skip(t + 1);
    assert(tracks.take(t).map_values(|track: TrackView| track.segments) =~= before);
    assert(tracks.skip(t + 1).map_values(|track: TrackView| track.segments) =~= after);
    assert(parts =~= before.push(tracks[t].segments) + after);
    lemma_flatten_concat(before.push(tracks[t].segments), after);
    before.lemma_flatten_push(tracks[t].segments);
}

/// The points walked through so far are no more than the document holds.
pub proof fn lemma_points_in_prefix(segments: Seq<Seq<Point>>, n: int)
    requires
        0 <= n <= segments.len(),
    ensures
        points_in(segments.take(n)) <= points_in(segments),
{
    let sizes = segments.map_values(|points: Seq<Point>| points.len());
    assert(segments.take(n).map_values(|points: Seq<Point>| points.len()) =~= sizes.take(n));
    lemma_sum_prefix(sizes, n);
}

/// Counting one more segment adds its points.
pub proof fn lemma_points_in_push(segments: Seq<Seq<Point>>, points: Seq<Point>)
    ensures
        points_in(segments.push(points)) == points_in(segments) + points.len(),
{
    let sizes = segments.map_values(|points: Seq<Point>| points.len());
    assert(segments.push(points).map_values(|points: Seq<Point>| points.len()) =~= sizes.push(
        points.len(),
    ));
    lemma_sum_push(sizes, points.len());
}

} // verus!

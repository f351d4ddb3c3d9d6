//! The time span of a document: its earliest and its latest timestamp.

use vstd::prelude::*;
use vstd::seq_lib::lemma_flatten_concat;
use crate::track::{
    all_segments, lemma_all_segments_step, Instant, Point, Segment, TrackDocument, TrackView,
};

verus! {

/// The timestamps that the points carry, in order.
pub open spec fn timestamps(points: Seq<Point>) -> Seq<Instant> {
    points.filter_map(|point: Point| point.time)
}

/// The timestamps of a run of segments, in order.
pub open spec fn timestamps_of(segments: Seq<Seq<Point>>) -> Seq<Instant> {
    segments.map_values(|points: Seq<Point>| timestamps(points)).flatten()
}

/// Every timestamp of the document, in document order, across all tracks
/// and segments.
pub open spec fn document_timestamps(tracks: Seq<TrackView>) -> Seq<Instant> {
    timestamps_of(all_segments(tracks))
}

/// The earliest of the moments; of several equally early, the first.
pub open spec fn earliest(moments: Seq<Instant>) -> Instant
    recommends
        moments.len() > 0,
    decreases moments.len(),
{
    if moments.len() <= 1 {
        moments[0]
    } else {
        let before = earliest(moments.drop_last());
        if moments.last().precedes(before) {
            moments.last()
        } else {
            before
        }
    }
}

/// The latest of the moments; of several equally late, the last.
pub open spec fn latest(moments: Seq<Instant>) -> Instant
    recommends
        moments.len() > 0,
    decreases moments.len(),
{
    if moments.len() <= 1 {
        moments[0]
    } else {
        let before = latest(moments.drop_last());
        if moments.last().precedes(before) {
            before
        } else {
            moments.last()
        }
    }
}

/// From the earliest to the latest of the moments, if there is any.
pub open spec fn span(moments: Seq<Instant>) -> Option<(Instant, Instant)> {
    if moments.len() == 0 {
        None
    } else {
        Some((earliest(moments), latest(moments)))
    }
}

/// The span of the moments with one more moment after them.
pub open spec fn widened(range: Option<(Instant, Instant)>, moment: Instant) -> (Instant, Instant) {
    match range {
        None => (moment, moment),
        Some((start, end)) => (
            if moment.precedes(start) {
                moment
            } else {
                start
            },
            if moment.precedes(end) {
                end
            } else {
                moment
            },
        ),
    }
}

/// Appending a moment widens the span by it.
pub proof fn lemma_span_push(moments: Seq<Instant>, moment: Instant)
    ensures
        span(moments.push(moment)) == Some(widened(span(moments), moment)),
{
    assert(moments.push(moment).drop_last() =~= moments);
}

/// The timestamps of the first `i + 1` points are those of the first `i`,
/// followed by the timestamp of point `i` if it has one.
pub proof fn lemma_timestamps_step(points: Seq<Point>, i: int)
    requires
        0 <= i < points.len(),
    ensures
        timestamps(points.take(i + 1)) == match points[i].time {
            Some(moment) => timestamps(points.take(i)).push(moment),
            None => timestamps(points.take(i)),
        },
{
    points.lemma_filter_map_take_succ(|point: Point| point.time, i);
}

/// Counting one more segment appends its timestamps.
pub proof fn lemma_timestamps_of_push(segments: Seq<Seq<Point>>, points: Seq<Point>)
    ensures
        timestamps_of(segments.push(points)) == timestamps_of(segments) + timestamps(points),
{
    let parts = segments.map_values(|points: Seq<Point>| timestamps(points));
    assert(segments.push(points).map_values(|points: Seq<Point>| timestamps(points))
        =~= parts.push(timestamps(points)));
    parts.lemma_flatten_push(timestamps(points));
}

/// The earliest moment is one of the moments, none lies before it, and all
/// that come before it in the sequence lie strictly after it.
pub proof fn lemma_earliest_is_first_minimum(moments: Seq<Instant>) -> (at: int)
    requires
        moments.len() > 0,
    ensures
        0 <= at < moments.len(),
        moments[at] == earliest(moments),
        forall|i: int| 0 <= i < moments.len() ==> !moments[i].precedes(earliest(moments)),
        forall|i: int| 0 <= i < at ==> earliest(moments).precedes(moments[i]),
    decreases moments.len(),
{
    if moments.len() == 1 {
        0
    } else {
        let shorter = moments.drop_last();
        let at = lemma_earliest_is_first_minimum(shorter);
        let found = if moments.last().precedes(earliest(shorter)) {
            moments.len() - 1
        } else {
            at
        };
        assert forall|i: int| 0 <= i < moments.len() implies !moments[i].precedes(
            earliest(moments),
        ) by {
            if i < shorter.len() {
                assert(!shorter[i].precedes(earliest(shorter)));
            }
        }
        assert forall|i: int| 0 <= i < found implies earliest(moments).precedes(moments[i]) by {
            assert(!shorter[i].precedes(earliest(shorter)));
            if i < at {
                assert(earliest(shorter).precedes(shorter[i]));
            }
        }
        found
    }
}

/// The latest moment is one of the moments, it lies before none, and all
/// that come after it in the sequence lie strictly before it.
pub proof fn lemma_latest_is_last_maximum(moments: Seq<Instant>) -> (at: int)
    requires
        moments.len() > 0,
    ensures
        0 <= at < moments.len(),
        moments[at] == latest(moments),
        forall|i: int| 0 <= i < moments.len() ==> !latest(moments).precedes(moments[i]),
        forall|i: int| at < i < moments.len() ==> moments[i].precedes(latest(moments)),
    decreases moments.len(),
{
    if moments.len() == 1 {
        0
    } else {
        let shorter = moments.drop_last();
        let at = lemma_latest_is_last_maximum(shorter);
        let found = if moments.last().precedes(latest(shorter)) {
            at
        } else {
            moments.len() - 1
        };
        assert forall|i: int| 0 <= i < moments.len() implies !latest(moments).precedes(
            moments[i],
        ) by {
            if i < shorter.len() {
                assert(!latest(shorter).precedes(shorter[i]));
            }
        }
        assert forall|i: int| found < i < moments.len() implies moments[i].precedes(
            latest(moments),
        ) by {
            if i < shorter.len() {
                assert(shorter[i].precedes(latest(shorter)));
            }
        }
        found
    }
}

/// A span never ends before it starts.
pub proof fn lemma_span_is_ordered(moments: Seq<Instant>)
    requires
        moments.len() > 0,
    ensures
        !latest(moments).precedes(earliest(moments)),
{
    let at = lemma_earliest_is_first_minimum(moments);
    let _ = lemma_latest_is_last_maximum(moments);
    assert(!latest(moments).precedes(moments[at]));
}

/// The timestamps of two runs of segments are those of the one followed by
/// those of the other.
pub proof fn lemma_timestamps_of_concat(left: Seq<Seq<Point>>, right: Seq<Seq<Point>>)
    ensures
        timestamps_of(left + right) == timestamps_of(left) + timestamps_of(right),
{
    let l = left.map_values(|points: Seq<Point>| timestamps(points));
    let r = right.map_values(|points: Seq<Point>| timestamps(points));
    assert((left + right).map_values(|points: Seq<Point>| timestamps(points)) =~= l + r);
    lemma_flatten_concat(l, r);
}

/// No point of the document carries a timestamp.
pub open spec fn untimed(tracks: Seq<TrackView>) -> bool {
    forall|t: int, s: int, p: int|
        0 <= t < tracks.len() && 0 <= s < tracks[t].segments.len() && 0 <= p
            < tracks[t].segments[s].len() ==> (#[trigger] tracks[t].segments[s][p]).time is None
}

/// A segment has no timestamps exactly where none of its points carries
/// one.
pub proof fn lemma_segment_untimed(points: Seq<Point>)
    ensures
        timestamps(points).len() == 0 <==> forall|p: int|
            0 <= p < points.len() ==> (#[trigger] points[p]).time is None,
    decreases points.len(),
{
    if points.len() > 0 {
        let shorter = points.drop_last();
        lemma_segment_untimed(shorter);
        if timestamps(points).len() == 0 {
            assert forall|p: int| 0 <= p < points.len() implies (#[trigger] points[p]).time
                is None by {
                if p < shorter.len() {
                    assert(shorter[p].time is None);
                }
            }
        } else {
            if points.last().time is None {
                let p = choose|p: int| 0 <= p < shorter.len() && !((#[trigger] shorter[p]).time
                    is None);
                assert(!(points[p].time is None));
            }
        }
    }
}

/// A run of segments has no timestamps exactly where none of their points
/// carries one.
pub proof fn lemma_segments_untimed(segments: Seq<Seq<Point>>)
    ensures
        timestamps_of(segments).len() == 0 <==> forall|s: int, p: int|
            0 <= s < segments.len() && 0 <= p < segments[s].len() ==> (
            #[trigger] segments[s][p]).time is None,
    decreases segments.len(),
{
    if segments.len() == 0 {
        assert(timestamps_of(segments) =~= Seq::<Instant>::empty());
    } else {
        let shorter = segments.drop_last();
        let last = segments.last();
        assert(segments =~= shorter.push(last));
        lemma_timestamps_of_push(shorter, last);
        lemma_segments_untimed(shorter);
        lemma_segment_untimed(last);
        if timestamps_of(segments).len() == 0 {
            assert forall|s: int, p: int|
                0 <= s < segments.len() && 0 <= p < segments[s].len() implies (
            #[trigger] segments[s][p]).time is None by {
                if s < shorter.len() {
                    assert(shorter[s][p].time is None);
                } else {
                    assert(last[p].time is None);
                }
            }
        } else {
            if timestamps_of(shorter).len() > 0 {
                let (s, p) = choose|s: int, p: int|
                    0 <= s < shorter.len() && 0 <= p < shorter[s].len() && !((
                    #[trigger] shorter[s][p]).time is None);
                assert(!(segments[s][p].time is None));
            } else {
                let p = choose|p: int| 0 <= p < last.len() && !((#[trigger] last[p]).time is None);
                assert(!(segments[segments.len() - 1][p].time is None));
            }
        }
    }
}

/// A document has no timestamps exactly where none of its points carries
/// one.
pub proof fn lemma_document_untimed(tracks: Seq<TrackView>)
    ensures
        document_timestamps(tracks).len() == 0 <==> untimed(tracks),
    decreases tracks.len(),
{
    if tracks.len() == 0 {
        assert(all_segments(tracks) =~= Seq::<Seq<Point>>::empty());
        assert(timestamps_of(Seq::<Seq<Point>>::empty()) =~= Seq::<Instant>::empty());
    } else {
        let shorter = tracks.drop_last();
        let last = tracks.last();
        assert(tracks.take(tracks.len() - 1) =~= shorter);
        assert(tracks.take(tracks.len() as int) =~= tracks);
        lemma_all_segments_step(tracks, tracks.len() - 1);
        lemma_timestamps_of_concat(all_segments(shorter), last.segments);
        lemma_document_untimed(shorter);
        lemma_segments_untimed(last.segments);
        if document_timestamps(tracks).len() == 0 {
            assert forall|t: int, s: int, p: int|
                0 <= t < tracks.len() && 0 <= s < tracks[t].segments.len() && 0 <= p
                    < tracks[t].segments[s].len() implies (
            #[trigger] tracks[t].segments[s][p]).time is None by {
                if t < shorter.len() {
                    assert(shorter[t].segments[s][p].time is None);
                } else {
                    assert(last.segments[s][p].time is None);
                }
            }
        } else {
            if document_timestamps(shorter).len() > 0 {
                let (t, s, p) = choose|t: int, s: int, p: int|
                    0 <= t < shorter.len() && 0 <= s < shorter[t].segments.len() && 0 <= p
                        < shorter[t].segments[s].len() && !((
                    #[trigger] shorter[t].segments[s][p]).time is None);
                assert(!(tracks[t].segments[s][p].time is None));
            } else {
                let (s, p) = choose|s: int, p: int|
                    0 <= s < last.segments.len() && 0 <= p < last.segments[s].len() && !((
                    #[trigger] last.segments[s][p]).time is None);
                assert(!(tracks[tracks.len() - 1].segments[s][p].time is None));
            }
        }
    }
}

/// Widens `range`, the span of the moments `seen`, by the timestamps of one
/// segment.
fn widen_by_segment(
    range: Option<(Instant, Instant)>,
    segment: &Segment,
    Ghost(seen): Ghost<Seq<Instant>>,
) -> (wider: Option<(Instant, Instant)>)
    requires
        range == span(seen),
    ensures
        wider == span(seen + timestamps(segment@)),
{
    let mut range = range;
    let mut i: usize = 0;
    proof {
        assert(segment@.take(0) =~= Seq::<Point>::empty());
        assert(seen + timestamps(segment@.take(0)) =~= seen);
    }
    while i < segment.points.len()
        invariant
            i <= segment.points.len(),
            range == span(seen + timestamps(segment@.take(i as int))),
        decreases segment.points.len() - i,
    {
        proof {
            lemma_timestamps_step(segment@, i as int);
        }
        match segment.points[i].time {
            Some(moment) => {
                proof {
                    let so_far = seen + timestamps(segment@.take(i as int));
                    lemma_span_push(so_far, moment);
                    assert(seen + timestamps(segment@.take(i + 1)) =~= so_far.push(moment));
                }
                range =
                match range {
                    None => Some((moment, moment)),
                    Some((start, end)) => Some(
                        (
                            if moment.is_before(&start) {
                                moment
                            } else {
                                start
                            },
                            if moment.is_before(&end) {
                                end
                            } else {
                                moment
                            },
                        ),
                    ),
                };
            },
            None => {},
        }
        i = i + 1;
    }
    proof {
        assert(segment@.take(i as int) =~= segment@);
    }
    range
}

/// The earliest and the latest timestamp of the document, taken over all
/// points of all segments of all tracks together; `None` when no point
/// carries a timestamp.
///
/// Instants are ordered by the moment they name, not by their offsets. Of
/// several that name the earliest moment the start is the first in document
/// order, and of several that name the latest the end is the last.
pub fn gpx_start_end_date(doc: &TrackDocument) -> (range: Option<(Instant, Instant)>)
    ensures
        range == span(document_timestamps(doc@)),
        range is None <==> untimed(doc@),
        range matches Some((start, end)) ==> !end.precedes(start),
{
    let mut range: Option<(Instant, Instant)> = None;
    let mut t: usize = 0;
    proof {
        assert(doc@.take(0) =~= Seq::<TrackView>::empty());
        assert(all_segments(doc@.take(0)) =~= Seq::<Seq<Point>>::empty());
        assert(timestamps_of(Seq::<Seq<Point>>::empty()) =~= Seq::<Instant>::empty());
    }
    while t < doc.tracks.len()
        invariant
            t <= doc.tracks.len(),
            range == span(timestamps_of(all_segments(doc@.take(t as int)))),
        decreases doc.tracks.len() - t,
    {
        let track = &doc.tracks[t];
        let ghost before = all_segments(doc@.take(t as int));
        let mut s: usize = 0;
        proof {
            assert(before + track@.segments.take(0) =~= before);
        }
        while s < track.segments.len()
            invariant
                s <= track.segments.len(),
                t < doc.tracks.len(),
                doc@[t as int] == track@,
                before == all_segments(doc@.take(t as int)),
                range == span(timestamps_of(before + track@.segments.take(s as int))),
            decreases track.segments.len() - s,
        {
            let ghost walked = before + track@.segments.take(s as int);
            range = widen_by_segment(range, &track.segments[s], Ghost(timestamps_of(walked)));
            proof {
                let points = track.segments[s as int]@;
                assert(track@.segments[s as int] == points);
                assert(before + track@.segments.take(s + 1) =~= walked.push(points));
                lemma_timestamps_of_push(walked, points);
            }
            s = s + 1;
        }
        proof {
            assert(track@.segments.take(s as int) =~= track@.segments);
            lemma_all_segments_step(doc@, t as int);
        }
        t = t + 1;
    }
    proof {
        assert(doc@.take(t as int) =~= doc@);
        lemma_document_untimed(doc@);
        if document_timestamps(doc@).len() > 0 {
            lemma_span_is_ordered(document_timestamps(doc@));
        }
    }
    range
}

} // verus!

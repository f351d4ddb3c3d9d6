//! Elevation gain: the total of all rises along each segment.

use vstd::prelude::*;
use crate::series::{sum, lemma_sum_push};
use crate::track::{
    all_segments, lemma_all_segments_prefix, lemma_all_segments_step, lemma_points_in_prefix,
    lemma_points_in_push, points_in, Point, Segment, TrackDocument, TrackView,
};

verus! {

/// How far one climbs going from height `from` to height `to`: the
/// difference where `to` is higher, nothing otherwise.
pub open spec fn climb(from: int, to: int) -> nat {
    if to > from {
        (to - from) as nat
    } else {
        0
    }
}

/// The total of the climbs between neighbours in a sequence of heights.
pub open spec fn ascent(heights: Seq<i64>) -> nat
    decreases heights.len(),
{
    if heights.len() < 2 {
        0
    } else {
        ascent(heights.drop_last()) + climb(
            heights[heights.len() - 2] as int,
            heights.last() as int,
        )
    }
}

/// The heights that the points carry, in order. A point without one is
/// left out, so its neighbours with a height become neighbours.
pub open spec fn elevations(points: Seq<Point>) -> Seq<i64> {
    points.filter_map(|point: Point| point.elevation_mm)
}

/// The elevation gain along one segment, in millimetres.
pub open spec fn segment_gain(points: Seq<Point>) -> nat {
    ascent(elevations(points))
}

/// The elevation gain of a run of segments: each counted by itself.
pub open spec fn gain_of(segments: Seq<Seq<Point>>) -> nat {
    sum(segments.map_values(|points: Seq<Point>| segment_gain(points)))
}

/// The elevation gain of the whole document, in millimetres.
pub open spec fn document_gain(tracks: Seq<TrackView>) -> nat {
    gain_of(all_segments(tracks))
}

/// The largest climb between two heights that an `i64` can hold.
pub open spec fn max_climb() -> nat {
    0xffff_ffff_ffff_ffff
}

/// The heights of the first `i + 1` points are those of the first `i`,
/// followed by the height of point `i` if it has one.
pub proof fn lemma_elevations_step(points: Seq<Point>, i: int)
    requires
        0 <= i < points.len(),
    ensures
        elevations(points.take(i + 1)) == match points[i].elevation_mm {
            Some(height) => elevations(points.take(i)).push(height),
            None => elevations(points.take(i)),
        },
{
    points.lemma_filter_map_take_succ(|point: Point| point.elevation_mm, i);
}

/// One more height adds the climb from the height before it.
pub proof fn lemma_ascent_push(heights: Seq<i64>, height: i64)
    ensures
        ascent(heights.push(height)) == ascent(heights) + if heights.len() == 0 {
            0
        } else {
            climb(heights.last() as int, height as int)
        },
{
    assert(heights.push(height).drop_last() =~= heights);
}

/// Counting one more segment adds its gain.
pub proof fn lemma_gain_of_push(segments: Seq<Seq<Point>>, points: Seq<Point>)
    ensures
        gain_of(segments.push(points)) == gain_of(segments) + segment_gain(points),
{
    let gains = segments.map_values(|points: Seq<Point>| segment_gain(points));
    assert(segments.push(points).map_values(|points: Seq<Point>| segment_gain(points))
        =~= gains.push(segment_gain(points)));
    lemma_sum_push(gains, segment_gain(points));
}

/// Along heights that never rise, nothing is gained.
pub proof fn lemma_descent_gains_nothing(heights: Seq<i64>)
    requires
        forall|i: int|
            #![trigger heights[i]]
            0 <= i < heights.len() - 1 ==> heights[i] >= heights[i + 1],
    ensures
        ascent(heights) == 0,
    decreases heights.len(),
{
    if heights.len() >= 2 {
        let shorter = heights.drop_last();
        assert forall|i: int| #![trigger shorter[i]] 0 <= i < shorter.len() - 1 implies shorter[i]
            >= shorter[i + 1] by {
            assert(heights[i] >= heights[i + 1]);
        }
        lemma_descent_gains_nothing(shorter);
        assert(heights[heights.len() - 2] >= heights[heights.len() - 2 + 1]);
    }
}

/// Along heights that never fall, and so along heights that rise at every
/// step, the gain is the last height minus the first.
pub proof fn lemma_rise_gains_last_minus_first(heights: Seq<i64>)
    requires
        heights.len() > 0,
        forall|i: int|
            #![trigger heights[i]]
            0 <= i < heights.len() - 1 ==> heights[i] <= heights[i + 1],
    ensures
        ascent(heights) == heights.last() - heights.first(),
    decreases heights.len(),
{
    if heights.len() >= 2 {
        let shorter = heights.drop_last();
        assert forall|i: int| #![trigger shorter[i]] 0 <= i < shorter.len() - 1 implies shorter[i]
            <= shorter[i + 1] by {
            assert(heights[i] <= heights[i + 1]);
        }
        lemma_rise_gains_last_minus_first(shorter);
        assert(heights[heights.len() - 2] <= heights[heights.len() - 2 + 1]);
    }
}

/// A segment whose heights never rise from one to the next gains nothing.
pub proof fn lemma_descending_segment_gains_nothing(points: Seq<Point>)
    requires
        forall|i: int|
            #![trigger elevations(points)[i]]
            0 <= i < elevations(points).len() - 1 ==> elevations(points)[i] >= elevations(
                points,
            )[i + 1],
    ensures
        segment_gain(points) == 0,
{
    lemma_descent_gains_nothing(elevations(points));
}

/// A segment whose heights never fall from one to the next, and so one
/// whose heights rise at every step, gains its last height minus its first.
pub proof fn lemma_rising_segment_gains_last_minus_first(points: Seq<Point>)
    requires
        elevations(points).len() > 0,
        forall|i: int|
            #![trigger elevations(points)[i]]
            0 <= i < elevations(points).len() - 1 ==> elevations(points)[i] <= elevations(
                points,
            )[i + 1],
    ensures
        segment_gain(points) == elevations(points).last() - elevations(points).first(),
{
    lemma_rise_gains_last_minus_first(elevations(points));
}

/// A segment with fewer than two points gains nothing.
pub proof fn lemma_short_segment_gains_nothing(points: Seq<Point>)
    requires
        points.len() < 2,
    ensures
        segment_gain(points) == 0,
{
    if points.len() == 1 {
        assert(points.take(0) =~= Seq::<Point>::empty());
        assert(points.take(1) =~= points);
        lemma_elevations_step(points, 0);
    }
}

/// The elevation gain along one segment, in millimetres.
///
/// Walks the points in order and keeps the last height seen. A point with a
/// height adds its rise over that height, if it is a rise, and becomes the
/// last height seen; a point without one changes nothing.
pub fn segment_elevation_gain(segment: &Segment) -> (gain: u128)
    ensures
        gain == segment_gain(segment@),
        gain <= segment@.len() * max_climb(),
{
    let mut gain: u128 = 0;
    let mut last: Option<i64> = None;
    let mut i: usize = 0;
    proof {
        assert(segment@.take(0) =~= Seq::<Point>::empty());
    }
    while i < segment.points.len()
        invariant
            i <= segment.points.len(),
            gain == segment_gain(segment@.take(i as int)),
            gain <= i * max_climb(),
            match last {
                Some(height) => elevations(segment@.take(i as int)).len() > 0 && elevations(
                    segment@.take(i as int),
                ).last() == height,
                None => elevations(segment@.take(i as int)).len() == 0,
            },
        decreases segment.points.len() - i,
    {
        proof {
            lemma_elevations_step(segment@, i as int);
        }
        match segment.points[i].elevation_mm {
            Some(height) => {
                proof {
                    lemma_ascent_push(elevations(segment@.take(i as int)), height);
                }
                match last {
                    Some(previous) => {
                        if height > previous {
                            let rise: u128 = (height as i128 - previous as i128) as u128;
                            gain = gain + rise;
                        }
                    },
                    None => {},
                }
                last = Some(height);
            },
            None => {},
        }
        i = i + 1;
    }
    proof {
        assert(segment@.take(i as int) =~= segment@);
    }
    gain
}

/// The total elevation gain of the document, in millimetres: the gains of
/// its segments, each taken by itself, so that no rise is counted from the
/// end of one segment to the start of the next.
pub fn gpx_elevation_gain(doc: &TrackDocument) -> (gain: u128)
    requires
        doc.wf(),
    ensures
        gain == document_gain(doc@),
{
    let mut gain: u128 = 0;
    let mut t: usize = 0;
    proof {
        assert(doc@.take(0) =~= Seq::<TrackView>::empty());
        assert(all_segments(doc@.take(0)) =~= Seq::<Seq<Point>>::empty());
        assert(Seq::<Seq<Point>>::empty().map_values(|points: Seq<Point>| segment_gain(points))
            =~= Seq::<nat>::empty());
        assert(Seq::<Seq<Point>>::empty().map_values(|points: Seq<Point>| points.len())
            =~= Seq::<nat>::empty());
    }
    while t < doc.tracks.len()
        invariant
            t <= doc.tracks.len(),
            doc.wf(),
            gain == gain_of(all_segments(doc@.take(t as int))),
            gain <= points_in(all_segments(doc@.take(t as int))) * max_climb(),
        decreases doc.tracks.len() - t,
    {
        let track = &doc.tracks[t];
        let ghost before = all_segments(doc@.take(t as int));
        let mut s: usize = 0;
        proof {
            assert(track@.segments.take(0) =~= Seq::<Seq<Point>>::empty());
            assert(before + track@.segments.take(0) =~= before);
        }
        while s < track.segments.len()
            invariant
                s <= track.segments.len(),
                t < doc.tracks.len(),
                doc.wf(),
                doc@[t as int] == track@,
                before == all_segments(doc@.take(t as int)),
                gain == gain_of(before + track@.segments.take(s as int)),
                gain <= points_in(before + track@.segments.take(s as int)) * max_climb(),
            decreases track.segments.len() - s,
        {
            let rise = segment_elevation_gain(&track.segments[s]);
            proof {
                let walked = before + track@.segments.take(s as int);
                let points = track.segments[s as int]@;
                assert(track@.segments[s as int] == points);
                assert(before + track@.segments.take(s + 1) =~= walked.push(points));
                lemma_gain_of_push(walked, points);
                lemma_points_in_push(walked, points);
                lemma_all_segments_prefix(doc@, t as int, s + 1);
                lemma_points_in_prefix(all_segments(doc@), before.len() + s + 1);
                assert(points_in(walked.push(points)) <= usize::MAX);
                assert(gain + rise <= points_in(walked.push(points)) * max_climb());
            }
            gain = gain + rise;
            s = s + 1;
        }
        proof {
            assert(track@.segments.take(s as int) =~= track@.segments);
            lemma_all_segments_step(doc@, t as int);
        }
        t = t + 1;
    }
    proof {
        assert(doc@.take(t as int) =~= doc@);
    }
    gain
}

} // verus!

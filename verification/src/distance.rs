//! Track length: the legs of a document and the total of their lengths.
//!
//! A leg joins two points that follow one another in one segment. How long
//! a leg is on the Earth's surface is for the caller to measure; this module
//! says which legs there are and adds their lengths up.

use vstd::prelude::*;
use vstd::seq_lib::lemma_flatten_concat;
use crate::series::{sum, lemma_sum_concat, lemma_sum_push, lemma_sum_reverse};
use crate::track::{
    all_segments, lemma_all_segments_prefix, lemma_all_segments_split, lemma_all_segments_step,
    lemma_points_in_prefix, lemma_points_in_push, points_in, Point, Position, Segment,
    TrackDocument, TrackView,
};

verus! {

/// The way from one point to the next one of its segment.
#[derive(Clone, Copy, Debug, PartialEq, Eq)]
pub struct Leg {
    pub from: Position,
    pub to: Position,
}

impl Leg {
    /// The same leg travelled the other way.
    pub open spec fn reversed(self) -> Leg {
        Leg { from: self.to, to: self.from }
    }
}

/// The legs of one segment: from each point but the last to its successor.
/// A segment with fewer than two points has none.
pub open spec fn legs(points: Seq<Point>) -> Seq<Leg> {
    Seq::new(
        if points.len() < 2 {
            0
        } else {
            (points.len() - 1) as nat
        },
        |i: int| Leg { from: points[i].position, to: points[i + 1].position },
    )
}

/// The legs of a run of segments, in order. No leg joins two segments.
pub open spec fn legs_of(segments: Seq<Seq<Point>>) -> Seq<Leg> {
    segments.map_values(|points: Seq<Point>| legs(points)).flatten()
}

/// The legs of the whole document, in document order.
pub open spec fn document_legs(tracks: Seq<TrackView>) -> Seq<Leg> {
    legs_of(all_segments(tracks))
}

/// The total of the lengths.
pub open spec fn total_length(lengths: Seq<u64>) -> nat {
    sum(lengths.map_values(|length: u64| length as nat))
}

/// The length of a path of legs under a measure: the total of what the
/// measure gives for each leg.
pub open spec fn path_length(path: Seq<Leg>, measure: spec_fn(Leg) -> u64) -> nat {
    total_length(path.map_values(measure))
}

/// A measure is symmetric if a leg is as long one way as the other.
pub open spec fn symmetric(measure: spec_fn(Leg) -> u64) -> bool {
    forall|leg: Leg| #[trigger] measure(leg.reversed()) == measure(leg)
}

/// The largest length that one leg can have.
pub open spec fn max_length() -> nat {
    0xffff_ffff_ffff_ffff
}

/// One more length adds to the total.
pub proof fn lemma_total_length_push(lengths: Seq<u64>, length: u64)
    ensures
        total_length(lengths.push(length)) == total_length(lengths) + length,
{
    let values = lengths.map_values(|length: u64| length as nat);
    assert(lengths.push(length).map_values(|length: u64| length as nat) =~= values.push(
        length as nat,
    ));
    lemma_sum_push(values, length as nat);
}

/// The total of two runs of lengths is the sum of their totals.
pub proof fn lemma_total_length_concat(left: Seq<u64>, right: Seq<u64>)
    ensures
        total_length(left + right) == total_length(left) + total_length(right),
{
    let l = left.map_values(|length: u64| length as nat);
    let r = right.map_values(|length: u64| length as nat);
    assert((left + right).map_values(|length: u64| length as nat) =~= l + r);
    lemma_sum_concat(l, r);
}

/// Reading the lengths backwards leaves their total unchanged.
pub proof fn lemma_total_length_reverse(lengths: Seq<u64>)
    ensures
        total_length(lengths.reverse()) == total_length(lengths),
{
    let values = lengths.map_values(|length: u64| length as nat);
    assert(lengths.reverse().map_values(|length: u64| length as nat) =~= values.reverse());
    lemma_sum_reverse(values);
}

/// Counting one more segment appends its legs.
pub proof fn lemma_legs_of_push(segments: Seq<Seq<Point>>, points: Seq<Point>)
    ensures
        legs_of(segments.push(points)) == legs_of(segments) + legs(points),
{
    let parts = segments.map_values(|points: Seq<Point>| legs(points));
    assert(segments.push(points).map_values(|points: Seq<Point>| legs(points)) =~= parts.push(
        legs(points),
    ));
    parts.lemma_flatten_push(legs(points));
}

/// The legs of two runs of segments are the legs of the one followed by the
/// legs of the other.
pub proof fn lemma_legs_of_concat(left: Seq<Seq<Point>>, right: Seq<Seq<Point>>)
    ensures
        legs_of(left + right) == legs_of(left) + legs_of(right),
{
    let l = left.map_values(|points: Seq<Point>| legs(points));
    let r = right.map_values(|points: Seq<Point>| legs(points));
    assert((left + right).map_values(|points: Seq<Point>| legs(points)) =~= l + r);
    lemma_flatten_concat(l, r);
}

/// A segment with fewer than two points has no length, whatever the measure.
pub proof fn lemma_short_segment_has_no_length(points: Seq<Point>, measure: spec_fn(Leg) -> u64)
    requires
        points.len() < 2,
    ensures
        legs(points).len() == 0,
        path_length(legs(points), measure) == 0,
{
    assert(legs(points).map_values(measure).map_values(|length: u64| length as nat)
        =~= Seq::<nat>::empty());
}

/// The legs of a segment read backwards are its legs, each reversed, in
/// reverse order.
pub proof fn lemma_legs_of_reversed_segment(points: Seq<Point>)
    ensures
        legs(points.reverse()) == legs(points).reverse().map_values(|leg: Leg| leg.reversed()),
{
    assert(legs(points.reverse()) =~= legs(points).reverse().map_values(
        |leg: Leg| leg.reversed(),
    ));
}

/// Under a symmetric measure a segment is as long read backwards as read
/// forwards.
pub proof fn lemma_reversed_segment_has_same_length(
    points: Seq<Point>,
    measure: spec_fn(Leg) -> u64,
)
    requires
        symmetric(measure),
    ensures
        path_length(legs(points.reverse()), measure) == path_length(legs(points), measure),
{
    lemma_legs_of_reversed_segment(points);
    let forwards = legs(points).map_values(measure);
    assert forall|i: int| 0 <= i < legs(points).len() implies #[trigger] legs(
        points.reverse(),
    ).map_values(measure)[i] == forwards.reverse()[i] by {
        let leg = legs(points)[legs(points).len() - 1 - i];
        assert(legs(points.reverse())[i] == leg.reversed());
        assert(measure(leg.reversed()) == measure(leg));
    }
    assert(legs(points.reverse()).map_values(measure) =~= forwards.reverse());
    lemma_total_length_reverse(forwards);
}

/// Under a symmetric measure, reading one segment of a run of segments
/// backwards leaves the length of the run unchanged.
pub proof fn lemma_reversing_a_segment_keeps_length(
    segments: Seq<Seq<Point>>,
    k: int,
    measure: spec_fn(Leg) -> u64,
)
    requires
        0 <= k < segments.len(),
        symmetric(measure),
    ensures
        path_length(legs_of(segments.update(k, segments[k].reverse())), measure) == path_length(
            legs_of(segments),
            measure,
        ),
{
    let before = segments.take(k);
    let after = segments.skip(k + 1);
    let turned = segments[k].reverse();
    assert(segments =~= before.push(segments[k]) + after);
    assert(segments.update(k, turned) =~= before.push(turned) + after);
    lemma_legs_of_concat(before.push(segments[k]), after);
    lemma_legs_of_concat(before.push(turned), after);
    lemma_legs_of_push(before, segments[k]);
    lemma_legs_of_push(before, turned);
    lemma_path_length_concat(legs_of(before) + legs(segments[k]), legs_of(after), measure);
    lemma_path_length_concat(legs_of(before) + legs(turned), legs_of(after), measure);
    lemma_path_length_concat(legs_of(before), legs(segments[k]), measure);
    lemma_path_length_concat(legs_of(before), legs(turned), measure);
    lemma_reversed_segment_has_same_length(segments[k], measure);
}

/// The document with segment `s` of track `t` read backwards.
pub open spec fn with_segment_reversed(tracks: Seq<TrackView>, t: int, s: int) -> Seq<TrackView>
    recommends
        0 <= t < tracks.len(),
        0 <= s < tracks[t].segments.len(),
{
    tracks.update(
        t,
        TrackView {
            name: tracks[t].name,
            segments: tracks[t].segments.update(s, tracks[t].segments[s].reverse()),
        },
    )
}

/// Under a symmetric measure, reading any one segment of a document
/// backwards leaves the length of the document unchanged.
pub proof fn lemma_reversing_a_segment_keeps_distance(
    tracks: Seq<TrackView>,
    t: int,
    s: int,
    measure: spec_fn(Leg) -> u64,
)
    requires
        0 <= t < tracks.len(),
        0 <= s < tracks[t].segments.len(),
        symmetric(measure),
    ensures
        path_length(document_legs(with_segment_reversed(tracks, t, s)), measure) == path_length(
            document_legs(tracks),
            measure,
        ),
{
    let turned = with_segment_reversed(tracks, t, s);
    let before = all_segments(tracks.take(t));
    let after = all_segments(tracks.skip(t + 1));
    lemma_all_segments_split(tracks, t);
    lemma_all_segments_split(turned, t);
    assert(turned.take(t) =~= tracks.take(t));
    assert(turned.skip(t + 1) =~= tracks.skip(t + 1));
    assert(all_segments(turned) =~= all_segments(tracks).update(
        before.len() + s,
        all_segments(tracks)[before.len() + s].reverse(),
    ));
    lemma_reversing_a_segment_keeps_length(all_segments(tracks), before.len() + s, measure);
}

/// The length of two paths is the sum of their lengths.
pub proof fn lemma_path_length_concat(
    left: Seq<Leg>,
    right: Seq<Leg>,
    measure: spec_fn(Leg) -> u64,
)
    ensures
        path_length(left + right, measure) == path_length(left, measure) + path_length(
            right,
            measure,
        ),
{
    assert((left + right).map_values(measure) =~= left.map_values(measure) + right.map_values(
        measure,
    ));
    lemma_total_length_concat(left.map_values(measure), right.map_values(measure));
}

/// Appends the legs of one segment to `out`.
fn push_legs(out: &mut Vec<Leg>, segment: &Segment)
    ensures
        final(out)@ == old(out)@ + legs(segment@),
{
    let mut i: usize = 1;
    proof {
        assert(out@ =~= old(out)@ + legs(segment@).take(0));
    }
    while i < segment.points.len()
        invariant
            1 <= i,
            segment.points.len() >= 2 ==> i <= segment.points.len(),
            segment.points.len() < 2 ==> i == 1,
            out@ == old(out)@ + legs(segment@).take(i - 1),
        decreases segment.points.len() - i,
    {
        let leg = Leg { from: segment.points[i - 1].position, to: segment.points[i].position };
        out.push(leg);
        proof {
            assert(legs(segment@)[i - 1] == leg);
            assert(legs(segment@).take(i as int) =~= legs(segment@).take(i - 1).push(leg));
        }
        i = i + 1;
    }
    proof {
        assert(legs(segment@).take(i - 1) =~= legs(segment@));
    }
}

/// The legs of one segment, in order.
pub fn segment_legs(segment: &Segment) -> (out: Vec<Leg>)
    ensures
        out@ == legs(segment@),
{
    let mut out: Vec<Leg> = Vec::new();
    push_legs(&mut out, segment);
    proof {
        assert(Seq::<Leg>::empty() + legs(segment@) =~= legs(segment@));
    }
    out
}

/// The legs of the whole document, in document order: for every segment of
/// every track, from each point to the next. The last point of a segment is
/// never joined to the first point of the next, nor one track to another.
pub fn gpx_legs(doc: &TrackDocument) -> (out: Vec<Leg>)
    ensures
        out@ == document_legs(doc@),
{
    let mut out: Vec<Leg> = Vec::new();
    let mut t: usize = 0;
    proof {
        assert(doc@.take(0) =~= Seq::<TrackView>::empty());
        assert(all_segments(doc@.take(0)) =~= Seq::<Seq<Point>>::empty());
        assert(legs_of(Seq::<Seq<Point>>::empty()) =~= Seq::<Leg>::empty());
    }
    while t < doc.tracks.len()
        invariant
            t <= doc.tracks.len(),
            out@ == legs_of(all_segments(doc@.take(t as int))),
        decreases doc.tracks.len() - t,
    {
        let track = &doc.tracks[t];
        let ghost before = all_segments(doc@.take(t as int));
        let mut s: usize = 0;
        proof {
            assert(before + track@.segments.take(0) =~= before);
        }
        while s < track.segments.len()
            invariant
                s <= track.segments.len(),
                t < doc.tracks.len(),
                doc@[t as int] == track@,
                before == all_segments(doc@.take(t as int)),
                out@ == legs_of(before + track@.segments.take(s as int)),
            decreases track.segments.len() - s,
        {
            push_legs(&mut out, &track.segments[s]);
            proof {
                let walked = before + track@.segments.take(s as int);
                let points = track.segments[s as int]@;
                assert(track@.segments[s as int] == points);
                assert(before + track@.segments.take(s + 1) =~= walked.push(points));
                lemma_legs_of_push(walked, points);
            }
            s = s + 1;
        }
        proof {
            assert(track@.segments.take(s as int) =~= track@.segments);
            lemma_all_segments_step(doc@, t as int);
        }
        t = t + 1;
    }
    proof {
        assert(doc@.take(t as int) =~= doc@);
    }
    out
}

/// A run of segments has no more legs than points.
pub proof fn lemma_fewer_legs_than_points(segments: Seq<Seq<Point>>)
    ensures
        legs_of(segments).len() <= points_in(segments),
    decreases segments.len(),
{
    if segments.len() == 0 {
        assert(legs_of(segments) =~= Seq::<Leg>::empty());
    } else {
        let shorter = segments.drop_last();
        assert(segments =~= shorter.push(segments.last()));
        lemma_legs_of_push(shorter, segments.last());
        lemma_points_in_push(shorter, segments.last());
        lemma_fewer_legs_than_points(shorter);
    }
}

/// The number of legs of the whole document: for every segment one less
/// than it has points, and none for a segment without points.
pub fn count_legs(doc: &TrackDocument) -> (count: usize)
    requires
        doc.wf(),
    ensures
        count == document_legs(doc@).len(),
{
    let mut count: usize = 0;
    let mut t: usize = 0;
    proof {
        assert(doc@.take(0) =~= Seq::<TrackView>::empty());
        assert(all_segments(doc@.take(0)) =~= Seq::<Seq<Point>>::empty());
        assert(legs_of(Seq::<Seq<Point>>::empty()) =~= Seq::<Leg>::empty());
    }
    while t < doc.tracks.len()
        invariant
            t <= doc.tracks.len(),
            doc.wf(),
            count == legs_of(all_segments(doc@.take(t as int))).len(),
        decreases doc.tracks.len() - t,
    {
        let track = &doc.tracks[t];
        let ghost before = all_segments(doc@.take(t as int));
        let mut s: usize = 0;
        proof {
            assert(before + track@.segments.take(0) =~= before);
        }
        while s < track.segments.len()
            invariant
                s <= track.segments.len(),
                t < doc.tracks.len(),
                doc.wf(),
                doc@[t as int] == track@,
                before == all_segments(doc@.take(t as int)),
                count == legs_of(before + track@.segments.take(s as int)).len(),
            decreases track.segments.len() - s,
        {
            let points: usize = track.segments[s].points.len();
            proof {
                let walked = before + track@.segments.take(s as int);
                let segment = track.segments[s as int]@;
                assert(track@.segments[s as int] == segment);
                assert(before + track@.segments.take(s + 1) =~= walked.push(segment));
                lemma_legs_of_push(walked, segment);
                lemma_fewer_legs_than_points(walked.push(segment));
                lemma_all_segments_prefix(doc@, t as int, s + 1);
                lemma_points_in_prefix(all_segments(doc@), before.len() + s + 1);
            }
            if points >= 2 {
                count = count + (points - 1);
            }
            s = s + 1;
        }
        proof {
            assert(track@.segments.take(s as int) =~= track@.segments);
            lemma_all_segments_step(doc@, t as int);
        }
        t = t + 1;
    }
    proof {
        assert(doc@.take(t as int) =~= doc@);
    }
    count
}

/// The total distance along the legs whose lengths are given, in the unit
/// of the lengths. With no leg the distance is zero.
pub fn gpx_total_distance(leg_lengths: &Vec<u64>) -> (total: u128)
    ensures
        total == total_length(leg_lengths@),
{
    let mut total: u128 = 0;
    let mut i: usize = 0;
    proof {
        assert(leg_lengths@.take(0).map_values(|length: u64| length as nat)
            =~= Seq::<nat>::empty());
    }
    while i < leg_lengths.len()
        invariant
            i <= leg_lengths.len(),
            total == total_length(leg_lengths@.take(i as int)),
            total <= i * max_length(),
        decreases leg_lengths.len() - i,
    {
        proof {
            lemma_total_length_push(leg_lengths@.take(i as int), leg_lengths[i as int]);
            assert(leg_lengths@.take(i + 1) =~= leg_lengths@.take(i as int).push(
                leg_lengths[i as int],
            ));
        }
        total = total + leg_lengths[i] as u128;
        i = i + 1;
    }
    proof {
        assert(leg_lengths@.take(i as int) =~= leg_lengths@);
    }
    total
}

} // verus!

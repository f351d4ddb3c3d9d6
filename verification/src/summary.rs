//! The record of one file and the running summary over many files.

use vstd::prelude::*;
use vstd::string::StringExecFns;
use crate::distance::{count_legs, document_legs, gpx_total_distance, total_length};
use crate::elevation::{document_gain, gpx_elevation_gain};
use crate::name::{gpx_track_name, track_name};
use crate::series::{sum, lemma_sum_prefix, lemma_sum_push};
use crate::time_range::{document_timestamps, gpx_start_end_date, span};
use crate::track::{Instant, TrackDocument, TrackView};

verus! {

/// The metrics of one file.
#[derive(Clone, Debug, PartialEq, Eq)]
pub struct FileMetricsRecord {
    /// What identifies the file, as the caller gave it: its path, say.
    pub file_name: String,
    /// The distance in millimetres; a kilometre is 1 000 000 of them.
    pub distance_mm: u128,
    /// The elevation gain in whole metres, rounded to the nearest.
    pub elevation_m: u128,
    /// The name of the first track, or `Activity` where it has none.
    pub name: String,
    /// The day of the earliest timestamp, written day-month-year, or
    /// nothing where the points carry no timestamp.
    pub start_date: String,
    /// The earliest and the latest timestamp.
    pub time_range: Option<(Instant, Instant)>,
}

/// What a `FileMetricsRecord` holds, as mathematical values.
pub struct RecordView {
    pub file_name: Seq<char>,
    pub distance_mm: nat,
    pub elevation_m: nat,
    pub name: Seq<char>,
    pub start_date: Seq<char>,
    pub time_range: Option<(Instant, Instant)>,
}

impl View for FileMetricsRecord {
    type V = RecordView;

    open spec fn view(&self) -> RecordView {
        RecordView {
            file_name: self.file_name@,
            distance_mm: self.distance_mm as nat,
            elevation_m: self.elevation_m as nat,
            name: self.name@,
            start_date: self.start_date@,
            time_range: self.time_range,
        }
    }
}

/// Millimetres as whole metres, rounded to the nearest, a half upwards.
pub open spec fn rounded_metres(millimetres: nat) -> nat {
    (millimetres + 500) / 1000
}

/// The name a file goes by: that of its first track, or `Activity`.
pub open spec fn display_name(name: Option<Seq<char>>) -> Seq<char> {
    match name {
        Some(text) => text,
        None => "Activity"@,
    }
}

/// The record of the file `file_name` with the given track name, distance,
/// elevation gain and time range, whose start day is written `start_day`.
/// Without a time range the record has no start date, whatever `start_day`
/// is.
pub open spec fn record_of(
    file_name: Seq<char>,
    name: Option<Seq<char>>,
    distance_mm: nat,
    gain_mm: nat,
    time_range: Option<(Instant, Instant)>,
    start_day: Seq<char>,
) -> RecordView {
    RecordView {
        file_name: file_name,
        distance_mm: distance_mm,
        elevation_m: rounded_metres(gain_mm),
        name: display_name(name),
        start_date: if time_range is Some {
            start_day
        } else {
            Seq::empty()
        },
        time_range: time_range,
    }
}

/// What a record is listed under: its start day and its name, or nothing
/// where it has no time range.
pub open spec fn listing_label(record: RecordView) -> Seq<char> {
    if record.time_range is Some {
        record.start_date + " "@ + record.name
    } else {
        Seq::empty()
    }
}

/// The record of the file `file_name`, whose document has legs of the
/// given lengths and whose start day is written `start_day`.
pub open spec fn document_record(
    file_name: Seq<char>,
    tracks: Seq<TrackView>,
    leg_lengths: Seq<u64>,
    start_day: Seq<char>,
) -> RecordView {
    record_of(
        file_name,
        track_name(tracks),
        total_length(leg_lengths),
        document_gain(tracks),
        span(document_timestamps(tracks)),
        start_day,
    )
}

/// There is one length for each leg of the document.
pub open spec fn measures_every_leg(tracks: Seq<TrackView>, leg_lengths: Seq<u64>) -> bool {
    leg_lengths.len() == document_legs(tracks).len()
}

/// The record of the file `file_name`, whose document has legs of the
/// given lengths: with the day of its earliest timestamp where it has
/// timestamps. `None` where the lengths are not one for each leg of the
/// document, and where the calendar cannot hold the earliest timestamp.
pub open spec fn file_record(
    file_name: Seq<char>,
    tracks: Seq<TrackView>,
    leg_lengths: Seq<u64>,
) -> Option<RecordView> {
    if !measures_every_leg(tracks, leg_lengths) {
        None
    } else {
        match span(document_timestamps(tracks)) {
            None => Some(document_record(file_name, tracks, leg_lengths, Seq::empty())),
            Some((start, _)) => match start.day_text() {
                Some(day) => Some(document_record(file_name, tracks, leg_lengths, day)),
                None => None,
            },
        }
    }
}

/// Where the document has timestamps, the earliest of them lies in the
/// calendar range.
pub open spec fn starts_in_calendar_range(tracks: Seq<TrackView>) -> bool {
    span(document_timestamps(tracks)) matches Some((start, _)) ==> start.in_calendar_range()
}

/// The document has timestamps, and the local time of the earliest of them
/// lies in the years 0 to 9999.
pub open spec fn starts_in_four_digit_years(tracks: Seq<TrackView>) -> bool {
    span(document_timestamps(tracks)) matches Some((start, _)) && start.in_four_digit_years()
}

impl FileMetricsRecord {
    /// Builds the record of the file `file_name` from its metrics.
    ///
    /// `start_day` is the day of the start of `time_range` as text; it is
    /// not looked at where there is no time range.
    pub fn new(
        file_name: &str,
        name: Option<&str>,
        distance_mm: u128,
        elevation_gain_mm: u128,
        time_range: Option<(Instant, Instant)>,
        start_day: &str,
    ) -> (record: FileMetricsRecord)
        ensures
            record@ == record_of(
                file_name@,
                match name {
                    Some(text) => Some(text@),
                    None => None,
                },
                distance_mm as nat,
                elevation_gain_mm as nat,
                time_range,
                start_day@,
            ),
    {
        let shown = match name {
            Some(text) => text,
            None => "Activity",
        };
        let start_date = if time_range.is_some() {
            String::from_str(start_day)
        } else {
            String::new()
        };
        let whole: u128 = elevation_gain_mm / 1000;
        let elevation_m: u128 = if elevation_gain_mm % 1000 >= 500 {
            whole + 1
        } else {
            whole
        };
        FileMetricsRecord {
            file_name: String::from_str(file_name),
            distance_mm,
            elevation_m,
            name: String::from_str(shown),
            start_date,
            time_range,
        }
    }

    /// What the record is listed under: its start day, a space and its
    /// name, or nothing where it has no time range.
    pub fn list_label(&self) -> (label: String)
        ensures
            label@ == listing_label(self@),
    {
        if self.time_range.is_some() {
            let mut label = String::from_str(self.start_date.as_str());
            label.append(" ");
            label.append(self.name.as_str());
            label
        } else {
            String::new()
        }
    }
}

/// The record of the file `file_name`: what identifies it, its distance,
/// elevation gain, name, time range and start day.
///
/// `leg_lengths` holds the length in millimetres of each leg of the
/// document, in the order of `gpx_legs`. The result is `None` where the
/// lengths are more or fewer than the document has legs, and where the
/// document has timestamps and the calendar cannot hold the earliest of
/// them; a record is made in every other case. A document without legs has
/// a distance of zero. The start date has ten characters where the
/// earliest timestamp lies, in its own offset, in the years 0 to 9999.
pub fn file_metrics(file_name: &str, doc: &TrackDocument, leg_lengths: &Vec<u64>) -> (record:
    Option<FileMetricsRecord>)
    requires
        doc.wf(),
    ensures
        match record {
            Some(made) => file_record(file_name@, doc@, leg_lengths@) == Some(made@),
            None => file_record(file_name@, doc@, leg_lengths@) is None,
        },
        record matches Some(made) ==> made@.file_name == file_name@,
        record matches Some(made) ==> measures_every_leg(doc@, leg_lengths@),
        record matches Some(made) ==> (document_legs(doc@).len() == 0 ==> made@.distance_mm == 0),
        measures_every_leg(doc@, leg_lengths@) && starts_in_calendar_range(doc@) ==> record
            is Some,
        measures_every_leg(doc@, leg_lengths@) && starts_in_four_digit_years(doc@) ==> (
        record matches Some(made) && made@.start_date.len() == 10),
{
    if leg_lengths.len() != count_legs(doc) {
        return None;
    }
    let distance_mm = gpx_total_distance(leg_lengths);
    proof {
        if leg_lengths@.len() == 0 {
            assert(leg_lengths@.map_values(|length: u64| length as nat) =~= Seq::<nat>::empty());
        }
    }
    let name = gpx_track_name(doc);
    let gain_mm = gpx_elevation_gain(doc);
    let time_range = gpx_start_end_date(doc);
    match time_range {
        None => Some(FileMetricsRecord::new(file_name, name, distance_mm, gain_mm, time_range, "")),
        Some((start, _)) => match start.day_month_year() {
            Some(day) => Some(
                FileMetricsRecord::new(
                    file_name,
                    name,
                    distance_mm,
                    gain_mm,
                    time_range,
                    day.as_str(),
                ),
            ),
            None => None,
        },
    }
}

/// The summary of a run over many files: their records in the order the
/// files came in, and the total of their distances.
#[derive(Debug)]
pub struct AggregateResult {
    records: Vec<FileMetricsRecord>,
    grand_total_mm: u128,
}

/// What an `AggregateResult` holds, as mathematical values.
pub struct AggregateView {
    pub records: Seq<RecordView>,
    pub grand_total_mm: nat,
}

/// The total of the distances of the records.
pub open spec fn distance_total(records: Seq<RecordView>) -> nat {
    sum(records.map_values(|record: RecordView| record.distance_mm))
}

/// One more record adds its distance to the total.
pub proof fn lemma_distance_total_push(records: Seq<RecordView>, record: RecordView)
    ensures
        distance_total(records.push(record)) == distance_total(records) + record.distance_mm,
{
    let distances = records.map_values(|record: RecordView| record.distance_mm);
    assert(records.push(record).map_values(|record: RecordView| record.distance_mm)
        =~= distances.push(record.distance_mm));
    lemma_sum_push(distances, record.distance_mm);
}

impl View for AggregateResult {
    type V = AggregateView;

    closed spec fn view(&self) -> AggregateView {
        AggregateView {
            records: self.records@.map_values(|record: FileMetricsRecord| record@),
            grand_total_mm: self.grand_total_mm as nat,
        }
    }
}

impl AggregateResult {
    /// The grand total is the total of the distances of the records.
    pub open spec fn wf(&self) -> bool {
        self@.grand_total_mm == distance_total(self@.records)
    }

    /// The summary of no file: no record, and a grand total of zero.
    pub fn new() -> (summary: AggregateResult)
        ensures
            summary.wf(),
            summary@.records == Seq::<RecordView>::empty(),
            summary@.grand_total_mm == 0,
    {
        proof {
            assert(Seq::<FileMetricsRecord>::empty().map_values(|record: FileMetricsRecord| record@)
                =~= Seq::<RecordView>::empty());
            assert(Seq::<RecordView>::empty().map_values(|record: RecordView| record.distance_mm)
                =~= Seq::<nat>::empty());
        }
        AggregateResult { records: Vec::new(), grand_total_mm: 0 }
    }

    /// Puts the record of the next file after those already there and adds
    /// its distance to the grand total.
    pub fn add(&mut self, record: FileMetricsRecord)
        requires
            old(self).wf(),
            old(self)@.grand_total_mm + record.distance_mm <= u128::MAX,
        ensures
            final(self).wf(),
            final(self)@.records == old(self)@.records.push(record@),
            final(self)@.grand_total_mm == old(self)@.grand_total_mm + record.distance_mm,
    {
        proof {
            lemma_distance_total_push(self@.records, record@);
            assert(self.records@.push(record).map_values(|record: FileMetricsRecord| record@)
                =~= self@.records.push(record@));
        }
        self.grand_total_mm = self.grand_total_mm + record.distance_mm;
        self.records.push(record);
    }

    /// The grand total in millimetres: the total of the distances of all
    /// records.
    pub fn grand_total_mm(&self) -> (total: u128)
        ensures
            total == self@.grand_total_mm,
            self.wf() ==> total == distance_total(self@.records),
    {
        self.grand_total_mm
    }

    /// The number of records.
    pub fn len(&self) -> (count: usize)
        ensures
            count == self@.records.len(),
    {
        self.records.len()
    }

    /// The record at `index`, counted from zero in the order the files came
    /// in, or `None` where there are not that many.
    pub fn record(&self, index: usize) -> (record: Option<&FileMetricsRecord>)
        ensures
            match record {
                Some(found) => index < self@.records.len() && found@ == self@.records[index as int],
                None => index >= self@.records.len(),
            },
    {
        if index < self.records.len() {
            Some(&self.records[index])
        } else {
            None
        }
    }
}

/// A parsed file: what identifies it, its document, and the length in
/// millimetres of each leg of the document, in the order of `gpx_legs`.
#[derive(Clone, Debug, PartialEq, Eq)]
pub struct MeasuredDocument {
    pub file_name: String,
    pub document: TrackDocument,
    pub leg_lengths: Vec<u64>,
}

/// The distances of the files, in order.
pub open spec fn distances_of(files: Seq<MeasuredDocument>) -> Seq<nat> {
    files.map_values(|file: MeasuredDocument| total_length(file.leg_lengths@))
}

/// The record that `file_metrics` makes of a file.
pub open spec fn measured_record(file: MeasuredDocument) -> Option<RecordView> {
    file_record(file.file_name@, file.document@, file.leg_lengths@)
}

/// A record is owed for the file: its lengths are one for each leg of its
/// document, and the earliest timestamp, if there is one, lies in the
/// calendar range.
pub open spec fn record_owed(file: MeasuredDocument) -> bool {
    measures_every_leg(file.document@, file.leg_lengths@) && starts_in_calendar_range(
        file.document@,
    )
}

/// Summarises the files in the order given: one record for each, under
/// the name of its file, and the total of their distances. The first file
/// whose record cannot be made ends the run, and nothing is returned.
pub fn aggregate(files: &Vec<MeasuredDocument>) -> (summary: Option<AggregateResult>)
    requires
        forall|i: int| 0 <= i < files.len() ==> (#[trigger] files[i]).document.wf(),
        sum(distances_of(files@)) <= u128::MAX,
    ensures
        match summary {
            Some(all) => {
                &&& all.wf()
                &&& all@.records.len() == files.len()
                &&& forall|i: int|
                    0 <= i < files.len() ==> measured_record(#[trigger] files[i]) == Some(
                        all@.records[i],
                    )
                &&& forall|i: int|
                    0 <= i < files.len() ==> (#[trigger] all@.records[i]).file_name
                        == files[i].file_name@
            },
            None => exists|i: int|
                0 <= i < files.len() && measured_record(#[trigger] files[i]) is None,
        },
        (forall|i: int| 0 <= i < files.len() ==> record_owed(#[trigger] files[i])) ==> summary
            is Some,
{
    let mut all = AggregateResult::new();
    let mut i: usize = 0;
    proof {
        assert(distances_of(files@).take(0) =~= Seq::<nat>::empty());
    }
    while i < files.len()
        invariant
            i <= files.len(),
            all.wf(),
            all@.records.len() == i,
            all@.grand_total_mm == sum(distances_of(files@).take(i as int)),
            sum(distances_of(files@)) <= u128::MAX,
            forall|k: int| 0 <= k < files.len() ==> (#[trigger] files[k]).document.wf(),
            forall|k: int|
                0 <= k < i ==> measured_record(#[trigger] files[k]) == Some(all@.records[k]),
        decreases files.len() - i,
    {
        let file = &files[i];
        match file_metrics(file.file_name.as_str(), &file.document, &file.leg_lengths) {
            Some(record) => {
                proof {
                    let distances = distances_of(files@);
                    assert(distances.take(i + 1) =~= distances.take(i as int).push(
                        record@.distance_mm,
                    ));
                    lemma_sum_push(distances.take(i as int), record@.distance_mm);
                    lemma_sum_prefix(distances, i + 1);
                }
                all.add(record);
            },
            None => {
                return None;
            },
        }
        i = i + 1;
    }
    Some(all)
}

} // verus!

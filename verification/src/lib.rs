//! Metrics of recorded GPS tracks: length, elevation gain, time span and
//! display name of a track document, and their summary over many files.
//!
//! All quantities are integers in fixed units: coordinates in billionths of
//! a degree, elevations and lengths in millimetres, instants in seconds and
//! nanoseconds since the Unix epoch.
//!
//! The length of a leg on the Earth's surface is measured by the caller:
//! `gpx_legs` names the legs of a document, the caller measures each, and
//! `gpx_total_distance` adds the lengths up. `file_metrics` makes the record
//! of one file from what identifies it, its document and these lengths, and
//! `AggregateResult` collects the records of a run.

pub mod calendar;
pub mod distance;
pub mod elevation;
pub mod name;
pub mod series;
pub mod summary;
pub mod time_range;
pub mod track;

pub use distance::{count_legs, gpx_legs, gpx_total_distance, Leg};
pub use elevation::gpx_elevation_gain;
pub use name::gpx_track_name;
pub use summary::{aggregate, file_metrics, AggregateResult, FileMetricsRecord, MeasuredDocument};
pub use time_range::gpx_start_end_date;
pub use track::{Instant, Point, Position, Segment, Track, TrackDocument};

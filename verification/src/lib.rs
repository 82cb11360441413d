//! Compiles symbolic drum patterns into a single ordered stream of timed
//! note events, ready to be laid out as one track of a standard MIDI file.
//!
//! - `tick`: the clock and its two kinds of time.
//! - `event`: voices, note events, and the order of events.
//! - `grid`: event grids and their algebra.
//! - `pattern`: the pattern tree and its note lengths.
//! - `flatten`: from a pattern tree to a grid.
//! - `time`: the meter and the search for a common bar line.
//! - `merge`: the merge of the voices into one stream.
//! - `plan`: how often each voice repeats, and the merge of all.
//! - `track`: the track and the file, as values.
//! - `wire`: the narrow numbers of the file format.
//! - `laws`: what holds of the algebra, the flattening and the merge.

pub mod wire;
pub mod tick;
pub mod event;
pub mod grid;
pub mod pattern;
pub mod flatten;
pub mod time;
pub mod merge;
pub mod plan;
pub mod laws;
pub mod track;

//! Renders a sequence of track events as a text diagram in the style of
//! `git log --graph`: vertical rails stand for live tracks, and each event
//! draws the rows that show a track starting, branching, merging, ending or
//! passing a labelled station.
//!
//! - [`rows`]: the shapes of rows and how each one is drawn.
//! - [`tracks`]: lookups in the ordered list of live tracks.
//! - [`text`]: splitting a station's label into lines.
//! - [`events`]: the events, what each one draws and does, and the
//!   interpreter that folds them.
//! - [`metro`]: a builder that records events through track handles.
//! - [`laws`]: properties of the interpreter, proved.
pub mod events;
pub mod laws;
pub mod metro;
pub mod rows;
pub mod text;
pub mod tracks;

pub use crate::events::{to_string, to_vec, Event, Interpreter};
pub use crate::metro::{Metro, Track};
pub use crate::rows::{draw_row, Shape};

//! Time-tracking arithmetic: timepoints of a day are read from short textual
//! tokens, the spans between successive timepoints are credited to activity
//! labels, and the totals are laid out as a plain-text summary.
//!
//! All times are whole seconds since local midnight, so every quantity in the
//! contracts is an exact integer.

pub mod aggregate;
pub mod clock;
pub mod decimal;
pub mod durations;
pub mod error;
pub mod report;
pub mod timepoint;

pub use crate::aggregate::{calculate_durations, calculate_durations_at};
pub use crate::clock::WallClock;
pub use crate::durations::Durations;
pub use crate::error::TimeError;
pub use crate::report::format_durations;
pub use crate::timepoint::{am_pm_offset, parse_timepoint, parse_timepoint_at};

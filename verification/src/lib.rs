//! Core of a personal time-tracking report generator.
//!
//! Recorded activities (start and optional end timestamp, project,
//! description) are normalized by a pipeline of processors (rounding to a
//! fixed interval, shifting by a fixed offset) and then aggregated into
//! reports: totals per project and per description, and a chronological
//! grouped list with date boundaries.
//!
//! Timestamps are naive local date-times counted in seconds from an epoch;
//! durations are counted in seconds.

use vstd::prelude::*;

pub mod activity;
pub mod format_util;
pub mod list;
pub mod ordering;
pub mod processor;
pub mod report;
pub mod round_util;

verus! {

/// The failures the core can report: a non-positive rounding interval, or a
/// grouped list requested over more than one distinct project.
#[derive(Clone, Copy, PartialEq, Eq, Structural, Debug)]
pub enum Error {
    InvalidInterval,
    MultipleProjects,
}

} // verus!

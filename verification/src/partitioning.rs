//! Partitioning-level configuration: the failure classes of a threaded
//! run and its default pacing intervals.
//!
//! The thread transport itself — channels, barriers, watchdogs — lives
//! outside the verified core; what stands here are the decisions and
//! constants it consumes.

use vstd::prelude::*;

verus! {

/// Why a threads partitioning could not be built.
#[derive(Clone, Copy, PartialEq, Eq, Structural, Debug)]
pub enum ThreadsPartitioningError {
    /// Threads partitioning must be initialised with at least two
    /// partitions.
    NoParallelism,
}

/// Why a threads-local partition could not be built.
#[derive(Clone, Copy, PartialEq, Eq, Structural, Debug)]
pub enum ThreadsLocalPartitionError {
    /// Threads partitioning requires an event log.
    MissingEventLog,
    /// Failed to create the event sub-log.
    InvalidEventSubLog,
}

/// Selects the water-level reporter variant fitting the partition: the
/// live one where events are streamed, the recorded one otherwise.
#[derive(Clone, Copy, PartialEq, Eq, Structural, Debug)]
pub enum WaterLevelReporterStrategy {
    Live,
    Recorded,
}

/// How often partitions exchange migrants, in milliseconds.
pub fn default_migration_interval() -> (r: u64)
    ensures
        r == 100,
{
    100
}

/// How often partitions report progress, in milliseconds.
pub fn default_progress_interval() -> (r: u64)
    ensures
        r == 100,
{
    100
}

/// How long a silent partition may stay silent before the supervisor
/// escalates, in milliseconds.
pub fn default_panic_interval() -> (r: u64)
    ensures
        r == 200,
{
    200
}

} // verus!

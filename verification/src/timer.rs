use vstd::prelude::*;

use std::time::{Duration, SystemTime};

verus! {

/// A point in wall-clock time; carried through the profiler, never inspected.
#[verifier::external_type_specification]
#[verifier::external_body]
pub struct ExSystemTime(SystemTime);

/// How long, and at which rate, samples were taken.
pub struct ReportTiming {
    /// Samples per second.
    pub frequency: i32,
    /// When sampling started.
    pub start_time: SystemTime,
    /// How long sampling has run.
    pub duration: Duration,
}

} // verus!

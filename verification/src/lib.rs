//! A sampling CPU profiler: the verified core.
//!
//! The operating-system side (signal handlers, interval timers, stack walking,
//! the process-wide profiler instance) stands outside the verified part; what
//! remains here is the state of the profiler, the aggregation of samples, the
//! address blocklist and the value conversions of a report.

pub mod collector;
pub mod error;
pub mod frames;
pub mod profiler;
pub mod sample;
pub mod timer;

use vstd::prelude::*;

pub use collector::Collector;
pub use error::Error;
pub use frames::{empty_backtrace, record_frame, Backtrace, UnresolvedFrames};
pub use profiler::{blocked_segments, LoadedLibrary, Profiler, ProfilerGuardBuilder};
pub use sample::{thread_name_from_buffer, Sample, SampleType, SampleTypes, Unit};
pub use timer::ReportTiming;

verus! {

/// The deepest stack that one sample records.
pub const MAX_DEPTH: usize = 128;

/// The size of the buffer that receives a thread's name, its terminating NUL included.
pub const MAX_THREAD_NAME: usize = 16;

} // verus!

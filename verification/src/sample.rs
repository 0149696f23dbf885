use vstd::prelude::*;

use std::time::SystemTime;

use crate::frames::Backtrace;
use crate::timer::ReportTiming;

verus! {

/// Division that rounds toward zero, as Rust's `/` does on signed integers.
pub open spec fn trunc_div(a: int, b: int) -> int {
    let q = abs(a) / abs(b);
    if (a >= 0) == (b >= 0) { q } else { -q }
}

pub open spec fn abs(a: int) -> int {
    if a >= 0 { a } else { -a }
}

/// Rust's signed `/`, written on magnitudes so that each step is an unsigned-like division.
fn div_toward_zero(a: i64, b: i64) -> (q: i64)
    requires
        b != 0,
        a != i64::MIN,
        b != i64::MIN,
    ensures
        q == trunc_div(a as int, b as int),
{
    if a >= 0 {
        if b > 0 { a / b } else { -(a / -b) }
    } else {
        if b > 0 { -((-a) / b) } else { (-a) / (-b) }
    }
}

const COUNT: &'static str = "count";
const NANOSECONDS: &'static str = "nanoseconds";
const SAMPLES: &'static str = "samples";
const CPU: &'static str = "cpu";

/// The unit of a sample value.
#[derive(Debug, Clone, Copy, PartialEq, Eq)]
pub enum Unit {
    Count,
    Nanoseconds,
}

impl Unit {
    /// The value that a count of samples stands for in this unit.
    pub open spec fn spec_sample_value(&self, count: int, frequency: int) -> int {
        match self {
            Unit::Count => count,
            Unit::Nanoseconds => trunc_div(count * 1_000_000_000, frequency),
        }
    }

    /// The name of the unit as a profile writes it.
    pub open spec fn spec_name(&self) -> Seq<char> {
        match self {
            Unit::Count => "count"@,
            Unit::Nanoseconds => "nanoseconds"@,
        }
    }

    /// The name of the unit as a profile writes it: "count" or "nanoseconds".
    pub fn name(&self) -> (s: String)
        ensures
            s@ == self.spec_name(),
    {
        match self {
            Unit::Count => COUNT.to_owned(),
            Unit::Nanoseconds => NANOSECONDS.to_owned(),
        }
    }

    pub fn to_sample_value(&self, count: i64, timing: &ReportTiming) -> (value: i64)
        requires
            *self is Nanoseconds ==> timing.frequency != 0,
            *self is Nanoseconds ==> i64::MIN <= count * 1_000_000_000 <= i64::MAX,
        ensures
            value == self.spec_sample_value(count as int, timing.frequency as int),
    {
        match self {
            Unit::Count => count,
            Unit::Nanoseconds => div_toward_zero(count * 1_000_000_000, timing.frequency as i64),
        }
    }
}

/// A description of a sample type.
/// For example, for a CPU profile it might be:
/// `SampleType { ty: "cpu", unit: Unit::Nanoseconds }`
/// For a heap profile it might be:
/// `SampleType { ty: "allocations", unit: Unit::Count }`
#[derive(Debug, Clone)]
pub struct SampleType {
    /// Description of the sample type. E.g. "cpu", "wall", "allocations", "syscall", etc.
    pub ty: String,
    pub unit: Unit,
}

impl SampleType {
    pub fn new(ty: String, unit: Unit) -> (t: Self)
        ensures
            t == (SampleType { ty, unit }),
    {
        Self { ty, unit }
    }
}

/// The sample types that a profile reports, in order.
#[derive(Debug, Clone)]
pub struct SampleTypes {
    pub descriptions: Vec<SampleType>,
}

impl SampleTypes {
    pub fn new(sample_descriptions: Vec<SampleType>) -> (t: Self)
        ensures
            t == (SampleTypes { descriptions: sample_descriptions }),
    {
        Self { descriptions: sample_descriptions }
    }
}

impl Default for SampleTypes {
    /// Default for CPU sampled profile: a count of samples, and CPU time in
    /// nanoseconds.
    fn default() -> (t: Self)
        ensures
            t.descriptions@.len() == 2,
            t.descriptions@[0].ty@ == "samples"@,
            t.descriptions@[0].unit == Unit::Count,
            t.descriptions@[1].ty@ == "cpu"@,
            t.descriptions@[1].unit == Unit::Nanoseconds,
    {
        let mut descriptions: Vec<SampleType> = Vec::new();
        descriptions.push(SampleType { ty: SAMPLES.to_owned(), unit: Unit::Count });
        descriptions.push(SampleType { ty: CPU.to_owned(), unit: Unit::Nanoseconds });
        Self { descriptions }
    }
}

/// One sample: the stack of the interrupted thread, which thread it was and
/// when, and how many samples it stands for.
pub struct Sample {
    pub backtrace: Backtrace,
    pub thread_name: Vec<u8>,
    pub thread_id: u64,
    pub timestamp: SystemTime,
    pub count: i32,
}

impl Sample {
    /// A single sample (count 1) of the given stack.
    pub fn new(backtrace: Backtrace, thread_name: Vec<u8>, thread_id: u64, timestamp: SystemTime) -> (s: Sample)
        ensures
            s == (Sample { backtrace, thread_name, thread_id, timestamp, count: 1 }),
    {
        Sample { backtrace, thread_name, thread_id, timestamp, count: 1 }
    }
}

/// The bytes of a thread's name as the NUL-terminated buffer `buf` holds it:
/// everything before the first NUL, or the whole buffer if it holds none.
pub fn thread_name_from_buffer(buf: &[u8]) -> (name: Vec<u8>)
    ensures
        name@.len() <= buf@.len(),
        name@ == buf@.take(name@.len() as int),
        !name@.contains(0u8),
        name@.len() < buf@.len() ==> buf@[name@.len() as int] == 0u8,
{
    let mut name: Vec<u8> = Vec::new();
    let mut i: usize = 0;
    while i < buf.len() && buf[i] != 0
        invariant
            i <= buf@.len(),
            name@ == buf@.take(i as int),
            forall|j: int| 0 <= j < i ==> buf@[j] != 0u8,
        decreases buf@.len() - i,
    {
        name.push(buf[i]);
        i = i + 1;
        assert(name@ =~= buf@.take(i as int));
    }
    name
}

} // verus!
verus! {

/// The name of a unit; see `Unit::name`.
impl From<&Unit> for String {
    fn from(unit: &Unit) -> (s: String)
        ensures
            s@ == unit.spec_name(),
    {
        unit.name()
    }
}

/// `String::from(&unit)` is stated by the `ensures` of `from` above, over the
/// string's view; no claim is made of the `String` value itself.
impl vstd::std_specs::convert::FromSpecImpl<&Unit> for String {
    open spec fn obeys_from_spec() -> bool {
        false
    }

    open spec fn from_spec(unit: &Unit) -> String {
        arbitrary()
    }
}

} // verus!

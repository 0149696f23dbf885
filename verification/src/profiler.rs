// Copyright 2019 TiKV Project Authors. Licensed under Apache-2.0.
use vstd::prelude::*;
use vstd::utf8::encode_utf8;

use findshlibs::{Segment, SharedLibrary, TargetSharedLibrary};
use nix::errno::Errno;

use crate::collector::{add_fits, count_of, lemma_add_fits_count, distinct_stacks, lemma_add_counts, spec_add, total_count, Collector};
use crate::error::Error;
use crate::frames::{stack_key, UnresolvedFrames};
use crate::sample::Sample;

verus! {

/// The state of the CPU profiler: whether it runs, how many samples it took,
/// the stacks it collected and the address ranges whose samples it drops.
pub struct Profiler {
    data: Collector,
    sample_counter: i32,
    running: bool,
    blocklist_segments: Vec<(usize, usize)>,
}

impl Profiler {
    pub closed spec fn is_running(&self) -> bool {
        self.running
    }

    /// Samples taken since the profiler was created or last stopped.
    pub closed spec fn samples_taken(&self) -> int {
        self.sample_counter as int
    }

    /// Address ranges `(start, end)` whose samples are dropped.
    pub closed spec fn blocked_ranges(&self) -> Seq<(usize, usize)> {
        self.blocklist_segments@
    }

    /// The collected stacks, each with the number of times it was sampled.
    pub closed spec fn collected(&self) -> Seq<(UnresolvedFrames, int)> {
        self.data.entries()
    }

    /// Nothing sampled and nothing collected: the state after `new`, and after a `stop`.
    pub open spec fn is_reset(&self) -> bool {
        &&& !self.is_running()
        &&& self.samples_taken() == 0
        &&& self.collected() == Seq::<(UnresolvedFrames, int)>::empty()
    }

    pub fn new() -> (profiler: Result<Self, Error>)
        ensures
            profiler is Ok,
            profiler->Ok_0.is_reset(),
            profiler->Ok_0.blocked_ranges() == Seq::<(usize, usize)>::empty(),
    {
        Ok(Profiler { data: Collector::new(), sample_counter: 0, running: false, blocklist_segments: Vec::new() })
    }

    /// The collected stacks and their counts.
    pub fn data(&self) -> (data: &Collector)
        ensures
            data.entries() == self.collected(),
            distinct_stacks(self.collected()),
    {
        let _ = self.data.len();
        &self.data
    }

    /// The number of samples taken since the profiler was created or last stopped.
    pub fn sample_count(&self) -> (n: i32)
        ensures
            n == self.samples_taken(),
    {
        self.sample_counter
    }

    /// Whether the profiler runs.
    pub fn running(&self) -> (r: bool)
        ensures
            r == self.is_running(),
    {
        self.running
    }

    /// Whether `addr` lies strictly inside one of the blocked ranges.
    pub fn is_blocklisted(&self, addr: usize) -> (blocked: bool)
        ensures
            blocked == address_in(self.blocked_ranges(), addr),
    {
        let mut i: usize = 0;
        while i < self.blocklist_segments.len()
            invariant
                i <= self.blocklist_segments@.len(),
                forall|j: int|
                    0 <= j < i ==> !(#[trigger] self.blocklist_segments@[j].0 < addr && addr < self.blocklist_segments@[j].1),
            decreases self.blocklist_segments@.len() - i,
        {
            let libs = self.blocklist_segments[i];
            if addr > libs.0 && addr < libs.1 {
                assert(self.blocked_ranges()[i as int].0 < addr);
                return true;
            }
            i = i + 1;
        }
        false
    }

    /// Asks to start the profiler.  A running profiler refuses with
    /// `Error::Running`; otherwise the signal handler is to be installed and
    /// its outcome handed to `started`.
    pub fn start(&self) -> (r: Result<(), Error>)
        ensures
            r == if self.is_running() { Err::<(), Error>(Error::Running) } else { Ok(()) },
    {
        if self.running {
            Err(Error::Running)
        } else {
            Ok(())
        }
    }

    /// Completes a start with the outcome of installing the signal handler:
    /// on success the profiler runs, on failure it stays as it was.
    pub fn started(&mut self, registration: Result<(), Errno>) -> (r: Result<(), Error>)
        requires
            !old(self).is_running(),
        ensures
            registration is Ok ==> r is Ok && now_running(*old(self), *final(self)),
            registration is Err ==> {
                &&& r == Err::<(), Error>(Error::NixError(registration->Err_0))
                &&& *final(self) == *old(self)
            },
    {
        match registration {
            Ok(()) => {
                self.running = true;
                Ok(())
            },
            Err(e) => Err(Error::NixError(e)),
        }
    }

    /// Asks to stop the profiler.  A profiler that does not run refuses with
    /// `Error::NotRunning`; otherwise the signal handler is to be removed and
    /// its outcome handed to `stopped`.
    pub fn stop(&self) -> (r: Result<(), Error>)
        ensures
            r == if self.is_running() { Ok(()) } else { Err::<(), Error>(Error::NotRunning) },
    {
        if self.running {
            Ok(())
        } else {
            Err(Error::NotRunning)
        }
    }

    /// Completes a stop with the outcome of removing the signal handler: on
    /// success everything collected is dropped and the profiler no longer
    /// runs; on failure it stays as it was.
    pub fn stopped(&mut self, unregistration: Result<(), Errno>) -> (r: Result<(), Error>)
        requires
            old(self).is_running(),
        ensures
            unregistration is Ok ==> r is Ok && now_stopped(*old(self), *final(self)),
            unregistration is Err ==> {
                &&& r == Err::<(), Error>(Error::NixError(unregistration->Err_0))
                &&& *final(self) == *old(self)
            },
    {
        match unregistration {
            Ok(()) => self.init(),
            Err(e) => Err(Error::NixError(e)),
        }
    }

    fn init(&mut self) -> (r: Result<(), Error>)
        ensures
            r is Ok,
            final(self).is_reset(),
            final(self).blocked_ranges() == old(self).blocked_ranges(),
    {
        self.sample_counter = 0;
        self.data = Collector::new();
        self.running = false;
        Ok(())
    }

    /// Whether `sample` can be recorded without a counter leaving its range:
    /// the number of samples taken stays below `i32::MAX`, and the count of
    /// the sample's stack (0 if not yet collected) plus the sample's count
    /// stays within `i64`.
    pub fn can_sample(&self, sample: &Sample) -> (ok: bool)
        ensures
            ok == (self.samples_taken() < i32::MAX && i64::MIN <= count_of(
                self.collected(),
                stack_key(sample.backtrace, sample.thread_id),
            ) + sample.count <= i64::MAX),
            ok == (self.samples_taken() < i32::MAX && add_fits(
                self.collected(),
                stack_key(sample.backtrace, sample.thread_id),
                sample.count as int,
            )),
    {
        if self.sample_counter == i32::MAX {
            return false;
        }
        let count = sample.count as i64;
        let pos = self.data.position(&sample.backtrace, sample.thread_id);
        proof {
            lemma_add_fits_count(self.collected(), stack_key(sample.backtrace, sample.thread_id), sample.count as int);
        }
        match pos {
            None => true,
            Some(i) => {
                let (_, current) = self.data.entry(i);
                if count >= 0 {
                    current <= i64::MAX - count
                } else {
                    current >= i64::MIN - count
                }
            },
        }
    }

    /// Records one sample: its stack is added to the collected data with the
    /// sample's count, and the number of samples taken grows by one.
    pub fn sample(&mut self, sample: Sample)
        requires
            old(self).samples_taken() < i32::MAX,
            add_fits(old(self).collected(), stack_key(sample.backtrace, sample.thread_id), sample.count as int),
        ensures
            sample_recorded(*old(self), *final(self), sample),
    {
        let count = sample.count;
        let frames = UnresolvedFrames::new(sample.backtrace, sample.thread_name, sample.thread_id, sample.timestamp);
        self.sample_counter += 1;
        self.data.add(frames, count as i64);
    }
}

/// Whether `addr` lies strictly between the start and the end of one of `ranges`.
pub open spec fn address_in(ranges: Seq<(usize, usize)>, addr: usize) -> bool {
    exists|i: int| 0 <= i < ranges.len() && #[trigger] ranges[i].0 < addr && addr < ranges[i].1
}

/// Whether `addr` lies strictly inside a segment of a library of `libs` whose
/// name contains one of the names in `blocklist`.
pub open spec fn address_in_blocked_library(libs: Seq<LoadedLibrary>, blocklist: Seq<&str>, addr: usize) -> bool {
    exists|k: int, j: int|
        0 <= k < libs.len() && library_blocked(libs[k], blocklist) && 0 <= j < libs[k].segments@.len()
            && #[trigger] segment_start(libs[k], j) < addr && addr < segment_end(libs[k], j)
}

/// The ranges that a blocklist yields cover exactly the segments of the
/// blocked libraries: an address lies strictly inside one of them if and only
/// if it lies strictly inside a segment of a library whose name contains a
/// blocked name.
pub proof fn lemma_blocked_ranges_cover(libs: Seq<LoadedLibrary>, blocklist: Seq<&str>, addr: usize)
    requires
        blocked_ranges_fit(libs, blocklist),
    ensures
        address_in(blocked_ranges_of(libs, blocklist), addr) == address_in_blocked_library(libs, blocklist, addr),
    decreases libs.len(),
{
    if libs.len() > 0 {
        let init = libs.drop_last();
        let lib = libs.last();
        assert(blocked_ranges_fit(init, blocklist)) by {
            assert forall|i: int, j: int|
                0 <= i < init.len() && library_blocked(init[i], blocklist) && 0 <= j < init[i].segments@.len()
                implies #[trigger] segment_end(init[i], j) <= usize::MAX by {
                assert(init[i] == libs[i]);
                assert(segment_end(libs[i], j) <= usize::MAX);
            }
        }
        lemma_blocked_ranges_cover(init, blocklist, addr);
        let head = blocked_ranges_of(init, blocklist);
        let tail = if library_blocked(lib, blocklist) { library_ranges(lib) } else { Seq::<(usize, usize)>::empty() };
        let all = blocked_ranges_of(libs, blocklist);
        assert(all == head + tail);
        if address_in(all, addr) {
            let i = choose|i: int| 0 <= i < all.len() && #[trigger] all[i].0 < addr && addr < all[i].1;
            if i < head.len() {
                assert(head[i] == all[i]);
                assert(address_in(head, addr));
                let (k, j) = choose|k: int, j: int|
                    0 <= k < init.len() && library_blocked(init[k], blocklist) && 0 <= j < init[k].segments@.len()
                        && #[trigger] segment_start(init[k], j) < addr && addr < segment_end(init[k], j);
                assert(libs[k] == init[k]);
                assert(segment_start(libs[k], j) < addr);
            } else {
                let j = i - head.len();
                assert(tail[j] == all[i]);
                assert(library_blocked(lib, blocklist));
                assert(tail[j] == (segment_start(lib, j) as usize, segment_end(lib, j) as usize));
                assert(libs[libs.len() - 1] == lib);
                assert(segment_end(lib, j) <= usize::MAX);
                assert(segment_start(libs[libs.len() - 1], j) < addr);
            }
        }
        if address_in_blocked_library(libs, blocklist, addr) {
            let (k, j) = choose|k: int, j: int|
                0 <= k < libs.len() && library_blocked(libs[k], blocklist) && 0 <= j < libs[k].segments@.len()
                    && #[trigger] segment_start(libs[k], j) < addr && addr < segment_end(libs[k], j);
            if k < init.len() {
                assert(init[k] == libs[k]);
                assert(segment_start(init[k], j) < addr);
                assert(address_in(head, addr));
                let i = choose|i: int| 0 <= i < head.len() && #[trigger] head[i].0 < addr && addr < head[i].1;
                assert(all[i] == head[i]);
            } else {
                assert(libs[k] == lib);
                assert(segment_end(lib, j) <= usize::MAX);
                assert(tail[j] == (segment_start(lib, j) as usize, segment_end(lib, j) as usize));
                assert(all[head.len() + j] == tail[j]);
                assert(all[head.len() + j].0 < addr);
            }
        }
    } else {
        assert(blocked_ranges_of(libs, blocklist).len() == 0);
    }
}

/// `after` is `before` with the profiler running; nothing else changed.
pub open spec fn now_running(before: Profiler, after: Profiler) -> bool {
    &&& after.is_running()
    &&& after.samples_taken() == before.samples_taken()
    &&& after.collected() == before.collected()
    &&& after.blocked_ranges() == before.blocked_ranges()
}

/// `after` is `before` stopped: not running, nothing sampled or collected,
/// the blocked ranges kept.
pub open spec fn now_stopped(before: Profiler, after: Profiler) -> bool {
    &&& after.is_reset()
    &&& after.blocked_ranges() == before.blocked_ranges()
}

/// The stack as the profiler stores a sample of it.
pub open spec fn frames_of(sample: Sample) -> UnresolvedFrames {
    UnresolvedFrames {
        frames: sample.backtrace,
        thread_name: sample.thread_name,
        thread_id: sample.thread_id,
        sample_timestamp: sample.timestamp,
    }
}

/// `after` is `before` with `sample` recorded.
pub open spec fn sample_recorded(before: Profiler, after: Profiler, sample: Sample) -> bool {
    &&& distinct_stacks(after.collected())
    &&& after.samples_taken() == before.samples_taken() + 1
    &&& after.collected() == spec_add(before.collected(), frames_of(sample), sample.count as int)
    &&& after.is_running() == before.is_running()
    &&& after.blocked_ranges() == before.blocked_ranges()
}

/// Stopping undoes starting: a profiler started (handler installed) and then
/// stopped (handler removed) has nothing sampled or collected and keeps its
/// blocked ranges; started from the state `new` gives, it is back in that state.
pub proof fn lemma_start_then_stop(before: Profiler, running: Profiler, after: Profiler)
    requires
        !before.is_running(),
        now_running(before, running),
        now_stopped(running, after),
    ensures
        after.is_reset(),
        after.blocked_ranges() == before.blocked_ranges(),
        before.is_reset() ==> {
            &&& after.is_running() == before.is_running()
            &&& after.samples_taken() == before.samples_taken()
            &&& after.collected() == before.collected()
        },
{
}

/// Recording a sample raises the count of its stack by the sample's count,
/// leaves every other stack's count as it was, raises the total of all counts
/// by the sample's count, and never records a stack twice.
pub proof fn lemma_sample_counts(before: Profiler, after: Profiler, sample: Sample, key: (Seq<usize>, u64))
    requires
        sample_recorded(before, after, sample),
    ensures
        count_of(after.collected(), key) == count_of(before.collected(), key)
            + if stack_key(sample.backtrace, sample.thread_id) == key { sample.count as int } else { 0 },
        total_count(after.collected()) == total_count(before.collected()) + sample.count,
        distinct_stacks(after.collected()),
{
    lemma_add_counts(before.collected(), frames_of(sample), sample.count as int, key);
}

/// A shared library loaded in this process, as the dynamic loader lists it:
/// its name (`None` where it is not valid UTF-8), its bias (what is added to
/// a stated address to give the address at which it is mapped) and, for each
/// of its segments, its stated address and its length in bytes.
pub struct LoadedLibrary {
    pub name: Option<String>,
    pub bias: usize,
    pub segments: Vec<(usize, usize)>,
}

/// `findshlibs::TargetSharedLibrary::each`: lists the shared libraries loaded
/// in this process, each with its name (`OsStr::to_str` of it), its
/// `SharedLibrary::virtual_memory_bias` and, for each segment,
/// `Segment::stated_virtual_memory_address` and `Segment::len`.  None of these
/// computes anything; the bias is added to the stated addresses by the
/// caller.  Which libraries are loaded is the process's state; nothing is
/// claimed of the list.
#[verifier::external_body]
fn loaded_libraries() -> Vec<LoadedLibrary> {
    let mut libs = Vec::new();
    TargetSharedLibrary::each(|shlib| {
        libs.push(LoadedLibrary {
            name: shlib.name().to_str().map(|name| name.to_string()),
            bias: shlib.virtual_memory_bias().0,
            segments: shlib.segments().map(|seg| (seg.stated_virtual_memory_address().0, seg.len())).collect(),
        });
    });
    libs
}

/// Whether `needle` occurs as a contiguous run of bytes in `hay`.
pub open spec fn bytes_contain(hay: Seq<u8>, needle: Seq<u8>) -> bool {
    exists|i: int| 0 <= i && i + needle.len() <= hay.len() && #[trigger] hay.subrange(i, i + needle.len()) == needle
}

fn matches_at(hay: &[u8], needle: &[u8], at: usize) -> (m: bool)
    requires
        at + needle@.len() <= hay@.len(),
    ensures
        m == (hay@.subrange(at as int, at + needle@.len()) == needle@),
{
    let n = needle.len();
    let h = hay.len();
    let mut j: usize = 0;
    while j < n
        invariant
            n == needle@.len(),
            h == hay@.len(),
            at + needle@.len() <= hay@.len(),
            j <= needle@.len(),
            forall|t: int| 0 <= t < j ==> hay@[at + t] == needle@[t],
        decreases needle@.len() - j,
    {
        if hay[at + j] != needle[j] {
            assert(hay@.subrange(at as int, at + needle@.len())[j as int] != needle@[j as int]);
            return false;
        }
        j = j + 1;
    }
    assert(hay@.subrange(at as int, at + needle@.len()) =~= needle@);
    true
}

/// Substring search on bytes, as `str::contains` does on the bytes of a string.
fn contains_bytes(hay: &[u8], needle: &[u8]) -> (found: bool)
    ensures
        found == bytes_contain(hay@, needle@),
{
    if needle.len() > hay.len() {
        return false;
    }
    let last = hay.len() - needle.len();
    let mut i: usize = 0;
    while i <= last
        invariant
            last + needle@.len() == hay@.len(),
            i <= last + 1,
            forall|k: int| 0 <= k < i ==> #[trigger] hay@.subrange(k, k + needle@.len()) != needle@,
        decreases last + 1 - i,
    {
        if matches_at(hay, needle, i) {
            return true;
        }
        if i == last {
            return false;
        }
        i = i + 1;
    }
    false
}

/// Whether a library name contains one of the blocked names.
pub open spec fn name_blocked(name: Seq<char>, blocklist: Seq<&str>) -> bool {
    exists|j: int| 0 <= j < blocklist.len() && bytes_contain(encode_utf8(name), encode_utf8(#[trigger] blocklist[j]@))
}

pub open spec fn library_blocked(lib: LoadedLibrary, blocklist: Seq<&str>) -> bool {
    match lib.name {
        Some(name) => name_blocked(name@, blocklist),
        None => false,
    }
}

/// Where segment `j` of `lib` starts once mapped: its stated address plus the
/// library's bias.
pub open spec fn segment_start(lib: LoadedLibrary, j: int) -> int {
    lib.segments@[j].0 + lib.bias
}

/// Where segment `j` of `lib` ends once mapped: its start plus its length.
pub open spec fn segment_end(lib: LoadedLibrary, j: int) -> int {
    segment_start(lib, j) + lib.segments@[j].1
}

/// The address ranges `(start, end)` of a library's segments, as mapped.
pub open spec fn library_ranges(lib: LoadedLibrary) -> Seq<(usize, usize)> {
    Seq::new(lib.segments@.len(), |j: int| (segment_start(lib, j) as usize, segment_end(lib, j) as usize))
}

/// The ranges of all blocked libraries, library by library, in the order listed.
pub open spec fn blocked_ranges_of(libs: Seq<LoadedLibrary>, blocklist: Seq<&str>) -> Seq<(usize, usize)>
    decreases libs.len(),
{
    if libs.len() == 0 {
        Seq::empty()
    } else {
        blocked_ranges_of(libs.drop_last(), blocklist) + if library_blocked(libs.last(), blocklist) {
            library_ranges(libs.last())
        } else {
            Seq::empty()
        }
    }
}

/// Every segment of a blocked library, as mapped, ends within the address space.
pub open spec fn blocked_ranges_fit(libs: Seq<LoadedLibrary>, blocklist: Seq<&str>) -> bool {
    forall|i: int, j: int|
        0 <= i < libs.len() && library_blocked(libs[i], blocklist) && 0 <= j < libs[i].segments@.len()
            ==> #[trigger] segment_end(libs[i], j) <= usize::MAX
}

fn name_in_blocklist(name: &Option<String>, blocklist: &[&str]) -> (blocked: bool)
    ensures
        blocked == match *name {
            Some(n) => name_blocked(n@, blocklist@),
            None => false,
        },
{
    match name {
        None => false,
        Some(name) => {
            let bytes = name.as_str().as_bytes();
            let mut in_blocklist = false;
            let mut k: usize = 0;
            while k < blocklist.len()
                invariant
                    k <= blocklist@.len(),
                    bytes@ == encode_utf8(name@),
                    in_blocklist == exists|j: int| 0 <= j < k && bytes_contain(encode_utf8(name@), encode_utf8(#[trigger] blocklist@[j]@)),
                decreases blocklist@.len() - k,
            {
                let blocked_name: &str = blocklist[k];
                if contains_bytes(bytes, blocked_name.as_bytes()) {
                    in_blocklist = true;
                }
                k = k + 1;
            }
            in_blocklist
        },
    }
}

/// The address ranges of the libraries in `libs` whose name contains one of
/// the names in `blocklist`; `None` where such a range would end past the
/// address space.
pub fn blocked_segments(libs: &Vec<LoadedLibrary>, blocklist: &[&str]) -> (segments: Option<Vec<(usize, usize)>>)
    ensures
        segments is Some <==> blocked_ranges_fit(libs@, blocklist@),
        segments is Some ==> segments->Some_0@ == blocked_ranges_of(libs@, blocklist@),
{
    let mut segments: Vec<(usize, usize)> = Vec::new();
    let mut i: usize = 0;
    while i < libs.len()
        invariant
            i <= libs@.len(),
            segments@ == blocked_ranges_of(libs@.take(i as int), blocklist@),
            blocked_ranges_fit(libs@.take(i as int), blocklist@),
        decreases libs@.len() - i,
    {
        let lib = &libs[i];
        let ghost prefix = libs@.take(i as int);
        assert(libs@.take(i + 1).drop_last() =~= prefix);
        if name_in_blocklist(&lib.name, blocklist) {
            let ghost before = segments@;
            let mut k: usize = 0;
            while k < lib.segments.len()
                invariant
                    i < libs@.len(),
                    *lib == libs@[i as int],
                    before == blocked_ranges_of(prefix, blocklist@),
                    prefix == libs@.take(i as int),
                    blocked_ranges_fit(prefix, blocklist@),
                    library_blocked(*lib, blocklist@),
                    k <= lib.segments@.len(),
                    segments@ == before + library_ranges(*lib).take(k as int),
                    forall|j: int| 0 <= j < k ==> #[trigger] segment_end(*lib, j) <= usize::MAX,
                decreases lib.segments@.len() - k,
            {
                let (stated, len) = lib.segments[k];
                if stated > usize::MAX - lib.bias || stated + lib.bias > usize::MAX - len {
                    assert(!blocked_ranges_fit(libs@, blocklist@)) by {
                        assert(libs@[i as int] == *lib);
                        assert(segment_end(*lib, k as int) > usize::MAX);
                    }
                    return None;
                }
                let start = stated + lib.bias;
                let end = start + len;
                segments.push((start, end));
                k = k + 1;
                assert(segments@ =~= before + library_ranges(*lib).take(k as int));
            }
            assert(library_ranges(*lib).take(k as int) =~= library_ranges(*lib));
        } else {
            assert(segments@ =~= segments@ + Seq::<(usize, usize)>::empty());
        }
        i = i + 1;
        assert(libs@.take(i as int)[i - 1] == *lib);
    }
    assert(libs@.take(libs@.len() as int) =~= libs@);
    Some(segments)
}

/// The blocked ranges after blocking, among the libraries `libs` listed, those
/// whose name contains one of the names in `blocklist`: their ranges where
/// all of them end within the address space, and `before` where one does not.
pub open spec fn blocklist_outcome(before: Seq<(usize, usize)>, libs: Seq<LoadedLibrary>, blocklist: Seq<&str>) -> Seq<(usize, usize)> {
    if blocked_ranges_fit(libs, blocklist) {
        blocked_ranges_of(libs, blocklist)
    } else {
        before
    }
}

/// Blocking twice against the same listing of libraries: where the ranges of
/// the libraries that the second blocklist names all fit, the second call
/// decides alone; and blocking the same names twice is the same as once.
pub proof fn lemma_blocklist_last_wins(
    before: Seq<(usize, usize)>,
    libs: Seq<LoadedLibrary>,
    first: Seq<&str>,
    second: Seq<&str>,
)
    ensures
        blocked_ranges_fit(libs, second) ==> blocklist_outcome(blocklist_outcome(before, libs, first), libs, second)
            == blocklist_outcome(before, libs, second),
        blocklist_outcome(blocklist_outcome(before, libs, first), libs, first) == blocklist_outcome(before, libs, first),
{
}

/// `idx` picks, in increasing order, the positions of `b` at which the
/// elements of `a` stand.
pub open spec fn subsequence_witness(a: Seq<(usize, usize)>, b: Seq<(usize, usize)>, idx: Seq<int>) -> bool {
    &&& idx.len() == a.len()
    &&& forall|k: int| 0 <= k < idx.len() ==> 0 <= #[trigger] idx[k] < b.len() && a[k] == b[idx[k]]
    &&& forall|k1: int, k2: int| 0 <= k1 < k2 < idx.len() ==> #[trigger] idx[k1] < #[trigger] idx[k2]
}

/// `a` is `b` with some elements left out, the rest in the same order.
pub open spec fn is_subsequence(a: Seq<(usize, usize)>, b: Seq<(usize, usize)>) -> bool {
    exists|idx: Seq<int>| #[trigger] subsequence_witness(a, b, idx)
}

/// Every name in `x` is also in `y`.
pub open spec fn names_within(x: Seq<&str>, y: Seq<&str>) -> bool {
    forall|i: int| #![trigger x[i]] 0 <= i < x.len() ==> exists|j: int| 0 <= j < y.len() && #[trigger] y[j]@ == x[i]@
}

proof fn lemma_blocked_by_more_names(lib: LoadedLibrary, x: Seq<&str>, y: Seq<&str>)
    requires
        names_within(x, y),
        library_blocked(lib, x),
    ensures
        library_blocked(lib, y),
{
    let name = lib.name->Some_0@;
    let i = choose|i: int| 0 <= i < x.len() && bytes_contain(encode_utf8(name), encode_utf8(#[trigger] x[i]@));
    let j = choose|j: int| 0 <= j < y.len() && #[trigger] y[j]@ == x[i]@;
    assert(bytes_contain(encode_utf8(name), encode_utf8(y[j]@)));
}

/// Blocking more names, against the same listing of libraries, only adds
/// ranges: those of fewer names are among them, in the same order.  Where the
/// ranges of the larger blocklist fit, so do those of the smaller, and the
/// builder's ranges after the smaller blocklist are a subsequence of those
/// after the larger.
pub proof fn lemma_blocklist_more_names(before: Seq<(usize, usize)>, libs: Seq<LoadedLibrary>, x: Seq<&str>, y: Seq<&str>)
    requires
        names_within(x, y),
    ensures
        is_subsequence(blocked_ranges_of(libs, x), blocked_ranges_of(libs, y)),
        blocked_ranges_fit(libs, y) ==> blocked_ranges_fit(libs, x),
        blocked_ranges_fit(libs, y) ==> is_subsequence(blocklist_outcome(before, libs, x), blocklist_outcome(before, libs, y)),
    decreases libs.len(),
{
    assert forall|i: int, j: int|
        blocked_ranges_fit(libs, y) && 0 <= i < libs.len() && library_blocked(libs[i], x) && 0 <= j < libs[i].segments@.len()
        implies #[trigger] segment_end(libs[i], j) <= usize::MAX by {
        lemma_blocked_by_more_names(libs[i], x, y);
    }
    if libs.len() == 0 {
        let idx = Seq::<int>::empty();
        assert(subsequence_witness(blocked_ranges_of(libs, x), blocked_ranges_of(libs, y), idx));
    } else {
        let init = libs.drop_last();
        let lib = libs.last();
        lemma_blocklist_more_names(before, init, x, y);
        let hx = blocked_ranges_of(init, x);
        let hy = blocked_ranges_of(init, y);
        let idx1 = choose|idx: Seq<int>| #[trigger] subsequence_witness(hx, hy, idx);
        let tx = if library_blocked(lib, x) { library_ranges(lib) } else { Seq::<(usize, usize)>::empty() };
        let ty = if library_blocked(lib, y) { library_ranges(lib) } else { Seq::<(usize, usize)>::empty() };
        let ax = blocked_ranges_of(libs, x);
        let ay = blocked_ranges_of(libs, y);
        assert(ax == hx + tx);
        assert(ay == hy + ty);
        if library_blocked(lib, x) {
            lemma_blocked_by_more_names(lib, x, y);
            let idx = idx1 + Seq::new(tx.len(), |k: int| hy.len() + k);
            assert(subsequence_witness(ax, ay, idx));
        } else {
            assert(subsequence_witness(ax, ay, idx1));
        }
    }
    if blocked_ranges_fit(libs, y) {
        assert(blocked_ranges_fit(libs, x));
    }
}

/// Configures a profiler before it is started: how often to sample, and which
/// address ranges to leave out.
#[derive(Clone)]
pub struct ProfilerGuardBuilder {
    frequency: i32,
    blocklist_segments: Vec<(usize, usize)>,
}

impl ProfilerGuardBuilder {
    /// Samples per second.
    pub closed spec fn sample_frequency(&self) -> i32 {
        self.frequency
    }

    /// The address ranges whose samples will be dropped.
    pub closed spec fn segments(&self) -> Seq<(usize, usize)> {
        self.blocklist_segments@
    }

    pub fn frequency(self, frequency: i32) -> (b: Self)
        ensures
            b.sample_frequency() == frequency,
            b.segments() == self.segments(),
    {
        ProfilerGuardBuilder { frequency, ..self }
    }

    /// Blocks samples taken in the libraries of `libs` whose name contains one
    /// of the names in `blocklist`: their ranges replace any blocked before.
    /// Where one of those ranges would end past the address space the builder
    /// is left as it was.
    pub fn blocklist_from(self, libs: &Vec<LoadedLibrary>, blocklist: &[&str]) -> (b: Self)
        ensures
            b.sample_frequency() == self.sample_frequency(),
            b.segments() == blocklist_outcome(self.segments(), libs@, blocklist@),
    {
        match blocked_segments(libs, blocklist) {
            Some(blocklist_segments) => ProfilerGuardBuilder { blocklist_segments, ..self },
            None => self,
        }
    }

    /// Blocks samples taken in the shared libraries, loaded at this moment,
    /// whose name contains one of the names in `blocklist`; see `blocklist_from`.
    pub fn blocklist(self, blocklist: &[&str]) -> (b: Self)
        ensures
            b.sample_frequency() == self.sample_frequency(),
            exists|libs: Seq<LoadedLibrary>|
                b.segments() == #[trigger] blocklist_outcome(self.segments(), libs, blocklist@),
    {
        let libs = loaded_libraries();
        self.blocklist_from(&libs, blocklist)
    }

    /// The first half of building a profiler guard: hands the blocked ranges
    /// to the process-wide profiler and asks it to start.  Gives the sample
    /// frequency when the signal handler is to be installed next, and an
    /// error where the profiler could not be created or already runs.
    pub fn prepare(self, profiler: &mut Result<Profiler, Error>) -> (r: Result<i32, Error>)
        ensures
            *old(profiler) is Err ==> {
                &&& r == Err::<i32, Error>(Error::CreatingError)
                &&& *final(profiler) == *old(profiler)
            },
            *old(profiler) is Ok ==> {
                let before = (*old(profiler))->Ok_0;
                let after = (*final(profiler))->Ok_0;
                &&& *final(profiler) is Ok
                &&& after.blocked_ranges() == self.segments()
                &&& after.is_running() == before.is_running()
                            &&& after.samples_taken() == before.samples_taken()
                &&& after.collected() == before.collected()
                &&& r == if before.is_running() {
                    Err::<i32, Error>(Error::Running)
                } else {
                    Ok(self.sample_frequency())
                }
            },
    {
        match profiler {
            Err(_) => Err(Error::CreatingError),
            Ok(profiler) => {
                profiler.blocklist_segments = self.blocklist_segments;
                match profiler.start() {
                    Ok(()) => Ok(self.frequency),
                    Err(err) => Err(err),
                }
            },
        }
    }
}

impl Default for ProfilerGuardBuilder {
    fn default() -> (b: ProfilerGuardBuilder)
        ensures
            b.sample_frequency() == 99,
            b.segments() == Seq::<(usize, usize)>::empty(),
    {
        ProfilerGuardBuilder { frequency: 99, blocklist_segments: Vec::new() }
    }
}

} // verus!

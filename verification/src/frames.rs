use vstd::prelude::*;

use smallvec::SmallVec;
use std::time::SystemTime;

use crate::MAX_DEPTH;

verus! {

/// The stack of a sample: for each frame, innermost first, its instruction
/// pointer and the address of the symbol (function) that contains it.  The
/// frames live in a `SmallVec` with room for `MAX_DEPTH` of them inline.
#[verifier::external_body]
pub struct Backtrace {
    frames: SmallVec<[(usize, usize); MAX_DEPTH]>,
}

/// The frames that a backtrace holds, in order.
pub uninterp spec fn backtrace_frames(stack: Backtrace) -> Seq<(usize, usize)>;

/// `SmallVec::with_capacity`: an empty vector.  The capacity asked for is
/// within the inline one, so nothing is allocated.
#[verifier::external_body]
fn smallvec_with_capacity(n: usize) -> (stack: Backtrace)
    requires
        n <= MAX_DEPTH,
    ensures
        backtrace_frames(stack) == Seq::<(usize, usize)>::empty(),
{
    Backtrace { frames: SmallVec::with_capacity(n) }
}

/// `SmallVec::push`: appends `frame` at the end.  The vector stays within its
/// inline capacity, so the push never allocates.
#[verifier::external_body]
fn smallvec_push(stack: &mut Backtrace, frame: (usize, usize))
    requires
        backtrace_frames(*old(stack)).len() < MAX_DEPTH,
    ensures
        backtrace_frames(*final(stack)) == backtrace_frames(*old(stack)).push(frame),
{
    stack.frames.push(frame)
}

/// `SmallVec::len`: the number of frames held.
#[verifier::external_body]
fn smallvec_len(stack: &Backtrace) -> (n: usize)
    ensures
        n == backtrace_frames(*stack).len(),
{
    stack.frames.len()
}

/// Indexing a `SmallVec`: the frame at position `i`.
#[verifier::external_body]
fn smallvec_index(stack: &Backtrace, i: usize) -> (frame: (usize, usize))
    requires
        i < backtrace_frames(*stack).len(),
    ensures
        frame == backtrace_frames(*stack)[i as int],
{
    stack.frames[i]
}

impl Backtrace {
    /// The number of frames held.
    pub fn len(&self) -> (n: usize)
        ensures
            n == backtrace_frames(*self).len(),
    {
        smallvec_len(self)
    }

    /// The frame at position `i`, innermost first.
    pub fn get(&self, i: usize) -> (frame: (usize, usize))
        requires
            i < backtrace_frames(*self).len(),
        ensures
            frame == backtrace_frames(*self)[i as int],
    {
        smallvec_index(self, i)
    }
}

/// An empty backtrace, ready to receive up to `MAX_DEPTH` frames.
pub fn empty_backtrace() -> (stack: Backtrace)
    ensures
        backtrace_frames(stack) == Seq::<(usize, usize)>::empty(),
{
    smallvec_with_capacity(MAX_DEPTH)
}

/// The frames held after recording `frame` onto `frames`: appended while
/// fewer than `MAX_DEPTH` are held, dropped after.
pub open spec fn record_step(frames: Seq<(usize, usize)>, frame: (usize, usize)) -> Seq<(usize, usize)> {
    if frames.len() < MAX_DEPTH {
        frames.push(frame)
    } else {
        frames
    }
}

/// The frames held after recording each of `walk`, in order, onto an empty backtrace.
pub open spec fn record_walk(walk: Seq<(usize, usize)>) -> Seq<(usize, usize)>
    decreases walk.len(),
{
    if walk.len() == 0 {
        Seq::empty()
    } else {
        record_step(record_walk(walk.drop_last()), walk.last())
    }
}

/// A backtrace built by recording the frames of a stack walk holds the first
/// `MAX_DEPTH` frames of the walk (all of them if there are fewer), in order.
pub proof fn lemma_record_walk(walk: Seq<(usize, usize)>)
    ensures
        record_walk(walk) == walk.take(if walk.len() < MAX_DEPTH { walk.len() as int } else { MAX_DEPTH as int }),
    decreases walk.len(),
{
    if walk.len() > 0 {
        let init = walk.drop_last();
        lemma_record_walk(init);
        if init.len() < MAX_DEPTH {
            assert(init.take(init.len() as int).push(walk.last()) =~= walk.take(walk.len() as int));
        } else {
            assert(init.take(MAX_DEPTH as int) =~= walk.take(MAX_DEPTH as int));
        }
    }
}

/// Records one frame of a stack walk.  While fewer than `MAX_DEPTH` frames are
/// held the frame is appended and the walk goes on (`true`); once the stack is
/// full the frame is dropped and the walk stops (`false`).
pub fn record_frame(stack: &mut Backtrace, frame: (usize, usize)) -> (go_on: bool)
    ensures
        go_on == (backtrace_frames(*old(stack)).len() < MAX_DEPTH),
        backtrace_frames(*final(stack)) == record_step(backtrace_frames(*old(stack)), frame),
        backtrace_frames(*old(stack)).len() <= MAX_DEPTH ==> backtrace_frames(*final(stack)).len() <= MAX_DEPTH,
{
    if smallvec_len(stack) < MAX_DEPTH {
        smallvec_push(stack, frame);
        true
    } else {
        false
    }
}

/// What identifies a stack in the collected data: the symbol address of each
/// frame, in order, and the thread that was sampled.
pub open spec fn stack_key(stack: Backtrace, thread_id: u64) -> (Seq<usize>, u64) {
    (backtrace_frames(stack).map_values(|f: (usize, usize)| f.1), thread_id)
}

/// The identity of a stack holds, in order, the symbol address of every frame,
/// and the thread.
pub proof fn lemma_stack_key(stack: Backtrace, thread_id: u64)
    ensures
        stack_key(stack, thread_id).1 == thread_id,
        stack_key(stack, thread_id).0.len() == backtrace_frames(stack).len(),
        forall|j: int| 0 <= j < backtrace_frames(stack).len() ==> #[trigger] stack_key(stack, thread_id).0[j] == backtrace_frames(stack)[j].1,
{
}

/// Two sampled stacks have the same identity exactly when they come from the
/// same thread, have as many frames, and agree on the symbol of every frame.
pub proof fn lemma_same_key(a: Backtrace, a_thread: u64, b: Backtrace, b_thread: u64)
    ensures
        (stack_key(a, a_thread) == stack_key(b, b_thread)) == (a_thread == b_thread && backtrace_frames(a).len()
            == backtrace_frames(b).len() && forall|j: int|
            0 <= j < backtrace_frames(a).len() ==> #[trigger] backtrace_frames(a)[j].1 == backtrace_frames(b)[j].1),
{
    lemma_stack_key(a, a_thread);
    lemma_stack_key(b, b_thread);
    if a_thread == b_thread && backtrace_frames(a).len() == backtrace_frames(b).len() && forall|j: int|
        0 <= j < backtrace_frames(a).len() ==> #[trigger] backtrace_frames(a)[j].1 == backtrace_frames(b)[j].1 {
        assert(stack_key(a, a_thread).0 =~= stack_key(b, b_thread).0);
    }
    if stack_key(a, a_thread) == stack_key(b, b_thread) {
        assert forall|j: int| 0 <= j < backtrace_frames(a).len() implies #[trigger] backtrace_frames(a)[j].1
            == backtrace_frames(b)[j].1 by {
            assert(stack_key(a, a_thread).0[j] == stack_key(b, b_thread).0[j]);
        }
    }
}

/// Whether two sampled stacks are the same for aggregation: same thread, as
/// many frames, and the same symbol in every frame.
pub fn same_stack(a: &Backtrace, a_thread: u64, b: &Backtrace, b_thread: u64) -> (same: bool)
    ensures
        same == (stack_key(*a, a_thread) == stack_key(*b, b_thread)),
        same == (a_thread == b_thread && backtrace_frames(*a).len() == backtrace_frames(*b).len() && forall|j: int|
            0 <= j < backtrace_frames(*a).len() ==> #[trigger] backtrace_frames(*a)[j].1 == backtrace_frames(*b)[j].1),
{
    let ghost fa = backtrace_frames(*a);
    let ghost fb = backtrace_frames(*b);
    proof {
        lemma_same_key(*a, a_thread, *b, b_thread);
    }
    if a_thread != b_thread {
        return false;
    }
    let n = smallvec_len(a);
    if n != smallvec_len(b) {
        assert(stack_key(*a, a_thread).0.len() != stack_key(*b, b_thread).0.len());
        return false;
    }
    let mut i: usize = 0;
    while i < n
        invariant
            i <= n,
            n == fa.len(),
            n == fb.len(),
            fa == backtrace_frames(*a),
            fb == backtrace_frames(*b),
            forall|j: int| 0 <= j < i ==> fa[j].1 == fb[j].1,
        decreases n - i,
    {
        if smallvec_index(a, i).1 != smallvec_index(b, i).1 {
            assert(stack_key(*a, a_thread).0[i as int] != stack_key(*b, b_thread).0[i as int]);
            return false;
        }
        i = i + 1;
    }
    assert(stack_key(*a, a_thread).0 =~= stack_key(*b, b_thread).0);
    true
}

/// A sampled stack as the collector stores it, before symbols are resolved.
pub struct UnresolvedFrames {
    pub frames: Backtrace,
    pub thread_name: Vec<u8>,
    pub thread_id: u64,
    pub sample_timestamp: SystemTime,
}

impl UnresolvedFrames {
    /// The identity of this stack in the collected data.
    pub open spec fn key(&self) -> (Seq<usize>, u64) {
        stack_key(self.frames, self.thread_id)
    }

    pub fn new(frames: Backtrace, thread_name: Vec<u8>, thread_id: u64, sample_timestamp: SystemTime) -> (uf: Self)
        ensures
            uf == (UnresolvedFrames { frames, thread_name, thread_id, sample_timestamp }),
    {
        UnresolvedFrames { frames, thread_name, thread_id, sample_timestamp }
    }
}

} // verus!

use vstd::prelude::*;

use crate::frames::{same_stack, stack_key, Backtrace, UnresolvedFrames};

verus! {

/// The sum of the counts recorded for stack `key` in `entries`.
pub open spec fn count_of(entries: Seq<(UnresolvedFrames, int)>, key: (Seq<usize>, u64)) -> int
    decreases entries.len(),
{
    if entries.len() == 0 {
        0
    } else {
        count_of(entries.drop_last(), key) + if entries.last().0.key() == key {
            entries.last().1
        } else {
            0
        }
    }
}

/// The sum of all counts in `entries`.
pub open spec fn total_count(entries: Seq<(UnresolvedFrames, int)>) -> int
    decreases entries.len(),
{
    if entries.len() == 0 {
        0
    } else {
        total_count(entries.drop_last()) + entries.last().1
    }
}

/// No stack is recorded twice.
pub open spec fn distinct_stacks(entries: Seq<(UnresolvedFrames, int)>) -> bool {
    forall|i: int, j: int|
        0 <= i < j < entries.len() ==> #[trigger] entries[i].0.key() != #[trigger] entries[j].0.key()
}

/// Whether `entries` already holds stack `key`.
pub open spec fn holds_stack(entries: Seq<(UnresolvedFrames, int)>, key: (Seq<usize>, u64)) -> bool {
    exists|i: int| 0 <= i < entries.len() && #[trigger] entries[i].0.key() == key
}

/// What adding `count` samples of `frames` makes of `entries`: the count of an
/// entry with the same stack grows by `count`; a new stack is appended.
pub open spec fn spec_add(entries: Seq<(UnresolvedFrames, int)>, frames: UnresolvedFrames, count: int) -> Seq<(UnresolvedFrames, int)> {
    if holds_stack(entries, frames.key()) {
        let i = choose|i: int| 0 <= i < entries.len() && #[trigger] entries[i].0.key() == frames.key();
        entries.update(i, (entries[i].0, entries[i].1 + count))
    } else {
        entries.push((frames, count))
    }
}

/// Whether adding `count` samples of stack `key` keeps every count within `i64`.
pub open spec fn add_fits(entries: Seq<(UnresolvedFrames, int)>, key: (Seq<usize>, u64), count: int) -> bool {
    forall|i: int|
        0 <= i < entries.len() && #[trigger] entries[i].0.key() == key ==> i64::MIN <= entries[i].1 + count <= i64::MAX
}

proof fn lemma_bump_count(entries: Seq<(UnresolvedFrames, int)>, i: int, count: int, key: (Seq<usize>, u64))
    requires
        0 <= i < entries.len(),
    ensures
        count_of(entries.update(i, (entries[i].0, entries[i].1 + count)), key) == count_of(entries, key)
            + if entries[i].0.key() == key { count } else { 0 },
        total_count(entries.update(i, (entries[i].0, entries[i].1 + count))) == total_count(entries) + count,
    decreases entries.len(),
{
    let bumped = entries.update(i, (entries[i].0, entries[i].1 + count));
    if i == entries.len() - 1 {
        assert(bumped.drop_last() =~= entries.drop_last());
    } else {
        lemma_bump_count(entries.drop_last(), i, count, key);
        assert(bumped.drop_last() =~= entries.drop_last().update(i, (entries[i].0, entries[i].1 + count)));
    }
}

/// Adding `count` samples of a stack raises the count of that stack by
/// `count`, leaves the count of every other stack as it was, and raises the
/// total by `count`.
pub proof fn lemma_add_counts(entries: Seq<(UnresolvedFrames, int)>, frames: UnresolvedFrames, count: int, key: (Seq<usize>, u64))
    ensures
        count_of(spec_add(entries, frames, count), key) == count_of(entries, key)
            + if frames.key() == key { count } else { 0 },
        total_count(spec_add(entries, frames, count)) == total_count(entries) + count,
{
    if holds_stack(entries, frames.key()) {
        let i = choose|i: int| 0 <= i < entries.len() && #[trigger] entries[i].0.key() == frames.key();
        lemma_bump_count(entries, i, count, key);
    } else {
        assert(entries.push((frames, count)).drop_last() =~= entries);
    }
}

/// Adding samples never records a stack twice.
pub proof fn lemma_add_keeps_distinct(entries: Seq<(UnresolvedFrames, int)>, frames: UnresolvedFrames, count: int)
    requires
        distinct_stacks(entries),
    ensures
        distinct_stacks(spec_add(entries, frames, count)),
        spec_add(entries, frames, count).len() == entries.len() + if holds_stack(entries, frames.key()) { 0int } else { 1int },
{
    let added = spec_add(entries, frames, count);
    if holds_stack(entries, frames.key()) {
    } else {
        assert forall|i: int, j: int| 0 <= i < j < added.len() implies #[trigger] added[i].0.key() != #[trigger] added[j].0.key() by {
            if j == entries.len() {
                assert(entries[i].0.key() != frames.key());
            }
        }
    }
}

/// A stack that `entries` does not hold has count 0.
pub proof fn lemma_count_of_absent(entries: Seq<(UnresolvedFrames, int)>, key: (Seq<usize>, u64))
    requires
        !holds_stack(entries, key),
    ensures
        count_of(entries, key) == 0,
    decreases entries.len(),
{
    if entries.len() > 0 {
        let init = entries.drop_last();
        assert(!holds_stack(init, key)) by {
            if holds_stack(init, key) {
                let i = choose|i: int| 0 <= i < init.len() && #[trigger] init[i].0.key() == key;
                assert(entries[i].0.key() == key);
            }
        }
        assert(entries[entries.len() - 1].0.key() != key);
        lemma_count_of_absent(init, key);
    }
}

/// Where no stack is recorded twice, the count of a recorded stack is the
/// count of its entry.
pub proof fn lemma_count_of_entry(entries: Seq<(UnresolvedFrames, int)>, i: int)
    requires
        distinct_stacks(entries),
        0 <= i < entries.len(),
    ensures
        count_of(entries, entries[i].0.key()) == entries[i].1,
    decreases entries.len(),
{
    let key = entries[i].0.key();
    let init = entries.drop_last();
    if i == entries.len() - 1 {
        assert(!holds_stack(init, key)) by {
            if holds_stack(init, key) {
                let k = choose|k: int| 0 <= k < init.len() && #[trigger] init[k].0.key() == key;
                assert(entries[k].0.key() == entries[i].0.key());
            }
        }
        lemma_count_of_absent(init, key);
    } else {
        assert(init[i] == entries[i]);
        assert(distinct_stacks(init)) by {
            assert forall|a: int, b: int| 0 <= a < b < init.len() implies #[trigger] init[a].0.key() != #[trigger] init[b].0.key() by {
                assert(entries[a].0.key() != entries[b].0.key());
            }
        }
        lemma_count_of_entry(init, i);
        assert(entries[entries.len() - 1].0.key() != key);
    }
}

/// Where no stack is recorded twice, adding `count` samples of a stack keeps
/// every count in `i64` exactly when the stack's count plus `count` is in
/// `i64` (a stack not yet recorded counts 0).
pub proof fn lemma_add_fits_count(entries: Seq<(UnresolvedFrames, int)>, key: (Seq<usize>, u64), count: int)
    requires
        distinct_stacks(entries),
        i32::MIN <= count <= i32::MAX,
    ensures
        add_fits(entries, key, count) == (i64::MIN <= count_of(entries, key) + count <= i64::MAX),
{
    if holds_stack(entries, key) {
        let i = choose|i: int| 0 <= i < entries.len() && #[trigger] entries[i].0.key() == key;
        lemma_count_of_entry(entries, i);
    } else {
        lemma_count_of_absent(entries, key);
    }
}

/// Aggregates samples: one entry per distinct stack, with the number of times
/// it was sampled.
pub struct Collector {
    stacks: Vec<UnresolvedFrames>,
    counts: Vec<i64>,
}

impl Collector {
    /// The entries, in the order in which their stacks were first seen.
    pub closed spec fn entries(&self) -> Seq<(UnresolvedFrames, int)> {
        Seq::new(self.stacks@.len(), |i: int| (self.stacks@[i], self.counts@[i] as int))
    }

    /// One count per stack, and no stack recorded twice.
    #[verifier::type_invariant]
    spec fn wf(&self) -> bool {
        &&& self.stacks@.len() == self.counts@.len()
        &&& distinct_stacks(self.entries())
    }

    pub fn new() -> (c: Self)
        ensures
            c.entries() == Seq::<(UnresolvedFrames, int)>::empty(),
            distinct_stacks(c.entries()),
    {
        let c = Collector { stacks: Vec::new(), counts: Vec::new() };
        assert(c.entries() =~= Seq::<(UnresolvedFrames, int)>::empty());
        c
    }

    /// The number of distinct stacks.
    pub fn len(&self) -> (n: usize)
        ensures
            n == self.entries().len(),
            distinct_stacks(self.entries()),
    {
        proof {
            use_type_invariant(self);
        }
        self.stacks.len()
    }

    /// The stack at position `i` and how often it was sampled.
    pub fn entry(&self, i: usize) -> (e: (&UnresolvedFrames, i64))
        requires
            i < self.entries().len(),
        ensures
            *e.0 == self.entries()[i as int].0,
            e.1 == self.entries()[i as int].1,
    {
        proof {
            use_type_invariant(self);
        }
        (&self.stacks[i], self.counts[i])
    }

    /// Where the entry for stack (`frames`, `thread_id`) stands, if there is one.
    pub fn position(&self, frames: &Backtrace, thread_id: u64) -> (pos: Option<usize>)
        ensures
            distinct_stacks(self.entries()),
            match pos {
                Some(i) => i < self.entries().len() && self.entries()[i as int].0.key() == stack_key(*frames, thread_id),
                None => !holds_stack(self.entries(), stack_key(*frames, thread_id)),
            },
    {
        proof {
            use_type_invariant(self);
        }
        let mut i: usize = 0;
        while i < self.stacks.len()
            invariant
                self.stacks@.len() == self.counts@.len(),
                distinct_stacks(self.entries()),
                i <= self.stacks@.len(),
                forall|j: int| 0 <= j < i ==> #[trigger] self.entries()[j].0.key() != stack_key(*frames, thread_id),
            decreases self.stacks@.len() - i,
        {
            let s = &self.stacks[i];
            if same_stack(&s.frames, s.thread_id, frames, thread_id) {
                return Some(i);
            }
            i = i + 1;
        }
        None
    }

    /// Records `count` more samples of the stack `key`.
    pub fn add(&mut self, key: UnresolvedFrames, count: i64)
        requires
            add_fits(old(self).entries(), key.key(), count as int),
        ensures
            final(self).entries() == spec_add(old(self).entries(), key, count as int),
            distinct_stacks(final(self).entries()),
    {
        proof {
            use_type_invariant(&*self);
            lemma_add_keeps_distinct(self.entries(), key, count as int);
        }
        let ghost old_entries = self.entries();
        let mut taken = Collector::new();
        std::mem::swap(&mut taken, self);
        let Collector { mut stacks, mut counts } = taken;
        assert(Seq::new(stacks@.len(), |i: int| (stacks@[i], counts@[i] as int)) =~= old_entries);
        let mut i: usize = 0;
        let mut found = false;
        while i < stacks.len()
            invariant_except_break
                !found,
            invariant
                stacks@.len() == counts@.len(),
                old_entries == Seq::new(stacks@.len(), |i: int| (stacks@[i], counts@[i] as int)),
                i <= stacks@.len(),
                forall|j: int| 0 <= j < i ==> #[trigger] old_entries[j].0.key() != key.key(),
            ensures
                found ==> i < stacks@.len() && old_entries[i as int].0.key() == key.key(),
                !found ==> !holds_stack(old_entries, key.key()),
            decreases stacks@.len() - i,
        {
            let s = &stacks[i];
            if same_stack(&s.frames, s.thread_id, &key.frames, key.thread_id) {
                found = true;
                break;
            }
            i = i + 1;
        }
        if found {
            let c = counts[i] + count;
            counts.set(i, c);
            assert(holds_stack(old_entries, key.key()));
            let ghost j = choose|j: int| 0 <= j < old_entries.len() && #[trigger] old_entries[j].0.key() == key.key();
            assert(j == i);
        } else {
            stacks.push(key);
            counts.push(count);
        }
        assert(Seq::new(stacks@.len(), |i: int| (stacks@[i], counts@[i] as int)) =~= spec_add(old_entries, key, count as int));
        *self = Collector { stacks, counts };
    }
}

} // verus!

//! Pairing of sample triggers with the stack walks that follow them.
//!
//! A trigger (a sampling interrupt, a page fault, a switch-in) is queued
//! when it is seen. Its stacks arrive later as events of their own, each
//! carrying the trigger's timestamp: first the kernel half, if there is
//! one, then the user half. The user half ends the wait: it completes every
//! queued trigger that is not newer than it, oldest first.

use crate::context_switch::{ContextSwitchHandler, OffCpuSampleGroup, ThreadContextSwitchData};
use crate::profile_values::cpu_delta_of;
use crate::timestamp_converter::{clamp_u64, scale};
use crate::types::StackFrame;
use fxprof_processed_profile::CpuDelta;
use std::collections::VecDeque;
use vstd::prelude::*;

verus! {

/// An on- or off-CPU sample for which the user stack is not known yet.
#[derive(Debug, Clone, PartialEq, Eq)]
pub struct PendingStack {
    /// The raw timestamp of the event that triggered the sample.
    pub timestamp: u64,
    /// The kernel half of the stack, once it has arrived.
    pub kernel_stack: Option<Vec<StackFrame>>,
    pub off_cpu_sample_group: Option<OffCpuSampleGroup>,
    pub on_cpu_sample_cpu_delta: Option<CpuDelta>,
}

pub struct PendingStackView {
    pub timestamp: u64,
    pub kernel_stack: Option<Seq<StackFrame>>,
    pub off_cpu_sample_group: Option<OffCpuSampleGroup>,
    pub on_cpu_sample_cpu_delta: Option<CpuDelta>,
}

impl View for PendingStack {
    type V = PendingStackView;

    open spec fn view(&self) -> PendingStackView {
        PendingStackView {
            timestamp: self.timestamp,
            kernel_stack: match self.kernel_stack {
                Some(stack) => Some(stack@),
                None => None,
            },
            off_cpu_sample_group: self.off_cpu_sample_group,
            on_cpu_sample_cpu_delta: self.on_cpu_sample_cpu_delta,
        }
    }
}

/// A sample whose stack is complete but not interned yet.
#[derive(Debug, Clone, PartialEq, Eq)]
pub struct StackSample {
    pub raw_timestamp: u64,
    pub cpu_delta: CpuDelta,
    pub weight: i32,
    /// The frames, innermost first.
    pub stack: Vec<StackFrame>,
    /// Whether the sample stands for a trigger on the CPU, not for time
    /// off the CPU.
    pub on_cpu: bool,
}

pub struct StackSampleView {
    pub raw_timestamp: u64,
    pub cpu_delta: CpuDelta,
    pub weight: i32,
    pub stack: Seq<StackFrame>,
    pub on_cpu: bool,
}

impl View for StackSample {
    type V = StackSampleView;

    open spec fn view(&self) -> StackSampleView {
        StackSampleView {
            raw_timestamp: self.raw_timestamp,
            cpu_delta: self.cpu_delta,
            weight: self.weight,
            stack: self.stack@,
            on_cpu: self.on_cpu,
        }
    }
}

/// The views of a sequence of pending stacks.
pub open spec fn pending_views(entries: Seq<PendingStack>) -> Seq<PendingStackView> {
    entries.map_values(|e: PendingStack| e@)
}

/// The views of a sequence of samples.
pub open spec fn sample_views(samples: Seq<StackSample>) -> Seq<StackSampleView> {
    samples.map_values(|s: StackSample| s@)
}

/// The weight of the sample that stands for all but the first of `count`
/// intervals; zero where that number does not fit the weight's type.
pub open spec fn rest_weight(count: u64) -> i32 {
    if 1 <= count && count - 1 <= i32::MAX {
        (count - 1) as i32
    } else {
        0
    }
}

/// The samples that stand for an off-CPU group: one at its begin, which
/// carries the running time accumulated before it and weighs 1, and, if
/// the group counts more than one interval, one at its end with no CPU
/// time, which weighs the rest. `factor` is the number of nanoseconds per
/// raw tick.
pub open spec fn group_samples(
    group: OffCpuSampleGroup,
    user_stack: Seq<StackFrame>,
    accumulated: u64,
    factor: u64,
) -> Seq<StackSampleView> {
    let first = StackSampleView {
        raw_timestamp: group.begin_timestamp,
        cpu_delta: cpu_delta_of(clamp_u64(accumulated * factor)),
        weight: 1,
        stack: user_stack,
        on_cpu: false,
    };
    let rest = StackSampleView {
        raw_timestamp: group.end_timestamp,
        cpu_delta: cpu_delta_of(0),
        weight: rest_weight(group.sample_count),
        stack: user_stack,
        on_cpu: false,
    };
    if group.sample_count > 1 {
        seq![first, rest]
    } else {
        seq![first]
    }
}

/// The sample of an on-CPU trigger: one at the trigger's time, whose
/// stack is the kernel half, if one arrived, followed by the user half.
pub open spec fn trigger_sample(
    entry: PendingStackView,
    cpu_delta: CpuDelta,
    user_stack: Seq<StackFrame>,
) -> StackSampleView {
    StackSampleView {
        raw_timestamp: entry.timestamp,
        cpu_delta,
        weight: 1,
        stack: match entry.kernel_stack {
            Some(kernel_stack) => kernel_stack + user_stack,
            None => user_stack,
        },
        on_cpu: true,
    }
}

/// The samples that one completed entry gives: those of its off-CPU
/// group, if it has one, then that of its on-CPU trigger, if it has one.
/// `accumulated` is the thread's running time that no sample has carried
/// yet.
pub open spec fn entry_samples(
    entry: PendingStackView,
    user_stack: Seq<StackFrame>,
    accumulated: u64,
    factor: u64,
) -> Seq<StackSampleView> {
    let off_cpu = match entry.off_cpu_sample_group {
        Some(group) => group_samples(group, user_stack, accumulated, factor),
        None => Seq::empty(),
    };
    let on_cpu = match entry.on_cpu_sample_cpu_delta {
        Some(cpu_delta) => seq![trigger_sample(entry, cpu_delta, user_stack)],
        None => Seq::empty(),
    };
    off_cpu + on_cpu
}

/// The sum of the weights of a sequence of samples.
pub open spec fn total_weight(samples: Seq<StackSampleView>) -> int
    decreases samples.len(),
{
    if samples.len() == 0 {
        0
    } else {
        total_weight(samples.drop_last()) + samples.last().weight
    }
}

/// The accumulated running time that is left after an entry has been
/// completed: an off-CPU group takes all of it.
pub open spec fn accumulated_after(entry: PendingStackView, accumulated: u64) -> u64 {
    if entry.off_cpu_sample_group is Some {
        0
    } else {
        accumulated
    }
}

/// How many entries at the front of the queue a user stack for time
/// `timestamp` completes: all up to the first that is newer.
pub open spec fn ready_count(entries: Seq<PendingStackView>, timestamp: u64) -> nat
    decreases entries.len(),
{
    if entries.len() == 0 || entries[0].timestamp > timestamp {
        0
    } else {
        1 + ready_count(entries.skip(1), timestamp)
    }
}

/// The samples that a user stack for time `timestamp` gives, in the order
/// in which the entries were queued.
pub open spec fn resolved_samples(
    entries: Seq<PendingStackView>,
    timestamp: u64,
    user_stack: Seq<StackFrame>,
    accumulated: u64,
    factor: u64,
) -> Seq<StackSampleView>
    decreases entries.len(),
{
    if entries.len() == 0 || entries[0].timestamp > timestamp {
        Seq::empty()
    } else {
        entry_samples(entries[0], user_stack, accumulated, factor) + resolved_samples(
            entries.skip(1),
            timestamp,
            user_stack,
            accumulated_after(entries[0], accumulated),
            factor,
        )
    }
}

/// The accumulated running time that is left once a user stack for time
/// `timestamp` has completed its entries.
pub open spec fn resolved_accumulated(
    entries: Seq<PendingStackView>,
    timestamp: u64,
    accumulated: u64,
) -> u64
    decreases entries.len(),
{
    if entries.len() == 0 || entries[0].timestamp > timestamp {
        accumulated
    } else {
        resolved_accumulated(
            entries.skip(1),
            timestamp,
            accumulated_after(entries[0], accumulated),
        )
    }
}

/// The index of the newest entry that was triggered at `timestamp`.
pub open spec fn newest_trigger(entries: Seq<PendingStackView>, timestamp: u64) -> Option<int>
    decreases entries.len(),
{
    if entries.len() == 0 {
        None
    } else if entries.last().timestamp == timestamp {
        Some(entries.len() - 1)
    } else {
        newest_trigger(entries.drop_last(), timestamp)
    }
}

/// The entry with one more kernel stack: the first becomes its kernel
/// half, a further one is appended to it.
pub open spec fn with_kernel_stack(entry: PendingStackView, stack: Seq<StackFrame>)
    -> PendingStackView {
    PendingStackView {
        kernel_stack: Some(
            match entry.kernel_stack {
                Some(earlier) => earlier + stack,
                None => stack,
            },
        ),
        ..entry
    }
}

/// The queue after a kernel stack for time `timestamp` has arrived.
pub open spec fn after_kernel_stack(
    entries: Seq<PendingStackView>,
    timestamp: u64,
    stack: Seq<StackFrame>,
) -> Seq<PendingStackView> {
    match newest_trigger(entries, timestamp) {
        Some(i) => entries.update(i, with_kernel_stack(entries[i], stack)),
        None => entries,
    }
}

/// The entries that are not older than `limit`, in their order.
pub open spec fn not_older(entries: Seq<PendingStackView>, limit: u64) -> Seq<PendingStackView>
    decreases entries.len(),
{
    if entries.len() == 0 {
        Seq::empty()
    } else {
        let front = not_older(entries.drop_last(), limit);
        if entries.last().timestamp >= limit {
            front.push(entries.last())
        } else {
            front
        }
    }
}

/// The oldest time that a queue keeps once it has seen the time `newest`:
/// `window` before it. Without a window the queue keeps everything.
pub open spec fn window_limit(newest: u64, window: Option<u64>) -> u64 {
    match window {
        Some(width) => if newest >= width {
            (newest - width) as u64
        } else {
            0
        },
        None => 0,
    }
}

/// The queue with one more trigger. Where the queue has a window, the
/// entries that are older than the new trigger by more than the window
/// are pruned: their stacks are not expected any more.
pub open spec fn queued(
    entries: Seq<PendingStackView>,
    entry: PendingStackView,
    window: Option<u64>,
) -> Seq<PendingStackView> {
    match window {
        Some(_) => not_older(entries.push(entry), window_limit(entry.timestamp, window)),
        None => entries.push(entry),
    }
}

/// Pruning keeps the entries that are not too old, and nothing else: what
/// is kept was there, in the same order.
pub proof fn lemma_not_older(entries: Seq<PendingStackView>, limit: u64)
    ensures
        not_older(entries, limit).len() <= entries.len(),
        forall|i: int|
            0 <= i < not_older(entries, limit).len() ==> (#[trigger] not_older(
                entries,
                limit,
            )[i]).timestamp >= limit,
        (forall|i: int| 0 <= i < entries.len() ==> (#[trigger] entries[i]).timestamp >= limit)
            ==> not_older(entries, limit) == entries,
    decreases entries.len(),
{
    if entries.len() > 0 {
        let front = entries.drop_last();
        lemma_not_older(front, limit);
        let kept = not_older(entries, limit);
        assert forall|i: int| 0 <= i < kept.len() implies (#[trigger] kept[i]).timestamp
            >= limit by {
            if i < not_older(front, limit).len() {
                assert(kept[i] == not_older(front, limit)[i]);
            }
        }
        if forall|i: int| 0 <= i < entries.len() ==> (#[trigger] entries[i]).timestamp >= limit {
            assert forall|i: int| 0 <= i < front.len() implies (#[trigger] front[i]).timestamp
                >= limit by {
                assert(front[i] == entries[i]);
            }
            assert(front.push(entries.last()) == entries);
        }
    }
}

/// What became of a kernel stack.
#[derive(Debug, Clone, Copy, PartialEq, Eq, Structural)]
pub enum KernelStackOutcome {
    /// No queued trigger has the stack's timestamp: the stack was dropped.
    Dropped,
    /// The stack became the kernel half of its trigger.
    Attached,
    /// The trigger had a kernel half already: the stack was appended to it.
    Appended,
}

/// The outcome that a kernel stack for time `timestamp` has on a queue.
pub open spec fn kernel_stack_outcome(entries: Seq<PendingStackView>, timestamp: u64)
    -> KernelStackOutcome {
    match newest_trigger(entries, timestamp) {
        Some(i) => if entries[i].kernel_stack is Some {
            KernelStackOutcome::Appended
        } else {
            KernelStackOutcome::Attached
        },
        None => KernelStackOutcome::Dropped,
    }
}

/// A copy of a stack.
pub fn copy_stack(stack: &Vec<StackFrame>) -> (copy: Vec<StackFrame>)
    ensures
        copy@ == stack@,
{
    let mut copy: Vec<StackFrame> = Vec::new();
    let mut i: usize = 0;
    while i < stack.len()
        invariant
            i <= stack.len(),
            copy@ == stack@.take(i as int),
        decreases stack.len() - i,
    {
        copy.push(stack[i]);
        i += 1;
    }
    copy
}

/// Appends `tail` to `stack`.
pub fn append_stack(stack: &mut Vec<StackFrame>, tail: &Vec<StackFrame>)
    ensures
        final(stack)@ == old(stack)@ + tail@,
{
    let mut i: usize = 0;
    while i < tail.len()
        invariant
            i <= tail.len(),
            stack@ == old(stack)@ + tail@.take(i as int),
        decreases tail.len() - i,
    {
        stack.push(tail[i]);
        i += 1;
    }
}

/// The per-thread queue of triggers that wait for their user stack.
#[derive(Debug, Clone)]
pub struct PendingStacks {
    pub queue: VecDeque<PendingStack>,
}

impl View for PendingStacks {
    type V = Seq<PendingStackView>;

    open spec fn view(&self) -> Seq<PendingStackView> {
        pending_views(self.queue@)
    }
}

impl PendingStacks {
    pub fn new() -> (pending: Self)
        ensures
            pending@ == Seq::<PendingStackView>::empty(),
    {
        PendingStacks { queue: VecDeque::new() }
    }

    pub fn len(&self) -> (n: usize)
        ensures
            n == self@.len(),
    {
        self.queue.len()
    }

    /// Queues a trigger behind those that wait already.
    pub fn push(&mut self, entry: PendingStack)
        ensures
            final(self)@ == old(self)@.push(entry@),
    {
        self.queue.push_back(entry);
    }

    /// Drops the entries that are older than `limit`.
    pub fn prune(&mut self, limit: u64)
        ensures
            final(self)@ == not_older(old(self)@, limit),
    {
        let mut kept: VecDeque<PendingStack> = VecDeque::new();
        let ghost mut done: int = 0;
        assert(old(self)@.take(0) == Seq::<PendingStackView>::empty());
        assert(pending_views(kept@) =~= Seq::<PendingStackView>::empty());
        assert(self@.skip(0) == self@);
        while self.queue.len() > 0
            invariant
                0 <= done <= old(self)@.len(),
                self@ == old(self)@.skip(done),
                pending_views(kept@) == not_older(old(self)@.take(done), limit),
            decreases self.queue.len(),
        {
            let ghost before = self@;
            let popped = self.queue.pop_front();
            let entry = popped.unwrap();
            proof {
                assert(before.len() > 0);
                assert(before.len() == old(self)@.len() - done);
                assert(entry@ == before[0]);
                assert(before[0] == old(self)@[done]);
                assert(self@ == before.skip(1));
                assert(before.skip(1) == old(self)@.skip(done + 1));
                let next = old(self)@.take(done + 1);
                assert(next.drop_last() == old(self)@.take(done));
                assert(next.last() == old(self)@[done]);
            }
            if entry.timestamp >= limit {
                proof {
                    assert(pending_views(kept@.push(entry)) =~= pending_views(kept@).push(entry@));
                }
                kept.push_back(entry);
            }
            proof {
                done = done + 1;
            }
        }
        assert(old(self)@.take(done) == old(self)@);
        self.queue = kept;
    }

    /// Queues a trigger, and prunes the queue if it has a window.
    pub fn push_within(&mut self, entry: PendingStack, window: Option<u64>)
        ensures
            final(self)@ == queued(old(self)@, entry@, window),
    {
        let newest: u64 = entry.timestamp;
        self.push(entry);
        match window {
            Some(width) => {
                self.prune(newest.saturating_sub(width));
            },
            None => {},
        }
    }

    /// A kernel stack for the trigger at `timestamp` has arrived. The
    /// queue is searched from the newest entry to the oldest.
    pub fn attach_kernel_stack(&mut self, timestamp: u64, stack: Vec<StackFrame>) -> (outcome:
        KernelStackOutcome)
        ensures
            outcome == kernel_stack_outcome(old(self)@, timestamp),
            final(self)@ == after_kernel_stack(old(self)@, timestamp, stack@),
    {
        let mut i: usize = self.queue.len();
        assert(self@.take(i as int) == self@);
        while i > 0
            invariant
                i <= self.queue.len(),
                self.queue@ == old(self).queue@,
                newest_trigger(self@, timestamp) == newest_trigger(self@.take(i as int), timestamp),
            decreases i,
        {
            proof {
                let prefix = self@.take(i as int);
                assert(prefix.drop_last() == self@.take(i - 1));
                assert(prefix.last() == self@[i - 1]);
            }
            i -= 1;
            if self.queue[i].timestamp == timestamp {
                let found = self.queue.remove(i);
                let mut entry = found.unwrap();
                let ghost before = entry@;
                let outcome = match entry.kernel_stack {
                    Some(mut earlier) => {
                        append_stack(&mut earlier, &stack);
                        entry.kernel_stack = Some(earlier);
                        KernelStackOutcome::Appended
                    },
                    None => {
                        entry.kernel_stack = Some(stack);
                        KernelStackOutcome::Attached
                    },
                };
                assert(entry@ == with_kernel_stack(before, stack@));
                self.queue.insert(i, entry);
                assert(self@ == old(self)@.update(i as int, entry@));
                return outcome;
            }
        }
        assert(self@.take(0) == Seq::<PendingStackView>::empty());
        KernelStackOutcome::Dropped
    }

    /// A user stack for time `timestamp` has arrived. Every entry at the
    /// front of the queue that is not newer than it is completed, oldest
    /// first, and gives its samples.
    pub fn resolve_user_stack(
        &mut self,
        timestamp: u64,
        user_stack: &Vec<StackFrame>,
        handler: &ContextSwitchHandler,
        thread: &mut ThreadContextSwitchData,
        factor: u64,
    ) -> (samples: Vec<StackSample>)
        ensures
            sample_views(samples@) == resolved_samples(
                old(self)@,
                timestamp,
                user_stack@,
                old(thread).accumulated_on_cpu,
                factor,
            ),
            final(self)@ == old(self)@.skip(ready_count(old(self)@, timestamp) as int),
            *final(thread) == (ThreadContextSwitchData {
                accumulated_on_cpu: resolved_accumulated(
                    old(self)@,
                    timestamp,
                    old(thread).accumulated_on_cpu,
                ),
                ..*old(thread)
            }),
    {
        let mut samples: Vec<StackSample> = Vec::new();
        let ghost mut done: nat = 0;
        assert(self@.skip(0) == self@);
        while self.queue.len() > 0 && self.queue[0].timestamp <= timestamp
            invariant
                done <= old(self)@.len(),
                self@ == old(self)@.skip(done as int),
                done + ready_count(self@, timestamp) == ready_count(old(self)@, timestamp),
                sample_views(samples@) + resolved_samples(
                    self@,
                    timestamp,
                    user_stack@,
                    thread.accumulated_on_cpu,
                    factor,
                ) == resolved_samples(
                    old(self)@,
                    timestamp,
                    user_stack@,
                    old(thread).accumulated_on_cpu,
                    factor,
                ),
                resolved_accumulated(self@, timestamp, thread.accumulated_on_cpu)
                    == resolved_accumulated(old(self)@, timestamp, old(thread).accumulated_on_cpu),
                *thread == (ThreadContextSwitchData {
                    accumulated_on_cpu: thread.accumulated_on_cpu,
                    ..*old(thread)
                }),
            decreases self.queue.len(),
        {
            let ghost before = self@;
            let ghost emitted = sample_views(samples@);
            let ghost accumulated = thread.accumulated_on_cpu;
            let popped = self.queue.pop_front();
            let entry = popped.unwrap();
            assert(entry@ == before[0]);
            assert(self@ == before.skip(1));
            assert(before.skip(1) == old(self)@.skip(done as int + 1));
            let PendingStack {
                timestamp: trigger_timestamp,
                kernel_stack,
                off_cpu_sample_group,
                on_cpu_sample_cpu_delta,
            } = entry;
            if let Some(group) = off_cpu_sample_group {
                let cpu_delta_raw: u64 = handler.consume_cpu_delta(thread);
                let cpu_delta = CpuDelta::from_nanos(scale(cpu_delta_raw, factor));
                samples.push(
                    StackSample {
                        raw_timestamp: group.begin_timestamp,
                        cpu_delta,
                        weight: 1,
                        stack: copy_stack(user_stack),
                        on_cpu: false,
                    },
                );
                if group.sample_count > 1 {
                    let rest: u64 = group.sample_count - 1;
                    let weight: i32 = if rest <= 0x7fff_ffff {
                        rest as i32
                    } else {
                        0
                    };
                    samples.push(
                        StackSample {
                            raw_timestamp: group.end_timestamp,
                            cpu_delta: CpuDelta::from_nanos(0),
                            weight,
                            stack: copy_stack(user_stack),
                            on_cpu: false,
                        },
                    );
                }
            }
            if let Some(cpu_delta) = on_cpu_sample_cpu_delta {
                let stack = match kernel_stack {
                    Some(mut combined) => {
                        append_stack(&mut combined, user_stack);
                        combined
                    },
                    None => copy_stack(user_stack),
                };
                samples.push(
                    StackSample {
                        raw_timestamp: trigger_timestamp,
                        cpu_delta,
                        weight: 1,
                        stack,
                        on_cpu: true,
                    },
                );
            }
            proof {
                done = done + 1;
                assert(sample_views(samples@) == emitted + entry_samples(
                    before[0],
                    user_stack@,
                    accumulated,
                    factor,
                ));
            }
        }
        proof {
            assert(resolved_samples(
                self@,
                timestamp,
                user_stack@,
                thread.accumulated_on_cpu,
                factor,
            ) == Seq::<StackSampleView>::empty());
        }
        samples
    }
}

/// The largest count of intervals whose second sample can weigh all but
/// the first of them.
pub const MAX_WEIGHED_COUNT: u64 = 0x8000_0000;

/// An off-CPU group of `n` intervals gives samples that weigh `n`
/// together, as long as the weight fits its type. The first carries the
/// running time accumulated before it, so none if there was none; every
/// other carries none.
pub proof fn lemma_group_gives_its_count(
    group: OffCpuSampleGroup,
    user_stack: Seq<StackFrame>,
    accumulated: u64,
    factor: u64,
)
    requires
        1 <= group.sample_count <= MAX_WEIGHED_COUNT,
    ensures
        total_weight(group_samples(group, user_stack, accumulated, factor)) == group.sample_count,
        group_samples(group, user_stack, accumulated, factor)[0].cpu_delta == cpu_delta_of(
            clamp_u64(accumulated * factor),
        ),
        accumulated == 0 ==> group_samples(group, user_stack, accumulated, factor)[0].cpu_delta
            == cpu_delta_of(0),
        forall|i: int|
            1 <= i < group_samples(group, user_stack, accumulated, factor).len()
                ==> #[trigger] group_samples(group, user_stack, accumulated, factor)[i].cpu_delta
                == cpu_delta_of(0),
        forall|i: int|
            0 <= i < group_samples(group, user_stack, accumulated, factor).len()
                ==> #[trigger] group_samples(group, user_stack, accumulated, factor)[i].stack
                == user_stack,
{
    let samples = group_samples(group, user_stack, accumulated, factor);
    assert(0 * factor == 0);
    let nothing = Seq::<StackSampleView>::empty();
    assert(total_weight(nothing) == 0);
    if group.sample_count > 1 {
        let first = samples.drop_last();
        assert(first.len() == 1);
        assert(first.drop_last() == nothing);
        assert(total_weight(first) == total_weight(first.drop_last()) + first.last().weight);
        assert(total_weight(samples) == total_weight(first) + samples.last().weight);
    } else {
        assert(samples.drop_last() == nothing);
        assert(total_weight(samples) == total_weight(samples.drop_last()) + samples.last().weight);
    }
}

/// Where a trigger has both halves of its stack, the sample's frames are
/// the kernel frames followed by the user frames, each half in its own
/// order.
pub proof fn lemma_kernel_frames_above_user_frames(
    entry: PendingStackView,
    cpu_delta: CpuDelta,
    user_stack: Seq<StackFrame>,
)
    requires
        entry.kernel_stack is Some,
    ensures
        ({
            let kernel_stack = entry.kernel_stack->0;
            let stack = trigger_sample(entry, cpu_delta, user_stack).stack;
            &&& stack.len() == kernel_stack.len() + user_stack.len()
            &&& forall|i: int| 0 <= i < kernel_stack.len() ==> stack[i] == kernel_stack[i]
            &&& forall|j: int|
                0 <= j < user_stack.len() ==> stack[kernel_stack.len() + j] == user_stack[j]
        }),
{
}

/// Kernel stacks that arrive for one trigger are kept in the order in
/// which they arrived.
pub proof fn lemma_kernel_stacks_in_arrival_order(
    entry: PendingStackView,
    first: Seq<StackFrame>,
    second: Seq<StackFrame>,
)
    requires
        entry.kernel_stack is None,
    ensures
        with_kernel_stack(with_kernel_stack(entry, first), second).kernel_stack == Some(
            first + second,
        ),
{
}

/// The entries that a user stack completes are those at the front of the
/// queue: each of them is not newer than the stack, and the entry behind
/// them, if there is one, is newer.
pub proof fn lemma_ready_entries_are_a_prefix(entries: Seq<PendingStackView>, timestamp: u64)
    ensures
        ready_count(entries, timestamp) <= entries.len(),
        forall|i: int|
            0 <= i < ready_count(entries, timestamp) ==> (#[trigger] entries[i]).timestamp
                <= timestamp,
        ready_count(entries, timestamp) < entries.len() ==> entries[ready_count(
            entries,
            timestamp,
        ) as int].timestamp > timestamp,
    decreases entries.len(),
{
    if entries.len() > 0 && entries[0].timestamp <= timestamp {
        let rest = entries.skip(1);
        lemma_ready_entries_are_a_prefix(rest, timestamp);
        assert forall|i: int| 0 <= i < ready_count(entries, timestamp) implies (
        #[trigger] entries[i]).timestamp <= timestamp by {
            if i > 0 {
                assert(entries[i] == rest[i - 1]);
            }
        }
        if ready_count(entries, timestamp) < entries.len() {
            assert(entries[ready_count(entries, timestamp) as int] == rest[ready_count(
                rest,
                timestamp,
            ) as int]);
        }
    }
}

/// Entries are completed in the order in which they were queued: for
/// every `i` up to the number of completed entries, the samples of the
/// first `i` entries come first, and the samples of the later entries
/// follow them.
pub proof fn lemma_entries_are_completed_in_order(
    entries: Seq<PendingStackView>,
    timestamp: u64,
    user_stack: Seq<StackFrame>,
    accumulated: u64,
    factor: u64,
    i: int,
)
    requires
        0 <= i <= ready_count(entries, timestamp),
    ensures
        i <= entries.len(),
        resolved_samples(entries, timestamp, user_stack, accumulated, factor) == resolved_samples(
            entries.take(i),
            timestamp,
            user_stack,
            accumulated,
            factor,
        ) + resolved_samples(
            entries.skip(i),
            timestamp,
            user_stack,
            resolved_accumulated(entries.take(i), timestamp, accumulated),
            factor,
        ),
    decreases i,
{
    lemma_ready_entries_are_a_prefix(entries, timestamp);
    if i == 0 {
        assert(entries.take(0) == Seq::<PendingStackView>::empty());
        assert(entries.skip(0) == entries);
    } else {
        let rest = entries.skip(1);
        let next = accumulated_after(entries[0], accumulated);
        lemma_entries_are_completed_in_order(rest, timestamp, user_stack, next, factor, i - 1);
        assert(entries.take(i).skip(1) == rest.take(i - 1));
        assert(entries.take(i)[0] == entries[0]);
        assert(rest.skip(i - 1) == entries.skip(i));
    }
}

} // verus!

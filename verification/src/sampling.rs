//! Sample triggers and the stack walks that complete them.

use crate::context_switch::{ContextSwitchHandler, ThreadContextSwitchData};
use crate::engine::{
    ensure_process, ensure_thread, intern_label, queue_samples, targeted, Step,
};
use crate::pending_stacks::{
    after_kernel_stack, kernel_stack_outcome, queued, ready_count, resolved_accumulated,
    resolved_samples, KernelStackOutcome, PendingStack, PendingStackView,
};
use crate::profile_values::{cpu_delta_of, timestamp_at};
use crate::sink::{lemma_op_views_push, op_views, ResolvedFrame, SinkOp, SinkOpView};
use crate::state::{count_up, next_count, Counters, Engine, EngineView, Notice, ThreadView};
use crate::tables::{lookup, slot};
use crate::timestamp_converter::{clamp_u64, scale};
use crate::types::{address_mode, stack_mode_for_address, StackFrame, StackMode};
use fxprof_processed_profile::CpuDelta;
use vstd::prelude::*;

verus! {

/// The CPU time that a demand-zero page fault is counted as, in
/// nanoseconds.
pub const PAGE_FAULT_NANOS: u64 = 1_000_000;

/// The width of the pointers in a stack walk, in bytes.
pub const STACK_POINTER_SIZE: u32 = 8;

/// The number that eight bytes stand for, the lowest byte first.
pub open spec fn le_u64(bytes: Seq<u8>) -> u64 {
    (bytes[0] + bytes[1] * 0x100 + bytes[2] * 0x1_0000 + bytes[3] * 0x100_0000 + bytes[4]
        * 0x1_0000_0000 + bytes[5] * 0x100_0000_0000 + bytes[6] * 0x1_0000_0000_0000 + bytes[7]
        * 0x100_0000_0000_0000) as u64
}

/// The addresses that the data of a stack walk holds: one for every eight
/// bytes, the innermost frame first. Bytes behind the last whole address
/// are left out.
pub open spec fn stack_addresses(data: Seq<u8>) -> Seq<u64> {
    Seq::new((data.len() / 8) as nat, |i: int| le_u64(data.subrange(8 * i, 8 * i + 8)))
}

/// The frames of a stack walk: the first address is the instruction
/// pointer, the others are return addresses. The mode of the first
/// address is the mode of them all: a stack walk is all kernel or all
/// user.
pub open spec fn stack_frames(addresses: Seq<u64>) -> Seq<StackFrame> {
    Seq::new(
        addresses.len(),
        |i: int|
            if i == 0 {
                StackFrame::InstructionPointer(
                    addresses[0],
                    address_mode(addresses[0], STACK_POINTER_SIZE),
                )
            } else {
                StackFrame::ReturnAddress(
                    addresses[i],
                    address_mode(addresses[0], STACK_POINTER_SIZE),
                )
            },
    )
}

/// The frames that the data of a stack walk holds.
pub fn parse_stack(data: &Vec<u8>) -> (stack: Vec<StackFrame>)
    ensures
        stack@ == stack_frames(stack_addresses(data@)),
{
    let count: usize = data.len() / 8;
    let mut stack: Vec<StackFrame> = Vec::new();
    if count == 0 {
        assert(stack@ =~= stack_frames(stack_addresses(data@)));
        return stack;
    }
    let mut i: usize = 0;
    let mut first_mode = StackMode::User;
    while i < count
        invariant
            count == data.len() / 8,
            count > 0,
            i <= count,
            i > 0 ==> first_mode == address_mode(stack_addresses(data@)[0], STACK_POINTER_SIZE),
            stack@ == stack_frames(stack_addresses(data@)).take(i as int),
        decreases count - i,
    {
        let at: usize = 8 * i;
        let ghost bytes = data@.subrange(8 * i, 8 * i + 8);
        proof {
            assert(bytes[0] == data@[at as int]);
            assert(bytes[1] == data@[at + 1]);
            assert(bytes[2] == data@[at + 2]);
            assert(bytes[3] == data@[at + 3]);
            assert(bytes[4] == data@[at + 4]);
            assert(bytes[5] == data@[at + 5]);
            assert(bytes[6] == data@[at + 6]);
            assert(bytes[7] == data@[at + 7]);
        }
        let address: u64 = (data[at] as u64) + (data[at + 1] as u64) * 0x100 + (data[at
            + 2] as u64) * 0x1_0000 + (data[at + 3] as u64) * 0x100_0000 + (data[at + 4] as u64)
            * 0x1_0000_0000 + (data[at + 5] as u64) * 0x100_0000_0000 + (data[at + 6] as u64)
            * 0x1_0000_0000_0000 + (data[at + 7] as u64) * 0x100_0000_0000_0000;
        assert(address == stack_addresses(data@)[i as int]);
        let frame = if i == 0 {
            first_mode = stack_mode_for_address(address, STACK_POINTER_SIZE);
            StackFrame::InstructionPointer(address, first_mode)
        } else {
            StackFrame::ReturnAddress(address, first_mode)
        };
        proof {
            let all = stack_frames(stack_addresses(data@));
            assert(all.take(i + 1) == all.take(i as int).push(all[i as int]));
        }
        stack.push(frame);
        i += 1;
    }
    proof {
        let all = stack_frames(stack_addresses(data@));
        assert(all.take(count as int) == all);
    }
    stack
}

/// The state with one more sample trigger counted.
pub open spec fn count_sample(v: EngineView) -> EngineView {
    EngineView {
        counters: Counters { sample_count: next_count(v.counters.sample_count), ..v.counters },
        ..v
    }
}

/// The state with one more dropped event counted.
pub open spec fn count_dropped(v: EngineView) -> EngineView {
    EngineView {
        counters: Counters {
            dropped_sample_count: next_count(v.counters.dropped_sample_count),
            ..v.counters
        },
        ..v
    }
}

/// The state with the thread at place `t` changed.
pub open spec fn with_thread(v: EngineView, t: int, thread: ThreadView) -> EngineView {
    EngineView { threads: v.threads.update(t, (v.threads[t].0, thread)), ..v }
}

/// The label of a sample of a thread that is not followed.
pub open spec fn idle_label(tid: u32) -> Seq<char> {
    if tid == 0 {
        "Idle"@
    } else {
        "Other"@
    }
}

/// A sample trigger of a thread that is not followed. It is counted as
/// dropped. Where threads are merged and idle time was asked for, the
/// merged thread gets a sample whose one frame is a label.
pub open spec fn unfollowed_sample(v: EngineView, timestamp: u64, tid: u32) -> Step {
    let shown = if v.settings.include_idle && v.global_thread is Some {
        let (labelled, label) = intern_label(v, idle_label(tid));
        Step {
            state: labelled.state,
            ops: labelled.ops.push(
                SinkOpView::AddSample {
                    thread: v.global_thread->0,
                    timestamp: timestamp_at(v.timestamp_converter.raw_nanos(timestamp)),
                    frames: seq![ResolvedFrame::Label(label)],
                    cpu_delta: cpu_delta_of(0),
                    weight: 1,
                },
            ),
        }
    } else {
        Step { state: v, ops: Seq::empty() }
    };
    Step { state: count_dropped(shown.state), ops: shown.ops }
}

/// A sampling interrupt hit the thread `tid`. The trigger is queued with
/// the CPU time that the thread has run since its last sample, and with
/// the group of an off-CPU period that the sample ends.
pub open spec fn sample_prof(v: EngineView, timestamp: u64, tid: u32) -> Step {
    let c = count_sample(v);
    match lookup(c.threads, tid as u64) {
        None => unfollowed_sample(c, timestamp, tid),
        Some(t) => {
            let thread = c.threads[t].1;
            let group = c.context_switch_handler.group_ending_at(
                thread.context_switch_data,
                timestamp,
            );
            let sampled = ContextSwitchHandler::after_sample(thread.context_switch_data, timestamp);
            let entry = PendingStackView {
                timestamp,
                kernel_stack: None,
                off_cpu_sample_group: group,
                on_cpu_sample_cpu_delta: Some(
                    cpu_delta_of(
                        clamp_u64(
                            sampled.accumulated_on_cpu * c.timestamp_converter.raw_to_ns_factor,
                        ),
                    ),
                ),
            };
            Step {
                state: with_thread(
                    c,
                    t,
                    ThreadView {
                        pending_stacks: queued(
                            thread.pending_stacks,
                            entry,
                            c.settings.pending_window,
                        ),
                        context_switch_data: ContextSwitchHandler::after_consume(sampled),
                        ..thread
                    },
                ),
                ops: Seq::empty(),
            }
        },
    }
}

/// A demand-zero page fault hit the thread `tid`. Where such faults were
/// asked for, it is a sample trigger that carries a fixed CPU time.
pub open spec fn demand_zero_fault(v: EngineView, timestamp: u64, tid: u32) -> Step {
    if !v.settings.demand_zero_faults {
        Step { state: v, ops: Seq::empty() }
    } else {
        let c = count_sample(v);
        match lookup(c.threads, tid as u64) {
            None => unfollowed_sample(c, timestamp, tid),
            Some(t) => {
                let thread = c.threads[t].1;
                let entry = PendingStackView {
                    timestamp,
                    kernel_stack: None,
                    off_cpu_sample_group: None,
                    on_cpu_sample_cpu_delta: Some(cpu_delta_of(PAGE_FAULT_NANOS)),
                };
                Step {
                    state: with_thread(
                        c,
                        t,
                        ThreadView {
                            pending_stacks: queued(
                                thread.pending_stacks,
                                entry,
                                c.settings.pending_window,
                            ),
                            ..thread
                        },
                    ),
                    ops: Seq::empty(),
                }
            },
        }
    }
}

/// The state after the thread `tid` was switched out, if it is followed.
pub open spec fn switched_out(v: EngineView, timestamp: u64, tid: u32) -> EngineView {
    match lookup(v.threads, tid as u64) {
        Some(t) => {
            let thread = v.threads[t].1;
            with_thread(
                v,
                t,
                ThreadView {
                    context_switch_data: ContextSwitchHandler::after_switch_out(
                        thread.context_switch_data,
                        timestamp,
                    ),
                    ..thread
                },
            )
        },
        None => v,
    }
}

/// The state after the thread `tid` was switched in, if it is followed.
/// Where the off-CPU period that ends here spans a sampling interval, its
/// group is queued as a trigger of its own.
pub open spec fn switched_in(v: EngineView, timestamp: u64, tid: u32) -> EngineView {
    match lookup(v.threads, tid as u64) {
        Some(t) => {
            let thread = v.threads[t].1;
            let group = v.context_switch_handler.group_ending_at(
                thread.context_switch_data,
                timestamp,
            );
            let entry = PendingStackView {
                timestamp,
                kernel_stack: None,
                off_cpu_sample_group: group,
                on_cpu_sample_cpu_delta: None,
            };
            with_thread(
                v,
                t,
                ThreadView {
                    pending_stacks: if group is Some {
                        queued(thread.pending_stacks, entry, v.settings.pending_window)
                    } else {
                        thread.pending_stacks
                    },
                    context_switch_data: ContextSwitchHandler::after_switch_in(
                        thread.context_switch_data,
                        timestamp,
                    ),
                    ..thread
                },
            )
        },
        None => v,
    }
}

/// A CPU went from the thread `old_tid` to the thread `new_tid`.
pub open spec fn cswitch(v: EngineView, timestamp: u64, new_tid: u32, old_tid: u32) -> Step {
    Step {
        state: switched_in(switched_out(v, timestamp, old_tid), timestamp, new_tid),
        ops: Seq::empty(),
    }
}

/// A stack walk for the trigger at `event_timestamp` arrived. A kernel
/// stack is attached to its trigger; a second one for the same trigger is
/// put behind the first, and a notice says so. A user stack completes
/// every trigger
/// of the thread that is not newer than it, oldest first, and their
/// samples are queued with the process.
pub open spec fn stack_walk(
    v: EngineView,
    pid: u32,
    tid: u32,
    event_timestamp: u64,
    data: Seq<u8>,
) -> Step {
    if !targeted(v, pid) {
        Step { state: v, ops: Seq::empty() }
    } else {
        let enrolled = ensure_thread(v, pid, tid);
        let w = enrolled.state;
        let t = slot(v.threads, tid as u64);
        let stack = stack_frames(stack_addresses(data));
        if stack.len() == 0 {
            enrolled
        } else if stack[0].spec_mode() == StackMode::Kernel {
            let thread = w.threads[t].1;
            let attached = with_thread(
                w,
                t,
                ThreadView {
                    pending_stacks: after_kernel_stack(
                        thread.pending_stacks,
                        event_timestamp,
                        stack,
                    ),
                    ..thread
                },
            );
            Step {
                state: if kernel_stack_outcome(thread.pending_stacks, event_timestamp)
                    == KernelStackOutcome::Appended {
                    EngineView {
                        notices: w.notices.push(
                            Notice::RepeatedKernelStack {
                                timestamp: event_timestamp,
                                thread_id: tid,
                            },
                        ),
                        ..attached
                    }
                } else {
                    attached
                },
                ops: enrolled.ops,
            }
        } else {
            let located = ensure_process(w, pid);
            let x = located.state;
            let p = slot(w.processes, pid as u64);
            let thread = x.threads[t].1;
            let samples = resolved_samples(
                thread.pending_stacks,
                event_timestamp,
                stack,
                thread.context_switch_data.accumulated_on_cpu,
                x.timestamp_converter.raw_to_ns_factor,
            );
            let y = with_thread(
                x,
                t,
                ThreadView {
                    pending_stacks: thread.pending_stacks.skip(
                        ready_count(thread.pending_stacks, event_timestamp) as int,
                    ),
                    context_switch_data: ThreadContextSwitchData {
                        accumulated_on_cpu: resolved_accumulated(
                            thread.pending_stacks,
                            event_timestamp,
                            thread.context_switch_data.accumulated_on_cpu,
                        ),
                        ..thread.context_switch_data
                    },
                    ..thread
                },
            );
            let queued = queue_samples(y, p, t, samples);
            Step { state: queued.state, ops: enrolled.ops + located.ops + queued.ops }
        }
    }
}

impl Engine {
    fn unfollowed_sample(&mut self, timestamp: u64, tid: u32, ops: &mut Vec<SinkOp>)
        requires
            old(self).well_formed(),
        ensures
            final(self).well_formed(),
            final(self)@ == unfollowed_sample(old(self)@, timestamp, tid).state,
            op_views(final(ops)@) == op_views(old(ops)@) + unfollowed_sample(
                old(self)@,
                timestamp,
                tid,
            ).ops,
    {
        let mut shown: bool = false;
        if self.settings.include_idle {
            if let Some(global) = self.global_thread {
                let text = if tid == 0 {
                    "Idle".to_owned()
                } else {
                    "Other".to_owned()
                };
                let sample_time = self.timestamp_converter.convert_raw(timestamp);
                let label = self.intern_label(text, ops);
                let mut frames: Vec<ResolvedFrame> = Vec::new();
                frames.push(ResolvedFrame::Label(label));
                let op = SinkOp::AddSample {
                    thread: global,
                    timestamp: sample_time,
                    frames,
                    cpu_delta: CpuDelta::from_nanos(0),
                    weight: 1,
                };
                proof {
                    lemma_op_views_push(ops@, op);
                    let labelled = intern_label(old(self)@, idle_label(tid)).0;
                    assert(frames@ =~= seq![ResolvedFrame::Label(label)]);
                    assert(op_views(ops@.push(op)) =~= op_views(old(ops)@) + labelled.ops.push(op@));
                }
                ops.push(op);
                shown = true;
            }
        }
        if !shown {
            assert(op_views(ops@) =~= op_views(old(ops)@) + Seq::<SinkOpView>::empty());
        }
        self.counters.dropped_sample_count = count_up(self.counters.dropped_sample_count);
    }

    pub fn on_sample_prof(&mut self, timestamp: u64, tid: u32) -> (ops: Vec<SinkOp>)
        requires
            old(self).well_formed(),
        ensures
            final(self).well_formed(),
            final(self)@ == sample_prof(old(self)@, timestamp, tid).state,
            op_views(ops@) == sample_prof(old(self)@, timestamp, tid).ops,
    {
        let mut ops: Vec<SinkOp> = Vec::new();
        assert(op_views(ops@) =~= Seq::<SinkOpView>::empty());
        self.counters.sample_count = count_up(self.counters.sample_count);
        match self.threads.find(tid as u64) {
            None => {
                self.unfollowed_sample(timestamp, tid, &mut ops);
            },
            Some(t) => {
                let ghost before = self@;
                assert(before.threads[t as int].1 == self.threads.entries@[t as int].value@);
                let handler = self.context_switch_handler;
                let factor: u64 = self.timestamp_converter.raw_to_ns_factor;
                let group = handler.handle_on_cpu_sample(
                    timestamp,
                    &mut self.threads.entries[t].value.context_switch_data,
                );
                let delta: u64 = handler.consume_cpu_delta(
                    &mut self.threads.entries[t].value.context_switch_data,
                );
                let cpu_delta = CpuDelta::from_nanos(scale(delta, factor));
                let entry = PendingStack {
                    timestamp,
                    kernel_stack: None,
                    off_cpu_sample_group: group,
                    on_cpu_sample_cpu_delta: Some(cpu_delta),
                };
                let window = self.settings.pending_window;
                let ghost waiting = entry@;
                self.threads.entries[t].value.pending_stacks.push_within(entry, window);
                proof {
                    let thread = before.threads[t as int].1;
                    let sampled = ContextSwitchHandler::after_sample(
                        thread.context_switch_data,
                        timestamp,
                    );
                    assert(self@.threads =~= before.threads.update(
                        t as int,
                        (
                            before.threads[t as int].0,
                            ThreadView {
                                pending_stacks: queued(thread.pending_stacks, waiting, window),
                                context_switch_data: ContextSwitchHandler::after_consume(sampled),
                                ..thread
                            },
                        ),
                    ));
                }
            },
        }
        ops
    }

    pub fn on_demand_zero_fault(&mut self, timestamp: u64, tid: u32) -> (ops: Vec<SinkOp>)
        requires
            old(self).well_formed(),
        ensures
            final(self).well_formed(),
            final(self)@ == demand_zero_fault(old(self)@, timestamp, tid).state,
            op_views(ops@) == demand_zero_fault(old(self)@, timestamp, tid).ops,
    {
        let mut ops: Vec<SinkOp> = Vec::new();
        assert(op_views(ops@) =~= Seq::<SinkOpView>::empty());
        if !self.settings.demand_zero_faults {
            return ops;
        }
        self.counters.sample_count = count_up(self.counters.sample_count);
        match self.threads.find(tid as u64) {
            None => {
                self.unfollowed_sample(timestamp, tid, &mut ops);
            },
            Some(t) => {
                let ghost before = self@;
                assert(before.threads[t as int].1 == self.threads.entries@[t as int].value@);
                let entry = PendingStack {
                    timestamp,
                    kernel_stack: None,
                    off_cpu_sample_group: None,
                    on_cpu_sample_cpu_delta: Some(CpuDelta::from_nanos(PAGE_FAULT_NANOS)),
                };
                let window = self.settings.pending_window;
                let ghost waiting = entry@;
                self.threads.entries[t].value.pending_stacks.push_within(entry, window);
                proof {
                    let thread = before.threads[t as int].1;
                    assert(self@.threads =~= before.threads.update(
                        t as int,
                        (
                            before.threads[t as int].0,
                            ThreadView {
                                pending_stacks: queued(thread.pending_stacks, waiting, window),
                                ..thread
                            },
                        ),
                    ));
                }
            },
        }
        ops
    }

    fn switch_out(&mut self, timestamp: u64, tid: u32)
        requires
            old(self).well_formed(),
        ensures
            final(self).well_formed(),
            final(self)@ == switched_out(old(self)@, timestamp, tid),
    {
        match self.threads.find(tid as u64) {
            Some(t) => {
                let ghost before = self@;
                assert(before.threads[t as int].1 == self.threads.entries@[t as int].value@);
                let handler = self.context_switch_handler;
                handler.handle_switch_out(
                    timestamp,
                    &mut self.threads.entries[t].value.context_switch_data,
                );
                proof {
                    let thread = before.threads[t as int].1;
                    assert(self@.threads =~= before.threads.update(
                        t as int,
                        (
                            before.threads[t as int].0,
                            ThreadView {
                                context_switch_data: ContextSwitchHandler::after_switch_out(
                                    thread.context_switch_data,
                                    timestamp,
                                ),
                                ..thread
                            },
                        ),
                    ));
                }
            },
            None => {},
        }
    }

    fn switch_in(&mut self, timestamp: u64, tid: u32)
        requires
            old(self).well_formed(),
        ensures
            final(self).well_formed(),
            final(self)@ == switched_in(old(self)@, timestamp, tid),
    {
        match self.threads.find(tid as u64) {
            Some(t) => {
                let ghost before = self@;
                assert(before.threads[t as int].1 == self.threads.entries@[t as int].value@);
                let handler = self.context_switch_handler;
                let group = handler.handle_switch_in(
                    timestamp,
                    &mut self.threads.entries[t].value.context_switch_data,
                );
                let ghost entry = PendingStackView {
                    timestamp,
                    kernel_stack: None,
                    off_cpu_sample_group: group,
                    on_cpu_sample_cpu_delta: None,
                };
                if group.is_some() {
                    let trigger = PendingStack {
                        timestamp,
                        kernel_stack: None,
                        off_cpu_sample_group: group,
                        on_cpu_sample_cpu_delta: None,
                    };
                    assert(trigger@ == entry);
                    let window = self.settings.pending_window;
                    self.threads.entries[t].value.pending_stacks.push_within(trigger, window);
                }
                proof {
                    let thread = before.threads[t as int].1;
                    assert(self@.threads =~= before.threads.update(
                        t as int,
                        (
                            before.threads[t as int].0,
                            ThreadView {
                                pending_stacks: if group is Some {
                                    queued(
                                        thread.pending_stacks,
                                        entry,
                                        before.settings.pending_window,
                                    )
                                } else {
                                    thread.pending_stacks
                                },
                                context_switch_data: ContextSwitchHandler::after_switch_in(
                                    thread.context_switch_data,
                                    timestamp,
                                ),
                                ..thread
                            },
                        ),
                    ));
                }
            },
            None => {},
        }
    }

    pub fn on_cswitch(&mut self, timestamp: u64, new_tid: u32, old_tid: u32) -> (ops: Vec<SinkOp>)
        requires
            old(self).well_formed(),
        ensures
            final(self).well_formed(),
            final(self)@ == cswitch(old(self)@, timestamp, new_tid, old_tid).state,
            op_views(ops@) == cswitch(old(self)@, timestamp, new_tid, old_tid).ops,
    {
        let ops: Vec<SinkOp> = Vec::new();
        assert(op_views(ops@) =~= Seq::<SinkOpView>::empty());
        self.switch_out(timestamp, old_tid);
        self.switch_in(timestamp, new_tid);
        ops
    }

    pub fn on_stack_walk(&mut self, pid: u32, tid: u32, event_timestamp: u64, data: &Vec<u8>)
        -> (ops: Vec<SinkOp>)
        requires
            old(self).well_formed(),
        ensures
            final(self).well_formed(),
            final(self)@ == stack_walk(old(self)@, pid, tid, event_timestamp, data@).state,
            op_views(ops@) == stack_walk(old(self)@, pid, tid, event_timestamp, data@).ops,
    {
        let mut ops: Vec<SinkOp> = Vec::new();
        assert(op_views(ops@) =~= Seq::<SinkOpView>::empty());
        if !self.is_targeted(pid) {
            return ops;
        }
        let t: usize = self.ensure_thread(pid, tid, &mut ops);
        let ghost enrolled = ensure_thread(old(self)@, pid, tid);
        assert(op_views(ops@) =~= enrolled.ops);
        let stack = parse_stack(data);
        if stack.len() == 0 {
            return ops;
        }
        if stack[0].mode() == StackMode::Kernel {
            let ghost before = self@;
            assert(before.threads[t as int].1 == self.threads.entries@[t as int].value@);
            let outcome = self.threads.entries[t].value.pending_stacks.attach_kernel_stack(
                event_timestamp,
                stack,
            );
            if outcome == KernelStackOutcome::Appended {
                self.notices.push(
                    Notice::RepeatedKernelStack { timestamp: event_timestamp, thread_id: tid },
                );
            }
            proof {
                let thread = before.threads[t as int].1;
                assert(self@.threads =~= before.threads.update(
                    t as int,
                    (
                        before.threads[t as int].0,
                        ThreadView {
                            pending_stacks: after_kernel_stack(
                                thread.pending_stacks,
                                event_timestamp,
                                stack@,
                            ),
                            ..thread
                        },
                    ),
                ));
            }
            return ops;
        }
        let p: usize = self.ensure_process(pid, &mut ops);
        let ghost located = ensure_process(enrolled.state, pid);
        assert(op_views(ops@) =~= enrolled.ops + located.ops);
        let ghost before = self@;
        assert(self.threads.entries@.len() == before.threads.len());
        assert(before.threads[t as int].1 == self.threads.entries@[t as int].value@);
        let handler = self.context_switch_handler;
        let factor: u64 = self.timestamp_converter.raw_to_ns_factor;
        let thread = &mut self.threads.entries[t].value;
        let samples = thread.pending_stacks.resolve_user_stack(
            event_timestamp,
            &stack,
            &handler,
            &mut thread.context_switch_data,
            factor,
        );
        proof {
            let thread = before.threads[t as int].1;
            assert(self@.threads =~= before.threads.update(
                t as int,
                (
                    before.threads[t as int].0,
                    ThreadView {
                        pending_stacks: thread.pending_stacks.skip(
                            ready_count(thread.pending_stacks, event_timestamp) as int,
                        ),
                        context_switch_data: ThreadContextSwitchData {
                            accumulated_on_cpu: resolved_accumulated(
                                thread.pending_stacks,
                                event_timestamp,
                                thread.context_switch_data.accumulated_on_cpu,
                            ),
                            ..thread.context_switch_data
                        },
                        ..thread
                    },
                ),
            ));
        }
        let ghost ops_before = op_views(ops@);
        self.queue_samples(p, t, &samples, &mut ops);
        proof {
            let queued = queue_samples(
                stack_walk_ready(before, t as int, event_timestamp),
                p as int,
                t as int,
                crate::pending_stacks::sample_views(samples@),
            );
            assert(op_views(ops@) =~= enrolled.ops + located.ops + queued.ops);
        }
        ops
    }
}

/// The state in which the thread at place `t` has given up the triggers
/// that a user stack for time `event_timestamp` completes.
pub open spec fn stack_walk_ready(v: EngineView, t: int, event_timestamp: u64) -> EngineView {
    let thread = v.threads[t].1;
    with_thread(
        v,
        t,
        ThreadView {
            pending_stacks: thread.pending_stacks.skip(
                ready_count(thread.pending_stacks, event_timestamp) as int,
            ),
            context_switch_data: ThreadContextSwitchData {
                accumulated_on_cpu: resolved_accumulated(
                    thread.pending_stacks,
                    event_timestamp,
                    thread.context_switch_data.accumulated_on_cpu,
                ),
                ..thread.context_switch_data
            },
            ..thread
        },
    )
}

} // verus!

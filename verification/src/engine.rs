//! The engine's state at the start, and the steps that several events
//! share: enrolling a process or a thread when it is first referred to,
//! and queueing a finished sample.
//!
//! Every step is stated twice: as a function on the view of the state,
//! which says what the step is, and as a method of `Engine`, which is
//! proved to compute it.

use crate::context_switch::ContextSwitchHandler;
use crate::handles::{ProcessHandle, StringHandle, ThreadHandle};
use crate::pending_stacks::{sample_views, StackSample, StackSampleView};
use crate::profile_values::timestamp_at;
use crate::sink::{lemma_op_views_push, op_views, SinkOp, SinkOpView};
use crate::state::{
    count_up, handle_up, new_process, new_thread, next_count, next_handle, Counters, Engine,
    EngineView, NextHandles, Notice, ProcessState, ProcessView, Settings, SettingsView,
    ThreadState, ThreadView, UnresolvedSample,
};
use crate::tables::{
    lemma_lookup, lemma_put, lookup, lookup_name, new_map, put, slot, NameTable, Table,
};
use crate::text::{
    decimal, push_decimal, push_text, string_of, strip_thread_numbers, stripped_thread_name,
};
use crate::timestamp_converter::TimestampConverter;
use crate::types::StackFrame;
use crate::unresolved_stacks::{
    with_chain, UnresolvedStackHandle, UnresolvedStacks, EMPTY_STACK,
};
use fxprof_processed_profile::Timestamp;
use std::collections::HashSet;
use vstd::prelude::*;

verus! {

/// A state and the operations that led to it.
pub struct Step {
    pub state: EngineView,
    pub ops: Seq<SinkOpView>,
}

/// The sampling interval that is assumed until the trace names its own,
/// in nanoseconds: 8192 samples a second.
pub const DEFAULT_INTERVAL: u64 = 122100;

/// The state before the first event. With merged threads the one process
/// and its one thread are added at once.
pub open spec fn initial(settings: SettingsView, process_targets: Set<u32>) -> Step {
    let base = EngineView {
        settings,
        process_targets,
        timestamp_converter: TimestampConverter { reference_raw: 0, raw_to_ns_factor: 1 },
        event_timestamps_are_qpc: false,
        timer_resolution: 0,
        context_switch_handler: ContextSwitchHandler { sampling_interval: DEFAULT_INTERVAL },
        threads: Seq::empty(),
        processes: Seq::empty(),
        kernel_pending_libraries: Map::empty(),
        libs: Map::empty(),
        memory_usage: Map::empty(),
        jit: Seq::empty(),
        categories: Seq::empty(),
        labels: Seq::empty(),
        gpu_thread: None,
        global_thread: None,
        global_process: None,
        unresolved_stacks: Seq::empty(),
        counters: Counters {
            event_count: 0,
            sample_count: 0,
            stack_sample_count: 0,
            dropped_sample_count: 0,
        },
        next: NextHandles { process: 0, thread: 0, lib: 0, category: 0, counter: 0, string: 0 },
        notices: Seq::empty(),
    };
    if settings.merge_threads {
        Step {
            state: EngineView {
                global_process: Some(ProcessHandle(0)),
                global_thread: Some(ThreadHandle(0)),
                next: NextHandles { process: 1, thread: 1, ..base.next },
                ..base
            },
            ops: seq![
                SinkOpView::AddProcess {
                    process: ProcessHandle(0),
                    name: "All processes"@,
                    pid: 1,
                    start_time: timestamp_at(0),
                },
                SinkOpView::AddThread {
                    thread: ThreadHandle(0),
                    process: ProcessHandle(0),
                    tid: 1,
                    start_time: timestamp_at(0),
                    is_main: true,
                },
            ],
        }
    } else {
        Step { state: base, ops: Seq::empty() }
    }
}

/// Whether the process `pid` is followed.
pub open spec fn targeted(v: EngineView, pid: u32) -> bool {
    v.process_targets.contains(pid)
}

/// The name of a process that was enrolled before its start was seen.
pub open spec fn process_name(pid: u32) -> Seq<char> {
    "process "@ + decimal(pid as nat)
}

/// Enrolls the process `pid` afresh: whatever was known of it is
/// forgotten. With merged threads it shares the one process of the
/// profile; otherwise the profile gets a process for it.
pub open spec fn register_process(v: EngineView, pid: u32, name: Seq<char>, start_time: Timestamp)
    -> Step {
    match v.global_process {
        Some(handle) => Step {
            state: EngineView { processes: put(v.processes, pid as u64, new_process(handle)), ..v },
            ops: Seq::empty(),
        },
        None => Step {
            state: EngineView {
                processes: put(
                    v.processes,
                    pid as u64,
                    new_process(ProcessHandle(v.next.process)),
                ),
                next: NextHandles { process: next_handle(v.next.process), ..v.next },
                ..v
            },
            ops: seq![
                SinkOpView::AddProcess {
                    process: ProcessHandle(v.next.process),
                    name,
                    pid,
                    start_time,
                },
            ],
        },
    }
}

/// Enrolls the process `pid` if it is not enrolled: a process lives from
/// its start event or from the first reference to it.
pub open spec fn ensure_process(v: EngineView, pid: u32) -> Step {
    if lookup(v.processes, pid as u64) is Some {
        Step { state: v, ops: Seq::empty() }
    } else {
        register_process(v, pid, process_name(pid), timestamp_at(0))
    }
}

/// Enrolls the thread `tid` of process `pid` if it is not enrolled. A
/// thread that is first seen in this way is no main thread and starts
/// with the profile.
pub open spec fn ensure_thread(v: EngineView, pid: u32, tid: u32) -> Step {
    if lookup(v.threads, tid as u64) is Some {
        Step { state: v, ops: Seq::empty() }
    } else {
        match v.global_thread {
            Some(handle) => Step {
                state: EngineView {
                    threads: v.threads.push((tid as u64, new_thread(handle, tid))),
                    ..v
                },
                ops: Seq::empty(),
            },
            None => {
                let enrolled = ensure_process(v, pid);
                let w = enrolled.state;
                let process = w.processes[slot(v.processes, pid as u64)].1.process_handle;
                Step {
                    state: EngineView {
                        threads: w.threads.push(
                            (tid as u64, new_thread(ThreadHandle(w.next.thread), tid)),
                        ),
                        next: NextHandles { thread: next_handle(w.next.thread), ..w.next },
                        ..w
                    },
                    ops: enrolled.ops.push(
                        SinkOpView::AddThread {
                            thread: ThreadHandle(w.next.thread),
                            process,
                            tid,
                            start_time: timestamp_at(0),
                            is_main: false,
                        },
                    ),
                }
            },
        }
    }
}

/// The label under which the samples of a thread are found when threads
/// are merged: the thread's name without its number, or its id.
pub open spec fn thread_label(thread: ThreadView) -> Seq<char> {
    match thread.merge_name {
        Some(name) => stripped_thread_name(name),
        None => "thread "@ + decimal(thread.thread_id as nat),
    }
}

/// The handle of a label, and the state once the label is known to the
/// profile: a label is handed to the profile when it is first used.
pub open spec fn intern_label(v: EngineView, text: Seq<char>) -> (Step, StringHandle) {
    match lookup_name(v.labels, text) {
        Some(i) => (Step { state: v, ops: Seq::empty() }, v.labels[i].1),
        None => (
            Step {
                state: EngineView {
                    labels: v.labels.push((text, StringHandle(v.next.string))),
                    next: NextHandles { string: next_handle(v.next.string), ..v.next },
                    ..v
                },
                ops: seq![SinkOpView::InternString { string: StringHandle(v.next.string), text }],
            },
            StringHandle(v.next.string),
        ),
    }
}

impl Engine {
    /// What the engine needs of its state to work.
    pub open spec fn well_formed(&self) -> bool {
        self.unresolved_stacks.well_formed()
    }

    /// The engine before the first event, and the operations that set the
    /// profile up for it.
    pub fn new(settings: Settings, process_targets: HashSet<u32>) -> (made: (Self, Vec<SinkOp>))
        ensures
            made.0.well_formed(),
            made.0@ == initial(settings@, process_targets@).state,
            op_views(made.1@) == initial(settings@, process_targets@).ops,
            crate::numbering::handles_known(made.0@),
            crate::numbering::leads(
                op_views(made.1@),
                NextHandles { process: 0, thread: 0, lib: 0, category: 0, counter: 0, string: 0 },
                made.0@.next,
            ),
    {
        proof {
            crate::numbering::lemma_initial(settings@, process_targets@);
        }
        let merge: bool = settings.merge_threads;
        let mut engine = Engine {
            settings,
            process_targets,
            timestamp_converter: TimestampConverter::stub(),
            event_timestamps_are_qpc: false,
            timer_resolution: 0,
            context_switch_handler: ContextSwitchHandler::new(DEFAULT_INTERVAL),
            threads: Table::new(),
            processes: Table::new(),
            kernel_pending_libraries: new_map(),
            libs: new_map(),
            memory_usage: new_map(),
            jit: Table::new(),
            categories: NameTable::new(),
            labels: NameTable::new(),
            gpu_thread: None,
            global_thread: None,
            global_process: None,
            unresolved_stacks: UnresolvedStacks::new(),
            counters: Counters {
                event_count: 0,
                sample_count: 0,
                stack_sample_count: 0,
                dropped_sample_count: 0,
            },
            next: NextHandles { process: 0, thread: 0, lib: 0, category: 0, counter: 0, string: 0 },
            notices: Vec::new(),
        };
        let mut ops: Vec<SinkOp> = Vec::new();
        if merge {
            let start = Timestamp::from_nanos_since_reference(0);
            engine.global_process = Some(ProcessHandle(0));
            engine.global_thread = Some(ThreadHandle(0));
            engine.next.process = 1;
            engine.next.thread = 1;
            ops.push(
                SinkOp::AddProcess {
                    process: ProcessHandle(0),
                    name: "All processes".to_owned(),
                    pid: 1,
                    start_time: start,
                },
            );
            ops.push(
                SinkOp::AddThread {
                    thread: ThreadHandle(0),
                    process: ProcessHandle(0),
                    tid: 1,
                    start_time: start,
                    is_main: true,
                },
            );
        }
        proof {
            assert(op_views(ops@) =~= initial(settings@, process_targets@).ops);
        }
        (engine, ops)
    }

    /// Takes the notices that have come up since they were last taken,
    /// the oldest first.
    pub fn take_notices(&mut self) -> (notices: Vec<Notice>)
        requires
            old(self).well_formed(),
        ensures
            final(self).well_formed(),
            notices@ == old(self)@.notices,
            final(self)@ == (EngineView { notices: Seq::empty(), ..old(self)@ }),
    {
        let mut taken: Vec<Notice> = Vec::new();
        std::mem::swap(&mut self.notices, &mut taken);
        taken
    }

    /// Whether the process `pid` is followed.
    pub fn is_targeted(&self, pid: u32) -> (followed: bool)
        ensures
            followed == targeted(self@, pid),
    {
        broadcast use vstd::std_specs::hash::group_hash_axioms;

        self.process_targets.contains(&pid)
    }

    /// Enrolls the process `pid` afresh.
    pub fn register_process(
        &mut self,
        pid: u32,
        name: String,
        start_time: Timestamp,
        ops: &mut Vec<SinkOp>,
    ) -> (at: usize)
        requires
            old(self).well_formed(),
        ensures
            final(self).well_formed(),
            final(self)@ == register_process(old(self)@, pid, name@, start_time).state,
            op_views(final(ops)@) == op_views(old(ops)@) + register_process(
                old(self)@,
                pid,
                name@,
                start_time,
            ).ops,
            at == slot(old(self)@.processes, pid as u64),
            at < final(self).processes.entries@.len(),
            final(self).processes.entries@[at as int].key == pid,
    {
        let handle = match self.global_process {
            Some(handle) => handle,
            None => {
                let handle = ProcessHandle(self.next.process);
                self.next.process = handle_up(self.next.process);
                let op = SinkOp::AddProcess { process: handle, name, pid, start_time };
                proof {
                    lemma_op_views_push(ops@, op);
                }
                ops.push(op);
                handle
            },
        };
        let at: usize = self.processes.put(pid as u64, ProcessState::new(handle));
        proof {
            let spec = register_process(old(self)@, pid, name@, start_time);
            assert(op_views(ops@) =~= op_views(old(ops)@) + spec.ops);
        }
        at
    }

    /// Enrolls the process `pid` if it is not enrolled.
    pub fn ensure_process(&mut self, pid: u32, ops: &mut Vec<SinkOp>) -> (at: usize)
        requires
            old(self).well_formed(),
        ensures
            final(self).well_formed(),
            final(self)@ == ensure_process(old(self)@, pid).state,
            op_views(final(ops)@) == op_views(old(ops)@) + ensure_process(old(self)@, pid).ops,
            at == slot(old(self)@.processes, pid as u64),
            at < final(self).processes.entries@.len(),
            final(self).processes.entries@[at as int].key == pid,
            lookup(final(self)@.processes, pid as u64) == Some(at as int),
    {
        proof {
            lemma_put(old(self)@.processes, pid as u64, new_process(ProcessHandle(0)));
            lemma_lookup(old(self)@.processes, pid as u64);
        }
        match self.processes.find(pid as u64) {
            Some(at) => {
                assert(op_views(ops@) =~= op_views(old(ops)@) + Seq::<SinkOpView>::empty());
                at
            },
            None => {
                let mut name: Vec<char> = Vec::new();
                push_text(&mut name, "process ");
                push_decimal(&mut name, pid as u64);
                let start = Timestamp::from_nanos_since_reference(0);
                let text = string_of(&name);
                proof {
                    lemma_put(
                        old(self)@.processes,
                        pid as u64,
                        new_process(
                            match old(self)@.global_process {
                                Some(h) => h,
                                None => ProcessHandle(old(self)@.next.process),
                            },
                        ),
                    );
                    assert(text@ =~= process_name(pid));
                }
                self.register_process(pid, text, start, ops)
            },
        }
    }

    /// Enrolls the thread `tid` of process `pid` if it is not enrolled.
    pub fn ensure_thread(&mut self, pid: u32, tid: u32, ops: &mut Vec<SinkOp>) -> (at: usize)
        requires
            old(self).well_formed(),
        ensures
            final(self).well_formed(),
            final(self)@ == ensure_thread(old(self)@, pid, tid).state,
            op_views(final(ops)@) == op_views(old(ops)@) + ensure_thread(old(self)@, pid, tid).ops,
            at == slot(old(self)@.threads, tid as u64),
            at < final(self).threads.entries@.len(),
            final(self).threads.entries@[at as int].key == tid,
            lookup(final(self)@.threads, tid as u64) == Some(at as int),
    {
        proof {
            lemma_lookup(old(self)@.threads, tid as u64);
        }
        match self.threads.find(tid as u64) {
            Some(at) => {
                assert(op_views(ops@) =~= op_views(old(ops)@) + Seq::<SinkOpView>::empty());
                at
            },
            None => {
                let handle = match self.global_thread {
                    Some(handle) => {
                        assert(op_views(ops@) =~= op_views(old(ops)@) + Seq::<
                            SinkOpView,
                        >::empty());
                        handle
                    },
                    None => {
                        let p: usize = self.ensure_process(pid, ops);
                        let handle = ThreadHandle(self.next.thread);
                        let op = SinkOp::AddThread {
                            thread: handle,
                            process: self.processes.entries[p].value.process_handle,
                            tid,
                            start_time: Timestamp::from_nanos_since_reference(0),
                            is_main: false,
                        };
                        self.next.thread = handle_up(self.next.thread);
                        proof {
                            lemma_op_views_push(ops@, op);
                            let enrolled = ensure_process(old(self)@, pid);
                            assert(op_views(ops@.push(op)) =~= op_views(old(ops)@) + enrolled.ops.push(
                                op@,
                            ));
                        }
                        ops.push(op);
                        handle
                    },
                };
                let ghost before = self@;
                self.threads.push(tid as u64, ThreadState::new(handle, tid));
                proof {
                    let after = ensure_thread(old(self)@, pid, tid).state;
                    let keys = self@.threads.map_values(|e: (u64, ThreadView)| e.0);
                    let old_keys = before.threads.map_values(|e: (u64, ThreadView)| e.0);
                    crate::tables::lemma_position(keys, tid as u64);
                    crate::tables::lemma_position(old_keys, tid as u64);
                    assert(keys[before.threads.len() as int] == tid as u64);
                    assert forall|j: int| 0 <= j < before.threads.len() implies keys[j]
                        != tid as u64 by {
                        assert(keys[j] == old_keys[j]);
                    }
                }
                self.threads.entries.len() - 1
            },
        }
    }
}

/// The label of the thread's samples and its handle, with merged
/// threads; nothing otherwise.
pub open spec fn sample_label(v: EngineView, thread: ThreadView) -> (Step, Option<StringHandle>) {
    if v.global_thread is Some {
        let (step, handle) = intern_label(v, thread_label(thread));
        (step, Some(handle))
    } else {
        (Step { state: v, ops: Seq::empty() }, None)
    }
}

/// The state with one more sample in stack-walk order counted.
pub open spec fn count_stack_sample(v: EngineView, sample: StackSampleView) -> EngineView {
    if sample.on_cpu {
        EngineView {
            counters: Counters {
                stack_sample_count: next_count(v.counters.stack_sample_count),
                ..v.counters
            },
            ..v
        }
    } else {
        v
    }
}

/// Queues a finished sample of the thread at place `t` with the process
/// at place `p`: its stack is interned, outermost frame first, and with
/// merged threads it gets the label of its thread. A sample whose stack
/// the interner has no room for is dropped and counted as dropped.
pub open spec fn queue_sample(v: EngineView, p: int, t: int, sample: StackSampleView) -> Step {
    let counted = count_stack_sample(v, sample);
    if v.unresolved_stacks.len() + sample.stack.len() >= EMPTY_STACK {
        Step {
            state: EngineView {
                counters: Counters {
                    dropped_sample_count: next_count(counted.counters.dropped_sample_count),
                    ..counted.counters
                },
                ..counted
            },
            ops: Seq::empty(),
        }
    } else {
        let (nodes, stack) = with_chain(
            v.unresolved_stacks,
            UnresolvedStackHandle(EMPTY_STACK),
            sample.stack.reverse(),
        );
        let thread = v.threads[t].1;
        let (labelled, label) = sample_label(counted, thread);
        let w = labelled.state;
        let process = w.processes[p].1;
        let queued = UnresolvedSample {
            thread_handle: thread.handle,
            timestamp: timestamp_at(v.timestamp_converter.raw_nanos(sample.raw_timestamp)),
            timestamp_raw: sample.raw_timestamp,
            stack,
            cpu_delta: sample.cpu_delta,
            weight: sample.weight,
            extra_label: label,
        };
        Step {
            state: EngineView {
                unresolved_stacks: nodes,
                processes: w.processes.update(
                    p,
                    (
                        w.processes[p].0,
                        ProcessView {
                            unresolved_samples: process.unresolved_samples.push(queued),
                            ..process
                        },
                    ),
                ),
                ..w
            },
            ops: labelled.ops,
        }
    }
}

/// Queues finished samples in their order.
pub open spec fn queue_samples(v: EngineView, p: int, t: int, samples: Seq<StackSampleView>)
    -> Step
    decreases samples.len(),
{
    if samples.len() == 0 {
        Step { state: v, ops: Seq::empty() }
    } else {
        let front = queue_samples(v, p, t, samples.drop_last());
        let last = queue_sample(front.state, p, t, samples.last());
        Step { state: last.state, ops: front.ops + last.ops }
    }
}

/// A copy of a stack with its frames in the opposite order.
pub fn reversed_stack(stack: &Vec<StackFrame>) -> (reversed: Vec<StackFrame>)
    ensures
        reversed@ == stack@.reverse(),
{
    let mut reversed: Vec<StackFrame> = Vec::new();
    let mut i: usize = stack.len();
    while i > 0
        invariant
            i <= stack.len(),
            reversed@ == stack@.reverse().take(stack.len() - i),
        decreases i,
    {
        i -= 1;
        assert(stack@.reverse()[stack.len() - i - 1] == stack@[i as int]);
        assert(stack@.reverse().take(stack.len() - i) == stack@.reverse().take(
            stack.len() - i - 1,
        ).push(stack@[i as int]));
        reversed.push(stack[i]);
    }
    assert(stack@.reverse().take(stack.len() as int) == stack@.reverse());
    reversed
}

impl Engine {
    /// The handle of a label; a label that is new is handed to the
    /// profile.
    pub fn intern_label(&mut self, text: String, ops: &mut Vec<SinkOp>) -> (handle: StringHandle)
        requires
            old(self).well_formed(),
        ensures
            final(self).well_formed(),
            final(self)@ == intern_label(old(self)@, text@).0.state,
            op_views(final(ops)@) == op_views(old(ops)@) + intern_label(old(self)@, text@).0.ops,
            handle == intern_label(old(self)@, text@).1,
            final(self).processes == old(self).processes,
            final(self).threads == old(self).threads,
    {
        match self.labels.find(text.as_str()) {
            Some(i) => {
                assert(op_views(ops@) =~= op_views(old(ops)@) + Seq::<SinkOpView>::empty());
                assert(self.labels@[i as int].1 == self.labels.entries@[i as int].value);
                self.labels.entries[i].value
            },
            None => {
                let handle = StringHandle(self.next.string);
                self.next.string = handle_up(self.next.string);
                let op = SinkOp::InternString { string: handle, text: text.clone() };
                proof {
                    lemma_op_views_push(ops@, op);
                    assert(op_views(ops@.push(op)) =~= op_views(old(ops)@) + seq![op@]);
                }
                ops.push(op);
                self.labels.push(text, handle);
                handle
            },
        }
    }

    /// The label of the samples of the thread at place `t`.
    fn label_of_thread(&self, t: usize) -> (text: String)
        requires
            t < self.threads.entries@.len(),
        ensures
            text@ == thread_label(self@.threads[t as int].1),
    {
        let thread = &self.threads.entries[t].value;
        assert(self@.threads[t as int].1 == thread@);
        match &thread.merge_name {
            Some(name) => strip_thread_numbers(name.as_str()).to_owned(),
            None => {
                let mut text: Vec<char> = Vec::new();
                push_text(&mut text, "thread ");
                push_decimal(&mut text, thread.thread_id as u64);
                let label = string_of(&text);
                assert(label@ =~= "thread "@ + decimal(thread.thread_id as nat));
                label
            },
        }
    }

    /// Queues a finished sample of the thread at place `t` with the
    /// process at place `p`.
    pub fn queue_sample(&mut self, p: usize, t: usize, sample: &StackSample, ops: &mut Vec<SinkOp>)
        requires
            old(self).well_formed(),
            p < old(self).processes.entries@.len(),
            t < old(self).threads.entries@.len(),
        ensures
            final(self).well_formed(),
            final(self)@ == queue_sample(old(self)@, p as int, t as int, sample@).state,
            op_views(final(ops)@) == op_views(old(ops)@) + queue_sample(
                old(self)@,
                p as int,
                t as int,
                sample@,
            ).ops,
            final(self).processes.entries@.len() == old(self).processes.entries@.len(),
            final(self).threads.entries@.len() == old(self).threads.entries@.len(),
    {
        if sample.on_cpu {
            self.counters.stack_sample_count = count_up(self.counters.stack_sample_count);
        }
        let frames = reversed_stack(&sample.stack);
        let interned = self.unresolved_stacks.convert(&frames);
        match interned {
            None => {
                self.counters.dropped_sample_count = count_up(self.counters.dropped_sample_count);
                assert(op_views(ops@) =~= op_views(old(ops)@) + Seq::<SinkOpView>::empty());
            },
            Some(stack) => {
                let thread_handle = self.threads.entries[t].value.handle;
                assert(self@.threads[t as int].1 == self.threads.entries@[t as int].value@);
                let label = if self.global_thread.is_some() {
                    let text = self.label_of_thread(t);
                    Some(self.intern_label(text, ops))
                } else {
                    assert(op_views(ops@) =~= op_views(old(ops)@) + Seq::<SinkOpView>::empty());
                    None
                };
                let queued = UnresolvedSample {
                    thread_handle,
                    timestamp: self.timestamp_converter.convert_raw(sample.raw_timestamp),
                    timestamp_raw: sample.raw_timestamp,
                    stack,
                    cpu_delta: sample.cpu_delta,
                    weight: sample.weight,
                    extra_label: label,
                };
                let ghost before = self@;
                self.processes.entries[p].value.unresolved_samples.push(queued);
                proof {
                    let process = before.processes[p as int].1;
                    assert(self@.processes =~= before.processes.update(
                        p as int,
                        (
                            before.processes[p as int].0,
                            ProcessView {
                                unresolved_samples: process.unresolved_samples.push(queued),
                                ..process
                            },
                        ),
                    ));
                }
            },
        }
    }

    /// Queues finished samples in their order.
    pub fn queue_samples(
        &mut self,
        p: usize,
        t: usize,
        samples: &Vec<StackSample>,
        ops: &mut Vec<SinkOp>,
    )
        requires
            old(self).well_formed(),
            p < old(self).processes.entries@.len(),
            t < old(self).threads.entries@.len(),
        ensures
            final(self).well_formed(),
            final(self)@ == queue_samples(
                old(self)@,
                p as int,
                t as int,
                sample_views(samples@),
            ).state,
            op_views(final(ops)@) == op_views(old(ops)@) + queue_samples(
                old(self)@,
                p as int,
                t as int,
                sample_views(samples@),
            ).ops,
            final(self).processes.entries@.len() == old(self).processes.entries@.len(),
            final(self).threads.entries@.len() == old(self).threads.entries@.len(),
    {
        let ghost views = sample_views(samples@);
        let mut i: usize = 0;
        proof {
            assert(views.take(0) == Seq::<StackSampleView>::empty());
            assert(op_views(ops@) =~= op_views(old(ops)@) + Seq::<SinkOpView>::empty());
        }
        while i < samples.len()
            invariant
                i <= samples.len(),
                views == sample_views(samples@),
                self.well_formed(),
                p < self.processes.entries@.len(),
                t < self.threads.entries@.len(),
                self.processes.entries@.len() == old(self).processes.entries@.len(),
                self.threads.entries@.len() == old(self).threads.entries@.len(),
                self@ == queue_samples(old(self)@, p as int, t as int, views.take(i as int)).state,
                op_views(ops@) == op_views(old(ops)@) + queue_samples(
                    old(self)@,
                    p as int,
                    t as int,
                    views.take(i as int),
                ).ops,
            decreases samples.len() - i,
        {
            proof {
                let next = views.take(i + 1);
                assert(next.drop_last() == views.take(i as int));
                assert(next.last() == samples@[i as int]@);
            }
            let ghost before = op_views(ops@);
            let ghost front = queue_samples(old(self)@, p as int, t as int, views.take(i as int));
            self.queue_sample(p, t, &samples[i], ops);
            proof {
                let last = queue_sample(front.state, p as int, t as int, samples@[i as int]@);
                assert(op_views(ops@) =~= op_views(old(ops)@) + (front.ops + last.ops));
            }
            i += 1;
        }
        assert(views.take(samples.len() as int) == views);
    }
}

/// A sample that is queued carries the time of its trigger as a count of
/// nanoseconds since the reference point, which is never negative, and
/// the CPU delta and the weight that it was made with.
pub proof fn lemma_queued_sample(v: EngineView, p: int, t: int, sample: StackSampleView)
    requires
        0 <= p < v.processes.len(),
        v.unresolved_stacks.len() + sample.stack.len() < EMPTY_STACK,
    ensures
        ({
            let before = v.processes[p].1.unresolved_samples;
            let after = queue_sample(v, p, t, sample).state.processes[p].1.unresolved_samples;
            let nanos = v.timestamp_converter.raw_nanos(sample.raw_timestamp);
            &&& after.len() == before.len() + 1
            &&& after.take(before.len() as int) == before
            &&& 0 <= nanos
            &&& after.last().timestamp == timestamp_at(nanos)
            &&& after.last().timestamp_raw == sample.raw_timestamp
            &&& after.last().cpu_delta == sample.cpu_delta
            &&& after.last().weight == sample.weight
            &&& after.last().thread_handle == v.threads[t].1.handle
        }),
{
    let before = v.processes[p].1.unresolved_samples;
    let after = queue_sample(v, p, t, sample).state.processes[p].1.unresolved_samples;
    assert(after.take(before.len() as int) =~= before);
}

/// Queueing a sample leaves the other processes and the number of
/// processes as they are, and puts at most one sample behind those that
/// the process holds.
pub proof fn lemma_queue_sample_appends(v: EngineView, p: int, t: int, sample: StackSampleView)
    requires
        0 <= p < v.processes.len(),
    ensures
        ({
            let before = v.processes[p].1.unresolved_samples;
            let after = queue_sample(v, p, t, sample).state.processes;
            &&& after.len() == v.processes.len()
            &&& before.len() <= after[p].1.unresolved_samples.len() <= before.len() + 1
            &&& after[p].1.unresolved_samples.take(before.len() as int) == before
            &&& forall|q: int| 0 <= q < v.processes.len() && q != p ==> after[q] == v.processes[q]
        }),
{
    let before = v.processes[p].1.unresolved_samples;
    let after = queue_sample(v, p, t, sample).state.processes;
    assert(after[p].1.unresolved_samples.take(before.len() as int) =~= before);
}

/// Samples are queued in their order behind those that the process
/// holds: what was queued before stays where it is.
pub proof fn lemma_queue_samples_appends(
    v: EngineView,
    p: int,
    t: int,
    samples: Seq<StackSampleView>,
)
    requires
        0 <= p < v.processes.len(),
    ensures
        ({
            let before = v.processes[p].1.unresolved_samples;
            let after = queue_samples(v, p, t, samples).state.processes;
            &&& after.len() == v.processes.len()
            &&& before.len() <= after[p].1.unresolved_samples.len() <= before.len() + samples.len()
            &&& after[p].1.unresolved_samples.take(before.len() as int) == before
        }),
    decreases samples.len(),
{
    let before = v.processes[p].1.unresolved_samples;
    if samples.len() == 0 {
        assert(before.take(before.len() as int) =~= before);
    } else {
        let front = queue_samples(v, p, t, samples.drop_last());
        lemma_queue_samples_appends(v, p, t, samples.drop_last());
        lemma_queue_sample_appends(front.state, p, t, samples.last());
        let middle = front.state.processes[p].1.unresolved_samples;
        let after = queue_samples(v, p, t, samples).state.processes[p].1.unresolved_samples;
        assert(after.take(before.len() as int) =~= middle.take(before.len() as int)) by {
            assert(after.take(middle.len() as int) == middle);
            assert(after.take(middle.len() as int).take(before.len() as int) =~= after.take(
                before.len() as int,
            ));
        }
    }
}

} // verus!

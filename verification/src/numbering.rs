//! The numbering of handles.
//!
//! The engine numbers what it asks the profile to create, and whoever
//! performs the operations counts along. This only works if every
//! operation that creates something carries the next number of its kind,
//! and every operation that names something names a number that has been
//! given out. The lemmas of this module prove both of every step of the
//! engine, as long as numbers are left.

use crate::engine::{
    ensure_process, ensure_thread, initial, intern_label, process_name, queue_sample,
    queue_samples, register_process, sample_label, Step,
};
use crate::images::with_process;
use crate::lib_mappings::{LibMappingOp, TimedOp};
use crate::pending_stacks::StackSampleView;
use crate::profile_values::timestamp_at;
use crate::sampling::with_thread;
use crate::sink::{MarkerCategory, ResolvedFrame, SinkOpView};
use crate::state::{
    next_handle, EngineView, JitView, NextHandles, ProcessView, SettingsView, ThreadView,
    UnresolvedSample,
};
use crate::tables::{lemma_lookup, lookup, lookup_name, put, slot};
use fxprof_processed_profile::Timestamp;
use vstd::prelude::*;

verus! {

/// Whether no count of `n` is larger than that of `m`.
pub open spec fn counts_le(n: NextHandles, m: NextHandles) -> bool {
    &&& n.process <= m.process
    &&& n.thread <= m.thread
    &&& n.lib <= m.lib
    &&& n.category <= m.category
    &&& n.counter <= m.counter
    &&& n.string <= m.string
}

/// Whether each kind has a number left.
pub open spec fn numbers_left(n: NextHandles) -> bool {
    &&& n.process < usize::MAX
    &&& n.thread < usize::MAX
    &&& n.lib < usize::MAX
    &&& n.category < usize::MAX
    &&& n.counter < usize::MAX
    &&& n.string < usize::MAX
}

/// Whether the handles that a frame names have been given out.
pub open spec fn frame_known(frame: ResolvedFrame, n: NextHandles) -> bool {
    match frame {
        ResolvedFrame::Label(label) => label.0 < n.string,
        ResolvedFrame::Address { .. } => true,
        ResolvedFrame::InLibrary { lib, .. } => lib.0 < n.lib,
    }
}

/// Whether the handles that the frames name have been given out.
pub open spec fn frames_known(frames: Seq<ResolvedFrame>, n: NextHandles) -> bool {
    forall|i: int| 0 <= i < frames.len() ==> frame_known(#[trigger] frames[i], n)
}

/// Whether an operation is in order when the counts are `n`: what it
/// creates carries the next number of its kind, and what it names has
/// been given out.
pub open spec fn op_in_order(op: SinkOpView, n: NextHandles) -> bool {
    match op {
        SinkOpView::SetInterval { .. } => true,
        SinkOpView::AddProcess { process, .. } => process.0 == n.process,
        SinkOpView::AddThread { thread, process, .. } => thread.0 == n.thread && process.0
            < n.process,
        SinkOpView::SetThreadName { thread, .. } => thread.0 < n.thread,
        SinkOpView::SetThreadEndTime { thread, .. } => thread.0 < n.thread,
        SinkOpView::AddLib { lib, .. } => lib.0 == n.lib,
        SinkOpView::AddKernelLibMapping { lib, .. } => lib.0 < n.lib,
        SinkOpView::SetLibSymbolTable { lib, .. } => lib.0 < n.lib,
        SinkOpView::AddCounter { counter, process, .. } => counter.0 == n.counter && process.0
            < n.process,
        SinkOpView::AddCounterSample { counter, .. } => counter.0 < n.counter,
        SinkOpView::AddCategory { category, .. } => category.0 == n.category,
        SinkOpView::AddMarker { thread, category, .. } => thread.0 < n.thread && (match category {
            MarkerCategory::Other => true,
            MarkerCategory::Added(handle) => handle.0 < n.category,
        }),
        SinkOpView::InternString { string, .. } => string.0 == n.string,
        SinkOpView::AddSample { thread, frames, .. } => thread.0 < n.thread && frames_known(
            frames,
            n,
        ),
    }
}

/// The counts after an operation.
pub open spec fn counts_after_op(op: SinkOpView, n: NextHandles) -> NextHandles {
    match op {
        SinkOpView::AddProcess { .. } => NextHandles { process: next_handle(n.process), ..n },
        SinkOpView::AddThread { .. } => NextHandles { thread: next_handle(n.thread), ..n },
        SinkOpView::AddLib { .. } => NextHandles { lib: next_handle(n.lib), ..n },
        SinkOpView::AddCounter { .. } => NextHandles { counter: next_handle(n.counter), ..n },
        SinkOpView::AddCategory { .. } => NextHandles { category: next_handle(n.category), ..n },
        SinkOpView::InternString { .. } => NextHandles { string: next_handle(n.string), ..n },
        _ => n,
    }
}

/// The counts after a sequence of operations.
pub open spec fn counts_after(ops: Seq<SinkOpView>, n: NextHandles) -> NextHandles
    decreases ops.len(),
{
    if ops.len() == 0 {
        n
    } else {
        counts_after_op(ops.last(), counts_after(ops.drop_last(), n))
    }
}

/// Whether a sequence of operations is in order when the counts at its
/// start are `n`.
pub open spec fn in_order(ops: Seq<SinkOpView>, n: NextHandles) -> bool
    decreases ops.len(),
{
    if ops.len() == 0 {
        true
    } else {
        in_order(ops.drop_last(), n) && op_in_order(ops.last(), counts_after(ops.drop_last(), n))
    }
}

/// Whether the operations are in order from the counts `from` and leave
/// the counts `to`.
pub open spec fn leads(ops: Seq<SinkOpView>, from: NextHandles, to: NextHandles) -> bool {
    in_order(ops, from) && counts_after(ops, from) == to
}

/// No operations lead from the counts to themselves.
pub proof fn lemma_none(n: NextHandles)
    ensures
        leads(Seq::empty(), n, n),
{
}

/// One more operation in order extends operations in order.
pub proof fn lemma_push(ops: Seq<SinkOpView>, op: SinkOpView, from: NextHandles, to: NextHandles)
    requires
        leads(ops, from, to),
        op_in_order(op, to),
    ensures
        leads(ops.push(op), from, counts_after_op(op, to)),
{
    assert(ops.push(op).drop_last() == ops);
}

/// Operations in order, followed by operations in order from where the
/// first leave the counts, are in order.
pub proof fn lemma_add(
    a: Seq<SinkOpView>,
    b: Seq<SinkOpView>,
    from: NextHandles,
    middle: NextHandles,
    to: NextHandles,
)
    requires
        leads(a, from, middle),
        leads(b, middle, to),
    ensures
        leads(a + b, from, to),
    decreases b.len(),
{
    if b.len() == 0 {
        assert(a + b == a);
    } else {
        lemma_add(a, b.drop_last(), from, middle, counts_after(b.drop_last(), middle));
        assert((a + b).drop_last() == a + b.drop_last());
        assert((a + b).last() == b.last());
    }
}

/// One operation in order leads to the counts after it.
pub proof fn lemma_one(op: SinkOpView, n: NextHandles)
    requires
        op_in_order(op, n),
    ensures
        leads(seq![op], n, counts_after_op(op, n)),
{
    lemma_push(Seq::empty(), op, n, n);
    assert(Seq::<SinkOpView>::empty().push(op) == seq![op]);
}

/// Whether the handles of a queued sample have been given out.
pub open spec fn sample_known(sample: UnresolvedSample, n: NextHandles) -> bool {
    &&& sample.thread_handle.0 < n.thread
    &&& match sample.extra_label {
        Some(label) => label.0 < n.string,
        None => true,
    }
}

/// Whether the library of a log entry has been given out.
pub open spec fn entry_known(entry: TimedOp, n: NextHandles) -> bool {
    match entry.op {
        LibMappingOp::Add(mapping) => mapping.info.lib_handle.0 < n.lib,
        LibMappingOp::Remove { .. } => true,
    }
}

/// Whether the libraries of a log have been given out.
pub open spec fn log_known(log: Seq<TimedOp>, n: NextHandles) -> bool {
    forall|i: int| 0 <= i < log.len() ==> entry_known(#[trigger] log[i], n)
}

/// Whether the handles that a process holds have been given out.
pub open spec fn process_known(process: ProcessView, n: NextHandles) -> bool {
    &&& process.process_handle.0 < n.process
    &&& match process.main_thread_handle {
        Some(thread) => thread.0 < n.thread,
        None => true,
    }
    &&& forall|i: int|
        0 <= i < process.unresolved_samples.len() ==> sample_known(
            #[trigger] process.unresolved_samples[i],
            n,
        )
    &&& log_known(process.regular_lib_mapping_ops, n)
}

/// Whether the handles that the state of a process's run-time code holds
/// have been given out.
pub open spec fn jit_known(jit: JitView, n: NextHandles) -> bool {
    jit.lib_handle.0 < n.lib && log_known(jit.jit_mapping_ops, n)
}

/// Whether every handle that the state holds has been given out when the
/// counts are `n`.
pub open spec fn state_known(v: EngineView, n: NextHandles) -> bool {
    &&& forall|i: int| 0 <= i < v.threads.len() ==> (#[trigger] v.threads[i]).1.handle.0 < n.thread
    &&& forall|i: int| 0 <= i < v.processes.len() ==> process_known((#[trigger] v.processes[i]).1, n)
    &&& forall|i: int| 0 <= i < v.jit.len() ==> jit_known((#[trigger] v.jit[i]).1, n)
    &&& forall|pid: u64|
        v.memory_usage.contains_key(pid) ==> (#[trigger] v.memory_usage[pid]).0 < n.counter
    &&& forall|i: int| 0 <= i < v.categories.len() ==> (#[trigger] v.categories[i]).1.0 < n.category
    &&& forall|i: int| 0 <= i < v.labels.len() ==> (#[trigger] v.labels[i]).1.0 < n.string
    &&& match v.global_thread {
        Some(thread) => thread.0 < n.thread,
        None => true,
    }
    &&& match v.global_process {
        Some(process) => process.0 < n.process,
        None => true,
    }
    &&& match v.gpu_thread {
        Some(thread) => thread.0 < n.thread,
        None => true,
    }
}

/// Whether every handle that the state holds has been given out.
pub open spec fn handles_known(v: EngineView) -> bool {
    state_known(v, v.next)
}

/// Whether a step keeps the numbering: from a state whose handles have
/// all been given out, its operations are in order and leave the counts
/// of the state it leads to, whose handles have all been given out.
pub open spec fn keeps_numbering(v: EngineView, step: Step) -> bool {
    &&& handles_known(step.state)
    &&& leads(step.ops, v.next, step.state.next)
    &&& counts_le(v.next, step.state.next)
}

/// What has been given out stays given out when the counts grow.
pub proof fn lemma_known_stays_known(v: EngineView, n: NextHandles, m: NextHandles)
    requires
        state_known(v, n),
        counts_le(n, m),
    ensures
        state_known(v, m),
{
    assert forall|i: int| 0 <= i < v.processes.len() implies process_known(
        (#[trigger] v.processes[i]).1,
        m,
    ) by {
        let process = v.processes[i].1;
        assert(process_known(process, n));
        assert forall|k: int| 0 <= k < process.unresolved_samples.len() implies sample_known(
            #[trigger] process.unresolved_samples[k],
            m,
        ) by {
            assert(sample_known(process.unresolved_samples[k], n));
        }
        assert forall|k: int| 0 <= k < process.regular_lib_mapping_ops.len() implies entry_known(
            #[trigger] process.regular_lib_mapping_ops[k],
            m,
        ) by {
            assert(entry_known(process.regular_lib_mapping_ops[k], n));
        }
    }
    assert forall|i: int| 0 <= i < v.jit.len() implies jit_known((#[trigger] v.jit[i]).1, m) by {
        let jit = v.jit[i].1;
        assert(jit_known(jit, n));
        assert forall|k: int| 0 <= k < jit.jit_mapping_ops.len() implies entry_known(
            #[trigger] jit.jit_mapping_ops[k],
            m,
        ) by {
            assert(entry_known(jit.jit_mapping_ops[k], n));
        }
    }
}

/// The state before the first event keeps the numbering from zero.
pub proof fn lemma_initial(settings: SettingsView, process_targets: Set<u32>)
    ensures
        handles_known(initial(settings, process_targets).state),
        leads(
            initial(settings, process_targets).ops,
            NextHandles { process: 0, thread: 0, lib: 0, category: 0, counter: 0, string: 0 },
            initial(settings, process_targets).state.next,
        ),
{
    let zero = NextHandles { process: 0, thread: 0, lib: 0, category: 0, counter: 0, string: 0 };
    let start = initial(settings, process_targets);
    if settings.merge_threads {
        let first = start.ops[0];
        let second = start.ops[1];
        lemma_one(first, zero);
        lemma_push(seq![first], second, zero, counts_after_op(first, zero));
        assert(seq![first].push(second) == start.ops);
    }
}

/// A table keeps a property of its values when a value that has it is
/// put into it.
pub proof fn lemma_put_keeps<T>(
    table: Seq<(u64, T)>,
    key: u64,
    value: T,
    holds: spec_fn(T) -> bool,
)
    requires
        forall|i: int| 0 <= i < table.len() ==> holds((#[trigger] table[i]).1),
        holds(value),
    ensures
        forall|i: int|
            0 <= i < put(table, key, value).len() ==> holds((#[trigger] put(table, key, value)[i]).1),
{
    lemma_lookup(table, key);
    let after = put(table, key, value);
    assert forall|i: int| 0 <= i < after.len() implies holds((#[trigger] after[i]).1) by {
        if i != slot(table, key) {
            assert(after[i] == table[i]);
        }
    }
}

/// Enrolling a process afresh keeps the numbering.
pub proof fn lemma_register_process(v: EngineView, pid: u32, name: Seq<char>, start: Timestamp)
    requires
        handles_known(v),
        v.next.process < usize::MAX,
    ensures
        keeps_numbering(v, register_process(v, pid, name, start)),
        register_process(v, pid, name, start).state.threads == v.threads,
        register_process(v, pid, name, start).state.next == (NextHandles {
            process: register_process(v, pid, name, start).state.next.process,
            ..v.next
        }),
{
    let step = register_process(v, pid, name, start);
    lemma_known_stays_known(v, v.next, step.state.next);
    let fresh = step.state.processes[slot(v.processes, pid as u64)].1;
    crate::tables::lemma_put(v.processes, pid as u64, fresh);
    lemma_put_keeps(
        v.processes,
        pid as u64,
        fresh,
        |p: ProcessView| process_known(p, step.state.next),
    );
    if v.global_process is None {
        lemma_one(step.ops[0], v.next);
    }
}

/// Enrolling a process if it is not enrolled keeps the numbering, and the
/// process is enrolled afterwards.
pub proof fn lemma_ensure_process(v: EngineView, pid: u32)
    requires
        handles_known(v),
        v.next.process < usize::MAX,
    ensures
        keeps_numbering(v, ensure_process(v, pid)),
        ensure_process(v, pid).state.threads == v.threads,
        0 <= slot(v.processes, pid as u64) < ensure_process(v, pid).state.processes.len(),
        ensure_process(v, pid).state.next == (NextHandles {
            process: ensure_process(v, pid).state.next.process,
            ..v.next
        }),
{
    lemma_lookup(v.processes, pid as u64);
    if lookup(v.processes, pid as u64) is None {
        lemma_register_process(v, pid, process_name(pid), timestamp_at(0));
    }
}

/// Enrolling a thread if it is not enrolled keeps the numbering, and the
/// thread is enrolled afterwards.
pub proof fn lemma_ensure_thread(v: EngineView, pid: u32, tid: u32)
    requires
        handles_known(v),
        v.next.process < usize::MAX,
        v.next.thread < usize::MAX,
    ensures
        keeps_numbering(v, ensure_thread(v, pid, tid)),
        0 <= slot(v.threads, tid as u64) < ensure_thread(v, pid, tid).state.threads.len(),
        ensure_thread(v, pid, tid).state.next == (NextHandles {
            process: ensure_thread(v, pid, tid).state.next.process,
            thread: ensure_thread(v, pid, tid).state.next.thread,
            ..v.next
        }),
{
    lemma_lookup(v.threads, tid as u64);
    if lookup(v.threads, tid as u64) is None {
        match v.global_thread {
            Some(handle) => {},
            None => {
                lemma_ensure_process(v, pid);
                let enrolled = ensure_process(v, pid);
                let w = enrolled.state;
                let step = ensure_thread(v, pid, tid);
                lemma_known_stays_known(w, w.next, step.state.next);
                let op = step.ops.last();
                assert(step.ops == enrolled.ops.push(op));
                let p = slot(v.processes, pid as u64);
                assert(process_known(w.processes[p].1, w.next));
                lemma_push(enrolled.ops, op, v.next, w.next);
            },
        }
    }
}

/// Handing a label to the profile keeps the numbering, and the label's
/// handle has been given out afterwards.
pub proof fn lemma_intern_label(v: EngineView, text: Seq<char>)
    requires
        handles_known(v),
        v.next.string < usize::MAX,
    ensures
        keeps_numbering(v, intern_label(v, text).0),
        intern_label(v, text).1.0 < intern_label(v, text).0.state.next.string,
        intern_label(v, text).0.state.processes == v.processes,
        intern_label(v, text).0.state.threads == v.threads,
        intern_label(v, text).0.state.next == (NextHandles {
            string: intern_label(v, text).0.state.next.string,
            ..v.next
        }),
{
    let (step, handle) = intern_label(v, text);
    match lookup_name(v.labels, text) {
        Some(i) => {
            lemma_lookup_name_in_range(v.labels, text);
        },
        None => {
            lemma_known_stays_known(v, v.next, step.state.next);
            lemma_one(step.ops[0], v.next);
        },
    }
}

/// An entry that was found by its name stands in the table.
pub proof fn lemma_lookup_name_in_range<T>(table: Seq<(Seq<char>, T)>, name: Seq<char>)
    ensures
        match lookup_name(table, name) {
            Some(i) => 0 <= i < table.len(),
            None => true,
        },
{
    let names = table.map_values(|e: (Seq<char>, T)| e.0);
    lemma_name_position_from(names, name, 0);
}

proof fn lemma_name_position_from(names: Seq<Seq<char>>, name: Seq<char>, from: int)
    requires
        0 <= from,
    ensures
        from <= crate::tables::name_position_from(names, name, from) || names.len() < from,
    decreases names.len() - from,
{
    if from < names.len() && names[from] != name {
        lemma_name_position_from(names, name, from + 1);
    }
}

/// Changing a thread keeps the handles of the state given out if the
/// thread's own handle has been.
pub proof fn lemma_with_thread(v: EngineView, t: int, thread: ThreadView, n: NextHandles)
    requires
        state_known(v, n),
        0 <= t < v.threads.len(),
        thread.handle.0 < n.thread,
    ensures
        state_known(with_thread(v, t, thread), n),
{
    let w = with_thread(v, t, thread);
    assert forall|i: int| 0 <= i < w.threads.len() implies (#[trigger] w.threads[i]).1.handle.0
        < n.thread by {
        if i != t {
            assert(w.threads[i] == v.threads[i]);
        }
    }
}

/// Changing a process keeps the handles of the state given out if the
/// handles of the process have been.
pub proof fn lemma_with_process(v: EngineView, p: int, process: ProcessView, n: NextHandles)
    requires
        state_known(v, n),
        0 <= p < v.processes.len(),
        process_known(process, n),
    ensures
        state_known(with_process(v, p, process), n),
{
    let w = with_process(v, p, process);
    assert forall|i: int| 0 <= i < w.processes.len() implies process_known(
        (#[trigger] w.processes[i]).1,
        n,
    ) by {
        if i != p {
            assert(w.processes[i] == v.processes[i]);
        }
    }
}

/// Counting keeps the numbering.
pub proof fn lemma_counted(v: EngineView, w: EngineView)
    requires
        handles_known(v),
        w == (EngineView { counters: w.counters, ..v }),
    ensures
        keeps_numbering(v, Step { state: w, ops: Seq::empty() }),
{
}

/// Whether the label of the samples of the thread at place `t` has been
/// handed to the profile.
pub open spec fn label_is_there(v: EngineView, t: int) -> bool {
    lookup_name(v.labels, crate::engine::thread_label(v.threads[t].1)) is Some
}

/// A name that stands in a table is found in it.
pub proof fn lemma_name_is_found<T>(table: Seq<(Seq<char>, T)>, name: Seq<char>, at: int)
    requires
        0 <= at < table.len(),
        table[at].0 == name,
    ensures
        lookup_name(table, name) is Some,
{
    let names = table.map_values(|e: (Seq<char>, T)| e.0);
    assert(names[at] == name);
    lemma_name_position_stops(names, name, 0, at);
}

proof fn lemma_name_position_stops(names: Seq<Seq<char>>, name: Seq<char>, from: int, at: int)
    requires
        0 <= from <= at < names.len(),
        names[at] == name,
    ensures
        crate::tables::name_position_from(names, name, from) <= at,
    decreases at - from,
{
    if names[from] != name {
        lemma_name_position_stops(names, name, from + 1, at);
    }
}

/// A label that was handed to the profile is found afterwards.
pub proof fn lemma_interned_label_is_found(v: EngineView, text: Seq<char>)
    ensures
        lookup_name(intern_label(v, text).0.state.labels, text) is Some,
{
    let after = intern_label(v, text).0.state.labels;
    if lookup_name(v.labels, text) is None {
        lemma_name_is_found(after, text, v.labels.len() as int);
    }
}

/// Queueing a sample whose label has been handed to the profile gives
/// out no number.
pub proof fn lemma_queue_sample_again(v: EngineView, p: int, t: int, sample: StackSampleView)
    requires
        handles_known(v),
        0 <= p < v.processes.len(),
        0 <= t < v.threads.len(),
        label_is_there(v, t),
    ensures
        keeps_numbering(v, queue_sample(v, p, t, sample)),
        queue_sample(v, p, t, sample).state.processes.len() == v.processes.len(),
        queue_sample(v, p, t, sample).state.threads == v.threads,
        queue_sample(v, p, t, sample).state.next == v.next,
        label_is_there(queue_sample(v, p, t, sample).state, t),
{
    let counted = crate::engine::count_stack_sample(v, sample);
    let step = queue_sample(v, p, t, sample);
    if v.unresolved_stacks.len() + sample.stack.len() >= crate::unresolved_stacks::EMPTY_STACK {
    } else {
        let thread = v.threads[t].1;
        let (labelled, label) = sample_label(counted, thread);
        lemma_lookup_name_in_range(v.labels, crate::engine::thread_label(thread));
        let w = labelled.state;
        assert(w == counted);
        let process = w.processes[p].1;
        assert(process_known(process, w.next));
        let queued = step.state.processes[p].1.unresolved_samples.last();
        let grown = ProcessView {
            unresolved_samples: process.unresolved_samples.push(queued),
            ..process
        };
        assert(step.state.processes[p].1 == grown);
        assert(sample_known(queued, w.next));
        assert forall|k: int| 0 <= k < grown.unresolved_samples.len() implies sample_known(
            #[trigger] grown.unresolved_samples[k],
            w.next,
        ) by {
            if k < process.unresolved_samples.len() {
                assert(grown.unresolved_samples[k] == process.unresolved_samples[k]);
            }
        }
        lemma_with_process(w, p, grown, w.next);
        assert(step.state == (EngineView {
            unresolved_stacks: step.state.unresolved_stacks,
            ..with_process(w, p, grown)
        }));
    }
}

/// Queueing a sample keeps the numbering.
pub proof fn lemma_queue_sample(v: EngineView, p: int, t: int, sample: StackSampleView)
    requires
        handles_known(v),
        v.next.string < usize::MAX,
        0 <= p < v.processes.len(),
        0 <= t < v.threads.len(),
    ensures
        keeps_numbering(v, queue_sample(v, p, t, sample)),
        queue_sample(v, p, t, sample).state.processes.len() == v.processes.len(),
        queue_sample(v, p, t, sample).state.threads == v.threads,
        queue_sample(v, p, t, sample).state.next == (NextHandles {
            string: queue_sample(v, p, t, sample).state.next.string,
            ..v.next
        }),
        queue_sample(v, p, t, sample).state.next == v.next || label_is_there(
            queue_sample(v, p, t, sample).state,
            t,
        ),
{
    let counted = crate::engine::count_stack_sample(v, sample);
    let step = queue_sample(v, p, t, sample);
    if v.unresolved_stacks.len() + sample.stack.len() >= crate::unresolved_stacks::EMPTY_STACK {
    } else {
        let thread = v.threads[t].1;
        let (labelled, label) = sample_label(counted, thread);
        if v.global_thread is Some {
            lemma_intern_label(counted, crate::engine::thread_label(thread));
            lemma_interned_label_is_found(counted, crate::engine::thread_label(thread));
        }
        let w = labelled.state;
        assert(handles_known(w));
        let process = w.processes[p].1;
        assert(process_known(process, w.next));
        let queued = step.state.processes[p].1.unresolved_samples.last();
        let grown = ProcessView {
            unresolved_samples: process.unresolved_samples.push(queued),
            ..process
        };
        assert(step.state.processes[p].1 == grown);
        assert(sample_known(queued, w.next));
        assert forall|k: int| 0 <= k < grown.unresolved_samples.len() implies sample_known(
            #[trigger] grown.unresolved_samples[k],
            w.next,
        ) by {
            if k < process.unresolved_samples.len() {
                assert(grown.unresolved_samples[k] == process.unresolved_samples[k]);
            }
        }
        lemma_with_process(w, p, grown, w.next);
        assert(step.state == (EngineView {
            unresolved_stacks: step.state.unresolved_stacks,
            ..with_process(w, p, grown)
        }));
    }
}

/// Queueing the samples of one thread keeps the numbering: they share
/// their label, so at most one number is given out.
pub proof fn lemma_queue_samples(v: EngineView, p: int, t: int, samples: Seq<StackSampleView>)
    requires
        handles_known(v),
        v.next.string < usize::MAX,
        0 <= p < v.processes.len(),
        0 <= t < v.threads.len(),
    ensures
        keeps_numbering(v, queue_samples(v, p, t, samples)),
        queue_samples(v, p, t, samples).state.processes.len() == v.processes.len(),
        queue_samples(v, p, t, samples).state.threads == v.threads,
        queue_samples(v, p, t, samples).state.next == (NextHandles {
            string: queue_samples(v, p, t, samples).state.next.string,
            ..v.next
        }),
        queue_samples(v, p, t, samples).state.next == v.next || label_is_there(
            queue_samples(v, p, t, samples).state,
            t,
        ),
    decreases samples.len(),
{
    if samples.len() > 0 {
        let front = queue_samples(v, p, t, samples.drop_last());
        lemma_queue_samples(v, p, t, samples.drop_last());
        let last = queue_sample(front.state, p, t, samples.last());
        if front.state.next == v.next {
            lemma_queue_sample(front.state, p, t, samples.last());
        } else {
            lemma_queue_sample_again(front.state, p, t, samples.last());
        }
        lemma_add(front.ops, last.ops, v.next, front.state.next, last.state.next);
    }
}

} // verus!

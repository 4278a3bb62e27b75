//! Every step of the engine keeps the numbering of handles.

use crate::dispatch::{count_event, event_kind, EventKind, Outcome};
use crate::engine::{ensure_process, ensure_thread, intern_label, Step};
use crate::events::{
    as_address, as_guid, as_text, as_u32, as_u64, as_u8, field_value, TraceEvent,
};
use crate::flush::{
    finish, flushed, flushed_process, flushed_samples, jit_log, resolved_frame, sample_frames,
};
use crate::images::{dbg_id, followed_or_kernel, image_id, image_load, with_process};
use crate::jit::{ensure_jit, method_load, with_method};
use crate::lib_mappings::{
    applied, lemma_mappings_come_from_the_log, lemma_newest_mapping_is_one_of_them,
    lookup as lookup_address_in, LibMappingOp, TimedOp,
};
use crate::markers::{
    category_for, collection_start, ensure_counter, ensure_gpu_thread, header, marker_begin,
    marker_end, plain_marker, provider_marker, virtual_memory, vsync,
};
use crate::numbering::{
    counts_after_op, entry_known, frame_known, handles_known, jit_known, keeps_numbering, leads,
    lemma_add, lemma_counted, lemma_ensure_process, lemma_ensure_thread, lemma_intern_label,
    lemma_known_stays_known, lemma_lookup_name_in_range, lemma_none, lemma_one, lemma_push,
    lemma_queue_samples, lemma_register_process, lemma_with_process, lemma_with_thread,
    log_known, numbers_left, op_in_order, process_known, sample_known,
};
use crate::registry::{
    add_started_thread, process_start, thread_end, thread_set_name, thread_start,
};
use crate::sampling::{
    count_sample, cswitch, demand_zero_fault, sample_prof, stack_walk, switched_in, switched_out,
    unfollowed_sample, with_thread,
};
use crate::sink::{MarkerPayloadView, MarkerTiming, ResolvedFrame, SinkOpView};
use crate::state::{EngineView, NextHandles, ThreadView, UnresolvedSample};
use crate::step::{
    chrome_event, collection_start_event, cswitch_event, dbg_id_event, firefox_event,
    header_event, image_id_event, image_load_event, interval_end_event, method_load_event,
    other_event, process_start_event, ready_thread_event, sample_prof_event, source_load_event,
    stack_walk_event, step, thread_end_event, thread_set_name_event, thread_start_event,
    virtual_memory_event,
};
use crate::tables::{lemma_lookup, lemma_put, lookup, lookup_name, slot};
use crate::types::StackFrame;
use crate::unresolved_stacks::StackNode;
use vstd::prelude::*;

verus! {

/// The naming of a thread keeps the numbering.
pub proof fn lemma_thread_set_name(v: EngineView, pid: u32, tid: u32, name: Seq<char>)
    requires
        handles_known(v),
        numbers_left(v.next),
    ensures
        keeps_numbering(v, thread_set_name(v, pid, tid, name)),
{
    if v.process_targets.contains(pid) {
        lemma_ensure_thread(v, pid, tid);
        let enrolled = ensure_thread(v, pid, tid);
        let w = enrolled.state;
        let t = slot(v.threads, tid as u64);
        let thread = w.threads[t].1;
        lemma_with_thread(w, t, ThreadView { merge_name: Some(name), ..thread }, w.next);
        if Some(thread.handle) != v.global_thread {
            lemma_push(
                enrolled.ops,
                SinkOpView::SetThreadName { thread: thread.handle, name },
                v.next,
                w.next,
            );
        }
    }
}

/// Giving a started thread its thread of the profile keeps the numbering,
/// and the thread's handle has been given out afterwards.
pub proof fn lemma_add_started_thread(v: EngineView, timestamp: u64, pid: u32, tid: u32)
    requires
        handles_known(v),
        numbers_left(v.next),
    ensures
        keeps_numbering(v, add_started_thread(v, timestamp, pid, tid).0),
        add_started_thread(v, timestamp, pid, tid).1.0 < add_started_thread(
            v,
            timestamp,
            pid,
            tid,
        ).0.state.next.thread,
{
    if v.global_thread is None {
        lemma_ensure_process(v, pid);
        let enrolled = ensure_process(v, pid);
        let w = enrolled.state;
        let p = slot(v.processes, pid as u64);
        let process = w.processes[p].1;
        let (step, handle) = add_started_thread(v, timestamp, pid, tid);
        assert(process_known(process, w.next));
        lemma_known_stays_known(w, w.next, step.state.next);
        let elected = step.state.processes[p].1;
        assert(process_known(process, step.state.next));
        assert(process_known(elected, step.state.next));
        lemma_with_process(w, p, elected, step.state.next);
        assert(step.state == (EngineView { next: step.state.next, ..with_process(w, p, elected) }));
        lemma_push(enrolled.ops, step.ops.last(), v.next, w.next);
        assert(step.ops == enrolled.ops.push(step.ops.last()));
    }
}

/// The start of a thread keeps the numbering.
pub proof fn lemma_thread_start(
    v: EngineView,
    timestamp: u64,
    pid: u32,
    tid: u32,
    name: Option<Seq<char>>,
)
    requires
        handles_known(v),
        numbers_left(v.next),
    ensures
        keeps_numbering(v, thread_start(v, timestamp, pid, tid, name)),
{
    if v.process_targets.contains(pid) {
        lemma_add_started_thread(v, timestamp, pid, tid);
        let (added, handle) = add_started_thread(v, timestamp, pid, tid);
        let w = added.state;
        let step = thread_start(v, timestamp, pid, tid, name);
        let fresh = step.state.threads[slot(w.threads, tid as u64)].1;
        lemma_put(w.threads, tid as u64, fresh);
        lemma_lookup(w.threads, tid as u64);
        assert forall|i: int| 0 <= i < step.state.threads.len() implies (
        #[trigger] step.state.threads[i]).1.handle.0 < w.next.thread by {
            if i != slot(w.threads, tid as u64) {
                assert(step.state.threads[i] == w.threads[i]);
            }
        }
        if step.ops != added.ops {
            lemma_push(added.ops, step.ops.last(), v.next, w.next);
            assert(step.ops == added.ops.push(step.ops.last()));
        }
    }
}

/// The end of a thread keeps the numbering.
pub proof fn lemma_thread_end(v: EngineView, timestamp: u64, tid: u32)
    requires
        handles_known(v),
    ensures
        keeps_numbering(v, thread_end(v, timestamp, tid)),
{
    lemma_lookup(v.threads, tid as u64);
    if lookup(v.threads, tid as u64) is Some {
        lemma_one(thread_end(v, timestamp, tid).ops[0], v.next);
    }
}

/// The start of a process keeps the numbering.
pub proof fn lemma_process_start(v: EngineView, timestamp: u64, pid: u32, image: Seq<char>)
    requires
        handles_known(v),
        numbers_left(v.next),
    ensures
        keeps_numbering(v, process_start(v, timestamp, pid, image)),
{
    let w = EngineView {
        process_targets: v.process_targets.insert(pid),
        ..v
    };
    lemma_register_process(
        w,
        pid,
        image,
        crate::profile_values::timestamp_at(v.timestamp_converter.raw_nanos(timestamp)),
    );
}

/// A sample of a thread that is not followed keeps the numbering.
pub proof fn lemma_unfollowed_sample(v: EngineView, timestamp: u64, tid: u32)
    requires
        handles_known(v),
        numbers_left(v.next),
    ensures
        keeps_numbering(v, unfollowed_sample(v, timestamp, tid)),
{
    if v.settings.include_idle && v.global_thread is Some {
        let text = crate::sampling::idle_label(tid);
        lemma_intern_label(v, text);
        let (labelled, label) = intern_label(v, text);
        let step = unfollowed_sample(v, timestamp, tid);
        let op = step.ops.last();
        assert(step.ops == labelled.ops.push(op));
        assert(op_in_order(op, labelled.state.next)) by {
            assert(op matches SinkOpView::AddSample { frames, .. } && frames == seq![
                ResolvedFrame::Label(label),
            ]);
        }
        lemma_push(labelled.ops, op, v.next, labelled.state.next);
    }
}

/// A sampling interrupt keeps the numbering.
pub proof fn lemma_sample_prof(v: EngineView, timestamp: u64, tid: u32)
    requires
        handles_known(v),
        numbers_left(v.next),
    ensures
        keeps_numbering(v, sample_prof(v, timestamp, tid)),
{
    let c = count_sample(v);
    lemma_lookup(c.threads, tid as u64);
    match lookup(c.threads, tid as u64) {
        None => {
            lemma_unfollowed_sample(c, timestamp, tid);
        },
        Some(t) => {
            let step = sample_prof(v, timestamp, tid);
            lemma_with_thread(c, t, step.state.threads[t].1, c.next);
        },
    }
}

/// A page fault keeps the numbering.
pub proof fn lemma_demand_zero_fault(v: EngineView, timestamp: u64, tid: u32)
    requires
        handles_known(v),
        numbers_left(v.next),
    ensures
        keeps_numbering(v, demand_zero_fault(v, timestamp, tid)),
{
    if v.settings.demand_zero_faults {
        let c = count_sample(v);
        lemma_lookup(c.threads, tid as u64);
        match lookup(c.threads, tid as u64) {
            None => {
                lemma_unfollowed_sample(c, timestamp, tid);
            },
            Some(t) => {
                let step = demand_zero_fault(v, timestamp, tid);
                lemma_with_thread(c, t, step.state.threads[t].1, c.next);
            },
        }
    }
}

/// A context switch keeps the numbering.
pub proof fn lemma_cswitch(v: EngineView, timestamp: u64, new_tid: u32, old_tid: u32)
    requires
        handles_known(v),
    ensures
        keeps_numbering(v, cswitch(v, timestamp, new_tid, old_tid)),
{
    let out = switched_out(v, timestamp, old_tid);
    lemma_lookup(v.threads, old_tid as u64);
    if let Some(t) = lookup(v.threads, old_tid as u64) {
        lemma_with_thread(v, t, out.threads[t].1, v.next);
    }
    let back = switched_in(out, timestamp, new_tid);
    lemma_lookup(out.threads, new_tid as u64);
    if let Some(t) = lookup(out.threads, new_tid as u64) {
        lemma_with_thread(out, t, back.threads[t].1, v.next);
    }
}

/// A stack walk keeps the numbering.
pub proof fn lemma_stack_walk(v: EngineView, pid: u32, tid: u32, event_timestamp: u64, data: Seq<u8>)
    requires
        handles_known(v),
        numbers_left(v.next),
    ensures
        keeps_numbering(v, stack_walk(v, pid, tid, event_timestamp, data)),
{
    if v.process_targets.contains(pid) {
        lemma_ensure_thread(v, pid, tid);
        let enrolled = ensure_thread(v, pid, tid);
        let w = enrolled.state;
        let t = slot(v.threads, tid as u64);
        let stack = crate::sampling::stack_frames(crate::sampling::stack_addresses(data));
        let step = stack_walk(v, pid, tid, event_timestamp, data);
        if stack.len() == 0 {
        } else if stack[0].spec_mode() == crate::types::StackMode::Kernel {
            lemma_with_thread(w, t, step.state.threads[t].1, w.next);
        } else {
            // A thread that was enrolled just now took the number that was left, and a
            // process with it; then nothing is left to give out, and nothing is asked.
            lemma_stack_walk_user(v, pid, tid, event_timestamp, data);
        }
    }
}

/// A user stack keeps the numbering.
proof fn lemma_stack_walk_user(
    v: EngineView,
    pid: u32,
    tid: u32,
    event_timestamp: u64,
    data: Seq<u8>,
)
    requires
        handles_known(v),
        numbers_left(v.next),
        v.process_targets.contains(pid),
        crate::sampling::stack_frames(crate::sampling::stack_addresses(data)).len() > 0,
        crate::sampling::stack_frames(crate::sampling::stack_addresses(data))[0].spec_mode()
            != crate::types::StackMode::Kernel,
    ensures
        keeps_numbering(v, stack_walk(v, pid, tid, event_timestamp, data)),
{
    lemma_ensure_thread(v, pid, tid);
    let enrolled = ensure_thread(v, pid, tid);
    let w = enrolled.state;
    let t = slot(v.threads, tid as u64);
    let stack = crate::sampling::stack_frames(crate::sampling::stack_addresses(data));
    let located = ensure_process(w, pid);
    let x = located.state;
    let p = slot(w.processes, pid as u64);
    lemma_lookup(v.threads, tid as u64);
    lemma_lookup(v.processes, pid as u64);
    lemma_lookup(w.processes, pid as u64);
    // A process that was enrolled with the thread is found when the samples are queued,
    // so no second process is enrolled.
    if w.next.process != v.next.process {
        lemma_ensure_process(v, pid);
        lemma_put(
            v.processes,
            pid as u64,
            ensure_process(v, pid).state.processes[slot(v.processes, pid as u64)].1,
        );
        assert(lookup(w.processes, pid as u64) is Some);
        assert(x == w);
        assert(located.ops.len() == 0);
        lemma_none(w.next);
    } else {
        lemma_ensure_process(w, pid);
    }
    assert(keeps_numbering(w, located));
    let thread = x.threads[t].1;
    let ready = crate::sampling::stack_walk_ready(x, t, event_timestamp);
    lemma_with_thread(x, t, ready.threads[t].1, x.next);
    let samples = crate::pending_stacks::resolved_samples(
        thread.pending_stacks,
        event_timestamp,
        stack,
        thread.context_switch_data.accumulated_on_cpu,
        x.timestamp_converter.raw_to_ns_factor,
    );
    let queued = crate::engine::queue_samples(ready, p, t, samples);
    lemma_queue_samples(ready, p, t, samples);
    lemma_add(enrolled.ops, located.ops, v.next, w.next, x.next);
    lemma_add(enrolled.ops + located.ops, queued.ops, v.next, x.next, queued.state.next);
}

/// An image id event keeps the numbering.
pub proof fn lemma_image_id(
    v: EngineView,
    pid: u32,
    image_base: u64,
    time_date_stamp: u32,
    image_size: u32,
    path: Seq<char>,
)
    requires
        handles_known(v),
    ensures
        keeps_numbering(v, image_id(v, pid, image_base, time_date_stamp, image_size, path)),
{
}

/// A debug id event keeps the numbering.
pub proof fn lemma_dbg_id(
    v: EngineView,
    pid: u32,
    image_base: u64,
    guid: crate::events::Guid,
    age: u32,
    pdb_path: Seq<char>,
)
    requires
        handles_known(v),
        numbers_left(v.next),
    ensures
        keeps_numbering(v, dbg_id(v, pid, image_base, guid, age, pdb_path)),
{
    if followed_or_kernel(v, pid) && v.libs.contains_key(image_base) && pid != 0 {
        lemma_ensure_process(v, pid);
        let enrolled = ensure_process(v, pid);
        let w = enrolled.state;
        let p = slot(v.processes, pid as u64);
        let step = dbg_id(v, pid, image_base, guid, age, pdb_path);
        assert(process_known(w.processes[p].1, w.next));
        lemma_with_process(w, p, step.state.processes[p].1, w.next);
    }
}

/// The load of an image keeps the numbering.
pub proof fn lemma_image_load(
    v: EngineView,
    timestamp: u64,
    pid: u32,
    image_base: u64,
    image_size: u64,
    file_name: Seq<char>,
)
    requires
        handles_known(v),
        numbers_left(v.next),
    ensures
        keeps_numbering(v, image_load(v, timestamp, pid, image_base, image_size, file_name)),
{
    let step = image_load(v, timestamp, pid, image_base, image_size, file_name);
    if !followed_or_kernel(v, pid) {
    } else if pid == 0 {
        if v.kernel_pending_libraries.contains_key(image_base) {
            lemma_known_stays_known(v, v.next, step.state.next);
            let first = step.ops[0];
            let second = step.ops[1];
            lemma_one(first, v.next);
            lemma_push(seq![first], second, v.next, counts_after_op(first, v.next));
            assert(seq![first].push(second) == step.ops);
        }
    } else {
        lemma_lookup(v.processes, pid as u64);
        if let Some(p) = lookup(v.processes, pid as u64) {
            let process = v.processes[p].1;
            if process.pending_libraries.contains_key(image_base) {
                lemma_known_stays_known(v, v.next, step.state.next);
                let loaded = step.state.processes[p].1;
                assert(process_known(process, step.state.next));
                assert forall|k: int| 0 <= k < loaded.regular_lib_mapping_ops.len() implies entry_known(
                    #[trigger] loaded.regular_lib_mapping_ops[k],
                    step.state.next,
                ) by {
                    if k < process.regular_lib_mapping_ops.len() {
                        assert(loaded.regular_lib_mapping_ops[k]
                            == process.regular_lib_mapping_ops[k]);
                    }
                }
                lemma_with_process(v, p, loaded, step.state.next);
                assert(step.state == (EngineView {
                    next: step.state.next,
                    ..with_process(v, p, loaded)
                }));
                lemma_one(step.ops[0], v.next);
            }
        }
    }
}

/// Making the library of a process's run-time code keeps the numbering.
pub proof fn lemma_ensure_jit(v: EngineView, pid: u32)
    requires
        handles_known(v),
        numbers_left(v.next),
    ensures
        keeps_numbering(v, ensure_jit(v, pid)),
        0 <= slot(v.jit, pid as u64) < ensure_jit(v, pid).state.jit.len(),
        ensure_jit(v, pid).state.processes == v.processes,
{
    lemma_lookup(v.jit, pid as u64);
    if lookup(v.jit, pid as u64) is None {
        let step = ensure_jit(v, pid);
        lemma_known_stays_known(v, v.next, step.state.next);
        lemma_one(step.ops[0], v.next);
        assert forall|i: int| 0 <= i < step.state.jit.len() implies jit_known(
            (#[trigger] step.state.jit[i]).1,
            step.state.next,
        ) by {
            if i < v.jit.len() {
                assert(step.state.jit[i] == v.jit[i]);
            }
        }
    }
}

/// The making of a function at run time keeps the numbering.
pub proof fn lemma_method_load(
    v: EngineView,
    timestamp: u64,
    pid: u32,
    name: Seq<char>,
    start_address: u64,
    size: u64,
)
    requires
        handles_known(v),
        numbers_left(v.next),
    ensures
        keeps_numbering(v, method_load(v, timestamp, pid, name, start_address, size)),
{
    lemma_lookup(v.processes, pid as u64);
    if let Some(p) = lookup(v.processes, pid as u64) {
        lemma_ensure_jit(v, pid);
        let made = ensure_jit(v, pid);
        let w = made.state;
        let j = slot(v.jit, pid as u64);
        let step = method_load(v, timestamp, pid, name, start_address, size);
        let before = w.jit[j].1;
        let after = with_method(before, timestamp, name, start_address, size);
        assert(jit_known(before, w.next));
        assert forall|k: int| 0 <= k < after.jit_mapping_ops.len() implies entry_known(
            #[trigger] after.jit_mapping_ops[k],
            w.next,
        ) by {
            if k < before.jit_mapping_ops.len() {
                assert(after.jit_mapping_ops[k] == before.jit_mapping_ops[k]);
            }
        }
        assert forall|i: int| 0 <= i < step.state.jit.len() implies jit_known(
            (#[trigger] step.state.jit[i]).1,
            w.next,
        ) by {
            if i != j {
                assert(step.state.jit[i] == w.jit[i]);
            }
        }
        assert(process_known(v.processes[p].1, v.next));
        if v.processes[p].1.main_thread_handle is Some {
            lemma_push(made.ops, step.ops.last(), v.next, w.next);
            assert(step.ops == made.ops.push(step.ops.last()));
        }
    }
}

/// The trace header keeps the numbering.
pub proof fn lemma_header(
    v: EngineView,
    timestamp: u64,
    timer_resolution: u32,
    perf_freq: u64,
    clock_type: u32,
    events_lost: u32,
)
    requires
        handles_known(v),
    ensures
        keeps_numbering(
            v,
            header(v, timestamp, timer_resolution, perf_freq, clock_type, events_lost),
        ),
{
}

/// The start of sampling keeps the numbering.
pub proof fn lemma_collection_start(v: EngineView, interval_raw: u32)
    requires
        handles_known(v),
    ensures
        keeps_numbering(v, collection_start(v, interval_raw)),
{
    lemma_one(collection_start(v, interval_raw).ops[0], v.next);
}

/// Making the counter of a process keeps the numbering.
pub proof fn lemma_ensure_counter(v: EngineView, pid: u32)
    requires
        handles_known(v),
        numbers_left(v.next),
    ensures
        keeps_numbering(v, ensure_counter(v, pid)),
        ensure_counter(v, pid).state.memory_usage.contains_key(pid as u64),
        ensure_counter(v, pid).state.threads == v.threads,
{
    if !v.memory_usage.contains_key(pid as u64) {
        lemma_ensure_process(v, pid);
        let enrolled = ensure_process(v, pid);
        let w = enrolled.state;
        let step = ensure_counter(v, pid);
        lemma_known_stays_known(w, w.next, step.state.next);
        let p = slot(v.processes, pid as u64);
        assert(process_known(w.processes[p].1, w.next));
        lemma_push(enrolled.ops, step.ops.last(), v.next, w.next);
        assert(step.ops == enrolled.ops.push(step.ops.last()));
        assert forall|other: u64| step.state.memory_usage.contains_key(other) implies (
        #[trigger] step.state.memory_usage[other]).0 < step.state.next.counter by {
            if other != pid as u64 {
                assert(w.memory_usage.contains_key(other));
            }
        }
    }
}

/// An allocation or a release of memory keeps the numbering.
pub proof fn lemma_virtual_memory(
    v: EngineView,
    timestamp: u64,
    pid: u32,
    tid: u32,
    region_size: u64,
    text: Seq<char>,
    freed: bool,
)
    requires
        handles_known(v),
        numbers_left(v.next),
    ensures
        keeps_numbering(v, virtual_memory(v, timestamp, pid, tid, region_size, text, freed)),
{
    if v.process_targets.contains(pid) {
        lemma_ensure_counter(v, pid);
        let counted = ensure_counter(v, pid);
        let w = counted.state;
        let step = virtual_memory(v, timestamp, pid, tid, region_size, text, freed);
        lemma_lookup(w.threads, tid as u64);
        if let Some(t) = lookup(w.threads, tid as u64) {
            let sample = step.ops[step.ops.len() - 2];
            let marker = step.ops.last();
            lemma_push(counted.ops, sample, v.next, w.next);
            lemma_push(counted.ops.push(sample), marker, v.next, w.next);
            assert(step.ops == counted.ops.push(sample).push(marker));
        }
    }
}

/// Making the thread of the graphics card keeps the numbering.
pub proof fn lemma_ensure_gpu_thread(v: EngineView)
    requires
        handles_known(v),
        numbers_left(v.next),
    ensures
        keeps_numbering(v, ensure_gpu_thread(v)),
        ensure_gpu_thread(v).state.gpu_thread is Some,
{
    if v.gpu_thread is None {
        let step = ensure_gpu_thread(v);
        lemma_known_stays_known(v, v.next, step.state.next);
        let first = step.ops[0];
        let second = step.ops[1];
        lemma_one(first, v.next);
        lemma_push(seq![first], second, v.next, counts_after_op(first, v.next));
        assert(seq![first].push(second) == step.ops);
    }
}

/// A refresh of the display keeps the numbering.
pub proof fn lemma_vsync(v: EngineView, timestamp: u64)
    requires
        handles_known(v),
        numbers_left(v.next),
    ensures
        keeps_numbering(v, vsync(v, timestamp)),
{
    lemma_ensure_gpu_thread(v);
    let made = ensure_gpu_thread(v);
    lemma_push(made.ops, vsync(v, timestamp).ops.last(), v.next, made.state.next);
}

/// The begin of an interval keeps the numbering.
pub proof fn lemma_marker_begin(
    v: EngineView,
    timestamp: u64,
    tid: u32,
    key: Seq<char>,
    text: Seq<char>,
)
    requires
        handles_known(v),
    ensures
        keeps_numbering(v, marker_begin(v, timestamp, tid, key, text)),
{
    lemma_lookup(v.threads, tid as u64);
    if let Some(t) = lookup(v.threads, tid as u64) {
        lemma_with_thread(v, t, marker_begin(v, timestamp, tid, key, text).state.threads[t].1, v.next);
    }
}

/// Adding the category of a provider keeps the numbering, and the
/// category's handle has been given out afterwards.
pub proof fn lemma_category_for(v: EngineView, provider: Seq<char>)
    requires
        handles_known(v),
        numbers_left(v.next),
    ensures
        keeps_numbering(v, category_for(v, provider).0),
        category_for(v, provider).1.0 < category_for(v, provider).0.state.next.category,
        category_for(v, provider).0.state.next.thread == v.next.thread,
{
    let (step, handle) = category_for(v, provider);
    lemma_lookup_name_in_range(v.categories, provider);
    if lookup_name(v.categories, provider) is None {
        lemma_known_stays_known(v, v.next, step.state.next);
        lemma_one(step.ops[0], v.next);
        assert forall|i: int| 0 <= i < step.state.categories.len() implies (
        #[trigger] step.state.categories[i]).1.0 < step.state.next.category by {
            if i < v.categories.len() {
                assert(step.state.categories[i] == v.categories[i]);
            }
        }
    }
}

/// The end of an interval keeps the numbering.
pub proof fn lemma_marker_end(
    v: EngineView,
    timestamp: u64,
    tid: u32,
    begin_key: Seq<char>,
    provider: Seq<char>,
    name: Seq<char>,
    text: Seq<char>,
)
    requires
        handles_known(v),
        numbers_left(v.next),
    ensures
        keeps_numbering(v, marker_end(v, timestamp, tid, begin_key, provider, name, text)),
{
    lemma_lookup(v.threads, tid as u64);
    if let Some(t) = lookup(v.threads, tid as u64) {
        let thread = v.threads[t].1;
        let w = with_thread(
            v,
            t,
            ThreadView {
                pending_markers: crate::tables::without_name(thread.pending_markers, begin_key),
                ..thread
            },
        );
        lemma_with_thread(v, t, w.threads[t].1, v.next);
        lemma_category_for(w, provider);
        let (filed, category) = category_for(w, provider);
        let step = marker_end(v, timestamp, tid, begin_key, provider, name, text);
        lemma_push(filed.ops, step.ops.last(), v.next, filed.state.next);
    }
}

/// A marker keeps the numbering.
pub proof fn lemma_plain_marker(
    v: EngineView,
    tid: u32,
    name: Seq<char>,
    payload: MarkerPayloadView,
    timing: MarkerTiming,
)
    requires
        handles_known(v),
    ensures
        keeps_numbering(v, plain_marker(v, tid, name, payload, timing)),
{
    lemma_lookup(v.threads, tid as u64);
    if lookup(v.threads, tid as u64) is Some {
        lemma_one(plain_marker(v, tid, name, payload, timing).ops[0], v.next);
    }
}

/// A marker under the category of its provider keeps the numbering.
pub proof fn lemma_provider_marker(
    v: EngineView,
    timestamp: u64,
    tid: u32,
    provider: Seq<char>,
    name: Seq<char>,
    text: Seq<char>,
)
    requires
        handles_known(v),
        numbers_left(v.next),
    ensures
        keeps_numbering(v, provider_marker(v, timestamp, tid, provider, name, text)),
{
    lemma_lookup(v.threads, tid as u64);
    if lookup(v.threads, tid as u64) is Some {
        lemma_category_for(v, provider);
        let (filed, category) = category_for(v, provider);
        let step = provider_marker(v, timestamp, tid, provider, name, text);
        lemma_push(filed.ops, step.ops.last(), v.next, filed.state.next);
    }
}

/// The outcome of an event as a step.
pub open spec fn as_step(outcome: Outcome) -> Step {
    Step { state: outcome.state, ops: outcome.ops }
}

/// The events of threads and processes keep the numbering.
pub proof fn lemma_lifecycle_events(v: EngineView, event: TraceEvent)
    requires
        handles_known(v),
        numbers_left(v.next),
    ensures
        keeps_numbering(v, as_step(thread_set_name_event(v, event))),
        keeps_numbering(v, as_step(thread_start_event(v, event))),
        keeps_numbering(v, as_step(thread_end_event(v, event))),
        keeps_numbering(v, as_step(process_start_event(v, event))),
{
    let f = event.fields@;
    if let (Some(pid), Some(tid), Some(name)) = (
        as_u32(field_value(f, "ProcessId"@)),
        as_u32(field_value(f, "ThreadId"@)),
        as_text(field_value(f, "ThreadName"@)),
    ) {
        lemma_thread_set_name(v, pid, tid, name);
    }
    if let (Some(tid), Some(pid)) = (
        as_u32(field_value(f, "TThreadId"@)),
        as_u32(field_value(f, "ProcessId"@)),
    ) {
        lemma_thread_start(v, event.timestamp, pid, tid, as_text(field_value(f, "ThreadName"@)));
        lemma_thread_end(v, event.timestamp, tid);
    }
    if let (Some(image), Some(pid)) = (
        as_text(field_value(f, "ImageFileName"@)),
        as_u32(field_value(f, "ProcessId"@)),
    ) {
        lemma_process_start(v, event.timestamp, pid, image);
    }
}

/// The events of samples keep the numbering.
pub proof fn lemma_sampling_events(v: EngineView, event: TraceEvent)
    requires
        handles_known(v),
        numbers_left(v.next),
    ensures
        keeps_numbering(v, as_step(stack_walk_event(v, event))),
        keeps_numbering(v, as_step(sample_prof_event(v, event))),
        keeps_numbering(v, as_step(cswitch_event(v, event))),
        keeps_numbering(v, demand_zero_fault(v, event.timestamp, event.thread_id)),
{
    let f = event.fields@;
    if let (Some(tid), Some(pid), Some(timestamp)) = (
        as_u32(field_value(f, "StackThread"@)),
        as_u32(field_value(f, "StackProcess"@)),
        as_u64(field_value(f, "EventTimeStamp"@)),
    ) {
        lemma_stack_walk(v, pid, tid, timestamp, event.data@);
    }
    if let Some(tid) = as_u32(field_value(f, "ThreadId"@)) {
        lemma_sample_prof(v, event.timestamp, tid);
    }
    if let (Some(new_tid), Some(old_tid)) = (
        as_u32(field_value(f, "NewThreadId"@)),
        as_u32(field_value(f, "OldThreadId"@)),
    ) {
        lemma_cswitch(v, event.timestamp, new_tid, old_tid);
    }
    lemma_demand_zero_fault(v, event.timestamp, event.thread_id);
}

/// The events of images and of code made at run time keep the numbering.
pub proof fn lemma_library_events(v: EngineView, event: TraceEvent)
    requires
        handles_known(v),
        numbers_left(v.next),
    ensures
        keeps_numbering(v, as_step(image_id_event(v, event))),
        keeps_numbering(v, as_step(dbg_id_event(v, event))),
        keeps_numbering(v, as_step(image_load_event(v, event))),
        keeps_numbering(v, as_step(method_load_event(v, event))),
{
    let f = event.fields@;
    if let (Some(base), Some(stamp), Some(size), Some(path)) = (
        as_u64(field_value(f, "ImageBase"@)),
        as_u32(field_value(f, "TimeDateStamp"@)),
        as_u32(field_value(f, "ImageSize"@)),
        as_text(field_value(f, "OriginalFileName"@)),
    ) {
        lemma_image_id(v, event.process_id, base, stamp, size, path);
    }
    if let (Some(base), Some(guid), Some(age), Some(pdb)) = (
        as_u64(field_value(f, "ImageBase"@)),
        as_guid(field_value(f, "GuidSig"@)),
        as_u32(field_value(f, "Age"@)),
        as_text(field_value(f, "PdbFileName"@)),
    ) {
        lemma_dbg_id(v, event.process_id, base, guid, age, pdb);
    }
    if let Some(pid) = as_u32(field_value(f, "ProcessId"@)) {
        if let (Some(base), Some(size), Some(file)) = (
            as_u64(field_value(f, "ImageBase"@)),
            as_u64(field_value(f, "ImageSize"@)),
            as_text(field_value(f, "FileName"@)),
        ) {
            lemma_image_load(v, event.timestamp, pid, base, size, file);
        }
    }
    if let (Some(name), Some(start), Some(size)) = (
        as_text(field_value(f, "MethodName"@)),
        as_address(field_value(f, "MethodStartAddress"@), event.is_64bit),
        as_u64(field_value(f, "MethodSize"@)),
    ) {
        lemma_method_load(v, event.timestamp, event.process_id, name, start, size);
    }
}

/// The events of the trace's settings, and those that lead to nothing,
/// keep the numbering.
pub proof fn lemma_settings_events(v: EngineView, event: TraceEvent)
    requires
        handles_known(v),
        numbers_left(v.next),
    ensures
        keeps_numbering(v, as_step(header_event(v, event))),
        keeps_numbering(v, as_step(collection_start_event(v, event))),
        keeps_numbering(v, as_step(ready_thread_event(v, event))),
        keeps_numbering(v, as_step(source_load_event(v, event))),
        keeps_numbering(v, vsync(v, event.timestamp)),
{
    let f = event.fields@;
    if let (Some(resolution), Some(frequency), Some(clock), Some(lost)) = (
        as_u32(field_value(f, "TimerResolution"@)),
        as_u64(field_value(f, "PerfFreq"@)),
        as_u32(field_value(f, "ReservedFlags"@)),
        as_u32(field_value(f, "EventsLost"@)),
    ) {
        lemma_header(v, event.timestamp, resolution, frequency, clock, lost);
    }
    if let Some(interval) = as_u32(field_value(f, "NewInterval"@)) {
        lemma_collection_start(v, interval);
    }
    lemma_vsync(v, event.timestamp);
}

/// The events that become markers keep the numbering.
pub proof fn lemma_marker_events(v: EngineView, event: TraceEvent)
    requires
        handles_known(v),
        numbers_left(v.next),
    ensures
        keeps_numbering(v, as_step(virtual_memory_event(v, event, true))),
        keeps_numbering(v, as_step(virtual_memory_event(v, event, false))),
        keeps_numbering(
            v,
            marker_begin(
                v,
                event.timestamp,
                event.thread_id,
                event.name@,
                crate::events::fields_text(event.fields@, Seq::empty()),
            ),
        ),
        keeps_numbering(v, as_step(interval_end_event(v, event))),
        keeps_numbering(v, as_step(other_event(v, event))),
{
    let f = event.fields@;
    let text = crate::events::fields_text(f, Seq::empty());
    if let Some(size) = as_u64(field_value(f, "RegionSize"@)) {
        lemma_virtual_memory(
            v,
            event.timestamp,
            event.process_id,
            event.thread_id,
            size,
            text,
            true,
        );
        lemma_virtual_memory(
            v,
            event.timestamp,
            event.process_id,
            event.thread_id,
            size,
            text,
            false,
        );
    }
    lemma_marker_begin(v, event.timestamp, event.thread_id, event.name@, text);
    if let Some(short) = crate::dispatch::after_first_slash(event.name@) {
        lemma_marker_end(
            v,
            event.timestamp,
            event.thread_id,
            crate::dispatch::interval_begin_name(),
            event.provider_name@,
            short,
            text,
        );
        lemma_provider_marker(
            v,
            event.timestamp,
            event.thread_id,
            event.provider_name@,
            short,
            text,
        );
    }
}

/// The markers of Firefox keep the numbering.
pub proof fn lemma_firefox_event(v: EngineView, event: TraceEvent)
    requires
        handles_known(v),
    ensures
        keeps_numbering(v, as_step(firefox_event(v, event))),
{
    let f = event.fields@;
    let marker = crate::dispatch::marker_name(event.name@, crate::dispatch::firefox_prefix())->0;
    if lookup(v.threads, event.thread_id as u64) is Some {
        if let (Some(start), Some(end)) = (
            as_u64(field_value(f, "StartTime"@)),
            as_u64(field_value(f, "EndTime"@)),
        ) {
            if let Some(timing) = crate::dispatch::firefox_timing(
                v.timestamp_converter,
                as_u8(field_value(f, "Phase"@)),
                start,
                end,
            ) {
                let text = MarkerPayloadView::Text(
                    crate::events::fields_text(f, crate::dispatch::firefox_hidden()),
                );
                if let Some(name) = as_text(field_value(f, "name"@)) {
                    lemma_plain_marker(
                        v,
                        event.thread_id,
                        "UserTiming"@,
                        MarkerPayloadView::UserTiming(name),
                        timing,
                    );
                }
                if let Some(name) = as_text(field_value(f, "MarkerName"@)) {
                    lemma_plain_marker(v, event.thread_id, name, text, timing);
                }
                lemma_plain_marker(v, event.thread_id, marker, text, timing);
            }
        }
    }
}

/// The markers of Chrome keep the numbering.
pub proof fn lemma_chrome_event(v: EngineView, event: TraceEvent)
    requires
        handles_known(v),
    ensures
        keeps_numbering(v, as_step(chrome_event(v, event))),
{
    let f = event.fields@;
    let marker = crate::dispatch::marker_name(event.name@, crate::dispatch::chrome_prefix())->0;
    if let Some(phase) = as_text(field_value(f, "Phase"@)) {
        if let Some(time_us) = as_u64(field_value(f, "Timestamp"@)) {
            let timing = crate::dispatch::chrome_timing(v.timestamp_converter, phase, time_us);
            lemma_plain_marker(
                v,
                event.thread_id,
                "UserTiming"@,
                MarkerPayloadView::UserTiming(marker),
                timing,
            );
            lemma_plain_marker(
                v,
                event.thread_id,
                marker,
                MarkerPayloadView::Text(
                    crate::events::fields_text(f, crate::dispatch::chrome_hidden()),
                ),
                timing,
            );
        }
    }
}

/// Counting an event keeps the numbering.
pub proof fn lemma_count_event(v: EngineView)
    requires
        handles_known(v),
    ensures
        handles_known(count_event(v)),
        count_event(v).next == v.next,
{
    lemma_counted(v, count_event(v));
}

/// Every step of the engine keeps the numbering of handles, as long as
/// each kind has a number left: the operations of the step create what
/// they create under the next numbers, name only what has been created,
/// and leave a state that holds only handles that have been given out.
pub proof fn lemma_step_keeps_numbering(v: EngineView, event: TraceEvent)
    requires
        handles_known(v),
        numbers_left(v.next),
    ensures
        keeps_numbering(v, as_step(step(v, event))),
{
    let c = count_event(v);
    lemma_count_event(v);
    let taken = as_step(step(v, event));
    assert(keeps_numbering(c, taken)) by {
        match event_kind(event.name@) {
            EventKind::ThreadSetName | EventKind::ThreadStart | EventKind::ThreadEnd
            | EventKind::ProcessStart => {
                lemma_lifecycle_events(c, event);
            },
            EventKind::StackWalk | EventKind::SampleProf | EventKind::CSwitch
            | EventKind::DemandZeroFault => {
                lemma_sampling_events(c, event);
            },
            EventKind::ImageId | EventKind::DbgId | EventKind::ImageLoad
            | EventKind::MethodLoad => {
                lemma_library_events(c, event);
            },
            EventKind::Header | EventKind::CollectionStart | EventKind::ReadyThread
            | EventKind::SourceLoad | EventKind::VSync => {
                lemma_settings_events(c, event);
            },
            EventKind::VirtualFree | EventKind::VirtualAlloc | EventKind::IntervalBegin
            | EventKind::IntervalEnd | EventKind::Other => {
                lemma_marker_events(c, event);
            },
            EventKind::Firefox => {
                lemma_firefox_event(c, event);
            },
            EventKind::Chrome => {
                lemma_chrome_event(c, event);
            },
        }
    }
}

/// A frame that was resolved names a library that has been given out,
/// if the logs it was resolved with name only such libraries.
pub proof fn lemma_resolved_frame_is_known(
    frame: StackFrame,
    jit_log: Seq<TimedOp>,
    jit_count: int,
    regular_log: Seq<TimedOp>,
    regular_count: int,
    n: NextHandles,
)
    requires
        0 <= jit_count <= jit_log.len(),
        0 <= regular_count <= regular_log.len(),
        log_known(jit_log, n),
        log_known(regular_log, n),
    ensures
        frame_known(
            resolved_frame(frame, applied(jit_log, jit_count), applied(regular_log, regular_count)),
            n,
        ),
{
    let address = crate::flush::lookup_address(frame);
    let jit = applied(jit_log, jit_count);
    let regular = applied(regular_log, regular_count);
    if lookup_address_in(jit, address) is Some {
        let i = lemma_newest_mapping_is_one_of_them(jit, address);
        lemma_mappings_come_from_the_log(jit_log, jit_count, i);
        let k = choose|k: int|
            0 <= k < jit_count && (#[trigger] jit_log[k]).op == LibMappingOp::Add(jit[i]);
        assert(entry_known(jit_log[k], n));
    } else if lookup_address_in(regular, address) is Some {
        let i = lemma_newest_mapping_is_one_of_them(regular, address);
        lemma_mappings_come_from_the_log(regular_log, regular_count, i);
        let k = choose|k: int|
            0 <= k < regular_count && (#[trigger] regular_log[k]).op == LibMappingOp::Add(
                regular[i],
            );
        assert(entry_known(regular_log[k], n));
    }
}

/// Handing the samples of a process over creates nothing and names only
/// what has been given out.
pub proof fn lemma_flushed_samples_are_in_order(
    nodes: Seq<StackNode>,
    samples: Seq<UnresolvedSample>,
    regular_log: Seq<TimedOp>,
    jit_ops: Seq<TimedOp>,
    count: int,
    n: NextHandles,
)
    requires
        0 <= count <= samples.len(),
        forall|i: int| 0 <= i < samples.len() ==> sample_known(#[trigger] samples[i], n),
        log_known(regular_log, n),
        log_known(jit_ops, n),
    ensures
        leads(flushed_samples(nodes, samples, regular_log, jit_ops, count).ops, n, n),
        0 <= flushed_samples(nodes, samples, regular_log, jit_ops, count).regular
            <= regular_log.len(),
        0 <= flushed_samples(nodes, samples, regular_log, jit_ops, count).jit <= jit_ops.len(),
    decreases count,
{
    if count > 0 {
        lemma_flushed_samples_are_in_order(nodes, samples, regular_log, jit_ops, count - 1, n);
        let before = flushed_samples(nodes, samples, regular_log, jit_ops, count - 1);
        let done = flushed_samples(nodes, samples, regular_log, jit_ops, count);
        let sample = samples[count - 1];
        crate::flush::lemma_replay_stays_in_the_log(
            regular_log,
            before.regular,
            sample.timestamp_raw,
        );
        crate::flush::lemma_replay_stays_in_the_log(jit_ops, before.jit, sample.timestamp_raw);
        let op = done.ops.last();
        assert(done.ops == before.ops.push(op));
        let stack = crate::unresolved_stacks::chain(nodes, sample.stack);
        let jit = applied(jit_ops, done.jit);
        let regular = applied(regular_log, done.regular);
        let frames = sample_frames(sample.extra_label, stack, jit, regular);
        assert(sample_known(sample, n));
        assert forall|i: int| 0 <= i < frames.len() implies frame_known(#[trigger] frames[i], n) by {
            let resolved = stack.map_values(|f: StackFrame| resolved_frame(f, jit, regular));
            if sample.extra_label is Some {
                if i > 0 {
                    assert(frames[i] == resolved[i - 1]);
                    lemma_resolved_frame_is_known(
                        stack[i - 1],
                        jit_ops,
                        done.jit,
                        regular_log,
                        done.regular,
                        n,
                    );
                }
            } else {
                assert(frames[i] == resolved[i]);
                lemma_resolved_frame_is_known(
                    stack[i],
                    jit_ops,
                    done.jit,
                    regular_log,
                    done.regular,
                    n,
                );
            }
        }
        assert(op_in_order(op, n));
        lemma_push(before.ops, op, n, n);
    }
}

/// What a process hands over at the end creates nothing and names only
/// what has been given out.
pub proof fn lemma_flushed_process_is_in_order(v: EngineView, p: int)
    requires
        handles_known(v),
        0 <= p < v.processes.len(),
    ensures
        leads(flushed_process(v, p), v.next, v.next),
{
    let pid = v.processes[p].0;
    let process = v.processes[p].1;
    assert(process_known(process, v.next));
    lemma_lookup(v.jit, pid);
    let jit_ops = jit_log(v, pid);
    if let Some(j) = lookup(v.jit, pid) {
        assert(jit_known(v.jit[j].1, v.next));
    }
    assert(log_known(jit_ops, v.next));
    let count = process.unresolved_samples.len() as int;
    lemma_flushed_samples_are_in_order(
        v.unresolved_stacks,
        process.unresolved_samples,
        process.regular_lib_mapping_ops,
        jit_ops,
        count,
        v.next,
    );
    let handed = flushed_samples(
        v.unresolved_stacks,
        process.unresolved_samples,
        process.regular_lib_mapping_ops,
        jit_ops,
        count,
    ).ops;
    match lookup(v.jit, pid) {
        Some(j) => {
            let table = SinkOpView::SetLibSymbolTable {
                lib: v.jit[j].1.lib_handle,
                symbols: v.jit[j].1.symbols,
            };
            lemma_one(table, v.next);
            lemma_add(seq![table], handed, v.next, v.next, v.next);
        },
        None => {
            assert(Seq::<SinkOpView>::empty() + handed == handed);
        },
    }
}

/// What the first processes hand over at the end creates nothing and
/// names only what has been given out.
pub proof fn lemma_flushed_is_in_order(v: EngineView, count: int)
    requires
        handles_known(v),
        0 <= count <= v.processes.len(),
    ensures
        leads(flushed(v, count), v.next, v.next),
    decreases count,
{
    if count > 0 {
        lemma_flushed_is_in_order(v, count - 1);
        lemma_flushed_process_is_in_order(v, count - 1);
        lemma_add(flushed(v, count - 1), flushed_process(v, count - 1), v.next, v.next, v.next);
    }
}

/// The operations at the end of the trace create nothing, and name only
/// what the steps before have created.
pub proof fn lemma_finish_keeps_numbering(v: EngineView)
    requires
        handles_known(v),
    ensures
        leads(finish(v), v.next, v.next),
{
    lemma_flushed_is_in_order(v, v.processes.len() as int);
}

} // verus!

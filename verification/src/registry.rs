//! The life of processes and threads: starts, ends and names.

use crate::engine::{ensure_process, ensure_thread, register_process, targeted, Step};
use crate::events::text_view;
use crate::handles::ThreadHandle;
use crate::profile_values::timestamp_at;
use crate::sink::{lemma_op_views_push, op_views, SinkOp, SinkOpView};
use crate::state::{
    handle_up, new_thread, next_handle, Engine, EngineView, NextHandles, ProcessView,
    ThreadState, ThreadView,
};
use crate::tables::{lemma_lookup, lookup, put, slot};
use crate::text::{contains_text, text_contains};
use vstd::prelude::*;

verus! {

/// A name that is there and not empty.
pub open spec fn non_empty(name: Option<Seq<char>>) -> Option<Seq<char>> {
    match name {
        Some(n) => if n.len() > 0 {
            Some(n)
        } else {
            None
        },
        None => None,
    }
}

/// A thread was given a name. The thread is enrolled if it was not; the
/// name goes to the profile unless the thread's samples go to the one
/// merged thread, and it is kept for the label of the thread's samples.
pub open spec fn thread_set_name(v: EngineView, pid: u32, tid: u32, name: Seq<char>) -> Step {
    if !targeted(v, pid) {
        Step { state: v, ops: Seq::empty() }
    } else {
        let enrolled = ensure_thread(v, pid, tid);
        let w = enrolled.state;
        let t = slot(v.threads, tid as u64);
        let thread = w.threads[t].1;
        Step {
            state: EngineView {
                threads: w.threads.update(
                    t,
                    (w.threads[t].0, ThreadView { merge_name: Some(name), ..thread }),
                ),
                ..w
            },
            ops: if Some(thread.handle) != v.global_thread {
                enrolled.ops.push(SinkOpView::SetThreadName { thread: thread.handle, name })
            } else {
                enrolled.ops
            },
        }
    }
}

/// The thread of the profile that a thread which starts at `timestamp`
/// gets, and the state once the profile has it. With merged threads that
/// is the one thread for all. Otherwise the profile gets a new thread; it
/// is the main thread of its process if the process has none yet.
pub open spec fn add_started_thread(v: EngineView, timestamp: u64, pid: u32, tid: u32) -> (
    Step,
    ThreadHandle,
) {
    match v.global_thread {
        Some(handle) => (Step { state: v, ops: Seq::empty() }, handle),
        None => {
            let enrolled = ensure_process(v, pid);
            let w = enrolled.state;
            let p = slot(v.processes, pid as u64);
            let process = w.processes[p].1;
            let is_main = process.main_thread_handle is None;
            let handle = ThreadHandle(w.next.thread);
            (
                Step {
                    state: EngineView {
                        processes: w.processes.update(
                            p,
                            (
                                w.processes[p].0,
                                ProcessView {
                                    main_thread_handle: if is_main {
                                        Some(handle)
                                    } else {
                                        process.main_thread_handle
                                    },
                                    ..process
                                },
                            ),
                        ),
                        next: NextHandles { thread: next_handle(w.next.thread), ..w.next },
                        ..w
                    },
                    ops: enrolled.ops.push(
                        SinkOpView::AddThread {
                            thread: handle,
                            process: process.process_handle,
                            tid,
                            start_time: timestamp_at(v.timestamp_converter.raw_nanos(timestamp)),
                            is_main,
                        },
                    ),
                },
                handle,
            )
        },
    }
}

/// A thread started. Whatever was known of a thread with the same id is
/// forgotten: late events for an ended thread must not reach the thread
/// that took its id.
pub open spec fn thread_start(
    v: EngineView,
    timestamp: u64,
    pid: u32,
    tid: u32,
    name: Option<Seq<char>>,
) -> Step {
    if !targeted(v, pid) {
        Step { state: v, ops: Seq::empty() }
    } else {
        let (added, handle) = add_started_thread(v, timestamp, pid, tid);
        let w = added.state;
        let named = non_empty(name);
        Step {
            state: EngineView {
                threads: put(
                    w.threads,
                    tid as u64,
                    ThreadView { merge_name: named, ..new_thread(handle, tid) },
                ),
                ..w
            },
            ops: if named is Some && Some(handle) != v.global_thread {
                added.ops.push(SinkOpView::SetThreadName { thread: handle, name: named->0 })
            } else {
                added.ops
            },
        }
    }
}

/// A thread ended. The thread stays enrolled: events for it may follow.
pub open spec fn thread_end(v: EngineView, timestamp: u64, tid: u32) -> Step {
    match lookup(v.threads, tid as u64) {
        Some(t) => Step {
            state: v,
            ops: seq![
                SinkOpView::SetThreadEndTime {
                    thread: v.threads[t].1.handle,
                    end_time: timestamp_at(v.timestamp_converter.raw_nanos(timestamp)),
                },
            ],
        },
        None => Step { state: v, ops: Seq::empty() },
    }
}

/// Whether an image file name holds the text that was asked for.
pub open spec fn name_matches(v: EngineView, image_file_name: Seq<char>) -> bool {
    match v.settings.process_target_name {
        Some(target) => contains_text(image_file_name, target),
        None => false,
    }
}

/// A process started, or was running when the trace began. It is
/// followed if its id was asked for or if its image file name holds the
/// text that was asked for.
pub open spec fn process_start(
    v: EngineView,
    timestamp: u64,
    pid: u32,
    image_file_name: Seq<char>,
) -> Step {
    if name_matches(v, image_file_name) || targeted(v, pid) {
        let w = EngineView {
            process_targets: v.process_targets.insert(pid),
            ..v
        };
        register_process(
            w,
            pid,
            image_file_name,
            timestamp_at(v.timestamp_converter.raw_nanos(timestamp)),
        )
    } else {
        Step { state: v, ops: Seq::empty() }
    }
}

impl Engine {
    pub fn on_thread_set_name(&mut self, pid: u32, tid: u32, name: String) -> (ops: Vec<SinkOp>)
        requires
            old(self).well_formed(),
        ensures
            final(self).well_formed(),
            final(self)@ == thread_set_name(old(self)@, pid, tid, name@).state,
            op_views(ops@) == thread_set_name(old(self)@, pid, tid, name@).ops,
    {
        let mut ops: Vec<SinkOp> = Vec::new();
        if !self.is_targeted(pid) {
            assert(op_views(ops@) =~= Seq::<SinkOpView>::empty());
            return ops;
        }
        assert(op_views(ops@) =~= Seq::<SinkOpView>::empty());
        let t: usize = self.ensure_thread(pid, tid, &mut ops);
        let ghost enrolled = ensure_thread(old(self)@, pid, tid);
        assert(op_views(ops@) =~= enrolled.ops);
        let handle = self.threads.entries[t].value.handle;
        assert(self@.threads[t as int].1 == self.threads.entries@[t as int].value@);
        let merged: bool = match self.global_thread {
            Some(global) => global == handle,
            None => false,
        };
        if !merged {
            let op = SinkOp::SetThreadName { thread: handle, name: name.clone() };
            proof {
                lemma_op_views_push(ops@, op);
            }
            ops.push(op);
        }
        let ghost before = self@;
        self.threads.entries[t].value.merge_name = Some(name);
        proof {
            let thread = before.threads[t as int].1;
            assert(self@.threads =~= before.threads.update(
                t as int,
                (before.threads[t as int].0, ThreadView { merge_name: Some(name@), ..thread }),
            ));
        }
        ops
    }

    fn add_started_thread(&mut self, timestamp: u64, pid: u32, tid: u32, ops: &mut Vec<SinkOp>)
        -> (handle: ThreadHandle)
        requires
            old(self).well_formed(),
        ensures
            final(self).well_formed(),
            final(self)@ == add_started_thread(old(self)@, timestamp, pid, tid).0.state,
            op_views(final(ops)@) == op_views(old(ops)@) + add_started_thread(
                old(self)@,
                timestamp,
                pid,
                tid,
            ).0.ops,
            handle == add_started_thread(old(self)@, timestamp, pid, tid).1,
    {
        match self.global_thread {
            Some(handle) => {
                assert(op_views(ops@) =~= op_views(old(ops)@) + Seq::<SinkOpView>::empty());
                handle
            },
            None => {
                let start_time = self.timestamp_converter.convert_raw(timestamp);
                let p: usize = self.ensure_process(pid, ops);
                let ghost enrolled = ensure_process(old(self)@, pid);
                let ghost before = self@;
                assert(before.processes[p as int].1 == self.processes.entries@[p as int].value@);
                let is_main: bool = self.processes.entries[p].value.main_thread_handle.is_none();
                let handle = ThreadHandle(self.next.thread);
                self.next.thread = handle_up(self.next.thread);
                let op = SinkOp::AddThread {
                    thread: handle,
                    process: self.processes.entries[p].value.process_handle,
                    tid,
                    start_time,
                    is_main,
                };
                if is_main {
                    self.processes.entries[p].value.main_thread_handle = Some(handle);
                }
                proof {
                    lemma_op_views_push(ops@, op);
                    assert(op_views(ops@.push(op)) =~= op_views(old(ops)@) + enrolled.ops.push(op@));
                    let process = before.processes[p as int].1;
                    assert(self@.processes =~= before.processes.update(
                        p as int,
                        (
                            before.processes[p as int].0,
                            ProcessView {
                                main_thread_handle: if is_main {
                                    Some(handle)
                                } else {
                                    process.main_thread_handle
                                },
                                ..process
                            },
                        ),
                    ));
                }
                ops.push(op);
                handle
            },
        }
    }

    pub fn on_thread_start(
        &mut self,
        timestamp: u64,
        pid: u32,
        tid: u32,
        name: Option<String>,
    ) -> (ops: Vec<SinkOp>)
        requires
            old(self).well_formed(),
        ensures
            final(self).well_formed(),
            final(self)@ == thread_start(old(self)@, timestamp, pid, tid, text_view(name)).state,
            op_views(ops@) == thread_start(old(self)@, timestamp, pid, tid, text_view(name)).ops,
    {
        let mut ops: Vec<SinkOp> = Vec::new();
        assert(op_views(ops@) =~= Seq::<SinkOpView>::empty());
        if !self.is_targeted(pid) {
            return ops;
        }
        let handle = self.add_started_thread(timestamp, pid, tid, &mut ops);
        let ghost added = add_started_thread(old(self)@, timestamp, pid, tid).0;
        assert(op_views(ops@) =~= added.ops);
        let merged: bool = match self.global_thread {
            Some(global) => global == handle,
            None => false,
        };
        let mut thread = ThreadState::new(handle, tid);
        match name {
            Some(name) => {
                if name.as_str().unicode_len() > 0 {
                    if !merged {
                        let op = SinkOp::SetThreadName { thread: handle, name: name.clone() };
                        proof {
                            lemma_op_views_push(ops@, op);
                        }
                        ops.push(op);
                    }
                    thread.merge_name = Some(name);
                }
            },
            None => {},
        }
        self.threads.put(tid as u64, thread);
        ops
    }

    pub fn on_thread_end(&mut self, timestamp: u64, tid: u32) -> (ops: Vec<SinkOp>)
        requires
            old(self).well_formed(),
        ensures
            final(self).well_formed(),
            final(self)@ == thread_end(old(self)@, timestamp, tid).state,
            op_views(ops@) == thread_end(old(self)@, timestamp, tid).ops,
    {
        let mut ops: Vec<SinkOp> = Vec::new();
        match self.threads.find(tid as u64) {
            Some(t) => {
                assert(self@.threads[t as int].1 == self.threads.entries@[t as int].value@);
                ops.push(
                    SinkOp::SetThreadEndTime {
                        thread: self.threads.entries[t].value.handle,
                        end_time: self.timestamp_converter.convert_raw(timestamp),
                    },
                );
                assert(op_views(ops@) =~= thread_end(old(self)@, timestamp, tid).ops);
            },
            None => {
                assert(op_views(ops@) =~= Seq::<SinkOpView>::empty());
            },
        }
        ops
    }

    pub fn on_process_start(&mut self, timestamp: u64, pid: u32, image_file_name: String) -> (ops:
        Vec<SinkOp>)
        requires
            old(self).well_formed(),
        ensures
            final(self).well_formed(),
            final(self)@ == process_start(old(self)@, timestamp, pid, image_file_name@).state,
            op_views(ops@) == process_start(old(self)@, timestamp, pid, image_file_name@).ops,
    {
        broadcast use vstd::std_specs::hash::group_hash_axioms;

        let mut ops: Vec<SinkOp> = Vec::new();
        assert(op_views(ops@) =~= Seq::<SinkOpView>::empty());
        let by_name: bool = match &self.settings.process_target_name {
            Some(target) => text_contains(image_file_name.as_str(), target.as_str()),
            None => false,
        };
        let by_id: bool = self.is_targeted(pid);
        if by_name || by_id {
            self.process_targets.insert(pid);
            let start_time = self.timestamp_converter.convert_raw(timestamp);
            self.register_process(pid, image_file_name, start_time, &mut ops);
        }
        ops
    }
}

/// A process keeps the main thread it has: a thread that starts later is
/// no main thread, and the first one stays.
pub proof fn lemma_main_thread_is_elected_once(v: EngineView, timestamp: u64, pid: u32, tid: u32)
    requires
        v.global_thread is None,
        lookup(v.processes, pid as u64) is Some,
        v.processes[lookup(v.processes, pid as u64)->0].1.main_thread_handle is Some,
    ensures
        ({
            let p = lookup(v.processes, pid as u64)->0;
            let after = add_started_thread(v, timestamp, pid, tid).0;
            &&& after.state.processes.len() == v.processes.len()
            &&& after.state.processes[p].1.main_thread_handle
                == v.processes[p].1.main_thread_handle
            &&& after.ops.len() == 1
            &&& after.ops[0] matches SinkOpView::AddThread { is_main, .. } && !is_main
        }),
{
    lemma_lookup(v.processes, pid as u64);
}

/// The first thread that starts in a process becomes its main thread.
pub proof fn lemma_first_thread_is_main(v: EngineView, timestamp: u64, pid: u32, tid: u32)
    requires
        v.global_thread is None,
        lookup(v.processes, pid as u64) is Some,
        v.processes[lookup(v.processes, pid as u64)->0].1.main_thread_handle is None,
    ensures
        ({
            let p = lookup(v.processes, pid as u64)->0;
            let (after, handle) = add_started_thread(v, timestamp, pid, tid);
            &&& after.state.processes[p].1.main_thread_handle == Some(handle)
            &&& after.ops.len() == 1
            &&& after.ops[0] matches SinkOpView::AddThread { is_main, thread, .. } && is_main
                && thread == handle
        }),
{
    lemma_lookup(v.processes, pid as u64);
}

/// A thread that starts under an id that is in use takes the place of the
/// thread that had the id: of that one nothing is left, neither its name
/// nor the triggers that waited for their stacks.
pub proof fn lemma_started_thread_supersedes(
    v: EngineView,
    timestamp: u64,
    pid: u32,
    tid: u32,
    name: Option<Seq<char>>,
)
    requires
        targeted(v, pid),
    ensures
        ({
            let after = thread_start(v, timestamp, pid, tid, name).state;
            let handle = add_started_thread(v, timestamp, pid, tid).1;
            &&& lookup(after.threads, tid as u64) is Some
            &&& after.threads[lookup(after.threads, tid as u64)->0].1 == (ThreadView {
                merge_name: non_empty(name),
                ..new_thread(handle, tid)
            })
        }),
{
    let w = add_started_thread(v, timestamp, pid, tid).0.state;
    let handle = add_started_thread(v, timestamp, pid, tid).1;
    crate::tables::lemma_put(
        w.threads,
        tid as u64,
        ThreadView { merge_name: non_empty(name), ..new_thread(handle, tid) },
    );
}

} // verus!

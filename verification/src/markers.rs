//! Markers, counters, and the trace's own settings.

use crate::context_switch::ContextSwitchHandler;
use crate::engine::{ensure_process, targeted, Step};
use crate::handles::{CategoryHandle, CounterHandle, ProcessHandle, ThreadHandle};
use crate::profile_values::timestamp_at;
use crate::sampling::{count_dropped, with_thread};
use crate::sink::{
    lemma_op_views_push, op_views, CounterKind, MarkerCategory, MarkerPayload,
    MarkerPayloadView, MarkerTiming, SinkOp, SinkOpView, TextMarker,
};
use crate::state::{
    count_up, handle_up, next_handle, Engine, EngineView, NextHandles, Notice, PendingMarker,
    PendingMarkerView, ThreadView,
};
use crate::tables::{lookup, lookup_name, map_get, map_put, slot, without_name};
use crate::timestamp_converter::TimestampConverter;
use fxprof_processed_profile::Timestamp;
use vstd::prelude::*;
use vstd::string::StringExecFns;

verus! {

/// The clock type that names the performance counter.
pub const CLOCK_PERFORMANCE_COUNTER: u32 = 1;

/// The notices that a trace header gives rise to: one if the clock of the
/// events is not the performance counter, then one if events were lost.
pub open spec fn header_notices(clock_type: u32, events_lost: u32) -> Seq<Notice> {
    let clock = if clock_type != CLOCK_PERFORMANCE_COUNTER {
        seq![Notice::ClockIsNotPerformanceCounter]
    } else {
        Seq::empty()
    };
    if events_lost != 0 {
        clock.push(Notice::EventsLost { count: events_lost })
    } else {
        clock
    }
}

/// The trace header was read: it names the clock of the events and its
/// frequency, and its own time is the reference of the profile. A header
/// that names no frequency leaves the conversion as it is.
pub open spec fn header(
    v: EngineView,
    timestamp: u64,
    timer_resolution: u32,
    perf_freq: u64,
    clock_type: u32,
    events_lost: u32,
) -> Step {
    Step {
        state: EngineView {
            notices: v.notices + header_notices(clock_type, events_lost),
            timer_resolution,
            event_timestamps_are_qpc: clock_type == CLOCK_PERFORMANCE_COUNTER,
            timestamp_converter: if perf_freq == 0 {
                v.timestamp_converter
            } else {
                TimestampConverter {
                    reference_raw: timestamp,
                    raw_to_ns_factor: 1_000_000_000u64 / perf_freq,
                }
            },
            ..v
        },
        ops: Seq::empty(),
    }
}

/// Sampling began with a new interval, given in units of 100
/// nanoseconds.
pub open spec fn collection_start(v: EngineView, interval_raw: u32) -> Step {
    Step {
        state: EngineView {
            context_switch_handler: ContextSwitchHandler { sampling_interval: interval_raw as u64 },
            ..v
        },
        ops: seq![SinkOpView::SetInterval { nanos: (interval_raw * 100) as u64 }],
    }
}

/// Makes the counter of the memory of the process `pid` if it has none.
pub open spec fn ensure_counter(v: EngineView, pid: u32) -> Step {
    if v.memory_usage.contains_key(pid as u64) {
        Step { state: v, ops: Seq::empty() }
    } else {
        let enrolled = ensure_process(v, pid);
        let w = enrolled.state;
        let process = w.processes[slot(v.processes, pid as u64)].1.process_handle;
        Step {
            state: EngineView {
                memory_usage: w.memory_usage.insert(pid as u64, CounterHandle(w.next.counter)),
                next: NextHandles { counter: next_handle(w.next.counter), ..w.next },
                ..w
            },
            ops: enrolled.ops.push(
                SinkOpView::AddCounter {
                    counter: CounterHandle(w.next.counter),
                    process,
                    kind: CounterKind::VirtualAlloc,
                },
            ),
        }
    }
}

/// The name of the marker of an allocation or of a release.
pub open spec fn memory_marker_name(freed: bool) -> Seq<char> {
    if freed {
        "VirtualFree"@
    } else {
        "VirtualAlloc"@
    }
}

/// A followed process took memory by `VirtualAlloc`, or gave it back.
/// The counter of the process moves by the size of the region, and the
/// thread gets a marker with the event's fields. An event of a thread
/// that is not followed is counted as dropped.
pub open spec fn virtual_memory(
    v: EngineView,
    timestamp: u64,
    pid: u32,
    tid: u32,
    region_size: u64,
    text: Seq<char>,
    freed: bool,
) -> Step {
    if !targeted(v, pid) {
        Step { state: v, ops: Seq::empty() }
    } else {
        let counted = ensure_counter(v, pid);
        let w = counted.state;
        let counter = w.memory_usage[pid as u64];
        let time = timestamp_at(v.timestamp_converter.raw_nanos(timestamp));
        match lookup(w.threads, tid as u64) {
            None => Step { state: count_dropped(w), ops: counted.ops },
            Some(t) => Step {
                state: w,
                ops: counted.ops.push(
                    SinkOpView::AddCounterSample {
                        counter,
                        timestamp: time,
                        amount: region_size,
                        freed,
                    },
                ).push(
                    SinkOpView::AddMarker {
                        thread: w.threads[t].1.handle,
                        category: MarkerCategory::Other,
                        name: memory_marker_name(freed),
                        payload: MarkerPayloadView::Text(text),
                        timing: MarkerTiming::Instant(time),
                    },
                ),
            },
        }
    }
}

/// Makes the process and the thread that take the markers of the
/// graphics card, if they are not there.
pub open spec fn ensure_gpu_thread(v: EngineView) -> Step {
    if v.gpu_thread is Some {
        Step { state: v, ops: Seq::empty() }
    } else {
        Step {
            state: EngineView {
                gpu_thread: Some(ThreadHandle(v.next.thread)),
                next: NextHandles {
                    process: next_handle(v.next.process),
                    thread: next_handle(v.next.thread),
                    ..v.next
                },
                ..v
            },
            ops: seq![
                SinkOpView::AddProcess {
                    process: ProcessHandle(v.next.process),
                    name: "GPU"@,
                    pid: 1,
                    start_time: timestamp_at(0),
                },
                SinkOpView::AddThread {
                    thread: ThreadHandle(v.next.thread),
                    process: ProcessHandle(v.next.process),
                    tid: 1,
                    start_time: timestamp_at(0),
                    is_main: false,
                },
            ],
        }
    }
}

/// The display was refreshed.
pub open spec fn vsync(v: EngineView, timestamp: u64) -> Step {
    let made = ensure_gpu_thread(v);
    Step {
        state: made.state,
        ops: made.ops.push(
            SinkOpView::AddMarker {
                thread: made.state.gpu_thread->0,
                category: MarkerCategory::Other,
                name: "Vsync"@,
                payload: MarkerPayloadView::VSync,
                timing: MarkerTiming::Instant(
                    timestamp_at(v.timestamp_converter.raw_nanos(timestamp)),
                ),
            },
        ),
    }
}

/// An interval began on the thread `tid`: its text and its time wait,
/// under the name of the event, for the event that ends it. A begin that
/// waits under the same name is forgotten.
pub open spec fn marker_begin(
    v: EngineView,
    timestamp: u64,
    tid: u32,
    key: Seq<char>,
    text: Seq<char>,
) -> Step {
    match lookup(v.threads, tid as u64) {
        None => Step { state: count_dropped(v), ops: Seq::empty() },
        Some(t) => {
            let thread = v.threads[t].1;
            Step {
                state: with_thread(
                    v,
                    t,
                    ThreadView {
                        pending_markers: without_name(thread.pending_markers, key).push(
                            (
                                key,
                                PendingMarkerView {
                                    text,
                                    start: timestamp_at(v.timestamp_converter.raw_nanos(timestamp)),
                                },
                            ),
                        ),
                        ..thread
                    },
                ),
                ops: Seq::empty(),
            }
        },
    }
}

/// The category that is named after a provider, and the state once the
/// profile has it: a category is added when it is first used.
pub open spec fn category_for(v: EngineView, provider: Seq<char>) -> (Step, CategoryHandle) {
    match lookup_name(v.categories, provider) {
        Some(i) => (Step { state: v, ops: Seq::empty() }, v.categories[i].1),
        None => (
            Step {
                state: EngineView {
                    categories: v.categories.push((provider, CategoryHandle(v.next.category))),
                    next: NextHandles { category: next_handle(v.next.category), ..v.next },
                    ..v
                },
                ops: seq![
                    SinkOpView::AddCategory {
                        category: CategoryHandle(v.next.category),
                        name: provider,
                    },
                ],
            },
            CategoryHandle(v.next.category),
        ),
    }
}

/// An interval ended on the thread `tid`. With the begin that waits under
/// `begin_key`, the marker spans the interval and shows the text of both
/// events; without it the marker only says where an interval ended.
pub open spec fn marker_end(
    v: EngineView,
    timestamp: u64,
    tid: u32,
    begin_key: Seq<char>,
    provider: Seq<char>,
    name: Seq<char>,
    text: Seq<char>,
) -> Step {
    match lookup(v.threads, tid as u64) {
        None => Step { state: count_dropped(v), ops: Seq::empty() },
        Some(t) => {
            let thread = v.threads[t].1;
            let end = timestamp_at(v.timestamp_converter.raw_nanos(timestamp));
            let began = lookup_name(thread.pending_markers, begin_key);
            let w = with_thread(
                v,
                t,
                ThreadView {
                    pending_markers: without_name(thread.pending_markers, begin_key),
                    ..thread
                },
            );
            let (filed, category) = category_for(w, provider);
            Step {
                state: filed.state,
                ops: filed.ops.push(
                    SinkOpView::AddMarker {
                        thread: thread.handle,
                        category: MarkerCategory::Added(category),
                        name,
                        payload: MarkerPayloadView::Text(
                            match began {
                                Some(i) => thread.pending_markers[i].1.text + text,
                                None => text,
                            },
                        ),
                        timing: match began {
                            Some(i) => MarkerTiming::Interval(
                                thread.pending_markers[i].1.start,
                                end,
                            ),
                            None => MarkerTiming::IntervalEnd(end),
                        },
                    },
                ),
            }
        },
    }
}

/// A marker for the thread `tid`, filed under the profile's category for
/// everything else. A marker of a thread that is not followed is counted
/// as dropped.
pub open spec fn plain_marker(
    v: EngineView,
    tid: u32,
    name: Seq<char>,
    payload: MarkerPayloadView,
    timing: MarkerTiming,
) -> Step {
    match lookup(v.threads, tid as u64) {
        None => Step { state: count_dropped(v), ops: Seq::empty() },
        Some(t) => Step {
            state: v,
            ops: seq![
                SinkOpView::AddMarker {
                    thread: v.threads[t].1.handle,
                    category: MarkerCategory::Other,
                    name,
                    payload,
                    timing,
                },
            ],
        },
    }
}

/// A marker for an event that the engine knows nothing of: it shows the
/// event's fields at the event's time, filed under a category that is
/// named after the event's provider.
pub open spec fn provider_marker(
    v: EngineView,
    timestamp: u64,
    tid: u32,
    provider: Seq<char>,
    name: Seq<char>,
    text: Seq<char>,
) -> Step {
    match lookup(v.threads, tid as u64) {
        None => Step { state: count_dropped(v), ops: Seq::empty() },
        Some(t) => {
            let (filed, category) = category_for(v, provider);
            Step {
                state: filed.state,
                ops: filed.ops.push(
                    SinkOpView::AddMarker {
                        thread: v.threads[t].1.handle,
                        category: MarkerCategory::Added(category),
                        name,
                        payload: MarkerPayloadView::Text(text),
                        timing: MarkerTiming::Instant(
                            timestamp_at(v.timestamp_converter.raw_nanos(timestamp)),
                        ),
                    },
                ),
            }
        },
    }
}

impl Engine {
    pub fn on_header(
        &mut self,
        timestamp: u64,
        timer_resolution: u32,
        perf_freq: u64,
        clock_type: u32,
        events_lost: u32,
    ) -> (ops: Vec<SinkOp>)
        requires
            old(self).well_formed(),
        ensures
            final(self).well_formed(),
            final(self)@ == header(
                old(self)@,
                timestamp,
                timer_resolution,
                perf_freq,
                clock_type,
                events_lost,
            ).state,
            op_views(ops@) == header(
                old(self)@,
                timestamp,
                timer_resolution,
                perf_freq,
                clock_type,
                events_lost,
            ).ops,
    {
        let ops: Vec<SinkOp> = Vec::new();
        assert(op_views(ops@) =~= Seq::<SinkOpView>::empty());
        self.timer_resolution = timer_resolution;
        self.event_timestamps_are_qpc = clock_type == CLOCK_PERFORMANCE_COUNTER;
        match TimestampConverter::from_header(timestamp, perf_freq) {
            Some(converter) => {
                self.timestamp_converter = converter;
            },
            None => {},
        }
        if clock_type != CLOCK_PERFORMANCE_COUNTER {
            self.notices.push(Notice::ClockIsNotPerformanceCounter);
        }
        if events_lost != 0 {
            self.notices.push(Notice::EventsLost { count: events_lost });
        }
        assert(self@.notices =~= old(self)@.notices + header_notices(clock_type, events_lost));
        ops
    }

    pub fn on_collection_start(&mut self, interval_raw: u32) -> (ops: Vec<SinkOp>)
        requires
            old(self).well_formed(),
        ensures
            final(self).well_formed(),
            final(self)@ == collection_start(old(self)@, interval_raw).state,
            op_views(ops@) == collection_start(old(self)@, interval_raw).ops,
    {
        let mut ops: Vec<SinkOp> = Vec::new();
        ops.push(SinkOp::SetInterval { nanos: interval_raw as u64 * 100 });
        assert(op_views(ops@) =~= collection_start(old(self)@, interval_raw).ops);
        self.context_switch_handler = ContextSwitchHandler::new(interval_raw as u64);
        ops
    }

    fn ensure_counter(&mut self, pid: u32, ops: &mut Vec<SinkOp>) -> (counter: CounterHandle)
        requires
            old(self).well_formed(),
        ensures
            final(self).well_formed(),
            final(self)@ == ensure_counter(old(self)@, pid).state,
            op_views(final(ops)@) == op_views(old(ops)@) + ensure_counter(old(self)@, pid).ops,
            counter == final(self)@.memory_usage[pid as u64],
    {
        let found = match map_get(&self.memory_usage, pid as u64) {
            Some(counter) => Some(*counter),
            None => None,
        };
        match found {
            Some(counter) => {
                assert(op_views(ops@) =~= op_views(old(ops)@) + Seq::<SinkOpView>::empty());
                counter
            },
            None => {
                let p: usize = self.ensure_process(pid, ops);
                let ghost enrolled = ensure_process(old(self)@, pid);
                assert(self@.processes[p as int].1 == self.processes.entries@[p as int].value@);
                let counter = CounterHandle(self.next.counter);
                self.next.counter = handle_up(self.next.counter);
                let op = SinkOp::AddCounter {
                    counter,
                    process: self.processes.entries[p].value.process_handle,
                    kind: CounterKind::VirtualAlloc,
                };
                proof {
                    lemma_op_views_push(ops@, op);
                    assert(op_views(ops@.push(op)) =~= op_views(old(ops)@) + enrolled.ops.push(op@));
                }
                ops.push(op);
                map_put(&mut self.memory_usage, pid as u64, counter);
                counter
            },
        }
    }

    pub fn on_virtual_memory(
        &mut self,
        timestamp: u64,
        pid: u32,
        tid: u32,
        region_size: u64,
        text: String,
        freed: bool,
    ) -> (ops: Vec<SinkOp>)
        requires
            old(self).well_formed(),
        ensures
            final(self).well_formed(),
            final(self)@ == virtual_memory(
                old(self)@,
                timestamp,
                pid,
                tid,
                region_size,
                text@,
                freed,
            ).state,
            op_views(ops@) == virtual_memory(
                old(self)@,
                timestamp,
                pid,
                tid,
                region_size,
                text@,
                freed,
            ).ops,
    {
        let mut ops: Vec<SinkOp> = Vec::new();
        assert(op_views(ops@) =~= Seq::<SinkOpView>::empty());
        if !self.is_targeted(pid) {
            return ops;
        }
        let time = self.timestamp_converter.convert_raw(timestamp);
        let counter = self.ensure_counter(pid, &mut ops);
        let ghost counted = ensure_counter(old(self)@, pid);
        assert(op_views(ops@) =~= counted.ops);
        match self.threads.find(tid as u64) {
            None => {
                self.counters.dropped_sample_count = count_up(self.counters.dropped_sample_count);
            },
            Some(t) => {
                assert(self@.threads[t as int].1 == self.threads.entries@[t as int].value@);
                let sample = SinkOp::AddCounterSample {
                    counter,
                    timestamp: time,
                    amount: region_size,
                    freed,
                };
                proof {
                    lemma_op_views_push(ops@, sample);
                }
                ops.push(sample);
                let name = if freed {
                    "VirtualFree".to_owned()
                } else {
                    "VirtualAlloc".to_owned()
                };
                let marker = SinkOp::AddMarker {
                    thread: self.threads.entries[t].value.handle,
                    category: MarkerCategory::Other,
                    name,
                    payload: MarkerPayload::Text(TextMarker(text)),
                    timing: MarkerTiming::Instant(time),
                };
                proof {
                    lemma_op_views_push(ops@, marker);
                }
                ops.push(marker);
            },
        }
        ops
    }

    pub fn on_vsync(&mut self, timestamp: u64) -> (ops: Vec<SinkOp>)
        requires
            old(self).well_formed(),
        ensures
            final(self).well_formed(),
            final(self)@ == vsync(old(self)@, timestamp).state,
            op_views(ops@) == vsync(old(self)@, timestamp).ops,
    {
        let mut ops: Vec<SinkOp> = Vec::new();
        let time = self.timestamp_converter.convert_raw(timestamp);
        let thread = match self.gpu_thread {
            Some(thread) => {
                assert(op_views(ops@) =~= Seq::<SinkOpView>::empty());
                thread
            },
            None => {
                let start = Timestamp::from_nanos_since_reference(0);
                let process = ProcessHandle(self.next.process);
                let thread = ThreadHandle(self.next.thread);
                self.next.process = handle_up(self.next.process);
                self.next.thread = handle_up(self.next.thread);
                self.gpu_thread = Some(thread);
                ops.push(
                    SinkOp::AddProcess { process, name: "GPU".to_owned(), pid: 1, start_time: start },
                );
                ops.push(
                    SinkOp::AddThread { thread, process, tid: 1, start_time: start, is_main: false },
                );
                assert(op_views(ops@) =~= ensure_gpu_thread(old(self)@).ops);
                thread
            },
        };
        let op = SinkOp::AddMarker {
            thread,
            category: MarkerCategory::Other,
            name: "Vsync".to_owned(),
            payload: MarkerPayload::VSync,
            timing: MarkerTiming::Instant(time),
        };
        proof {
            lemma_op_views_push(ops@, op);
        }
        ops.push(op);
        ops
    }

    pub fn on_marker_begin(&mut self, timestamp: u64, tid: u32, key: String, text: String) -> (ops:
        Vec<SinkOp>)
        requires
            old(self).well_formed(),
        ensures
            final(self).well_formed(),
            final(self)@ == marker_begin(old(self)@, timestamp, tid, key@, text@).state,
            op_views(ops@) == marker_begin(old(self)@, timestamp, tid, key@, text@).ops,
    {
        let ops: Vec<SinkOp> = Vec::new();
        assert(op_views(ops@) =~= Seq::<SinkOpView>::empty());
        match self.threads.find(tid as u64) {
            None => {
                self.counters.dropped_sample_count = count_up(self.counters.dropped_sample_count);
            },
            Some(t) => {
                let ghost before = self@;
                assert(before.threads[t as int].1 == self.threads.entries@[t as int].value@);
                let start = self.timestamp_converter.convert_raw(timestamp);
                let markers = &mut self.threads.entries[t].value.pending_markers;
                let _ = markers.take(key.as_str());
                markers.push(key, PendingMarker { text, start });
                proof {
                    let thread = before.threads[t as int].1;
                    assert(self@.threads =~= before.threads.update(
                        t as int,
                        (
                            before.threads[t as int].0,
                            ThreadView {
                                pending_markers: without_name(thread.pending_markers, key@).push(
                                    (key@, PendingMarkerView { text: text@, start }),
                                ),
                                ..thread
                            },
                        ),
                    ));
                }
            },
        }
        ops
    }

    /// The category that is named after a provider.
    pub fn category_for(&mut self, provider: String, ops: &mut Vec<SinkOp>) -> (category:
        CategoryHandle)
        requires
            old(self).well_formed(),
        ensures
            final(self).well_formed(),
            final(self)@ == category_for(old(self)@, provider@).0.state,
            op_views(final(ops)@) == op_views(old(ops)@) + category_for(old(self)@, provider@).0.ops,
            category == category_for(old(self)@, provider@).1,
            final(self).threads == old(self).threads,
    {
        match self.categories.find(provider.as_str()) {
            Some(i) => {
                assert(op_views(ops@) =~= op_views(old(ops)@) + Seq::<SinkOpView>::empty());
                assert(self.categories@[i as int].1 == self.categories.entries@[i as int].value);
                self.categories.entries[i].value
            },
            None => {
                let category = CategoryHandle(self.next.category);
                self.next.category = handle_up(self.next.category);
                let op = SinkOp::AddCategory { category, name: provider.clone() };
                proof {
                    lemma_op_views_push(ops@, op);
                    assert(op_views(ops@.push(op)) =~= op_views(old(ops)@) + seq![op@]);
                }
                ops.push(op);
                self.categories.push(provider, category);
                category
            },
        }
    }

    pub fn on_marker_end(
        &mut self,
        timestamp: u64,
        tid: u32,
        begin_key: &str,
        provider: String,
        name: String,
        text: String,
    ) -> (ops: Vec<SinkOp>)
        requires
            old(self).well_formed(),
        ensures
            final(self).well_formed(),
            final(self)@ == marker_end(
                old(self)@,
                timestamp,
                tid,
                begin_key@,
                provider@,
                name@,
                text@,
            ).state,
            op_views(ops@) == marker_end(
                old(self)@,
                timestamp,
                tid,
                begin_key@,
                provider@,
                name@,
                text@,
            ).ops,
    {
        let mut ops: Vec<SinkOp> = Vec::new();
        assert(op_views(ops@) =~= Seq::<SinkOpView>::empty());
        match self.threads.find(tid as u64) {
            None => {
                self.counters.dropped_sample_count = count_up(self.counters.dropped_sample_count);
            },
            Some(t) => {
                let ghost before = self@;
                assert(before.threads[t as int].1 == self.threads.entries@[t as int].value@);
                let end = self.timestamp_converter.convert_raw(timestamp);
                let thread = self.threads.entries[t].value.handle;
                let began = self.threads.entries[t].value.pending_markers.take(begin_key);
                proof {
                    let thread = before.threads[t as int].1;
                    assert(self@.threads =~= before.threads.update(
                        t as int,
                        (
                            before.threads[t as int].0,
                            ThreadView {
                                pending_markers: without_name(thread.pending_markers, begin_key@),
                                ..thread
                            },
                        ),
                    ));
                }
                let category = self.category_for(provider, &mut ops);
                let (shown, timing) = match began {
                    Some(pending) => (
                        pending.text.concat(text.as_str()),
                        MarkerTiming::Interval(pending.start, end),
                    ),
                    None => (text, MarkerTiming::IntervalEnd(end)),
                };
                let op = SinkOp::AddMarker {
                    thread,
                    category: MarkerCategory::Added(category),
                    name,
                    payload: MarkerPayload::Text(TextMarker(shown)),
                    timing,
                };
                proof {
                    lemma_op_views_push(ops@, op);
                }
                ops.push(op);
            },
        }
        ops
    }

    pub fn on_plain_marker(
        &mut self,
        tid: u32,
        name: String,
        payload: MarkerPayload,
        timing: MarkerTiming,
    ) -> (ops: Vec<SinkOp>)
        requires
            old(self).well_formed(),
        ensures
            final(self).well_formed(),
            final(self)@ == plain_marker(old(self)@, tid, name@, payload@, timing).state,
            op_views(ops@) == plain_marker(old(self)@, tid, name@, payload@, timing).ops,
    {
        let mut ops: Vec<SinkOp> = Vec::new();
        assert(op_views(ops@) =~= Seq::<SinkOpView>::empty());
        match self.threads.find(tid as u64) {
            None => {
                self.counters.dropped_sample_count = count_up(self.counters.dropped_sample_count);
            },
            Some(t) => {
                assert(self@.threads[t as int].1 == self.threads.entries@[t as int].value@);
                let op = SinkOp::AddMarker {
                    thread: self.threads.entries[t].value.handle,
                    category: MarkerCategory::Other,
                    name,
                    payload,
                    timing,
                };
                proof {
                    lemma_op_views_push(ops@, op);
                }
                ops.push(op);
            },
        }
        ops
    }

    pub fn on_provider_marker(
        &mut self,
        timestamp: u64,
        tid: u32,
        provider: String,
        name: String,
        text: String,
    ) -> (ops: Vec<SinkOp>)
        requires
            old(self).well_formed(),
        ensures
            final(self).well_formed(),
            final(self)@ == provider_marker(
                old(self)@,
                timestamp,
                tid,
                provider@,
                name@,
                text@,
            ).state,
            op_views(ops@) == provider_marker(
                old(self)@,
                timestamp,
                tid,
                provider@,
                name@,
                text@,
            ).ops,
    {
        let mut ops: Vec<SinkOp> = Vec::new();
        assert(op_views(ops@) =~= Seq::<SinkOpView>::empty());
        match self.threads.find(tid as u64) {
            None => {
                self.counters.dropped_sample_count = count_up(self.counters.dropped_sample_count);
            },
            Some(t) => {
                assert(self@.threads[t as int].1 == self.threads.entries@[t as int].value@);
                let thread = self.threads.entries[t].value.handle;
                let time = self.timestamp_converter.convert_raw(timestamp);
                let category = self.category_for(provider, &mut ops);
                let op = SinkOp::AddMarker {
                    thread,
                    category: MarkerCategory::Added(category),
                    name,
                    payload: MarkerPayload::Text(TextMarker(text)),
                    timing: MarkerTiming::Instant(time),
                };
                proof {
                    lemma_op_views_push(ops@, op);
                }
                ops.push(op);
            },
        }
        ops
    }
}

} // verus!

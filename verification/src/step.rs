//! One step of the engine: an event in, operations on the profile out.

use crate::dispatch::{
    after_first_slash, agrees, application_marker_name, chrome_hidden, chrome_marker_timing,
    chrome_prefix, chrome_timing, classify, count_event, done, event_kind, firefox_hidden,
    firefox_marker_timing, firefox_prefix, firefox_timing, ignored, interval_begin_name,
    malformed, marker_name, short_name, EventError, EventKind, Outcome, CHROME_KEYWORDS,
    KEYWORD_BLINK_USER_TIMING,
};
use crate::engine::{targeted, Step};
use crate::events::{
    as_address, as_guid, as_text, as_u32, as_u64, as_u8, field_value, fields_text, name_views,
    TraceEvent,
};
use crate::images::{dbg_id, followed_or_kernel, image_id, image_load};
use crate::jit::method_load;
use crate::markers::{
    collection_start, header, marker_begin, marker_end, plain_marker, provider_marker,
    virtual_memory, vsync,
};
use crate::numbering::{handles_known, leads, numbers_left};
use crate::numbering_steps::lemma_step_keeps_numbering;
use crate::registry::{process_start, thread_end, thread_set_name, thread_start};
use crate::sampling::{count_dropped, cswitch, demand_zero_fault, sample_prof, stack_walk};
use crate::sink::{op_views, MarkerPayload, MarkerPayloadView, SinkOp, SinkOpView, TextMarker};
use crate::state::{count_up, Engine, EngineView};
use crate::tables::lookup;
use crate::text::same_text;
use vstd::prelude::*;

verus! {

/// The outcome of a trace header.
pub open spec fn header_event(v: EngineView, event: TraceEvent) -> Outcome {
    let f = event.fields@;
    match (
        as_u32(field_value(f, "TimerResolution"@)),
        as_u64(field_value(f, "PerfFreq"@)),
        as_u32(field_value(f, "ReservedFlags"@)),
        as_u32(field_value(f, "EventsLost"@)),
    ) {
        (Some(resolution), Some(frequency), Some(clock), Some(lost)) => if frequency == 0 {
            malformed(v)
        } else {
            done(header(v, event.timestamp, resolution, frequency, clock, lost))
        },
        _ => malformed(v),
    }
}

/// The outcome of the start of sampling.
pub open spec fn collection_start_event(v: EngineView, event: TraceEvent) -> Outcome {
    match as_u32(field_value(event.fields@, "NewInterval"@)) {
        Some(interval) => done(collection_start(v, interval)),
        None => malformed(v),
    }
}

/// The outcome of the naming of a thread.
pub open spec fn thread_set_name_event(v: EngineView, event: TraceEvent) -> Outcome {
    let f = event.fields@;
    match (
        as_u32(field_value(f, "ProcessId"@)),
        as_u32(field_value(f, "ThreadId"@)),
        as_text(field_value(f, "ThreadName"@)),
    ) {
        (Some(pid), Some(tid), Some(name)) => done(thread_set_name(v, pid, tid, name)),
        _ => malformed(v),
    }
}

/// The outcome of the start of a thread. Its name is read if the event
/// has one.
pub open spec fn thread_start_event(v: EngineView, event: TraceEvent) -> Outcome {
    let f = event.fields@;
    match (as_u32(field_value(f, "TThreadId"@)), as_u32(field_value(f, "ProcessId"@))) {
        (Some(tid), Some(pid)) => done(
            thread_start(v, event.timestamp, pid, tid, as_text(field_value(f, "ThreadName"@))),
        ),
        _ => malformed(v),
    }
}

/// The outcome of the end of a thread.
pub open spec fn thread_end_event(v: EngineView, event: TraceEvent) -> Outcome {
    let f = event.fields@;
    match (as_u32(field_value(f, "TThreadId"@)), as_u32(field_value(f, "ProcessId"@))) {
        (Some(tid), Some(_)) => done(thread_end(v, event.timestamp, tid)),
        _ => malformed(v),
    }
}

/// The outcome of the start of a process.
pub open spec fn process_start_event(v: EngineView, event: TraceEvent) -> Outcome {
    let f = event.fields@;
    match (as_text(field_value(f, "ImageFileName"@)), as_u32(field_value(f, "ProcessId"@))) {
        (Some(image), Some(pid)) => done(process_start(v, event.timestamp, pid, image)),
        _ => malformed(v),
    }
}

/// The outcome of a stack walk.
pub open spec fn stack_walk_event(v: EngineView, event: TraceEvent) -> Outcome {
    let f = event.fields@;
    match (
        as_u32(field_value(f, "StackThread"@)),
        as_u32(field_value(f, "StackProcess"@)),
        as_u64(field_value(f, "EventTimeStamp"@)),
    ) {
        (Some(tid), Some(pid), Some(timestamp)) => done(
            stack_walk(v, pid, tid, timestamp, event.data@),
        ),
        _ => malformed(v),
    }
}

/// The outcome of a sampling interrupt.
pub open spec fn sample_prof_event(v: EngineView, event: TraceEvent) -> Outcome {
    match as_u32(field_value(event.fields@, "ThreadId"@)) {
        Some(tid) => done(sample_prof(v, event.timestamp, tid)),
        None => malformed(v),
    }
}

/// The outcome of an allocation or a release of virtual memory.
pub open spec fn virtual_memory_event(v: EngineView, event: TraceEvent, freed: bool) -> Outcome {
    if !targeted(v, event.process_id) {
        ignored(v)
    } else {
        match as_u64(field_value(event.fields@, "RegionSize"@)) {
            Some(size) => done(
                virtual_memory(
                    v,
                    event.timestamp,
                    event.process_id,
                    event.thread_id,
                    size,
                    fields_text(event.fields@, Seq::empty()),
                    freed,
                ),
            ),
            None => malformed(v),
        }
    }
}

/// The outcome of an image id event.
pub open spec fn image_id_event(v: EngineView, event: TraceEvent) -> Outcome {
    let f = event.fields@;
    if !followed_or_kernel(v, event.process_id) {
        ignored(v)
    } else {
        match (
            as_u64(field_value(f, "ImageBase"@)),
            as_u32(field_value(f, "TimeDateStamp"@)),
            as_u32(field_value(f, "ImageSize"@)),
            as_text(field_value(f, "OriginalFileName"@)),
        ) {
            (Some(base), Some(stamp), Some(size), Some(path)) => done(
                image_id(v, event.process_id, base, stamp, size, path),
            ),
            _ => malformed(v),
        }
    }
}

/// The outcome of a debug id event.
pub open spec fn dbg_id_event(v: EngineView, event: TraceEvent) -> Outcome {
    let f = event.fields@;
    if !followed_or_kernel(v, event.process_id) {
        ignored(v)
    } else {
        match (
            as_u64(field_value(f, "ImageBase"@)),
            as_guid(field_value(f, "GuidSig"@)),
            as_u32(field_value(f, "Age"@)),
            as_text(field_value(f, "PdbFileName"@)),
        ) {
            (Some(base), Some(guid), Some(age), Some(pdb)) => done(
                dbg_id(v, event.process_id, base, guid, age, pdb),
            ),
            _ => malformed(v),
        }
    }
}

/// The outcome of the load of an image. The process is the one that the
/// event names in its fields, which need not be the one of its header.
pub open spec fn image_load_event(v: EngineView, event: TraceEvent) -> Outcome {
    let f = event.fields@;
    match as_u32(field_value(f, "ProcessId"@)) {
        None => malformed(v),
        Some(pid) => if !followed_or_kernel(v, pid) {
            ignored(v)
        } else {
            match (
                as_u64(field_value(f, "ImageBase"@)),
                as_u64(field_value(f, "ImageSize"@)),
                as_text(field_value(f, "FileName"@)),
            ) {
                (Some(base), Some(size), Some(file)) => done(
                    image_load(v, event.timestamp, pid, base, size, file),
                ),
                _ => malformed(v),
            }
        },
    }
}

/// The outcome of a context switch.
pub open spec fn cswitch_event(v: EngineView, event: TraceEvent) -> Outcome {
    let f = event.fields@;
    match (as_u32(field_value(f, "NewThreadId"@)), as_u32(field_value(f, "OldThreadId"@))) {
        (Some(new_tid), Some(old_tid)) => done(cswitch(v, event.timestamp, new_tid, old_tid)),
        _ => malformed(v),
    }
}

/// The outcome of the readying of a thread: the event is read and leads
/// to nothing.
pub open spec fn ready_thread_event(v: EngineView, event: TraceEvent) -> Outcome {
    match as_u32(field_value(event.fields@, "TThreadId"@)) {
        Some(_) => ignored(v),
        None => malformed(v),
    }
}

/// The outcome of the making of a function at run time.
pub open spec fn method_load_event(v: EngineView, event: TraceEvent) -> Outcome {
    let f = event.fields@;
    match (
        as_text(field_value(f, "MethodName"@)),
        as_address(field_value(f, "MethodStartAddress"@), event.is_64bit),
        as_u64(field_value(f, "MethodSize"@)),
    ) {
        (Some(name), Some(start), Some(size)) => done(
            method_load(v, event.timestamp, event.process_id, name, start, size),
        ),
        _ => malformed(v),
    }
}

/// The outcome of the loading of a script source: the event is read and
/// leads to nothing.
pub open spec fn source_load_event(v: EngineView, event: TraceEvent) -> Outcome {
    let f = event.fields@;
    match (as_u64(field_value(f, "SourceID"@)), as_text(field_value(f, "Url"@))) {
        (Some(_), Some(_)) => ignored(v),
        _ => malformed(v),
    }
}

/// The outcome of the end of an interval.
pub open spec fn interval_end_event(v: EngineView, event: TraceEvent) -> Outcome {
    match after_first_slash(event.name@) {
        Some(short) => done(
            marker_end(
                v,
                event.timestamp,
                event.thread_id,
                interval_begin_name(),
                event.provider_name@,
                short,
                fields_text(event.fields@, Seq::empty()),
            ),
        ),
        None => malformed(v),
    }
}

/// The names of the Firefox markers that carry their own name in a
/// field.
pub open spec fn is_simple_marker(marker: Seq<char>) -> bool {
    marker == "SimpleMarker"@ || marker == "Text"@ || marker == "tracing"@
}

/// The outcome of a marker of Firefox. Such an event carries times of the
/// performance counter, so the trace must have that counter as its
/// clock.
pub open spec fn firefox_event(v: EngineView, event: TraceEvent) -> Outcome {
    let f = event.fields@;
    let marker = marker_name(event.name@, firefox_prefix())->0;
    if lookup(v.threads, event.thread_id as u64) is None {
        done(Step { state: count_dropped(v), ops: Seq::empty() })
    } else {
        match (as_u64(field_value(f, "StartTime"@)), as_u64(field_value(f, "EndTime"@))) {
            (Some(start), Some(end)) => if !v.event_timestamps_are_qpc {
                Outcome {
                    state: v,
                    ops: Seq::empty(),
                    error: Some(EventError::InconsistentTimestampFormats),
                }
            } else {
                match firefox_timing(
                    v.timestamp_converter,
                    as_u8(field_value(f, "Phase"@)),
                    start,
                    end,
                ) {
                    None => malformed(v),
                    Some(timing) => {
                        let text = MarkerPayloadView::Text(fields_text(f, firefox_hidden()));
                        if marker == "UserTiming"@ {
                            match as_text(field_value(f, "name"@)) {
                                Some(name) => done(
                                    plain_marker(
                                        v,
                                        event.thread_id,
                                        "UserTiming"@,
                                        MarkerPayloadView::UserTiming(name),
                                        timing,
                                    ),
                                ),
                                None => malformed(v),
                            }
                        } else if is_simple_marker(marker) {
                            match as_text(field_value(f, "MarkerName"@)) {
                                Some(name) => done(
                                    plain_marker(v, event.thread_id, name, text, timing),
                                ),
                                None => malformed(v),
                            }
                        } else {
                            done(plain_marker(v, event.thread_id, marker, text, timing))
                        }
                    },
                }
            },
            _ => malformed(v),
        }
    }
}

/// The outcome of a marker of Chrome. The keyword of the event says
/// whether it is an event of the User Timing API.
pub open spec fn chrome_event(v: EngineView, event: TraceEvent) -> Outcome {
    let f = event.fields@;
    let marker = marker_name(event.name@, chrome_prefix())->0;
    match as_text(field_value(f, "Phase"@)) {
        None => malformed(v),
        Some(phase) => if lookup(v.threads, event.thread_id as u64) is None {
            done(Step { state: count_dropped(v), ops: Seq::empty() })
        } else {
            match as_u64(field_value(f, "Timestamp"@)) {
                None => malformed(v),
                Some(time_us) => if event.keyword > CHROME_KEYWORDS {
                    malformed(v)
                } else {
                    let timing = chrome_timing(v.timestamp_converter, phase, time_us);
                    if event.keyword == KEYWORD_BLINK_USER_TIMING {
                        done(
                            plain_marker(
                                v,
                                event.thread_id,
                                "UserTiming"@,
                                MarkerPayloadView::UserTiming(marker),
                                timing,
                            ),
                        )
                    } else {
                        done(
                            plain_marker(
                                v,
                                event.thread_id,
                                marker,
                                MarkerPayloadView::Text(fields_text(f, chrome_hidden())),
                                timing,
                            ),
                        )
                    }
                },
            }
        },
    }
}

/// The outcome of an event that the engine knows nothing of.
pub open spec fn other_event(v: EngineView, event: TraceEvent) -> Outcome {
    if lookup(v.threads, event.thread_id as u64) is None {
        done(Step { state: count_dropped(v), ops: Seq::empty() })
    } else {
        match after_first_slash(event.name@) {
            Some(short) => done(
                provider_marker(
                    v,
                    event.timestamp,
                    event.thread_id,
                    event.provider_name@,
                    short,
                    fields_text(event.fields@, Seq::empty()),
                ),
            ),
            None => malformed(v),
        }
    }
}

/// What the engine does with an event: it counts the event, and the
/// event's name says which step it takes.
pub open spec fn step(v: EngineView, event: TraceEvent) -> Outcome {
    let c = count_event(v);
    match event_kind(event.name@) {
        EventKind::Header => header_event(c, event),
        EventKind::CollectionStart => collection_start_event(c, event),
        EventKind::ThreadSetName => thread_set_name_event(c, event),
        EventKind::ThreadStart => thread_start_event(c, event),
        EventKind::ThreadEnd => thread_end_event(c, event),
        EventKind::ProcessStart => process_start_event(c, event),
        EventKind::StackWalk => stack_walk_event(c, event),
        EventKind::SampleProf => sample_prof_event(c, event),
        EventKind::DemandZeroFault => done(demand_zero_fault(c, event.timestamp, event.thread_id)),
        EventKind::VirtualFree => virtual_memory_event(c, event, true),
        EventKind::VirtualAlloc => virtual_memory_event(c, event, false),
        EventKind::ImageId => image_id_event(c, event),
        EventKind::DbgId => dbg_id_event(c, event),
        EventKind::ImageLoad => image_load_event(c, event),
        EventKind::VSync => done(vsync(c, event.timestamp)),
        EventKind::CSwitch => cswitch_event(c, event),
        EventKind::ReadyThread => ready_thread_event(c, event),
        EventKind::MethodLoad => method_load_event(c, event),
        EventKind::SourceLoad => source_load_event(c, event),
        EventKind::IntervalBegin => done(
            marker_begin(
                c,
                event.timestamp,
                event.thread_id,
                event.name@,
                fields_text(event.fields@, Seq::empty()),
            ),
        ),
        EventKind::IntervalEnd => interval_end_event(c, event),
        EventKind::Firefox => firefox_event(c, event),
        EventKind::Chrome => chrome_event(c, event),
        EventKind::Other => other_event(c, event),
    }
}

impl Engine {
    fn skip_malformed(&mut self) -> (result: Result<Vec<SinkOp>, EventError>)
        requires
            old(self).well_formed(),
        ensures
            final(self).well_formed(),
            agrees(final(self)@, result, malformed(old(self)@)),
    {
        self.counters.dropped_sample_count = count_up(self.counters.dropped_sample_count);
        Err(EventError::Malformed)
    }

    fn drop_event(&mut self) -> (result: Result<Vec<SinkOp>, EventError>)
        requires
            old(self).well_formed(),
        ensures
            final(self).well_formed(),
            agrees(
                final(self)@,
                result,
                done(Step { state: count_dropped(old(self)@), ops: Seq::empty() }),
            ),
    {
        self.counters.dropped_sample_count = count_up(self.counters.dropped_sample_count);
        let ops: Vec<SinkOp> = Vec::new();
        assert(op_views(ops@) =~= Seq::<SinkOpView>::empty());
        Ok(ops)
    }

    fn ignore(&self) -> (result: Result<Vec<SinkOp>, EventError>)
        ensures
            agrees(self@, result, ignored(self@)),
    {
        let ops: Vec<SinkOp> = Vec::new();
        assert(op_views(ops@) =~= Seq::<SinkOpView>::empty());
        Ok(ops)
    }

    fn is_followed_thread(&self, tid: u32) -> (followed: bool)
        ensures
            followed == (lookup(self@.threads, tid as u64) is Some),
    {
        self.threads.find(tid as u64).is_some()
    }

    fn run_firefox(&mut self, event: &TraceEvent) -> (result: Result<Vec<SinkOp>, EventError>)
        requires
            old(self).well_formed(),
            marker_name(event.name@, firefox_prefix()) is Some,
        ensures
            final(self).well_formed(),
            agrees(final(self)@, result, firefox_event(old(self)@, *event)),
    {
        if !self.is_followed_thread(event.thread_id) {
            return self.drop_event();
        }
        let start: u64 = match event.u64_field("StartTime") {
            Some(n) => n,
            None => {
                return self.skip_malformed();
            },
        };
        let end: u64 = match event.u64_field("EndTime") {
            Some(n) => n,
            None => {
                return self.skip_malformed();
            },
        };
        if !self.event_timestamps_are_qpc {
            return Err(EventError::InconsistentTimestampFormats);
        }
        let timing = match firefox_marker_timing(
            &self.timestamp_converter,
            event.u8_field("Phase"),
            start,
            end,
        ) {
            Some(timing) => timing,
            None => {
                return self.skip_malformed();
            },
        };
        let marker = match application_marker_name(
            event.name.as_str(),
            "Mozilla.FirefoxTraceLogger/",
        ) {
            Some(marker) => marker,
            None => {
                return self.skip_malformed();
            },
        };
        let mut hidden: Vec<&str> = Vec::new();
        hidden.push("MarkerName");
        hidden.push("StartTime");
        hidden.push("EndTime");
        hidden.push("Phase");
        hidden.push("InnerWindowId");
        hidden.push("CategoryPair");
        assert(name_views(hidden@) =~= firefox_hidden());
        let text = event.text(&hidden);
        if same_text(marker.as_str(), "UserTiming") {
            match event.text_field("name") {
                Some(name) => Ok(
                    self.on_plain_marker(
                        event.thread_id,
                        "UserTiming".to_owned(),
                        MarkerPayload::UserTiming(name),
                        timing,
                    ),
                ),
                None => self.skip_malformed(),
            }
        } else if same_text(marker.as_str(), "SimpleMarker") || same_text(marker.as_str(), "Text")
            || same_text(marker.as_str(), "tracing") {
            match event.text_field("MarkerName") {
                Some(name) => Ok(
                    self.on_plain_marker(
                        event.thread_id,
                        name,
                        MarkerPayload::Text(TextMarker(text)),
                        timing,
                    ),
                ),
                None => self.skip_malformed(),
            }
        } else {
            Ok(
                self.on_plain_marker(
                    event.thread_id,
                    marker,
                    MarkerPayload::Text(TextMarker(text)),
                    timing,
                ),
            )
        }
    }

    fn run_chrome(&mut self, event: &TraceEvent) -> (result: Result<Vec<SinkOp>, EventError>)
        requires
            old(self).well_formed(),
            marker_name(event.name@, chrome_prefix()) is Some,
        ensures
            final(self).well_formed(),
            agrees(final(self)@, result, chrome_event(old(self)@, *event)),
    {
        let phase = match event.text_field("Phase") {
            Some(phase) => phase,
            None => {
                return self.skip_malformed();
            },
        };
        if !self.is_followed_thread(event.thread_id) {
            return self.drop_event();
        }
        let time_us: u64 = match event.u64_field("Timestamp") {
            Some(n) => n,
            None => {
                return self.skip_malformed();
            },
        };
        if event.keyword > CHROME_KEYWORDS {
            return self.skip_malformed();
        }
        let marker = match application_marker_name(event.name.as_str(), "Google.Chrome/") {
            Some(marker) => marker,
            None => {
                return self.skip_malformed();
            },
        };
        let timing = chrome_marker_timing(&self.timestamp_converter, phase.as_str(), time_us);
        if event.keyword == KEYWORD_BLINK_USER_TIMING {
            Ok(
                self.on_plain_marker(
                    event.thread_id,
                    "UserTiming".to_owned(),
                    MarkerPayload::UserTiming(marker),
                    timing,
                ),
            )
        } else {
            let mut hidden: Vec<&str> = Vec::new();
            hidden.push("Timestamp");
            hidden.push("Phase");
            hidden.push("Duration");
            assert(name_views(hidden@) =~= chrome_hidden());
            let text = event.text(&hidden);
            Ok(
                self.on_plain_marker(
                    event.thread_id,
                    marker,
                    MarkerPayload::Text(TextMarker(text)),
                    timing,
                ),
            )
        }
    }

    fn run_other(&mut self, event: &TraceEvent) -> (result: Result<Vec<SinkOp>, EventError>)
        requires
            old(self).well_formed(),
        ensures
            final(self).well_formed(),
            agrees(final(self)@, result, other_event(old(self)@, *event)),
    {
        if !self.is_followed_thread(event.thread_id) {
            return self.drop_event();
        }
        let short = match short_name(event.name.as_str()) {
            Some(short) => short,
            None => {
                return self.skip_malformed();
            },
        };
        let shown: Vec<&str> = Vec::new();
        assert(name_views(shown@) =~= Seq::<Seq<char>>::empty());
        let text = event.text(&shown);
        Ok(
            self.on_provider_marker(
                event.timestamp,
                event.thread_id,
                event.provider_name.clone(),
                short,
                text,
            ),
        )
    }

    fn run_images(&mut self, kind: EventKind, event: &TraceEvent) -> (result: Result<
        Vec<SinkOp>,
        EventError,
    >)
        requires
            old(self).well_formed(),
            kind == EventKind::ImageId || kind == EventKind::DbgId || kind == EventKind::ImageLoad,
        ensures
            final(self).well_formed(),
            agrees(
                final(self)@,
                result,
                match kind {
                    EventKind::ImageId => image_id_event(old(self)@, *event),
                    EventKind::DbgId => dbg_id_event(old(self)@, *event),
                    _ => image_load_event(old(self)@, *event),
                },
            ),
    {
        match kind {
            EventKind::ImageId => {
                if !(self.is_targeted(event.process_id) || event.process_id == 0) {
                    return self.ignore();
                }
                match (
                    event.u64_field("ImageBase"),
                    event.u32_field("TimeDateStamp"),
                    event.u32_field("ImageSize"),
                    event.text_field("OriginalFileName"),
                ) {
                    (Some(base), Some(stamp), Some(size), Some(path)) => Ok(
                        self.on_image_id(event.process_id, base, stamp, size, path),
                    ),
                    _ => self.skip_malformed(),
                }
            },
            EventKind::DbgId => {
                if !(self.is_targeted(event.process_id) || event.process_id == 0) {
                    return self.ignore();
                }
                match (
                    event.u64_field("ImageBase"),
                    event.guid_field("GuidSig"),
                    event.u32_field("Age"),
                    event.text_field("PdbFileName"),
                ) {
                    (Some(base), Some(guid), Some(age), Some(pdb)) => Ok(
                        self.on_dbg_id(event.process_id, base, guid, age, pdb),
                    ),
                    _ => self.skip_malformed(),
                }
            },
            _ => {
                let pid: u32 = match event.u32_field("ProcessId") {
                    Some(pid) => pid,
                    None => {
                        return self.skip_malformed();
                    },
                };
                if !(self.is_targeted(pid) || pid == 0) {
                    return self.ignore();
                }
                match (
                    event.u64_field("ImageBase"),
                    event.u64_field("ImageSize"),
                    event.text_field("FileName"),
                ) {
                    (Some(base), Some(size), Some(file)) => Ok(
                        self.on_image_load(event.timestamp, pid, base, size, file),
                    ),
                    _ => self.skip_malformed(),
                }
            },
        }
    }

    fn run_lifecycle(&mut self, kind: EventKind, event: &TraceEvent) -> (result: Result<
        Vec<SinkOp>,
        EventError,
    >)
        requires
            old(self).well_formed(),
            kind == EventKind::ThreadSetName || kind == EventKind::ThreadStart || kind
                == EventKind::ThreadEnd || kind == EventKind::ProcessStart,
        ensures
            final(self).well_formed(),
            agrees(
                final(self)@,
                result,
                match kind {
                    EventKind::ThreadSetName => thread_set_name_event(old(self)@, *event),
                    EventKind::ThreadStart => thread_start_event(old(self)@, *event),
                    EventKind::ThreadEnd => thread_end_event(old(self)@, *event),
                    _ => process_start_event(old(self)@, *event),
                },
            ),
    {
        match kind {
            EventKind::ThreadSetName => match (
                event.u32_field("ProcessId"),
                event.u32_field("ThreadId"),
                event.text_field("ThreadName"),
            ) {
                (Some(pid), Some(tid), Some(name)) => Ok(self.on_thread_set_name(pid, tid, name)),
                _ => self.skip_malformed(),
            },
            EventKind::ThreadStart => match (
                event.u32_field("TThreadId"),
                event.u32_field("ProcessId"),
            ) {
                (Some(tid), Some(pid)) => Ok(
                    self.on_thread_start(
                        event.timestamp,
                        pid,
                        tid,
                        event.text_field("ThreadName"),
                    ),
                ),
                _ => self.skip_malformed(),
            },
            EventKind::ThreadEnd => match (
                event.u32_field("TThreadId"),
                event.u32_field("ProcessId"),
            ) {
                (Some(tid), Some(_)) => Ok(self.on_thread_end(event.timestamp, tid)),
                _ => self.skip_malformed(),
            },
            _ => match (event.text_field("ImageFileName"), event.u32_field("ProcessId")) {
                (Some(image), Some(pid)) => Ok(self.on_process_start(event.timestamp, pid, image)),
                _ => self.skip_malformed(),
            },
        }
    }

    fn run_virtual_memory(&mut self, event: &TraceEvent, freed: bool) -> (result: Result<
        Vec<SinkOp>,
        EventError,
    >)
        requires
            old(self).well_formed(),
        ensures
            final(self).well_formed(),
            agrees(final(self)@, result, virtual_memory_event(old(self)@, *event, freed)),
    {
        if !self.is_targeted(event.process_id) {
            return self.ignore();
        }
        match event.u64_field("RegionSize") {
            Some(size) => {
                let shown: Vec<&str> = Vec::new();
                assert(name_views(shown@) =~= Seq::<Seq<char>>::empty());
                let text = event.text(&shown);
                Ok(
                    self.on_virtual_memory(
                        event.timestamp,
                        event.process_id,
                        event.thread_id,
                        size,
                        text,
                        freed,
                    ),
                )
            },
            None => self.skip_malformed(),
        }
    }

    fn run_interval(&mut self, kind: EventKind, event: &TraceEvent) -> (result: Result<
        Vec<SinkOp>,
        EventError,
    >)
        requires
            old(self).well_formed(),
            kind == EventKind::IntervalBegin || kind == EventKind::IntervalEnd,
        ensures
            final(self).well_formed(),
            agrees(
                final(self)@,
                result,
                match kind {
                    EventKind::IntervalBegin => done(
                        marker_begin(
                            old(self)@,
                            event.timestamp,
                            event.thread_id,
                            event.name@,
                            fields_text(event.fields@, Seq::empty()),
                        ),
                    ),
                    _ => interval_end_event(old(self)@, *event),
                },
            ),
    {
        let shown: Vec<&str> = Vec::new();
        assert(name_views(shown@) =~= Seq::<Seq<char>>::empty());
        let text = event.text(&shown);
        match kind {
            EventKind::IntervalBegin => Ok(
                self.on_marker_begin(event.timestamp, event.thread_id, event.name.clone(), text),
            ),
            _ => match short_name(event.name.as_str()) {
                Some(short) => Ok(
                    self.on_marker_end(
                        event.timestamp,
                        event.thread_id,
                        "Microsoft-Windows-Direct3D11/ID3D11VideoContext_SubmitDecoderBuffers/win:Start",
                        event.provider_name.clone(),
                        short,
                        text,
                    ),
                ),
                None => self.skip_malformed(),
            },
        }
    }

    fn run_sampling(&mut self, kind: EventKind, event: &TraceEvent) -> (result: Result<
        Vec<SinkOp>,
        EventError,
    >)
        requires
            old(self).well_formed(),
            kind == EventKind::StackWalk || kind == EventKind::SampleProf || kind
                == EventKind::CSwitch,
        ensures
            final(self).well_formed(),
            agrees(
                final(self)@,
                result,
                match kind {
                    EventKind::StackWalk => stack_walk_event(old(self)@, *event),
                    EventKind::SampleProf => sample_prof_event(old(self)@, *event),
                    _ => cswitch_event(old(self)@, *event),
                },
            ),
    {
        match kind {
            EventKind::StackWalk => match (
                event.u32_field("StackThread"),
                event.u32_field("StackProcess"),
                event.u64_field("EventTimeStamp"),
            ) {
                (Some(tid), Some(pid), Some(timestamp)) => Ok(
                    self.on_stack_walk(pid, tid, timestamp, &event.data),
                ),
                _ => self.skip_malformed(),
            },
            EventKind::SampleProf => match event.u32_field("ThreadId") {
                Some(tid) => Ok(self.on_sample_prof(event.timestamp, tid)),
                None => self.skip_malformed(),
            },
            _ => match (event.u32_field("NewThreadId"), event.u32_field("OldThreadId")) {
                (Some(new_tid), Some(old_tid)) => Ok(
                    self.on_cswitch(event.timestamp, new_tid, old_tid),
                ),
                _ => self.skip_malformed(),
            },
        }
    }

    fn run_settings(&mut self, kind: EventKind, event: &TraceEvent) -> (result: Result<
        Vec<SinkOp>,
        EventError,
    >)
        requires
            old(self).well_formed(),
            kind == EventKind::Header || kind == EventKind::CollectionStart || kind
                == EventKind::ReadyThread || kind == EventKind::SourceLoad || kind
                == EventKind::MethodLoad,
        ensures
            final(self).well_formed(),
            agrees(
                final(self)@,
                result,
                match kind {
                    EventKind::Header => header_event(old(self)@, *event),
                    EventKind::CollectionStart => collection_start_event(old(self)@, *event),
                    EventKind::ReadyThread => ready_thread_event(old(self)@, *event),
                    EventKind::SourceLoad => source_load_event(old(self)@, *event),
                    _ => method_load_event(old(self)@, *event),
                },
            ),
    {
        match kind {
            EventKind::Header => match (
                event.u32_field("TimerResolution"),
                event.u64_field("PerfFreq"),
                event.u32_field("ReservedFlags"),
                event.u32_field("EventsLost"),
            ) {
                (Some(resolution), Some(frequency), Some(clock), Some(lost)) => {
                    if frequency == 0 {
                        self.skip_malformed()
                    } else {
                        Ok(self.on_header(event.timestamp, resolution, frequency, clock, lost))
                    }
                },
                _ => self.skip_malformed(),
            },
            EventKind::CollectionStart => match event.u32_field("NewInterval") {
                Some(interval) => Ok(self.on_collection_start(interval)),
                None => self.skip_malformed(),
            },
            EventKind::ReadyThread => match event.u32_field("TThreadId") {
                Some(_) => self.ignore(),
                None => self.skip_malformed(),
            },
            EventKind::SourceLoad => match (event.u64_field("SourceID"), event.text_field("Url")) {
                (Some(_), Some(_)) => self.ignore(),
                _ => self.skip_malformed(),
            },
            _ => match (
                event.text_field("MethodName"),
                event.address_field("MethodStartAddress"),
                event.u64_field("MethodSize"),
            ) {
                (Some(name), Some(start), Some(size)) => Ok(
                    self.on_method_load(event.timestamp, event.process_id, name, start, size),
                ),
                _ => self.skip_malformed(),
            },
        }
    }

    /// Counts an event that could not be read at all.
    pub fn note_unread_event(&mut self)
        requires
            old(self).well_formed(),
        ensures
            final(self).well_formed(),
            final(self)@ == count_event(old(self)@),
    {
        self.counters.event_count = count_up(self.counters.event_count);
    }

    /// Takes one event of the trace. Returns the operations that the
    /// event asks of the profile, in their order. As long as handles are
    /// left to give out, the operations create what they create under the
    /// next numbers and name only what has been created.
    pub fn handle_event(&mut self, event: &TraceEvent) -> (result: Result<Vec<SinkOp>, EventError>)
        requires
            old(self).well_formed(),
        ensures
            final(self).well_formed(),
            agrees(final(self)@, result, step(old(self)@, *event)),
            handles_known(old(self)@) && numbers_left(old(self)@.next) ==> handles_known(
                final(self)@,
            ) && match result {
                Ok(ops) => leads(op_views(ops@), old(self)@.next, final(self)@.next),
                Err(_) => true,
            },
    {
        proof {
            if handles_known(self@) && numbers_left(self@.next) {
                lemma_step_keeps_numbering(self@, *event);
            }
        }
        self.counters.event_count = count_up(self.counters.event_count);
        let kind = classify(event.name.as_str());
        match kind {
            EventKind::Header | EventKind::CollectionStart | EventKind::ReadyThread
            | EventKind::SourceLoad | EventKind::MethodLoad => self.run_settings(kind, event),
            EventKind::ThreadSetName | EventKind::ThreadStart | EventKind::ThreadEnd
            | EventKind::ProcessStart => self.run_lifecycle(kind, event),
            EventKind::StackWalk | EventKind::SampleProf | EventKind::CSwitch => self.run_sampling(
                kind,
                event,
            ),
            EventKind::DemandZeroFault => Ok(
                self.on_demand_zero_fault(event.timestamp, event.thread_id),
            ),
            EventKind::VirtualFree => self.run_virtual_memory(event, true),
            EventKind::VirtualAlloc => self.run_virtual_memory(event, false),
            EventKind::ImageId | EventKind::DbgId | EventKind::ImageLoad => self.run_images(
                kind,
                event,
            ),
            EventKind::VSync => Ok(self.on_vsync(event.timestamp)),
            EventKind::IntervalBegin | EventKind::IntervalEnd => self.run_interval(kind, event),
            EventKind::Firefox => self.run_firefox(event),
            EventKind::Chrome => self.run_chrome(event),
            EventKind::Other => self.run_other(event),
        }
    }
}

} // verus!

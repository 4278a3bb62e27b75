use std::collections::HashSet;

use etw_gecko::dispatch::{
    application_marker_name, chrome_marker_timing, classify, firefox_marker_timing, short_name,
    EventError, EventKind,
};
use etw_gecko::events::{EventField, FieldValue, TraceEvent};
use etw_gecko::handles::{CategoryHandle, CounterHandle, ProcessHandle, ThreadHandle};
use etw_gecko::marker_schema::{
    vsync_marker_data, vsync_marker_schema, MarkerDataMember, MarkerLocation,
};
use etw_gecko::sink::{
    CounterKind, MarkerCategory, MarkerPayload, MarkerTiming, SinkOp, TextMarker,
};
use etw_gecko::state::{Engine, Settings};
use etw_gecko::timestamp_converter::TimestampConverter;
use fxprof_processed_profile::Timestamp;

fn at(nanos: u64) -> Timestamp {
    Timestamp::from_nanos_since_reference(nanos)
}

fn shown(name: &str, value: &str) -> String {
    format!("  {}= {}", name, value)
}

fn number(name: &str, value: FieldValue, text: &str) -> EventField {
    EventField { name: name.to_string(), value, rendered: shown(name, text) }
}

fn text(name: &str, value: &str) -> EventField {
    EventField {
        name: name.to_string(),
        value: FieldValue::Text(value.to_string()),
        rendered: shown(name, value),
    }
}

fn event(name: &str, timestamp: u64, pid: u32, tid: u32, fields: Vec<EventField>) -> TraceEvent {
    TraceEvent {
        name: name.to_string(),
        provider_name: name.split('/').next().unwrap().to_string(),
        timestamp,
        process_id: pid,
        thread_id: tid,
        keyword: 0,
        is_64bit: true,
        fields,
        data: Vec::new(),
    }
}

/// Header at 1000 with 100 ns a tick; thread 7 of process 42.
fn started(clock_type: u32) -> Engine {
    let settings = Settings {
        merge_threads: false,
        include_idle: false,
        demand_zero_faults: false,
        process_target_name: None,
        pending_window: None,
    };
    let (mut engine, _) = Engine::new(settings, HashSet::from([42]));
    let header = event(
        "MSNT_SystemTrace/EventTrace/Header",
        1000,
        0,
        0,
        vec![
            number("TimerResolution", FieldValue::U32(156_250), "156250"),
            number("PerfFreq", FieldValue::U64(10_000_000), "10000000"),
            number("ReservedFlags", FieldValue::U32(clock_type), "1"),
            number("EventsLost", FieldValue::U32(0), "0"),
        ],
    );
    engine.handle_event(&header).unwrap();
    let start = event(
        "MSNT_SystemTrace/Thread/Start",
        1100,
        0,
        0,
        vec![
            number("TThreadId", FieldValue::U32(7), "7"),
            number("ProcessId", FieldValue::U32(42), "42"),
        ],
    );
    engine.handle_event(&start).unwrap();
    engine
}

fn marker(name: &str, payload: MarkerPayload, timing: MarkerTiming) -> SinkOp {
    SinkOp::AddMarker {
        thread: ThreadHandle(0),
        category: MarkerCategory::Other,
        name: name.to_string(),
        payload,
        timing,
    }
}

fn text_payload(text: &str) -> MarkerPayload {
    MarkerPayload::Text(TextMarker(text.to_string()))
}

#[test]
fn events_are_known_by_their_names() {
    let names = [
        ("MSNT_SystemTrace/EventTrace/Header", EventKind::Header),
        ("MSNT_SystemTrace/PerfInfo/CollectionStart", EventKind::CollectionStart),
        ("MSNT_SystemTrace/Thread/SetName", EventKind::ThreadSetName),
        ("MSNT_SystemTrace/Thread/Start", EventKind::ThreadStart),
        ("MSNT_SystemTrace/Thread/DCStart", EventKind::ThreadStart),
        ("MSNT_SystemTrace/Thread/End", EventKind::ThreadEnd),
        ("MSNT_SystemTrace/Thread/DCEnd", EventKind::ThreadEnd),
        ("MSNT_SystemTrace/Process/Start", EventKind::ProcessStart),
        ("MSNT_SystemTrace/Process/DCStart", EventKind::ProcessStart),
        ("MSNT_SystemTrace/StackWalk/Stack", EventKind::StackWalk),
        ("MSNT_SystemTrace/PerfInfo/SampleProf", EventKind::SampleProf),
        ("MSNT_SystemTrace/PageFault/DemandZeroFault", EventKind::DemandZeroFault),
        ("MSNT_SystemTrace/PageFault/VirtualFree", EventKind::VirtualFree),
        ("MSNT_SystemTrace/PageFault/VirtualAlloc", EventKind::VirtualAlloc),
        ("KernelTraceControl/ImageID/", EventKind::ImageId),
        ("KernelTraceControl/ImageID/DbgID_RSDS", EventKind::DbgId),
        ("MSNT_SystemTrace/Image/Load", EventKind::ImageLoad),
        ("MSNT_SystemTrace/Image/DCStart", EventKind::ImageLoad),
        ("Microsoft-Windows-DxgKrnl/VSyncDPC/Info ", EventKind::VSync),
        ("MSNT_SystemTrace/Thread/CSwitch", EventKind::CSwitch),
        ("MSNT_SystemTrace/Thread/ReadyThread", EventKind::ReadyThread),
        ("V8.js/MethodLoad/", EventKind::MethodLoad),
        ("Microsoft-JScript/MethodRuntime/MethodDCStart", EventKind::MethodLoad),
        ("Microsoft-JScript/MethodRuntime/MethodLoad", EventKind::MethodLoad),
        ("V8.js/SourceLoad/", EventKind::SourceLoad),
        (
            "Microsoft-Windows-Direct3D11/ID3D11VideoContext_SubmitDecoderBuffers/win:Start",
            EventKind::IntervalBegin,
        ),
        (
            "Microsoft-Windows-Direct3D11/ID3D11VideoContext_SubmitDecoderBuffers/win:Stop",
            EventKind::IntervalEnd,
        ),
        ("Mozilla.FirefoxTraceLogger/UserTiming/", EventKind::Firefox),
        ("Mozilla.FirefoxTraceLogger/a/b/", EventKind::Firefox),
        ("Google.Chrome/OnLoad/", EventKind::Chrome),
        ("Mozilla.FirefoxTraceLogger/UserTiming", EventKind::Other),
        ("Mozilla.FirefoxTraceLogger/", EventKind::Other),
        ("Google.Chrome/", EventKind::Other),
        ("Microsoft-Windows-DxgKrnl/VSyncDPC/Info", EventKind::Other),
        ("MSNT_SystemTrace/Thread/start", EventKind::Other),
        ("", EventKind::Other),
    ];
    for (name, kind) in names {
        assert_eq!(classify(name), kind, "for {:?}", name);
    }
}

#[test]
fn marker_names_stand_between_the_prefix_and_the_last_slash() {
    let firefox = "Mozilla.FirefoxTraceLogger/";
    assert_eq!(
        application_marker_name("Mozilla.FirefoxTraceLogger/GCMajor/", firefox),
        Some("GCMajor".to_string())
    );
    assert_eq!(
        application_marker_name("Mozilla.FirefoxTraceLogger//", firefox),
        Some("".to_string())
    );
    assert_eq!(
        application_marker_name("Mozilla.FirefoxTraceLogger/a/b/", firefox),
        Some("a/b".to_string())
    );
    assert_eq!(application_marker_name("Mozilla.FirefoxTraceLogger/", firefox), None);
    assert_eq!(application_marker_name("Mozilla.FirefoxTraceLogger/x", firefox), None);
    assert_eq!(application_marker_name("Google.Chrome/x/", firefox), None);
    assert_eq!(short_name("Provider/Task/Opcode"), Some("Task/Opcode".to_string()));
    assert_eq!(short_name("Provider/"), Some("".to_string()));
    assert_eq!(short_name("Provider"), None);
}

#[test]
fn firefox_phases_give_the_timing() {
    let c = TimestampConverter { reference_raw: 1000, raw_to_ns_factor: 100 };
    let timing = |phase: Option<u8>, start: u64, end: u64| firefox_marker_timing(&c, phase, start, end);
    assert_eq!(timing(Some(0), 1200, 1500), Some(MarkerTiming::Instant(at(20_000))));
    assert_eq!(timing(Some(1), 1200, 1500), Some(MarkerTiming::Interval(at(20_000), at(50_000))));
    assert_eq!(timing(Some(2), 1200, 1500), Some(MarkerTiming::IntervalStart(at(20_000))));
    assert_eq!(timing(Some(3), 1200, 1500), Some(MarkerTiming::IntervalEnd(at(50_000))));
    assert_eq!(timing(Some(4), 1200, 1500), None);
    assert_eq!(timing(Some(255), 1200, 1500), None);
    // Without a phase the times say what the marker is.
    assert_eq!(timing(None, 1200, 1500), Some(MarkerTiming::Interval(at(20_000), at(50_000))));
    assert_eq!(timing(None, 1200, 0), Some(MarkerTiming::Instant(at(20_000))));
    assert_eq!(timing(None, 0, 1500), Some(MarkerTiming::Instant(at(50_000))));
    assert_eq!(timing(None, 0, 0), Some(MarkerTiming::Instant(at(0))));
}

#[test]
fn chrome_phases_give_the_timing() {
    let c = TimestampConverter { reference_raw: 1000, raw_to_ns_factor: 100 };
    assert_eq!(chrome_marker_timing(&c, "Begin", 250), MarkerTiming::IntervalStart(at(150_000)));
    assert_eq!(chrome_marker_timing(&c, "End", 250), MarkerTiming::IntervalEnd(at(150_000)));
    assert_eq!(chrome_marker_timing(&c, "Complete", 250), MarkerTiming::Instant(at(150_000)));
    assert_eq!(chrome_marker_timing(&c, "begin", 250), MarkerTiming::Instant(at(150_000)));
    assert_eq!(chrome_marker_timing(&c, "", 1), MarkerTiming::Instant(at(0)));
}

fn firefox(name: &str, tid: u32, fields: Vec<EventField>) -> TraceEvent {
    event(name, 5000, 42, tid, fields)
}

fn times(start: u64, end: u64) -> Vec<EventField> {
    vec![
        number("StartTime", FieldValue::U64(start), "s"),
        number("EndTime", FieldValue::U64(end), "e"),
    ]
}

#[test]
fn firefox_markers_show_their_fields() {
    let mut engine = started(1);
    let mut fields = times(1200, 1500);
    fields.push(number("Phase", FieldValue::U8(1), "1"));
    fields.push(text("MarkerName", "hidden"));
    fields.push(text("Reason", "CC_WAITING"));
    fields.push(number("InnerWindowId", FieldValue::U64(3), "3"));
    fields.push(number("CategoryPair", FieldValue::U32(3), "3"));
    fields.push(number("Slice", FieldValue::U32(2), "2"));
    let ops = engine
        .handle_event(&firefox("Mozilla.FirefoxTraceLogger/GCMajor/", 7, fields))
        .unwrap();
    assert_eq!(
        ops,
        vec![marker(
            "GCMajor",
            text_payload("  Reason= CC_WAITING,   Slice= 2, "),
            MarkerTiming::Interval(at(20_000), at(50_000)),
        )]
    );
}

#[test]
fn firefox_user_timing_and_simple_markers_carry_their_own_names() {
    let mut engine = started(1);
    let mut fields = times(1200, 0);
    fields.push(text("name", "load-start"));
    let ops = engine
        .handle_event(&firefox("Mozilla.FirefoxTraceLogger/UserTiming/", 7, fields))
        .unwrap();
    assert_eq!(
        ops,
        vec![marker(
            "UserTiming",
            MarkerPayload::UserTiming("load-start".to_string()),
            MarkerTiming::Instant(at(20_000)),
        )]
    );
    for kind in ["SimpleMarker", "Text", "tracing"] {
        let mut fields = times(0, 1500);
        fields.push(text("MarkerName", "Navigation"));
        fields.push(text("Detail", "x"));
        let name = format!("Mozilla.FirefoxTraceLogger/{}/", kind);
        let ops = engine.handle_event(&firefox(&name, 7, fields)).unwrap();
        assert_eq!(
            ops,
            vec![marker("Navigation", text_payload("  Detail= x, "), MarkerTiming::Instant(at(50_000)))]
        );
    }
    // Without the field that names them they are malformed.
    let bad = firefox("Mozilla.FirefoxTraceLogger/UserTiming/", 7, times(1200, 0));
    assert_eq!(engine.handle_event(&bad), Err(EventError::Malformed));
    let bad = firefox("Mozilla.FirefoxTraceLogger/Text/", 7, times(1200, 0));
    assert_eq!(engine.handle_event(&bad), Err(EventError::Malformed));
    let bad = firefox("Mozilla.FirefoxTraceLogger/GCMajor/", 7, vec![]);
    assert_eq!(engine.handle_event(&bad), Err(EventError::Malformed));
    let mut fields = times(1200, 0);
    fields.push(number("Phase", FieldValue::U8(9), "9"));
    let bad = firefox("Mozilla.FirefoxTraceLogger/GCMajor/", 7, fields);
    assert_eq!(engine.handle_event(&bad), Err(EventError::Malformed));
    assert_eq!(engine.counters.dropped_sample_count, 4);
}

#[test]
fn firefox_markers_need_the_performance_counter_as_the_clock() {
    let mut engine = started(2);
    assert!(!engine.event_timestamps_are_qpc);
    let before = engine.counters.dropped_sample_count;
    let e = firefox("Mozilla.FirefoxTraceLogger/GCMajor/", 7, times(1200, 1500));
    assert_eq!(engine.handle_event(&e), Err(EventError::InconsistentTimestampFormats));
    assert_eq!(engine.counters.dropped_sample_count, before);
    // An event of a thread that is not followed is dropped before its times are read.
    let e = firefox("Mozilla.FirefoxTraceLogger/GCMajor/", 8, times(1200, 1500));
    assert_eq!(engine.handle_event(&e), Ok(vec![]));
    assert_eq!(engine.counters.dropped_sample_count, before + 1);
}

fn chrome(name: &str, keyword: u64, fields: Vec<EventField>) -> TraceEvent {
    let mut e = event(name, 5000, 42, 7, fields);
    e.keyword = keyword;
    e
}

fn chrome_fields(phase: &str, time_us: u64) -> Vec<EventField> {
    vec![
        text("Phase", phase),
        number("Timestamp", FieldValue::U64(time_us), "t"),
        number("Duration", FieldValue::U64(5), "5"),
        text("Arg", "v"),
    ]
}

#[test]
fn chrome_markers_follow_their_keyword() {
    let mut engine = started(2);
    let ops = engine
        .handle_event(&chrome("Google.Chrome/navigationStart/", 0x10000, chrome_fields("Begin", 250)))
        .unwrap();
    assert_eq!(
        ops,
        vec![marker(
            "UserTiming",
            MarkerPayload::UserTiming("navigationStart".to_string()),
            MarkerTiming::IntervalStart(at(150_000)),
        )]
    );
    let ops = engine
        .handle_event(&chrome("Google.Chrome/Paint/", 0x10002, chrome_fields("End", 250)))
        .unwrap();
    assert_eq!(
        ops,
        vec![marker("Paint", text_payload("  Arg= v, "), MarkerTiming::IntervalEnd(at(150_000)))]
    );
    let ops = engine
        .handle_event(&chrome("Google.Chrome/Tick/", 0x8000_0000_0000, chrome_fields("x", 100)))
        .unwrap();
    assert_eq!(ops, vec![marker("Tick", text_payload("  Arg= v, "), MarkerTiming::Instant(at(0)))]);
    let bad = chrome("Google.Chrome/Tick/", 0x1_0000_0000_0000, chrome_fields("x", 100));
    assert_eq!(engine.handle_event(&bad), Err(EventError::Malformed));
    let bad = chrome("Google.Chrome/Tick/", 0, vec![text("Phase", "x")]);
    assert_eq!(engine.handle_event(&bad), Err(EventError::Malformed));
    let bad = chrome("Google.Chrome/Tick/", 0, vec![]);
    assert_eq!(engine.handle_event(&bad), Err(EventError::Malformed));
}

#[test]
fn other_events_become_markers_under_their_provider() {
    let mut engine = started(1);
    let fields = vec![text("A", "1"), text("B", "2")];
    let e = event("Microsoft-Windows-Foo/Task/Op", 1300, 42, 7, fields);
    let ops = engine.handle_event(&e).unwrap();
    assert_eq!(
        ops,
        vec![
            SinkOp::AddCategory {
                category: CategoryHandle(0),
                name: "Microsoft-Windows-Foo".to_string(),
            },
            SinkOp::AddMarker {
                thread: ThreadHandle(0),
                category: MarkerCategory::Added(CategoryHandle(0)),
                name: "Task/Op".to_string(),
                payload: text_payload("  A= 1,   B= 2, "),
                timing: MarkerTiming::Instant(at(30_000)),
            },
        ]
    );
    // The category is added once.
    let e = event("Microsoft-Windows-Foo/Other/Op", 1400, 42, 7, vec![]);
    let ops = engine.handle_event(&e).unwrap();
    assert_eq!(ops.len(), 1);
    match &ops[0] {
        SinkOp::AddMarker { category, name, payload, .. } => {
            assert_eq!(*category, MarkerCategory::Added(CategoryHandle(0)));
            assert_eq!(name, "Other/Op");
            assert_eq!(*payload, text_payload(""));
        }
        other => panic!("not a marker: {:?}", other),
    }
    let e = event("Microsoft-Windows-Bar/Task/Op", 1400, 42, 7, vec![]);
    let ops = engine.handle_event(&e).unwrap();
    assert_eq!(
        ops[0],
        SinkOp::AddCategory { category: CategoryHandle(1), name: "Microsoft-Windows-Bar".to_string() }
    );
    // Events of threads that are not followed are dropped.
    let e = event("Microsoft-Windows-Baz/Task/Op", 1400, 42, 8, vec![]);
    assert_eq!(engine.handle_event(&e), Ok(vec![]));
    assert_eq!(engine.counters.dropped_sample_count, 1);
    assert_eq!(engine.categories.len(), 2);
    let e = event("NoSlash", 1400, 42, 7, vec![]);
    assert_eq!(engine.handle_event(&e), Err(EventError::Malformed));
}

const BEGIN: &str = "Microsoft-Windows-Direct3D11/ID3D11VideoContext_SubmitDecoderBuffers/win:Start";

const END: &str = "Microsoft-Windows-Direct3D11/ID3D11VideoContext_SubmitDecoderBuffers/win:Stop";

#[test]
fn begin_and_end_make_an_interval() {
    let mut engine = started(1);
    let ops = engine.handle_event(&event(BEGIN, 1200, 42, 7, vec![text("Frame", "1")])).unwrap();
    assert!(ops.is_empty());
    assert_eq!(engine.threads.entries[0].value.pending_markers.len(), 1);
    let ops = engine.handle_event(&event(END, 1500, 42, 7, vec![text("Result", "ok")])).unwrap();
    assert_eq!(
        ops,
        vec![
            SinkOp::AddCategory {
                category: CategoryHandle(0),
                name: "Microsoft-Windows-Direct3D11".to_string(),
            },
            SinkOp::AddMarker {
                thread: ThreadHandle(0),
                category: MarkerCategory::Added(CategoryHandle(0)),
                name: "ID3D11VideoContext_SubmitDecoderBuffers/win:Stop".to_string(),
                payload: text_payload("  Frame= 1,   Result= ok, "),
                timing: MarkerTiming::Interval(at(20_000), at(50_000)),
            },
        ]
    );
    assert_eq!(engine.threads.entries[0].value.pending_markers.len(), 0);
}

#[test]
fn an_end_without_a_begin_only_says_where_it_ended() {
    let mut engine = started(1);
    let ops = engine.handle_event(&event(END, 1500, 42, 7, vec![text("Result", "ok")])).unwrap();
    assert_eq!(ops.len(), 2);
    match &ops[1] {
        SinkOp::AddMarker { payload, timing, .. } => {
            assert_eq!(*payload, text_payload("  Result= ok, "));
            assert_eq!(*timing, MarkerTiming::IntervalEnd(at(50_000)));
        }
        other => panic!("not a marker: {:?}", other),
    }
}

#[test]
fn a_second_begin_takes_the_place_of_the_first() {
    let mut engine = started(1);
    engine.handle_event(&event(BEGIN, 1200, 42, 7, vec![text("Frame", "1")])).unwrap();
    engine.handle_event(&event(BEGIN, 1300, 42, 7, vec![text("Frame", "2")])).unwrap();
    assert_eq!(engine.threads.entries[0].value.pending_markers.len(), 1);
    let ops = engine.handle_event(&event(END, 1500, 42, 7, vec![])).unwrap();
    match &ops[1] {
        SinkOp::AddMarker { payload, timing, .. } => {
            assert_eq!(*payload, text_payload("  Frame= 2, "));
            assert_eq!(*timing, MarkerTiming::Interval(at(30_000), at(50_000)));
        }
        other => panic!("not a marker: {:?}", other),
    }
    // Begins and ends of threads that are not followed are dropped.
    assert_eq!(engine.handle_event(&event(BEGIN, 1200, 42, 9, vec![])), Ok(vec![]));
    assert_eq!(engine.handle_event(&event(END, 1200, 42, 9, vec![])), Ok(vec![]));
    assert_eq!(engine.counters.dropped_sample_count, 2);
}

#[test]
fn virtual_memory_moves_a_counter() {
    let mut engine = started(1);
    let alloc = |pid: u32, tid: u32, size: u64| {
        event(
            "MSNT_SystemTrace/PageFault/VirtualAlloc",
            1200,
            pid,
            tid,
            vec![number("RegionSize", FieldValue::Pointer(size), "4096")],
        )
    };
    let ops = engine.handle_event(&alloc(42, 7, 4096)).unwrap();
    assert_eq!(
        ops,
        vec![
            SinkOp::AddCounter {
                counter: CounterHandle(0),
                process: ProcessHandle(0),
                kind: CounterKind::VirtualAlloc,
            },
            SinkOp::AddCounterSample {
                counter: CounterHandle(0),
                timestamp: at(20_000),
                amount: 4096,
                freed: false,
            },
            marker("VirtualAlloc", text_payload("  RegionSize= 4096, "), MarkerTiming::Instant(at(20_000))),
        ]
    );
    let free = event(
        "MSNT_SystemTrace/PageFault/VirtualFree",
        1300,
        42,
        7,
        vec![number("RegionSize", FieldValue::Pointer(4096), "4096")],
    );
    let ops = engine.handle_event(&free).unwrap();
    assert_eq!(ops.len(), 2);
    assert_eq!(
        ops[0],
        SinkOp::AddCounterSample {
            counter: CounterHandle(0),
            timestamp: at(30_000),
            amount: 4096,
            freed: true,
        }
    );
    match &ops[1] {
        SinkOp::AddMarker { name, .. } => assert_eq!(name, "VirtualFree"),
        other => panic!("not a marker: {:?}", other),
    }
    // Other processes are ignored; other threads of the process are dropped.
    assert_eq!(engine.handle_event(&alloc(43, 7, 1)), Ok(vec![]));
    assert_eq!(engine.counters.dropped_sample_count, 0);
    assert_eq!(engine.handle_event(&alloc(42, 8, 1)), Ok(vec![]));
    assert_eq!(engine.counters.dropped_sample_count, 1);
    let bad = event("MSNT_SystemTrace/PageFault/VirtualAlloc", 1200, 42, 7, vec![]);
    assert_eq!(engine.handle_event(&bad), Err(EventError::Malformed));
}

#[test]
fn vertical_syncs_go_to_a_thread_of_their_own() {
    let mut engine = started(1);
    let sync = |timestamp: u64| event("Microsoft-Windows-DxgKrnl/VSyncDPC/Info ", timestamp, 4, 0, vec![]);
    let ops = engine.handle_event(&sync(1200)).unwrap();
    assert_eq!(
        ops,
        vec![
            SinkOp::AddProcess {
                process: ProcessHandle(1),
                name: "GPU".to_string(),
                pid: 1,
                start_time: at(0),
            },
            SinkOp::AddThread {
                thread: ThreadHandle(1),
                process: ProcessHandle(1),
                tid: 1,
                start_time: at(0),
                is_main: false,
            },
            SinkOp::AddMarker {
                thread: ThreadHandle(1),
                category: MarkerCategory::Other,
                name: "Vsync".to_string(),
                payload: MarkerPayload::VSync,
                timing: MarkerTiming::Instant(at(20_000)),
            },
        ]
    );
    let ops = engine.handle_event(&sync(1300)).unwrap();
    assert_eq!(ops.len(), 1);
    assert_eq!(engine.gpu_thread, Some(ThreadHandle(1)));
}

#[test]
fn events_that_lead_to_nothing_are_read() {
    let mut engine = started(1);
    let ready = event(
        "MSNT_SystemTrace/Thread/ReadyThread",
        1200,
        0,
        0,
        vec![number("TThreadId", FieldValue::U32(7), "7")],
    );
    assert_eq!(engine.handle_event(&ready), Ok(vec![]));
    let ready = event("MSNT_SystemTrace/Thread/ReadyThread", 1200, 0, 0, vec![]);
    assert_eq!(engine.handle_event(&ready), Err(EventError::Malformed));
    let source = event(
        "V8.js/SourceLoad/",
        1200,
        42,
        7,
        vec![number("SourceID", FieldValue::U64(1), "1"), text("Url", "https://example.org/a.js")],
    );
    assert_eq!(engine.handle_event(&source), Ok(vec![]));
}

#[test]
fn text_markers_have_their_data_and_schema() {
    let data = TextMarker("hello".to_string()).json_marker_data();
    assert_eq!(
        data,
        vec![
            MarkerDataMember { key: "type", value: "Text".to_string() },
            MarkerDataMember { key: "name", value: "hello".to_string() },
        ]
    );
    let schema = TextMarker::schema();
    assert_eq!(schema.marker_type, "Text");
    assert_eq!(schema.locations, vec![MarkerLocation::MarkerChart, MarkerLocation::MarkerTable]);
    assert_eq!(schema.chart_label, Some("{marker.data.name}"));
    assert_eq!(schema.tooltip_label, Some("{marker.data.name}"));
    assert_eq!(schema.table_label, Some("{marker.name} - {marker.data.name}"));
    assert_eq!(schema.fields.len(), 1);
    assert_eq!(schema.fields[0].key, "name");
    assert_eq!(schema.fields[0].label, "Name");
    assert!(schema.fields[0].searchable);
}

#[test]
fn vsync_markers_have_their_data_and_schema() {
    assert_eq!(
        vsync_marker_data(),
        vec![
            MarkerDataMember { key: "type", value: "Vsync".to_string() },
            MarkerDataMember { key: "name", value: String::new() },
        ]
    );
    let schema = vsync_marker_schema();
    assert_eq!(schema.marker_type, "Vsync");
    assert_eq!(
        schema.locations,
        vec![MarkerLocation::MarkerChart, MarkerLocation::MarkerTable, MarkerLocation::TimelineOverview]
    );
    assert_eq!(schema.chart_label, Some("{marker.data.name}"));
    assert_eq!(schema.tooltip_label, None);
    assert_eq!(schema.table_label, Some("{marker.name} - {marker.data.name}"));
    assert_eq!(schema.fields[0].label, "Details");
    assert!(!schema.fields[0].searchable);
}

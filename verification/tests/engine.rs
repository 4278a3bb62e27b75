use std::collections::HashSet;

use etw_gecko::dispatch::EventError;
use etw_gecko::events::{EventField, FieldValue, Guid, TraceEvent};
use etw_gecko::handles::{LibraryHandle, ProcessHandle, StringHandle, ThreadHandle};
use etw_gecko::lib_mappings::{LibMappingAdd, LibMappingInfo, LibMappingOp, TimedOp};
use etw_gecko::sink::{
    LibraryInfo, MarkerCategory, MarkerPayload, MarkerTiming, ResolvedFrame, SinkOp, Symbol,
    TextMarker,
};
use etw_gecko::state::{Engine, Notice, Settings, UnresolvedSample};
use etw_gecko::types::{StackFrame, StackMode};
use debugid::DebugId;
use fxprof_processed_profile::{CpuDelta, Timestamp};
use uuid::Uuid;

fn settings() -> Settings {
    Settings {
        merge_threads: false,
        include_idle: false,
        demand_zero_faults: false,
        process_target_name: None,
        pending_window: None,
    }
}

fn engine_for(pid: u32) -> Engine {
    let (engine, ops) = Engine::new(settings(), HashSet::from([pid]));
    assert!(ops.is_empty());
    engine
}

fn at(nanos: u64) -> Timestamp {
    Timestamp::from_nanos_since_reference(nanos)
}

fn field(name: &str, value: FieldValue) -> EventField {
    let rendered = match &value {
        FieldValue::U8(n) => format!("  {}= {}", name, n),
        FieldValue::U16(n) => format!("  {}= {}", name, n),
        FieldValue::U32(n) => format!("  {}= {}", name, n),
        FieldValue::U64(n) => format!("  {}= {}", name, n),
        FieldValue::Hex32(n) => format!("  {}= 0x{:x}", name, n),
        FieldValue::Hex64(n) => format!("  {}= 0x{:x}", name, n),
        FieldValue::Pointer(n) => format!("  {}= 0x{:x}", name, n),
        FieldValue::Text(text) => format!("  {}= {}", name, text),
        FieldValue::Guid(_) => format!("  {}= guid", name),
        FieldValue::Other => format!("  {}= ?", name),
    };
    EventField { name: name.to_string(), value, rendered }
}

fn u32_field(name: &str, n: u32) -> EventField {
    field(name, FieldValue::U32(n))
}

fn u64_field(name: &str, n: u64) -> EventField {
    field(name, FieldValue::U64(n))
}

fn text_field(name: &str, text: &str) -> EventField {
    field(name, FieldValue::Text(text.to_string()))
}

fn event(name: &str, timestamp: u64, fields: Vec<EventField>) -> TraceEvent {
    let provider = name.split('/').next().unwrap().to_string();
    TraceEvent {
        name: name.to_string(),
        provider_name: provider,
        timestamp,
        process_id: 0,
        thread_id: 0,
        keyword: 0,
        is_64bit: true,
        fields,
        data: Vec::new(),
    }
}

fn header(timestamp: u64, perf_freq: u64, clock_type: u32) -> TraceEvent {
    event(
        "MSNT_SystemTrace/EventTrace/Header",
        timestamp,
        vec![
            u32_field("TimerResolution", 156_250),
            u64_field("PerfFreq", perf_freq),
            u32_field("ReservedFlags", clock_type),
            u32_field("EventsLost", 0),
        ],
    )
}

fn thread_start(timestamp: u64, pid: u32, tid: u32, name: Option<&str>) -> TraceEvent {
    let mut fields = vec![u32_field("TThreadId", tid), u32_field("ProcessId", pid)];
    if let Some(name) = name {
        fields.push(text_field("ThreadName", name));
    }
    event("MSNT_SystemTrace/Thread/Start", timestamp, fields)
}

fn thread_end(timestamp: u64, pid: u32, tid: u32) -> TraceEvent {
    event(
        "MSNT_SystemTrace/Thread/End",
        timestamp,
        vec![u32_field("TThreadId", tid), u32_field("ProcessId", pid)],
    )
}

fn sample_prof(timestamp: u64, tid: u32) -> TraceEvent {
    event("MSNT_SystemTrace/PerfInfo/SampleProf", timestamp, vec![u32_field("ThreadId", tid)])
}

fn cswitch(timestamp: u64, new_tid: u32, old_tid: u32) -> TraceEvent {
    event(
        "MSNT_SystemTrace/Thread/CSwitch",
        timestamp,
        vec![u32_field("NewThreadId", new_tid), u32_field("OldThreadId", old_tid)],
    )
}

fn stack_walk(pid: u32, tid: u32, event_timestamp: u64, addresses: &[u64]) -> TraceEvent {
    let mut walk = event(
        "MSNT_SystemTrace/StackWalk/Stack",
        event_timestamp + 14,
        vec![
            u64_field("EventTimeStamp", event_timestamp),
            u32_field("StackProcess", pid),
            u32_field("StackThread", tid),
        ],
    );
    for address in addresses {
        walk.data.extend_from_slice(&address.to_le_bytes());
    }
    walk
}

fn collection_start(interval: u32) -> TraceEvent {
    event(
        "MSNT_SystemTrace/PerfInfo/CollectionStart",
        0,
        vec![u32_field("NewInterval", interval)],
    )
}

fn run(engine: &mut Engine, event: TraceEvent) -> Vec<SinkOp> {
    engine.handle_event(&event).unwrap()
}

fn samples_of(engine: &Engine, pid: u32) -> Vec<UnresolvedSample> {
    let at = engine.processes.find(pid as u64).unwrap();
    engine.processes.entries[at].value.unresolved_samples.clone()
}

const USER_STACK: [u64; 3] = [0x0000_7ffe_1000_0010, 0x0000_7ffe_1000_0200, 0x0000_7ffe_2000_0300];

const KERNEL_STACK: [u64; 2] = [0xffff_f801_0000_0040, 0xffff_f801_0000_0500];

fn user_frames() -> Vec<StackFrame> {
    vec![
        StackFrame::InstructionPointer(USER_STACK[0], StackMode::User),
        StackFrame::ReturnAddress(USER_STACK[1], StackMode::User),
        StackFrame::ReturnAddress(USER_STACK[2], StackMode::User),
    ]
}

fn kernel_frames() -> Vec<StackFrame> {
    vec![
        StackFrame::InstructionPointer(KERNEL_STACK[0], StackMode::Kernel),
        StackFrame::ReturnAddress(KERNEL_STACK[1], StackMode::Kernel),
    ]
}

fn leaf_first(engine: &Engine, sample: &UnresolvedSample) -> Vec<StackFrame> {
    let mut frames = engine.unresolved_stacks.frames_of(sample.stack);
    frames.reverse();
    frames
}

/// Header at 1000 with 100 ns a tick, thread 7 of process 42 started at 1100.
fn started() -> Engine {
    let mut engine = engine_for(42);
    assert!(run(&mut engine, header(1000, 10_000_000, 1)).is_empty());
    assert_eq!(engine.timestamp_converter.raw_to_ns_factor, 100);
    assert_eq!(engine.timestamp_converter.reference_raw, 1000);
    assert!(engine.event_timestamps_are_qpc);
    let ops = run(&mut engine, thread_start(1100, 42, 7, None));
    assert_eq!(
        ops,
        vec![
            SinkOp::AddProcess {
                process: ProcessHandle(0),
                name: "process 42".to_string(),
                pid: 42,
                start_time: at(0),
            },
            SinkOp::AddThread {
                thread: ThreadHandle(0),
                process: ProcessHandle(0),
                tid: 7,
                start_time: at(10_000),
                is_main: true,
            },
        ]
    );
    engine
}

#[test]
fn header_then_one_on_cpu_sample() {
    let mut engine = started();
    assert!(run(&mut engine, sample_prof(1200, 7)).is_empty());
    assert!(samples_of(&engine, 42).is_empty());
    assert!(run(&mut engine, stack_walk(42, 7, 1200, &USER_STACK)).is_empty());
    let samples = samples_of(&engine, 42);
    assert_eq!(samples.len(), 1);
    assert_eq!(samples[0].timestamp, at(20_000));
    assert_eq!(samples[0].timestamp_raw, 1200);
    assert_eq!(samples[0].weight, 1);
    assert_eq!(samples[0].cpu_delta, CpuDelta::from_nanos(0));
    assert_eq!(samples[0].thread_handle, ThreadHandle(0));
    assert_eq!(samples[0].extra_label, None);
    assert_eq!(leaf_first(&engine, &samples[0]), user_frames());
    assert_eq!(engine.counters.event_count, 4);
    assert_eq!(engine.counters.sample_count, 1);
    assert_eq!(engine.counters.stack_sample_count, 1);
    assert_eq!(engine.counters.dropped_sample_count, 0);

    let flushed = engine.finish();
    assert_eq!(
        flushed,
        vec![SinkOp::AddSample {
            thread: ThreadHandle(0),
            timestamp: at(20_000),
            frames: vec![
                ResolvedFrame::Address {
                    address: USER_STACK[2],
                    mode: StackMode::User,
                    return_address: true
                },
                ResolvedFrame::Address {
                    address: USER_STACK[1],
                    mode: StackMode::User,
                    return_address: true
                },
                ResolvedFrame::Address {
                    address: USER_STACK[0],
                    mode: StackMode::User,
                    return_address: false
                },
            ],
            cpu_delta: CpuDelta::from_nanos(0),
            weight: 1,
        }]
    );
}

#[test]
fn kernel_and_user_halves() {
    let mut engine = started();
    run(&mut engine, sample_prof(1200, 7));
    assert!(run(&mut engine, stack_walk(42, 7, 1200, &KERNEL_STACK)).is_empty());
    assert!(samples_of(&engine, 42).is_empty());
    run(&mut engine, stack_walk(42, 7, 1200, &USER_STACK));
    let samples = samples_of(&engine, 42);
    assert_eq!(samples.len(), 1);
    let mut expected = kernel_frames();
    expected.extend(user_frames());
    assert_eq!(leaf_first(&engine, &samples[0]), expected);
    assert_eq!(samples[0].timestamp, at(20_000));
}

#[test]
fn off_cpu_interval() {
    let mut engine = started();
    assert_eq!(run(&mut engine, collection_start(100)), vec![SinkOp::SetInterval { nanos: 10_000 }]);
    assert_eq!(engine.context_switch_handler.sampling_interval, 100);
    run(&mut engine, sample_prof(1200, 7));
    run(&mut engine, stack_walk(42, 7, 1200, &USER_STACK));
    run(&mut engine, cswitch(1300, 0, 7));
    run(&mut engine, cswitch(1900, 7, 0));
    run(&mut engine, sample_prof(2000, 7));
    run(&mut engine, stack_walk(42, 7, 2000, &USER_STACK));
    let samples = samples_of(&engine, 42);
    assert_eq!(samples.len(), 4);
    assert_eq!(samples[0].timestamp, at(20_000));
    // The group of the time off the CPU: six intervals from 1300 to 1900.
    assert_eq!(samples[1].timestamp, at(30_000));
    assert_eq!(samples[1].weight, 1);
    assert_eq!(samples[1].cpu_delta, CpuDelta::from_nanos(0));
    assert_eq!(samples[2].timestamp, at(90_000));
    assert_eq!(samples[2].weight, 5);
    assert_eq!(samples[2].cpu_delta, CpuDelta::from_nanos(0));
    // The sample on the CPU carries the 200 ticks that the thread ran.
    assert_eq!(samples[3].timestamp, at(100_000));
    assert_eq!(samples[3].weight, 1);
    assert_eq!(samples[3].cpu_delta, CpuDelta::from_nanos(20_000));
    for sample in &samples {
        assert_eq!(leaf_first(&engine, sample), user_frames());
        assert_eq!(sample.stack, samples[0].stack);
    }
    assert_eq!(engine.counters.sample_count, 2);
    assert_eq!(engine.counters.stack_sample_count, 2);
}

#[test]
fn off_cpu_interval_shorter_than_the_default_interval_gives_no_group() {
    let mut engine = started();
    run(&mut engine, sample_prof(1200, 7));
    run(&mut engine, stack_walk(42, 7, 1200, &USER_STACK));
    run(&mut engine, cswitch(1300, 0, 7));
    run(&mut engine, cswitch(1900, 7, 0));
    run(&mut engine, sample_prof(2000, 7));
    run(&mut engine, stack_walk(42, 7, 2000, &USER_STACK));
    let samples = samples_of(&engine, 42);
    assert_eq!(samples.len(), 2);
    assert_eq!(samples[1].timestamp, at(100_000));
    assert_eq!(samples[1].cpu_delta, CpuDelta::from_nanos(20_000));
}

#[test]
fn thread_id_reuse() {
    let mut engine = engine_for(42);
    run(&mut engine, header(1000, 10_000_000, 1));
    let ops = run(&mut engine, thread_start(1100, 42, 7, Some("first")));
    assert_eq!(ops.len(), 3);
    assert_eq!(
        ops[2],
        SinkOp::SetThreadName { thread: ThreadHandle(0), name: "first".to_string() }
    );
    run(&mut engine, sample_prof(1200, 7));
    assert_eq!(
        run(&mut engine, thread_end(1500, 42, 7)),
        vec![SinkOp::SetThreadEndTime { thread: ThreadHandle(0), end_time: at(50_000) }]
    );
    let ops = run(&mut engine, thread_start(1600, 42, 7, Some("second")));
    assert_eq!(
        ops,
        vec![
            SinkOp::AddThread {
                thread: ThreadHandle(1),
                process: ProcessHandle(0),
                tid: 7,
                start_time: at(60_000),
                is_main: false,
            },
            SinkOp::SetThreadName { thread: ThreadHandle(1), name: "second".to_string() },
        ]
    );
    assert_eq!(engine.threads.len(), 1);
    let thread = &engine.threads.entries[0].value;
    assert_eq!(thread.handle, ThreadHandle(1));
    assert_eq!(thread.merge_name, Some("second".to_string()));
    assert_eq!(thread.thread_id, 7);
    // The trigger of the first thread is gone with it.
    assert_eq!(thread.pending_stacks.len(), 0);
    run(&mut engine, stack_walk(42, 7, 1200, &USER_STACK));
    assert!(samples_of(&engine, 42).is_empty());
    run(&mut engine, sample_prof(1700, 7));
    run(&mut engine, stack_walk(42, 7, 1700, &USER_STACK));
    let samples = samples_of(&engine, 42);
    assert_eq!(samples.len(), 1);
    assert_eq!(samples[0].thread_handle, ThreadHandle(1));
    assert_eq!(samples[0].timestamp, at(70_000));
    // The process keeps its first main thread.
    assert_eq!(engine.processes.entries[0].value.main_thread_handle, Some(ThreadHandle(0)));
}

fn image_id(pid: u32, base: u64, size: u32, stamp: u32, path: &str) -> TraceEvent {
    let mut e = event(
        "KernelTraceControl/ImageID/",
        1150,
        vec![
            u64_field("ImageBase", base),
            u32_field("TimeDateStamp", stamp),
            u32_field("ImageSize", size),
            text_field("OriginalFileName", path),
        ],
    );
    e.process_id = pid;
    e
}

fn guid() -> Guid {
    Guid {
        data1: 0x0102_0304,
        data2: 0x0506,
        data3: 0x0708,
        data4: [0x09, 0x0a, 0x0b, 0x0c, 0x0d, 0x0e, 0x0f, 0x10],
    }
}

fn dbg_id(pid: u32, base: u64, age: u32, pdb: &str) -> TraceEvent {
    let mut e = event(
        "KernelTraceControl/ImageID/DbgID_RSDS",
        1151,
        vec![
            u64_field("ImageBase", base),
            field("GuidSig", FieldValue::Guid(guid())),
            u32_field("Age", age),
            text_field("PdbFileName", pdb),
        ],
    );
    e.process_id = pid;
    e
}

fn image_load(timestamp: u64, pid: u32, base: u64, size: u64, file: &str) -> TraceEvent {
    event(
        "MSNT_SystemTrace/Image/Load",
        timestamp,
        vec![
            u32_field("ProcessId", pid),
            field("ImageBase", FieldValue::Pointer(base)),
            field("ImageSize", FieldValue::Pointer(size)),
            text_field("FileName", file),
        ],
    )
}

fn expected_debug_id(age: u32) -> DebugId {
    let g = guid();
    DebugId::from_parts(Uuid::from_fields(g.data1, g.data2, g.data3, &g.data4), age)
}

#[test]
fn image_load_two_phase() {
    let mut engine = started();
    assert!(run(&mut engine, image_id(42, 0x100, 0x1000, 0x5f3e_1a2b, "a.dll")).is_empty());
    assert!(run(&mut engine, dbg_id(42, 0x100, 3, "C:\\build\\a.pdb")).is_empty());
    let pending = &engine.processes.entries[0].value.pending_libraries;
    assert_eq!(pending.len(), 1);
    assert!(pending.contains_key(&0x100));
    let ops = run(
        &mut engine,
        image_load(1400, 42, 0x100, 0x1000, "\\Device\\HarddiskVolume3\\app\\a.dll"),
    );
    assert_eq!(
        ops,
        vec![SinkOp::AddLib {
            lib: LibraryHandle(0),
            info: LibraryInfo {
                name: "a.dll".to_string(),
                debug_name: "a.pdb".to_string(),
                path: "\\\\?\\GLOBALROOT\\Device\\HarddiskVolume3\\app\\a.dll".to_string(),
                debug_path: "C:\\build\\a.pdb".to_string(),
                code_id: Some("5F3E1A2B1000".to_string()),
                debug_id: expected_debug_id(3),
                arch: Some("x86_64".to_string()),
            },
        }]
    );
    match &ops[0] {
        SinkOp::AddLib { info, .. } => {
            assert_eq!(info.debug_id.breakpad().to_string(), "0102030405060708090A0B0C0D0E0F103");
            assert_ne!(info.debug_id, DebugId::nil());
            assert_ne!(info.debug_id, expected_debug_id(4));
        }
        other => panic!("not a library: {:?}", other),
    }
    let process = &engine.processes.entries[0].value;
    assert_eq!(process.pending_libraries.len(), 0);
    assert_eq!(
        process.regular_lib_mapping_ops.ops,
        vec![TimedOp {
            timestamp: 1400,
            op: LibMappingOp::Add(LibMappingAdd {
                start_avma: 0x100,
                end_avma: 0x1100,
                relative_address_at_start: 0,
                info: LibMappingInfo::new_lib(LibraryHandle(0)),
            }),
        }]
    );
    // A second load of the same image finds nothing that waits.
    assert!(run(&mut engine, image_load(1500, 42, 0x100, 0x1000, "\\a.dll")).is_empty());
    assert_eq!(engine.processes.entries[0].value.regular_lib_mapping_ops.len(), 1);
}

#[test]
fn image_load_without_what_came_before_is_ignored() {
    let mut engine = started();
    assert!(run(&mut engine, image_load(1400, 42, 0x100, 0x1000, "\\ghost.sys")).is_empty());
    assert!(run(&mut engine, dbg_id(42, 0x200, 1, "x.pdb")).is_empty());
    assert!(run(&mut engine, image_load(1400, 42, 0x200, 0x1000, "\\x.dll")).is_empty());
    assert_eq!(engine.processes.entries[0].value.regular_lib_mapping_ops.len(), 0);
    assert_eq!(engine.next.lib, 0);
}

#[test]
fn images_of_processes_that_are_not_followed_are_ignored() {
    let mut engine = started();
    run(&mut engine, image_id(43, 0x100, 0x1000, 1, "a.dll"));
    assert_eq!(engine.libs.len(), 0);
    run(&mut engine, image_id(42, 0x100, 0x1000, 1, "a.dll"));
    assert_eq!(engine.libs.len(), 1);
    run(&mut engine, dbg_id(43, 0x100, 1, "a.pdb"));
    assert_eq!(engine.processes.len(), 1);
    run(&mut engine, dbg_id(42, 0x100, 1, "a.pdb"));
    assert!(run(&mut engine, image_load(1400, 43, 0x100, 0x1000, "\\a.dll")).is_empty());
    assert_eq!(engine.processes.entries[0].value.pending_libraries.len(), 1);
}

#[test]
fn kernel_images_are_mapped_for_all_processes() {
    let mut engine = started();
    run(&mut engine, image_id(0, 0xffff_f801_0000_0000, 0x2000, 0xabc, "ntoskrnl.exe"));
    run(&mut engine, dbg_id(0, 0xffff_f801_0000_0000, 1, "ntkrnlmp.pdb"));
    assert_eq!(engine.kernel_pending_libraries.len(), 1);
    let ops = run(
        &mut engine,
        image_load(1400, 0, 0xffff_f801_0000_0000, 0x2000, "\\SystemRoot\\system32\\ntoskrnl.exe"),
    );
    assert_eq!(ops.len(), 2);
    match &ops[0] {
        SinkOp::AddLib { lib, info } => {
            assert_eq!(*lib, LibraryHandle(0));
            assert_eq!(info.name, "ntoskrnl.exe");
            assert_eq!(info.debug_name, "ntkrnlmp.pdb");
            assert_eq!(info.code_id, Some("00000ABC2000".to_string()));
            assert_eq!(info.path, "\\\\?\\GLOBALROOT\\SystemRoot\\system32\\ntoskrnl.exe");
        }
        other => panic!("not a library: {:?}", other),
    }
    assert_eq!(
        ops[1],
        SinkOp::AddKernelLibMapping {
            lib: LibraryHandle(0),
            start_avma: 0xffff_f801_0000_0000,
            end_avma: 0xffff_f801_0000_2000,
            relative_address_at_start: 0,
        }
    );
    assert_eq!(engine.kernel_pending_libraries.len(), 0);
}

fn method_load(timestamp: u64, pid: u32, name: &str, start: u64, size: u64) -> TraceEvent {
    let mut e = event(
        "V8.js/MethodLoad/",
        timestamp,
        vec![
            text_field("MethodName", name),
            field("MethodStartAddress", FieldValue::Pointer(start)),
            u64_field("MethodSize", size),
        ],
    );
    e.process_id = pid;
    e
}

fn jit_marker(name: &str, nanos: u64) -> SinkOp {
    SinkOp::AddMarker {
        thread: ThreadHandle(0),
        category: MarkerCategory::Other,
        name: "JitFunctionAdd".to_string(),
        payload: MarkerPayload::JitFunctionAdd(name.to_string()),
        timing: MarkerTiming::Instant(at(nanos)),
    }
}

#[test]
fn jit_method_load_flushes_late() {
    let mut engine = started();
    let ops = run(&mut engine, method_load(1150, 42, "alpha", 0x5000, 0x100));
    assert_eq!(ops.len(), 2);
    assert_eq!(
        ops[0],
        SinkOp::AddLib {
            lib: LibraryHandle(0),
            info: LibraryInfo {
                name: "JIT-42".to_string(),
                debug_name: "JIT-42".to_string(),
                path: "JIT-42".to_string(),
                debug_path: "JIT-42".to_string(),
                code_id: None,
                debug_id: DebugId::nil(),
                arch: None,
            },
        }
    );
    assert_eq!(ops[1], jit_marker("alpha", 15_000));
    run(&mut engine, sample_prof(1200, 7));
    run(&mut engine, stack_walk(42, 7, 1200, &[0x5010]));
    assert_eq!(run(&mut engine, method_load(1250, 42, "beta", 0x9000, 0x40)), vec![jit_marker("beta", 25_000)]);
    run(&mut engine, sample_prof(1300, 7));
    run(&mut engine, stack_walk(42, 7, 1300, &[0x9001, 0x5020]));
    run(&mut engine, method_load(1350, 42, "gamma", 0x7000, 0x10));
    run(&mut engine, sample_prof(1400, 7));
    run(&mut engine, stack_walk(42, 7, 1400, &[0x700f, 0x7011]));

    let jit = &engine.jit.entries[0].value;
    assert_eq!(jit.next_relative_address, 0x150);
    assert_eq!(jit.jit_mapping_ops.len(), 3);

    let flushed = engine.finish();
    assert_eq!(flushed.len(), 4);
    assert_eq!(
        flushed[0],
        SinkOp::SetLibSymbolTable {
            lib: LibraryHandle(0),
            symbols: vec![
                Symbol { address: 0, size: Some(0x100), name: "alpha".to_string() },
                Symbol { address: 0x100, size: Some(0x40), name: "beta".to_string() },
                Symbol { address: 0x140, size: Some(0x10), name: "gamma".to_string() },
            ],
        }
    );
    let in_jit = |relative: u32, symbol: u32| ResolvedFrame::InLibrary {
        lib: LibraryHandle(0),
        relative_address: relative,
        mode: StackMode::User,
        jit_symbol: Some(symbol),
    };
    let frames_of = |op: &SinkOp| match op {
        SinkOp::AddSample { frames, .. } => frames.clone(),
        other => panic!("not a sample: {:?}", other),
    };
    assert_eq!(frames_of(&flushed[1]), vec![in_jit(0x10, 0)]);
    // A return address is looked up one byte before it.
    assert_eq!(frames_of(&flushed[2]), vec![in_jit(0x1f, 0), in_jit(0x101, 1)]);
    assert_eq!(
        frames_of(&flushed[3]),
        vec![
            ResolvedFrame::Address { address: 0x7011, mode: StackMode::User, return_address: true },
            in_jit(0x14f, 2),
        ]
    );
}

#[test]
fn a_sample_sees_the_mappings_of_its_time() {
    let mut engine = started();
    run(&mut engine, sample_prof(1200, 7));
    run(&mut engine, stack_walk(42, 7, 1200, &[0x5010]));
    run(&mut engine, method_load(1250, 42, "late", 0x5000, 0x100));
    run(&mut engine, sample_prof(1300, 7));
    run(&mut engine, stack_walk(42, 7, 1300, &[0x5010]));
    let flushed = engine.finish();
    assert_eq!(flushed.len(), 3);
    match (&flushed[1], &flushed[2]) {
        (SinkOp::AddSample { frames: early, .. }, SinkOp::AddSample { frames: late, .. }) => {
            assert_eq!(
                early,
                &vec![ResolvedFrame::Address {
                    address: 0x5010,
                    mode: StackMode::User,
                    return_address: false
                }]
            );
            assert_eq!(
                late,
                &vec![ResolvedFrame::InLibrary {
                    lib: LibraryHandle(0),
                    relative_address: 0x10,
                    mode: StackMode::User,
                    jit_symbol: Some(0),
                }]
            );
        }
        other => panic!("not two samples: {:?}", other),
    }
}

#[test]
fn samples_resolve_in_loaded_libraries() {
    let mut engine = started();
    run(&mut engine, image_id(42, 0x0000_7ffe_1000_0000, 0x1000, 1, "a.dll"));
    run(&mut engine, dbg_id(42, 0x0000_7ffe_1000_0000, 1, "a.pdb"));
    run(&mut engine, image_load(1150, 42, 0x0000_7ffe_1000_0000, 0x1000, "\\a.dll"));
    run(&mut engine, sample_prof(1200, 7));
    run(&mut engine, stack_walk(42, 7, 1200, &USER_STACK));
    let flushed = engine.finish();
    assert_eq!(flushed.len(), 1);
    match &flushed[0] {
        SinkOp::AddSample { frames, .. } => assert_eq!(
            frames,
            &vec![
                ResolvedFrame::Address {
                    address: USER_STACK[2],
                    mode: StackMode::User,
                    return_address: true
                },
                ResolvedFrame::InLibrary {
                    lib: LibraryHandle(0),
                    relative_address: 0x1ff,
                    mode: StackMode::User,
                    jit_symbol: None,
                },
                ResolvedFrame::InLibrary {
                    lib: LibraryHandle(0),
                    relative_address: 0x10,
                    mode: StackMode::User,
                    jit_symbol: None,
                },
            ]
        ),
        other => panic!("not a sample: {:?}", other),
    }
}

#[test]
fn method_loads_of_processes_that_are_not_enrolled_are_ignored() {
    let mut engine = started();
    assert!(run(&mut engine, method_load(1150, 43, "alpha", 0x5000, 0x100)).is_empty());
    assert_eq!(engine.jit.len(), 0);
}

#[test]
fn the_cursor_of_jit_code_stops_at_the_largest_address() {
    let mut engine = started();
    run(&mut engine, method_load(1150, 42, "big", 0x5000, 0x1_0000_0000));
    run(&mut engine, method_load(1160, 42, "next", 0x9000, 0x10));
    let jit = &engine.jit.entries[0].value;
    assert_eq!(jit.next_relative_address, u32::MAX);
    assert_eq!(jit.symbols[0].size, Some(u32::MAX));
    assert_eq!(jit.symbols[1].address, u32::MAX);
}

#[test]
fn a_stack_walk_before_any_trigger_is_dropped() {
    let mut engine = started();
    assert!(run(&mut engine, stack_walk(42, 7, 1200, &USER_STACK)).is_empty());
    assert!(run(&mut engine, stack_walk(42, 7, 1200, &KERNEL_STACK)).is_empty());
    assert!(samples_of(&engine, 42).is_empty());
    assert_eq!(engine.threads.entries[0].value.pending_stacks.len(), 0);
}

#[test]
fn a_stack_walk_without_addresses_changes_nothing() {
    let mut engine = started();
    run(&mut engine, sample_prof(1200, 7));
    let mut walk = stack_walk(42, 7, 1200, &[]);
    walk.data = vec![1, 2, 3, 4, 5, 6, 7];
    assert!(run(&mut engine, walk).is_empty());
    assert_eq!(engine.threads.entries[0].value.pending_stacks.len(), 1);
}

#[test]
fn a_stack_walk_enrolls_its_thread() {
    let mut engine = started();
    let ops = run(&mut engine, stack_walk(42, 9, 1200, &USER_STACK));
    assert_eq!(
        ops,
        vec![SinkOp::AddThread {
            thread: ThreadHandle(1),
            process: ProcessHandle(0),
            tid: 9,
            start_time: at(0),
            is_main: false,
        }]
    );
    assert_eq!(engine.threads.len(), 2);
    assert!(run(&mut engine, stack_walk(43, 11, 1200, &USER_STACK)).is_empty());
    assert_eq!(engine.threads.len(), 2);
}

#[test]
fn one_user_stack_completes_a_switch_in_and_a_sample() {
    let mut engine = started();
    run(&mut engine, collection_start(100));
    run(&mut engine, cswitch(1300, 0, 7));
    run(&mut engine, cswitch(1900, 7, 0));
    run(&mut engine, sample_prof(1900, 7));
    assert_eq!(engine.threads.entries[0].value.pending_stacks.len(), 2);
    run(&mut engine, stack_walk(42, 7, 1900, &KERNEL_STACK));
    run(&mut engine, stack_walk(42, 7, 1900, &USER_STACK));
    let samples = samples_of(&engine, 42);
    assert_eq!(samples.len(), 3);
    assert_eq!(leaf_first(&engine, &samples[0]), user_frames());
    assert_eq!(leaf_first(&engine, &samples[1]), user_frames());
    // The kernel stack went to the newest trigger of its time, the sample.
    assert_eq!(leaf_first(&engine, &samples[2]).len(), 5);
}

#[test]
fn events_without_their_fields_are_malformed() {
    let mut engine = started();
    let before = engine.counters;
    let bad = event("MSNT_SystemTrace/PerfInfo/SampleProf", 1200, vec![u64_field("ThreadId", 7)]);
    assert_eq!(engine.handle_event(&bad), Err(EventError::Malformed));
    assert_eq!(engine.counters.event_count, before.event_count + 1);
    assert_eq!(engine.counters.dropped_sample_count, before.dropped_sample_count + 1);
    assert_eq!(engine.counters.sample_count, before.sample_count);
    let bad = event("MSNT_SystemTrace/Thread/CSwitch", 1200, vec![u32_field("NewThreadId", 7)]);
    assert_eq!(engine.handle_event(&bad), Err(EventError::Malformed));
    let bad = event("MSNT_SystemTrace/StackWalk/Stack", 1200, vec![]);
    assert_eq!(engine.handle_event(&bad), Err(EventError::Malformed));
    assert_eq!(engine.handle_event(&header(1000, 0, 1)), Err(EventError::Malformed));
    assert_eq!(engine.timestamp_converter.raw_to_ns_factor, 100);
    // The trace can be read on.
    assert!(run(&mut engine, sample_prof(1200, 7)).is_empty());
    assert_eq!(engine.threads.entries[0].value.pending_stacks.len(), 1);
}

#[test]
fn the_first_field_of_a_name_counts() {
    let mut engine = started();
    let twice = event(
        "MSNT_SystemTrace/PerfInfo/SampleProf",
        1200,
        vec![u32_field("ThreadId", 7), u32_field("ThreadId", 9)],
    );
    run(&mut engine, twice);
    assert_eq!(engine.threads.entries[0].value.pending_stacks.len(), 1);
    assert_eq!(engine.counters.dropped_sample_count, 0);
}

#[test]
fn samples_of_threads_that_are_not_followed_are_dropped() {
    let mut engine = started();
    assert!(run(&mut engine, sample_prof(1200, 99)).is_empty());
    assert_eq!(engine.counters.sample_count, 1);
    assert_eq!(engine.counters.dropped_sample_count, 1);
    assert_eq!(engine.threads.len(), 1);
}

#[test]
fn page_faults_are_samples_when_asked_for() {
    let mut fault = event("MSNT_SystemTrace/PageFault/DemandZeroFault", 1200, vec![]);
    fault.thread_id = 7;
    let mut engine = started();
    run(&mut engine, fault.clone());
    assert_eq!(engine.counters.sample_count, 0);
    assert_eq!(engine.threads.entries[0].value.pending_stacks.len(), 0);

    let mut asked = settings();
    asked.demand_zero_faults = true;
    let (mut engine, _) = Engine::new(asked, HashSet::from([42]));
    run(&mut engine, header(1000, 10_000_000, 1));
    run(&mut engine, thread_start(1100, 42, 7, None));
    run(&mut engine, fault);
    assert_eq!(engine.counters.sample_count, 1);
    run(&mut engine, stack_walk(42, 7, 1200, &USER_STACK));
    let samples = samples_of(&engine, 42);
    assert_eq!(samples.len(), 1);
    assert_eq!(samples[0].cpu_delta, CpuDelta::from_micros(1000));
    assert_eq!(samples[0].weight, 1);
}

#[test]
fn processes_are_followed_by_name() {
    let mut by_name = settings();
    by_name.process_target_name = Some("firefox".to_string());
    let (mut engine, _) = Engine::new(by_name, HashSet::new());
    let start = |pid: u32, image: &str| {
        event(
            "MSNT_SystemTrace/Process/Start",
            1050,
            vec![text_field("ImageFileName", image), u32_field("ProcessId", pid)],
        )
    };
    assert!(run(&mut engine, start(10, "chrome.exe")).is_empty());
    assert!(engine.process_targets.is_empty());
    let ops = run(&mut engine, start(11, "firefox.exe"));
    assert_eq!(
        ops,
        vec![SinkOp::AddProcess {
            process: ProcessHandle(0),
            name: "firefox.exe".to_string(),
            pid: 11,
            start_time: at(1050),
        }]
    );
    assert_eq!(engine.process_targets, HashSet::from([11]));
    assert!(run(&mut engine, thread_start(1100, 10, 1, None)).is_empty());
    assert_eq!(run(&mut engine, thread_start(1100, 11, 2, None)).len(), 1);
    // A second start of the process enrolls it afresh.
    let ops = run(&mut engine, start(11, "firefox.exe"));
    assert_eq!(ops.len(), 1);
    assert_eq!(engine.processes.len(), 1);
    assert_eq!(engine.processes.entries[0].value.process_handle, ProcessHandle(1));
    assert_eq!(engine.processes.entries[0].value.main_thread_handle, None);
    assert_eq!(engine.process_targets, HashSet::from([11]));
}

#[test]
fn thread_names_are_set() {
    let mut engine = started();
    let set_name = |pid: u32, tid: u32, name: &str| {
        event(
            "MSNT_SystemTrace/Thread/SetName",
            1300,
            vec![u32_field("ProcessId", pid), u32_field("ThreadId", tid), text_field("ThreadName", name)],
        )
    };
    assert_eq!(
        run(&mut engine, set_name(42, 7, "GeckoMain")),
        vec![SinkOp::SetThreadName { thread: ThreadHandle(0), name: "GeckoMain".to_string() }]
    );
    assert_eq!(engine.threads.entries[0].value.merge_name, Some("GeckoMain".to_string()));
    let ops = run(&mut engine, set_name(42, 8, "Worker"));
    assert_eq!(ops.len(), 2);
    assert_eq!(
        ops[1],
        SinkOp::SetThreadName { thread: ThreadHandle(1), name: "Worker".to_string() }
    );
    assert!(run(&mut engine, set_name(43, 9, "Other")).is_empty());
    assert_eq!(engine.threads.len(), 2);
    // A start with an empty name names nothing.
    let ops = run(&mut engine, thread_start(1400, 42, 12, Some("")));
    assert_eq!(ops.len(), 1);
    assert_eq!(engine.threads.entries[2].value.merge_name, None);
}

#[test]
fn merged_threads_share_one_thread_and_label_their_samples() {
    let mut merged = settings();
    merged.merge_threads = true;
    merged.include_idle = true;
    let (mut engine, ops) = Engine::new(merged, HashSet::from([42]));
    assert_eq!(
        ops,
        vec![
            SinkOp::AddProcess {
                process: ProcessHandle(0),
                name: "All processes".to_string(),
                pid: 1,
                start_time: at(0),
            },
            SinkOp::AddThread {
                thread: ThreadHandle(0),
                process: ProcessHandle(0),
                tid: 1,
                start_time: at(0),
                is_main: true,
            },
        ]
    );
    run(&mut engine, header(1000, 10_000_000, 1));
    assert!(run(&mut engine, thread_start(1100, 42, 7, Some("DOM Worker #3"))).is_empty());
    assert!(run(&mut engine, thread_start(1100, 42, 8, None)).is_empty());
    assert_eq!(engine.threads.entries[0].value.handle, ThreadHandle(0));
    assert_eq!(engine.processes.len(), 0);
    run(&mut engine, sample_prof(1200, 7));
    run(&mut engine, sample_prof(1201, 8));
    let ops = run(&mut engine, stack_walk(42, 7, 1200, &USER_STACK));
    assert_eq!(
        ops,
        vec![SinkOp::InternString { string: StringHandle(0), text: "DOM Worker".to_string() }]
    );
    let ops = run(&mut engine, stack_walk(42, 8, 1201, &USER_STACK));
    assert_eq!(
        ops,
        vec![SinkOp::InternString { string: StringHandle(1), text: "thread 8".to_string() }]
    );
    run(&mut engine, sample_prof(1300, 7));
    assert!(run(&mut engine, stack_walk(42, 7, 1300, &USER_STACK)).is_empty());
    let samples = samples_of(&engine, 42);
    assert_eq!(samples.len(), 3);
    assert_eq!(samples[0].extra_label, Some(StringHandle(0)));
    assert_eq!(samples[1].extra_label, Some(StringHandle(1)));
    assert_eq!(samples[2].extra_label, Some(StringHandle(0)));
    assert_eq!(samples[0].thread_handle, ThreadHandle(0));
    assert_eq!(engine.processes.entries[0].value.process_handle, ProcessHandle(0));

    // A sample of a thread that is not followed is shown as idle time.
    let ops = run(&mut engine, sample_prof(1400, 0));
    assert_eq!(
        ops,
        vec![
            SinkOp::InternString { string: StringHandle(2), text: "Idle".to_string() },
            SinkOp::AddSample {
                thread: ThreadHandle(0),
                timestamp: at(40_000),
                frames: vec![ResolvedFrame::Label(StringHandle(2))],
                cpu_delta: CpuDelta::ZERO,
                weight: 1,
            },
        ]
    );
    let ops = run(&mut engine, sample_prof(1500, 555));
    assert_eq!(ops.len(), 2);
    assert_eq!(ops[0], SinkOp::InternString { string: StringHandle(3), text: "Other".to_string() });
    assert_eq!(run(&mut engine, sample_prof(1600, 0)).len(), 1);
    assert_eq!(engine.counters.dropped_sample_count, 3);

    let flushed = engine.finish();
    assert_eq!(flushed.len(), 3);
    match &flushed[0] {
        SinkOp::AddSample { frames, .. } => {
            assert_eq!(frames.len(), 4);
            assert_eq!(frames[0], ResolvedFrame::Label(StringHandle(0)));
        }
        other => panic!("not a sample: {:?}", other),
    }
}

#[test]
fn running_the_engine_twice_gives_the_same_operations() {
    let trace = || {
        vec![
            header(1000, 10_000_000, 1),
            thread_start(1100, 42, 7, Some("main")),
            image_id(42, 0x0000_7ffe_1000_0000, 0x1000, 1, "a.dll"),
            dbg_id(42, 0x0000_7ffe_1000_0000, 1, "a.pdb"),
            image_load(1150, 42, 0x0000_7ffe_1000_0000, 0x1000, "\\a.dll"),
            method_load(1160, 42, "f", 0x5000, 0x10),
            collection_start(100),
            sample_prof(1200, 7),
            stack_walk(42, 7, 1200, &KERNEL_STACK),
            stack_walk(42, 7, 1200, &USER_STACK),
            cswitch(1300, 0, 7),
            cswitch(1900, 7, 0),
            sample_prof(2000, 7),
            stack_walk(42, 7, 2000, &[0x5001, USER_STACK[1]]),
        ]
    };
    let play = || {
        let mut engine = engine_for(42);
        let mut ops: Vec<SinkOp> = Vec::new();
        for event in trace() {
            ops.extend(run(&mut engine, event));
        }
        ops.extend(engine.finish());
        ops
    };
    let first = play();
    assert_eq!(first, play());
    assert_eq!(first.len(), 3 + 1 + 2 + 1 + 5);
}

#[test]
fn unread_events_are_counted() {
    let mut engine = engine_for(42);
    engine.note_unread_event();
    engine.note_unread_event();
    assert_eq!(engine.counters.event_count, 2);
    assert!(engine.is_targeted(42));
    assert!(!engine.is_targeted(0));
}

#[test]
fn triggers_that_wait_too_long_are_pruned() {
    let mut windowed = settings();
    windowed.pending_window = Some(500);
    let (mut engine, _) = Engine::new(windowed, HashSet::from([42]));
    run(&mut engine, header(1000, 10_000_000, 1));
    run(&mut engine, thread_start(1100, 42, 7, None));
    run(&mut engine, sample_prof(1200, 7));
    run(&mut engine, sample_prof(1600, 7));
    run(&mut engine, sample_prof(1700, 7));
    assert_eq!(engine.threads.entries[0].value.pending_stacks.len(), 3);
    run(&mut engine, sample_prof(1701, 7));
    assert_eq!(engine.threads.entries[0].value.pending_stacks.len(), 3);
    // The stack of the pruned trigger finds nothing.
    run(&mut engine, stack_walk(42, 7, 1200, &USER_STACK));
    assert!(samples_of_or_none(&engine, 42).is_empty());
    run(&mut engine, stack_walk(42, 7, 1701, &USER_STACK));
    let samples = samples_of(&engine, 42);
    assert_eq!(samples.len(), 3);
    assert_eq!(samples[0].timestamp_raw, 1600);
}

fn samples_of_or_none(engine: &Engine, pid: u32) -> Vec<UnresolvedSample> {
    match engine.processes.find(pid as u64) {
        Some(at) => engine.processes.entries[at].value.unresolved_samples.clone(),
        None => Vec::new(),
    }
}

#[test]
fn a_second_kernel_stack_gives_a_notice() {
    let mut engine = started();
    run(&mut engine, sample_prof(1200, 7));
    run(&mut engine, stack_walk(42, 7, 1200, &KERNEL_STACK));
    assert!(engine.notices.is_empty());
    run(&mut engine, stack_walk(42, 7, 1200, &[0xffff_f802_0000_0000]));
    assert_eq!(engine.notices, vec![Notice::RepeatedKernelStack { timestamp: 1200, thread_id: 7 }]);
    // A kernel stack without a trigger is dropped without a notice.
    run(&mut engine, stack_walk(42, 7, 1300, &KERNEL_STACK));
    assert_eq!(engine.take_notices().len(), 1);
    assert!(engine.notices.is_empty());
    assert!(engine.take_notices().is_empty());
    run(&mut engine, stack_walk(42, 7, 1200, &USER_STACK));
    let samples = samples_of(&engine, 42);
    assert_eq!(leaf_first(&engine, &samples[0]).len(), 6);
}

#[test]
fn the_header_gives_notices_of_lost_events_and_of_the_clock() {
    let mut engine = engine_for(42);
    run(&mut engine, header(1000, 10_000_000, 1));
    assert!(engine.take_notices().is_empty());
    let mut lossy = header(1000, 10_000_000, 2);
    lossy.fields[3] = u32_field("EventsLost", 17);
    run(&mut engine, lossy);
    assert_eq!(
        engine.take_notices(),
        vec![Notice::ClockIsNotPerformanceCounter, Notice::EventsLost { count: 17 }]
    );
    let mut lossy = header(1000, 10_000_000, 1);
    lossy.fields[3] = u32_field("EventsLost", 1);
    run(&mut engine, lossy);
    assert_eq!(engine.take_notices(), vec![Notice::EventsLost { count: 1 }]);
}

#[test]
fn method_addresses_are_read_at_the_width_of_the_process() {
    let load = |address: FieldValue, is_64bit: bool| {
        let mut e = event(
            "V8.js/MethodLoad/",
            1150,
            vec![
                text_field("MethodName", "f"),
                field("MethodStartAddress", address),
                u64_field("MethodSize", 0x10),
            ],
        );
        e.process_id = 42;
        e.is_64bit = is_64bit;
        e
    };
    let mut engine = started();
    for address in [FieldValue::Pointer(0x5000), FieldValue::U64(0x5000), FieldValue::Hex64(0x5000)] {
        assert!(engine.handle_event(&load(address, true)).is_ok());
    }
    for address in [FieldValue::U32(0x5000), FieldValue::Hex32(0x5000), FieldValue::U16(5)] {
        assert_eq!(engine.handle_event(&load(address, true)), Err(EventError::Malformed));
    }
    for address in [FieldValue::Pointer(0x5000), FieldValue::U32(0x5000), FieldValue::Hex32(0x5000)] {
        assert!(engine.handle_event(&load(address, false)).is_ok());
    }
    for address in [FieldValue::U64(0x5000), FieldValue::Hex64(0x5000)] {
        assert_eq!(engine.handle_event(&load(address, false)), Err(EventError::Malformed));
    }
    assert_eq!(engine.jit.entries[0].value.symbols.len(), 6);
}

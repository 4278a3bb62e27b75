//! What the engine remembers between events.

use crate::context_switch::{ContextSwitchHandler, ThreadContextSwitchData};
use crate::handles::{
    CategoryHandle, CounterHandle, LibraryHandle, ProcessHandle, StringHandle, ThreadHandle,
};
use crate::events::text_view;
use crate::lib_mappings::{LibMappingOpQueue, TimedOp};
use crate::pending_stacks::{PendingStackView, PendingStacks};
use crate::sink::{symbol_views, LibraryInfo, LibraryInfoView, Symbol, SymbolView};
use crate::tables::{new_map, views, NameTable, Table};
use crate::timestamp_converter::TimestampConverter;
use crate::unresolved_stacks::{StackNode, UnresolvedStackHandle, UnresolvedStacks};
use fxprof_processed_profile::{CpuDelta, Timestamp};
use std::collections::{HashMap, HashSet};
use vstd::prelude::*;

verus! {

/// How the engine was asked to work.
#[derive(Debug, Clone)]
pub struct Settings {
    /// Put the samples of all threads on one thread of one process, each
    /// under a label that names the thread it came from.
    pub merge_threads: bool,
    /// With merged threads, keep samples of threads that are not followed,
    /// under the label `Idle` or `Other`.
    pub include_idle: bool,
    /// Count demand-zero page faults as samples.
    pub demand_zero_faults: bool,
    /// Follow every process whose image file name holds this text.
    pub process_target_name: Option<String>,
    /// How long a trigger waits for its stack, in raw ticks: a trigger that
    /// is older than the newest trigger of its thread by more than this is
    /// dropped. Without it triggers wait until the trace ends.
    pub pending_window: Option<u64>,
}

pub struct SettingsView {
    pub merge_threads: bool,
    pub include_idle: bool,
    pub demand_zero_faults: bool,
    pub process_target_name: Option<Seq<char>>,
    pub pending_window: Option<u64>,
}

impl View for Settings {
    type V = SettingsView;

    open spec fn view(&self) -> SettingsView {
        SettingsView {
            merge_threads: self.merge_threads,
            include_idle: self.include_idle,
            demand_zero_faults: self.demand_zero_faults,
            process_target_name: text_view(self.process_target_name),
            pending_window: self.pending_window,
        }
    }
}

/// Counts of what the engine has seen.
#[derive(Debug, Clone, Copy, PartialEq, Eq)]
pub struct Counters {
    pub event_count: u64,
    pub sample_count: u64,
    pub stack_sample_count: u64,
    pub dropped_sample_count: u64,
}

/// Something that the engine saw and that whoever runs it may want to
/// tell: the trace can be read on.
#[derive(Debug, Clone, Copy, PartialEq, Eq, Structural)]
pub enum Notice {
    /// The trace header declares another clock than the performance
    /// counter as the clock of the events.
    ClockIsNotPerformanceCounter,
    /// The trace header says that this many events were lost.
    EventsLost { count: u32 },
    /// A trigger got more than one kernel stack; the stacks were put
    /// together.
    RepeatedKernelStack { timestamp: u64, thread_id: u32 },
}

/// The numbers of the handles that the engine gives out next.
#[derive(Debug, Clone, Copy, PartialEq, Eq)]
pub struct NextHandles {
    pub process: usize,
    pub thread: usize,
    pub lib: usize,
    pub category: usize,
    pub counter: usize,
    pub string: usize,
}

/// The begin of an interval marker whose end has not been seen.
#[derive(Debug, Clone)]
pub struct PendingMarker {
    pub text: String,
    pub start: Timestamp,
}

pub struct PendingMarkerView {
    pub text: Seq<char>,
    pub start: Timestamp,
}

impl View for PendingMarker {
    type V = PendingMarkerView;

    open spec fn view(&self) -> PendingMarkerView {
        PendingMarkerView { text: self.text@, start: self.start }
    }
}

pub struct ThreadState {
    /// The thread of the profile that takes this thread's samples and
    /// markers. With merged threads this is the one thread for all.
    pub handle: ThreadHandle,
    /// The thread's name, kept for the label of its samples.
    pub merge_name: Option<String>,
    pub pending_stacks: PendingStacks,
    pub pending_markers: NameTable<PendingMarker>,
    pub context_switch_data: ThreadContextSwitchData,
    pub thread_id: u32,
}

pub struct ThreadView {
    pub handle: ThreadHandle,
    pub merge_name: Option<Seq<char>>,
    pub pending_stacks: Seq<PendingStackView>,
    pub pending_markers: Seq<(Seq<char>, PendingMarkerView)>,
    pub context_switch_data: ThreadContextSwitchData,
    pub thread_id: u32,
}

impl View for ThreadState {
    type V = ThreadView;

    open spec fn view(&self) -> ThreadView {
        ThreadView {
            handle: self.handle,
            merge_name: text_view(self.merge_name),
            pending_stacks: self.pending_stacks@,
            pending_markers: self.pending_markers@,
            context_switch_data: self.context_switch_data,
            thread_id: self.thread_id,
        }
    }
}

/// A thread of which nothing but its handle and its id is known.
pub open spec fn new_thread(handle: ThreadHandle, tid: u32) -> ThreadView {
    ThreadView {
        handle,
        merge_name: None,
        pending_stacks: Seq::empty(),
        pending_markers: Seq::empty(),
        context_switch_data: ThreadContextSwitchData::unknown(),
        thread_id: tid,
    }
}

impl ThreadState {
    pub fn new(handle: ThreadHandle, tid: u32) -> (thread: Self)
        ensures
            thread@ == new_thread(handle, tid),
    {
        ThreadState {
            handle,
            pending_stacks: PendingStacks::new(),
            pending_markers: NameTable::new(),
            context_switch_data: ThreadContextSwitchData::new(),
            merge_name: None,
            thread_id: tid,
        }
    }
}

/// A sample that waits for the end of the trace, when the libraries and
/// the functions made at run time are all known.
#[derive(Debug, Clone, Copy, PartialEq, Eq)]
pub struct UnresolvedSample {
    pub thread_handle: ThreadHandle,
    pub timestamp: Timestamp,
    pub timestamp_raw: u64,
    pub stack: UnresolvedStackHandle,
    pub cpu_delta: CpuDelta,
    pub weight: i32,
    /// The label that names the thread the sample came from, with merged
    /// threads.
    pub extra_label: Option<StringHandle>,
}

pub struct ProcessState {
    pub process_handle: ProcessHandle,
    pub unresolved_samples: Vec<UnresolvedSample>,
    pub regular_lib_mapping_ops: LibMappingOpQueue,
    pub main_thread_handle: Option<ThreadHandle>,
    /// What is known of libraries whose load has not been seen, by the
    /// address of their image.
    pub pending_libraries: HashMap<u64, LibraryInfo>,
}

pub struct ProcessView {
    pub process_handle: ProcessHandle,
    pub unresolved_samples: Seq<UnresolvedSample>,
    pub regular_lib_mapping_ops: Seq<TimedOp>,
    pub main_thread_handle: Option<ThreadHandle>,
    pub pending_libraries: Map<u64, LibraryInfoView>,
}

impl View for ProcessState {
    type V = ProcessView;

    open spec fn view(&self) -> ProcessView {
        ProcessView {
            process_handle: self.process_handle,
            unresolved_samples: self.unresolved_samples@,
            regular_lib_mapping_ops: self.regular_lib_mapping_ops@,
            main_thread_handle: self.main_thread_handle,
            pending_libraries: views(self.pending_libraries@),
        }
    }
}

/// A process of which nothing but its handle is known.
pub open spec fn new_process(handle: ProcessHandle) -> ProcessView {
    ProcessView {
        process_handle: handle,
        unresolved_samples: Seq::empty(),
        regular_lib_mapping_ops: Seq::empty(),
        main_thread_handle: None,
        pending_libraries: Map::empty(),
    }
}

impl ProcessState {
    pub fn new(process_handle: ProcessHandle) -> (process: Self)
        ensures
            process@ == new_process(process_handle),
    {
        ProcessState {
            process_handle,
            unresolved_samples: Vec::new(),
            regular_lib_mapping_ops: LibMappingOpQueue::new(),
            main_thread_handle: None,
            pending_libraries: new_map(),
        }
    }
}

/// The code that one process made at run time.
pub struct ProcessJitInfo {
    /// The library that stands for all of it.
    pub lib_handle: LibraryHandle,
    pub jit_mapping_ops: LibMappingOpQueue,
    /// Where the next function goes, relative to the library.
    pub next_relative_address: u32,
    pub symbols: Vec<Symbol>,
}

pub struct JitView {
    pub lib_handle: LibraryHandle,
    pub jit_mapping_ops: Seq<TimedOp>,
    pub next_relative_address: u32,
    pub symbols: Seq<SymbolView>,
}

impl View for ProcessJitInfo {
    type V = JitView;

    open spec fn view(&self) -> JitView {
        JitView {
            lib_handle: self.lib_handle,
            jit_mapping_ops: self.jit_mapping_ops@,
            next_relative_address: self.next_relative_address,
            symbols: symbol_views(self.symbols@),
        }
    }
}

/// What an image id event said of an image.
#[derive(Debug, Clone)]
pub struct ImageInfo {
    pub path: String,
    pub image_size: u32,
    pub timestamp: u32,
}

pub struct ImageView {
    pub path: Seq<char>,
    pub image_size: u32,
    pub timestamp: u32,
}

impl View for ImageInfo {
    type V = ImageView;

    open spec fn view(&self) -> ImageView {
        ImageView { path: self.path@, image_size: self.image_size, timestamp: self.timestamp }
    }
}

/// The whole state of the engine.
pub struct Engine {
    pub settings: Settings,
    /// The ids of the processes that are followed.
    pub process_targets: HashSet<u32>,
    pub timestamp_converter: TimestampConverter,
    /// Whether the trace header declared the performance counter as the
    /// clock of the events.
    pub event_timestamps_are_qpc: bool,
    /// The resolution of the hardware timer, in units of 100 nanoseconds.
    pub timer_resolution: u32,
    pub context_switch_handler: ContextSwitchHandler,
    pub threads: Table<ThreadState>,
    pub processes: Table<ProcessState>,
    /// What is known of libraries of the kernel whose load has not been
    /// seen, by the address of their image.
    pub kernel_pending_libraries: HashMap<u64, LibraryInfo>,
    /// What the image id events said, by the address of the image.
    pub libs: HashMap<u64, ImageInfo>,
    /// The counters of the memory of the processes, by process id.
    pub memory_usage: HashMap<u64, CounterHandle>,
    pub jit: Table<ProcessJitInfo>,
    pub categories: NameTable<CategoryHandle>,
    pub labels: NameTable<StringHandle>,
    pub gpu_thread: Option<ThreadHandle>,
    pub global_thread: Option<ThreadHandle>,
    pub global_process: Option<ProcessHandle>,
    pub unresolved_stacks: UnresolvedStacks,
    pub counters: Counters,
    pub next: NextHandles,
    /// The notices that have not been taken yet, the oldest first.
    pub notices: Vec<Notice>,
}

pub struct EngineView {
    pub settings: SettingsView,
    pub process_targets: Set<u32>,
    pub timestamp_converter: TimestampConverter,
    pub event_timestamps_are_qpc: bool,
    pub timer_resolution: u32,
    pub context_switch_handler: ContextSwitchHandler,
    pub threads: Seq<(u64, ThreadView)>,
    pub processes: Seq<(u64, ProcessView)>,
    pub kernel_pending_libraries: Map<u64, LibraryInfoView>,
    pub libs: Map<u64, ImageView>,
    pub memory_usage: Map<u64, CounterHandle>,
    pub jit: Seq<(u64, JitView)>,
    pub categories: Seq<(Seq<char>, CategoryHandle)>,
    pub labels: Seq<(Seq<char>, StringHandle)>,
    pub gpu_thread: Option<ThreadHandle>,
    pub global_thread: Option<ThreadHandle>,
    pub global_process: Option<ProcessHandle>,
    pub unresolved_stacks: Seq<StackNode>,
    pub counters: Counters,
    pub next: NextHandles,
    pub notices: Seq<Notice>,
}

impl View for Engine {
    type V = EngineView;

    open spec fn view(&self) -> EngineView {
        EngineView {
            settings: self.settings@,
            process_targets: self.process_targets@,
            timestamp_converter: self.timestamp_converter,
            event_timestamps_are_qpc: self.event_timestamps_are_qpc,
            timer_resolution: self.timer_resolution,
            context_switch_handler: self.context_switch_handler,
            threads: self.threads@,
            processes: self.processes@,
            kernel_pending_libraries: views(self.kernel_pending_libraries@),
            libs: views(self.libs@),
            memory_usage: views(self.memory_usage@),
            jit: self.jit@,
            categories: self.categories@,
            labels: self.labels@,
            gpu_thread: self.gpu_thread,
            global_thread: self.global_thread,
            global_process: self.global_process,
            unresolved_stacks: self.unresolved_stacks@,
            counters: self.counters,
            next: self.next,
            notices: self.notices@,
        }
    }
}

/// `n + 1`, limited to the largest number.
pub open spec fn next_count(n: u64) -> u64 {
    if n == u64::MAX {
        n
    } else {
        (n + 1) as u64
    }
}

/// `n + 1`, limited to the largest number.
pub open spec fn next_handle(n: usize) -> usize {
    if n == usize::MAX {
        n
    } else {
        (n + 1) as usize
    }
}

pub fn count_up(n: u64) -> (m: u64)
    ensures
        m == next_count(n),
{
    n.saturating_add(1)
}

pub fn handle_up(n: usize) -> (m: usize)
    ensures
        m == next_handle(n),
{
    n.saturating_add(1)
}

} // verus!

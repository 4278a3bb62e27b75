//! The operations that the engine asks of the profile, in the order in
//! which it asks them.

use crate::handles::{
    CategoryHandle, CounterHandle, LibraryHandle, ProcessHandle, StringHandle, ThreadHandle,
};
use crate::types::StackMode;
use debugid::DebugId;
use fxprof_processed_profile::{CpuDelta, Timestamp};
use uuid::Uuid;
use vstd::prelude::*;

verus! {

/// `debugid::DebugId`, carried through as it is.
#[verifier::external_type_specification]
#[verifier::external_body]
pub struct ExDebugId(DebugId);

/// The debug id of the file whose GUID has the given four parts and whose
/// age is `age`.
pub uninterp spec fn debug_id_of(data1: u32, data2: u16, data3: u16, data4: Seq<u8>, age: u32)
    -> DebugId;

/// `Uuid::from_fields` lays the four parts of a GUID out as sixteen bytes,
/// and `DebugId::from_parts` pairs those bytes with the age. Both depend on
/// their arguments alone; the contract gives the result its name and claims
/// nothing else.
#[verifier::external_body]
pub(crate) fn debug_id_from_guid(data1: u32, data2: u16, data3: u16, data4: &[u8; 8], age: u32) -> (id:
    DebugId)
    ensures
        id == debug_id_of(data1, data2, data3, data4@, age),
{
    DebugId::from_parts(Uuid::from_fields(data1, data2, data3, data4), age)
}

/// `DebugId` is `Copy`, and its `clone` is the derived one: the copy
/// equals the value it was made from.
pub assume_specification[ <DebugId as Clone>::clone ](id: &DebugId) -> (copy: DebugId)
    ensures
        copy == *id,
;

/// What is known of a library.
#[derive(Debug, Clone, PartialEq, Eq)]
pub struct LibraryInfo {
    pub name: String,
    pub debug_name: String,
    pub path: String,
    pub debug_path: String,
    pub code_id: Option<String>,
    pub debug_id: DebugId,
    pub arch: Option<String>,
}

/// One symbol of a library: a name for the addresses from `address` on,
/// relative to the library.
#[derive(Debug, Clone, PartialEq, Eq)]
pub struct Symbol {
    pub address: u32,
    pub size: Option<u32>,
    pub name: String,
}

/// When a marker happened.
#[derive(Debug, Clone, Copy, PartialEq, Eq)]
pub enum MarkerTiming {
    Instant(Timestamp),
    Interval(Timestamp, Timestamp),
    IntervalStart(Timestamp),
    IntervalEnd(Timestamp),
}

/// A marker with some text content.
#[derive(Debug, Clone, PartialEq, Eq)]
pub struct TextMarker(pub String);

/// What a marker shows.
#[derive(Debug, Clone, PartialEq, Eq)]
pub enum MarkerPayload {
    Text(TextMarker),
    /// A mark or measure of the User Timing API, with its name.
    UserTiming(String),
    /// A function that a JIT compiler made, with its name.
    JitFunctionAdd(String),
    /// A vertical sync of the display.
    VSync,
}

/// The category under which a marker is filed.
#[derive(Debug, Clone, Copy, PartialEq, Eq, Structural)]
pub enum MarkerCategory {
    /// The profile's own category for everything else.
    Other,
    /// A category that the engine added.
    Added(CategoryHandle),
}

/// The counters that the engine adds.
#[derive(Debug, Clone, Copy, PartialEq, Eq, Structural)]
pub enum CounterKind {
    /// Memory that the process holds by `VirtualAlloc`.
    VirtualAlloc,
}

/// One frame of a sample as the profile takes it.
#[derive(Debug, Clone, Copy, PartialEq, Eq, Structural)]
pub enum ResolvedFrame {
    /// A label in place of code.
    Label(StringHandle),
    /// An address that no mapping of the process holds; the profile may
    /// know it from a mapping of the kernel. The address is the frame's
    /// own, and `return_address` says whether it is a return address.
    Address { address: u64, mode: StackMode, return_address: bool },
    /// An address inside a library. `relative_address` is the address in
    /// the library of the instruction that the frame stands for: for a
    /// return address, the byte before it. `jit_symbol` is the place of the
    /// function in the symbol table of the library, for code made at run
    /// time.
    InLibrary { lib: LibraryHandle, relative_address: u32, mode: StackMode, jit_symbol: Option<u32> },
}

/// One operation on the profile.
#[allow(inconsistent_fields)]
#[derive(Debug, Clone, PartialEq, Eq)]
pub enum SinkOp {
    SetInterval { nanos: u64 },
    AddProcess { process: ProcessHandle, name: String, pid: u32, start_time: Timestamp },
    AddThread {
        thread: ThreadHandle,
        process: ProcessHandle,
        tid: u32,
        start_time: Timestamp,
        is_main: bool,
    },
    SetThreadName { thread: ThreadHandle, name: String },
    SetThreadEndTime { thread: ThreadHandle, end_time: Timestamp },
    AddLib { lib: LibraryHandle, info: LibraryInfo },
    AddKernelLibMapping {
        lib: LibraryHandle,
        start_avma: u64,
        end_avma: u64,
        relative_address_at_start: u32,
    },
    SetLibSymbolTable { lib: LibraryHandle, symbols: Vec<Symbol> },
    AddCounter { counter: CounterHandle, process: ProcessHandle, kind: CounterKind },
    /// The counter went up by `amount`, or down if `freed`.
    AddCounterSample { counter: CounterHandle, timestamp: Timestamp, amount: u64, freed: bool },
    /// A category named after a provider.
    AddCategory { category: CategoryHandle, name: String },
    AddMarker {
        thread: ThreadHandle,
        category: MarkerCategory,
        name: String,
        payload: MarkerPayload,
        timing: MarkerTiming,
    },
    InternString { string: StringHandle, text: String },
    /// A sample with its frames, the outermost first.
    AddSample {
        thread: ThreadHandle,
        timestamp: Timestamp,
        frames: Vec<ResolvedFrame>,
        cpu_delta: CpuDelta,
        weight: i32,
    },
}

pub struct LibraryInfoView {
    pub name: Seq<char>,
    pub debug_name: Seq<char>,
    pub path: Seq<char>,
    pub debug_path: Seq<char>,
    pub code_id: Option<Seq<char>>,
    pub debug_id: DebugId,
    pub arch: Option<Seq<char>>,
}

impl View for LibraryInfo {
    type V = LibraryInfoView;

    open spec fn view(&self) -> LibraryInfoView {
        LibraryInfoView {
            name: self.name@,
            debug_name: self.debug_name@,
            path: self.path@,
            debug_path: self.debug_path@,
            code_id: match self.code_id {
                Some(id) => Some(id@),
                None => None,
            },
            debug_id: self.debug_id,
            arch: match self.arch {
                Some(arch) => Some(arch@),
                None => None,
            },
        }
    }
}

pub struct SymbolView {
    pub address: u32,
    pub size: Option<u32>,
    pub name: Seq<char>,
}

impl View for Symbol {
    type V = SymbolView;

    open spec fn view(&self) -> SymbolView {
        SymbolView { address: self.address, size: self.size, name: self.name@ }
    }
}

/// The views of a sequence of symbols.
pub open spec fn symbol_views(symbols: Seq<Symbol>) -> Seq<SymbolView> {
    symbols.map_values(|s: Symbol| s@)
}

pub enum MarkerPayloadView {
    Text(Seq<char>),
    UserTiming(Seq<char>),
    JitFunctionAdd(Seq<char>),
    VSync,
}

impl View for MarkerPayload {
    type V = MarkerPayloadView;

    open spec fn view(&self) -> MarkerPayloadView {
        match self {
            MarkerPayload::Text(marker) => MarkerPayloadView::Text(marker.0@),
            MarkerPayload::UserTiming(name) => MarkerPayloadView::UserTiming(name@),
            MarkerPayload::JitFunctionAdd(name) => MarkerPayloadView::JitFunctionAdd(name@),
            MarkerPayload::VSync => MarkerPayloadView::VSync,
        }
    }
}

#[allow(inconsistent_fields)]
pub enum SinkOpView {
    SetInterval { nanos: u64 },
    AddProcess { process: ProcessHandle, name: Seq<char>, pid: u32, start_time: Timestamp },
    AddThread {
        thread: ThreadHandle,
        process: ProcessHandle,
        tid: u32,
        start_time: Timestamp,
        is_main: bool,
    },
    SetThreadName { thread: ThreadHandle, name: Seq<char> },
    SetThreadEndTime { thread: ThreadHandle, end_time: Timestamp },
    AddLib { lib: LibraryHandle, info: LibraryInfoView },
    AddKernelLibMapping {
        lib: LibraryHandle,
        start_avma: u64,
        end_avma: u64,
        relative_address_at_start: u32,
    },
    SetLibSymbolTable { lib: LibraryHandle, symbols: Seq<SymbolView> },
    AddCounter { counter: CounterHandle, process: ProcessHandle, kind: CounterKind },
    AddCounterSample { counter: CounterHandle, timestamp: Timestamp, amount: u64, freed: bool },
    AddCategory { category: CategoryHandle, name: Seq<char> },
    AddMarker {
        thread: ThreadHandle,
        category: MarkerCategory,
        name: Seq<char>,
        payload: MarkerPayloadView,
        timing: MarkerTiming,
    },
    InternString { string: StringHandle, text: Seq<char> },
    AddSample {
        thread: ThreadHandle,
        timestamp: Timestamp,
        frames: Seq<ResolvedFrame>,
        cpu_delta: CpuDelta,
        weight: i32,
    },
}

impl View for SinkOp {
    type V = SinkOpView;

    open spec fn view(&self) -> SinkOpView {
        match self {
            SinkOp::SetInterval { nanos } => SinkOpView::SetInterval { nanos: *nanos },
            SinkOp::AddProcess { process, name, pid, start_time } => SinkOpView::AddProcess {
                process: *process,
                name: name@,
                pid: *pid,
                start_time: *start_time,
            },
            SinkOp::AddThread { thread, process, tid, start_time, is_main } => SinkOpView::AddThread {
                thread: *thread,
                process: *process,
                tid: *tid,
                start_time: *start_time,
                is_main: *is_main,
            },
            SinkOp::SetThreadName { thread, name } => SinkOpView::SetThreadName {
                thread: *thread,
                name: name@,
            },
            SinkOp::SetThreadEndTime { thread, end_time } => SinkOpView::SetThreadEndTime {
                thread: *thread,
                end_time: *end_time,
            },
            SinkOp::AddLib { lib, info } => SinkOpView::AddLib { lib: *lib, info: info@ },
            SinkOp::AddKernelLibMapping {
                lib,
                start_avma,
                end_avma,
                relative_address_at_start,
            } => SinkOpView::AddKernelLibMapping {
                lib: *lib,
                start_avma: *start_avma,
                end_avma: *end_avma,
                relative_address_at_start: *relative_address_at_start,
            },
            SinkOp::SetLibSymbolTable { lib, symbols } => SinkOpView::SetLibSymbolTable {
                lib: *lib,
                symbols: symbol_views(symbols@),
            },
            SinkOp::AddCounter { counter, process, kind } => SinkOpView::AddCounter {
                counter: *counter,
                process: *process,
                kind: *kind,
            },
            SinkOp::AddCounterSample { counter, timestamp, amount, freed } => {
                SinkOpView::AddCounterSample {
                    counter: *counter,
                    timestamp: *timestamp,
                    amount: *amount,
                    freed: *freed,
                }
            },
            SinkOp::AddCategory { category, name } => SinkOpView::AddCategory {
                category: *category,
                name: name@,
            },
            SinkOp::AddMarker { thread, category, name, payload, timing } => SinkOpView::AddMarker {
                thread: *thread,
                category: *category,
                name: name@,
                payload: payload@,
                timing: *timing,
            },
            SinkOp::InternString { string, text } => SinkOpView::InternString {
                string: *string,
                text: text@,
            },
            SinkOp::AddSample { thread, timestamp, frames, cpu_delta, weight } => {
                SinkOpView::AddSample {
                    thread: *thread,
                    timestamp: *timestamp,
                    frames: frames@,
                    cpu_delta: *cpu_delta,
                    weight: *weight,
                }
            },
        }
    }
}

/// The views of a sequence of operations.
pub open spec fn op_views(ops: Seq<SinkOp>) -> Seq<SinkOpView> {
    ops.map_values(|op: SinkOp| op@)
}

/// Pushing an operation pushes its view.
pub proof fn lemma_op_views_push(ops: Seq<SinkOp>, op: SinkOp)
    ensures
        op_views(ops.push(op)) == op_views(ops).push(op@),
{
    assert(op_views(ops.push(op)) =~= op_views(ops).push(op@));
}

} // verus!

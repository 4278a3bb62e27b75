//! Code that a process makes at run time.
//!
//! Each process gets one library that stands for all the functions its
//! JIT compilers make. A function takes the next free range of that
//! library, and its name goes to the library's symbol table.

use crate::context_switch::capped_sum;
use crate::engine::Step;
use crate::handles::LibraryHandle;
use crate::lib_mappings::{
    LibMappingAdd, LibMappingInfo, LibMappingOp, LibMappingOpQueue, TimedOp,
};
use crate::profile_values::timestamp_at;
use crate::sink::{
    debug_id_from_guid, debug_id_of, lemma_op_views_push, op_views, LibraryInfo,
    LibraryInfoView, MarkerCategory, MarkerPayload, MarkerPayloadView, MarkerTiming, SinkOp,
    SinkOpView, Symbol, SymbolView,
};
use crate::state::{
    handle_up, next_handle, Engine, EngineView, JitView, NextHandles, ProcessJitInfo,
};
use crate::tables::{lookup, slot};
use crate::text::{decimal, push_decimal, push_text, string_of};
use vstd::prelude::*;

verus! {

/// The name of the library that stands for the code that the process
/// `pid` makes at run time.
pub open spec fn jit_lib_name(pid: u32) -> Seq<char> {
    "JIT-"@ + decimal(pid as nat)
}

/// What the profile is told of that library.
pub open spec fn jit_library(pid: u32) -> LibraryInfoView {
    LibraryInfoView {
        name: jit_lib_name(pid),
        debug_name: jit_lib_name(pid),
        path: jit_lib_name(pid),
        debug_path: jit_lib_name(pid),
        code_id: None,
        debug_id: debug_id_of(0, 0, 0, seq![0u8, 0u8, 0u8, 0u8, 0u8, 0u8, 0u8, 0u8], 0),
        arch: None,
    }
}

/// The library before its first function.
pub open spec fn new_jit(lib: LibraryHandle) -> JitView {
    JitView {
        lib_handle: lib,
        jit_mapping_ops: Seq::empty(),
        next_relative_address: 0,
        symbols: Seq::empty(),
    }
}

/// Makes the library of the process `pid` if it has none.
pub open spec fn ensure_jit(v: EngineView, pid: u32) -> Step {
    if lookup(v.jit, pid as u64) is Some {
        Step { state: v, ops: Seq::empty() }
    } else {
        Step {
            state: EngineView {
                jit: v.jit.push((pid as u64, new_jit(LibraryHandle(v.next.lib)))),
                next: NextHandles { lib: next_handle(v.next.lib), ..v.next },
                ..v
            },
            ops: seq![SinkOpView::AddLib { lib: LibraryHandle(v.next.lib), info: jit_library(pid) }],
        }
    }
}

/// `n` limited to 32 bits.
pub open spec fn clamp_u32(n: int) -> u32 {
    if n > u32::MAX {
        u32::MAX
    } else if n < 0 {
        0
    } else {
        n as u32
    }
}

/// The library with one more function: it takes the range of its size at
/// the library's cursor, and the cursor moves behind it. The cursor never
/// moves back.
pub open spec fn with_method(
    jit: JitView,
    timestamp: u64,
    name: Seq<char>,
    start_address: u64,
    size: u64,
) -> JitView {
    let relative = jit.next_relative_address;
    JitView {
        next_relative_address: clamp_u32(relative + clamp_u32(size as int)),
        jit_mapping_ops: jit.jit_mapping_ops.push(
            TimedOp {
                timestamp,
                op: LibMappingOp::Add(
                    LibMappingAdd {
                        start_avma: start_address,
                        end_avma: capped_sum(start_address, size),
                        relative_address_at_start: relative,
                        info: LibMappingInfo {
                            lib_handle: jit.lib_handle,
                            jit_symbol: Some(clamp_u32(jit.symbols.len() as int)),
                        },
                    },
                ),
            },
        ),
        symbols: jit.symbols.push(
            SymbolView { address: relative, size: Some(clamp_u32(size as int)), name },
        ),
        ..jit
    }
}

/// A process made a function at run time. Events of a process that is
/// not enrolled are ignored. The main thread of the process, if it has
/// one, gets a marker that shows the function's name.
pub open spec fn method_load(
    v: EngineView,
    timestamp: u64,
    pid: u32,
    name: Seq<char>,
    start_address: u64,
    size: u64,
) -> Step {
    match lookup(v.processes, pid as u64) {
        None => Step { state: v, ops: Seq::empty() },
        Some(p) => {
            let made = ensure_jit(v, pid);
            let w = made.state;
            let j = slot(v.jit, pid as u64);
            Step {
                state: EngineView {
                    jit: w.jit.update(
                        j,
                        (w.jit[j].0, with_method(w.jit[j].1, timestamp, name, start_address, size)),
                    ),
                    ..w
                },
                ops: match v.processes[p].1.main_thread_handle {
                    Some(main_thread) => made.ops.push(
                        SinkOpView::AddMarker {
                            thread: main_thread,
                            category: MarkerCategory::Other,
                            name: "JitFunctionAdd"@,
                            payload: MarkerPayloadView::JitFunctionAdd(name),
                            timing: MarkerTiming::Instant(
                                timestamp_at(v.timestamp_converter.raw_nanos(timestamp)),
                            ),
                        },
                    ),
                    None => made.ops,
                },
            }
        },
    }
}

/// The cursor of a library never moves back.
pub proof fn lemma_cursor_never_moves_back(
    jit: JitView,
    timestamp: u64,
    name: Seq<char>,
    start_address: u64,
    size: u64,
)
    ensures
        with_method(jit, timestamp, name, start_address, size).next_relative_address
            >= jit.next_relative_address,
        with_method(jit, timestamp, name, start_address, size).symbols.last().address
            == jit.next_relative_address,
        jit.next_relative_address + size <= u32::MAX ==> with_method(
            jit,
            timestamp,
            name,
            start_address,
            size,
        ).next_relative_address == jit.next_relative_address + size,
{
}

fn to_u32(n: u64) -> (m: u32)
    ensures
        m == clamp_u32(n as int),
{
    if n > 0xffff_ffff {
        0xffff_ffff
    } else {
        n as u32
    }
}

impl Engine {
    fn ensure_jit(&mut self, pid: u32, ops: &mut Vec<SinkOp>) -> (at: usize)
        requires
            old(self).well_formed(),
        ensures
            final(self).well_formed(),
            final(self)@ == ensure_jit(old(self)@, pid).state,
            op_views(final(ops)@) == op_views(old(ops)@) + ensure_jit(old(self)@, pid).ops,
            at == slot(old(self)@.jit, pid as u64),
            at < final(self).jit.entries@.len(),
    {
        match self.jit.find(pid as u64) {
            Some(at) => {
                assert(op_views(ops@) =~= op_views(old(ops)@) + Seq::<SinkOpView>::empty());
                at
            },
            None => {
                let lib = LibraryHandle(self.next.lib);
                self.next.lib = handle_up(self.next.lib);
                let mut text: Vec<char> = Vec::new();
                push_text(&mut text, "JIT-");
                push_decimal(&mut text, pid as u64);
                let name = string_of(&text);
                assert(name@ =~= jit_lib_name(pid));
                let zeros: [u8; 8] = [0, 0, 0, 0, 0, 0, 0, 0];
                assert(zeros@ =~= seq![0u8, 0u8, 0u8, 0u8, 0u8, 0u8, 0u8, 0u8]);
                let info = LibraryInfo {
                    name: name.clone(),
                    debug_name: name.clone(),
                    path: name.clone(),
                    debug_path: name,
                    debug_id: debug_id_from_guid(0, 0, 0, &zeros, 0),
                    code_id: None,
                    arch: None,
                };
                let op = SinkOp::AddLib { lib, info };
                proof {
                    lemma_op_views_push(ops@, op);
                    assert(op_views(ops@.push(op)) =~= op_views(old(ops)@) + seq![op@]);
                }
                ops.push(op);
                let fresh = ProcessJitInfo {
                    lib_handle: lib,
                    jit_mapping_ops: LibMappingOpQueue::new(),
                    next_relative_address: 0,
                    symbols: Vec::new(),
                };
                proof {
                    assert(fresh@.symbols =~= Seq::<SymbolView>::empty());
                    assert(fresh@ == new_jit(lib));
                }
                self.jit.push(pid as u64, fresh);
                self.jit.entries.len() - 1
            },
        }
    }

    pub fn on_method_load(
        &mut self,
        timestamp: u64,
        pid: u32,
        name: String,
        start_address: u64,
        size: u64,
    ) -> (ops: Vec<SinkOp>)
        requires
            old(self).well_formed(),
        ensures
            final(self).well_formed(),
            final(self)@ == method_load(old(self)@, timestamp, pid, name@, start_address, size).state,
            op_views(ops@) == method_load(
                old(self)@,
                timestamp,
                pid,
                name@,
                start_address,
                size,
            ).ops,
    {
        let mut ops: Vec<SinkOp> = Vec::new();
        assert(op_views(ops@) =~= Seq::<SinkOpView>::empty());
        let p: usize = match self.processes.find(pid as u64) {
            Some(p) => p,
            None => {
                return ops;
            },
        };
        assert(self@.processes[p as int].1 == self.processes.entries@[p as int].value@);
        let main_thread = self.processes.entries[p].value.main_thread_handle;
        let j: usize = self.ensure_jit(pid, &mut ops);
        let ghost made = ensure_jit(old(self)@, pid);
        assert(op_views(ops@) =~= made.ops);
        if let Some(thread) = main_thread {
            let op = SinkOp::AddMarker {
                thread,
                category: MarkerCategory::Other,
                name: "JitFunctionAdd".to_owned(),
                payload: MarkerPayload::JitFunctionAdd(name.clone()),
                timing: MarkerTiming::Instant(self.timestamp_converter.convert_raw(timestamp)),
            };
            proof {
                lemma_op_views_push(ops@, op);
            }
            ops.push(op);
        }
        let ghost before = self@;
        assert(before.jit[j as int].1 == self.jit.entries@[j as int].value@);
        let jit = &mut self.jit.entries[j].value;
        let relative: u32 = jit.next_relative_address;
        let size32: u32 = to_u32(size);
        let symbol: u32 = if jit.symbols.len() > 0xffff_ffff {
            0xffff_ffff
        } else {
            jit.symbols.len() as u32
        };
        jit.next_relative_address = relative.saturating_add(size32);
        jit.jit_mapping_ops.push(
            timestamp,
            LibMappingOp::Add(
                LibMappingAdd {
                    start_avma: start_address,
                    end_avma: start_address.saturating_add(size),
                    relative_address_at_start: relative,
                    info: LibMappingInfo::new_jit_function(jit.lib_handle, symbol),
                },
            ),
        );
        jit.symbols.push(Symbol { address: relative, size: Some(size32), name });
        proof {
            assert(self@.jit =~= before.jit.update(
                j as int,
                (
                    before.jit[j as int].0,
                    with_method(before.jit[j as int].1, timestamp, name@, start_address, size),
                ),
            )) by {
                let now = self.jit.entries@[j as int].value@;
                let want = with_method(
                    before.jit[j as int].1,
                    timestamp,
                    name@,
                    start_address,
                    size,
                );
                assert(now.symbols =~= want.symbols);
                assert(now.jit_mapping_ops =~= want.jit_mapping_ops);
            }
        }
        ops
    }
}

} // verus!

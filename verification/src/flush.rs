//! The end of the trace: the queued samples are resolved and handed to
//! the profile.
//!
//! Samples wait until the trace is over because the functions that a
//! process makes at run time are only then all known: the symbol table of
//! the library that stands for them goes to the profile first, and the
//! samples that refer to it follow.

use crate::handles::StringHandle;
use crate::lib_mappings::{
    applied, covers, lemma_resolved_address_is_covered, lookup as lookup_address_in,
    replayed_until, LibMappingAdd, LibMappingInfo, LibMappingOpQueue, LibMappings,
    ResolvedAddress, TimedOp,
};
use crate::sink::{
    lemma_op_views_push, op_views, symbol_views, ResolvedFrame, SinkOp, SinkOpView, Symbol,
};
use crate::state::{Engine, EngineView, UnresolvedSample};
use crate::tables::lookup;
use crate::types::StackFrame;
use crate::unresolved_stacks::{chain, StackNode};
use vstd::prelude::*;

verus! {

/// The address at which a frame is looked up: the frame's own address
/// for an instruction pointer, the byte before it for a return address,
/// which lies in the instruction that made the call.
pub open spec fn lookup_address(frame: StackFrame) -> u64 {
    match frame {
        StackFrame::InstructionPointer(address, _) => address,
        StackFrame::ReturnAddress(address, _) => if address == 0 {
            0
        } else {
            (address - 1) as u64
        },
    }
}

/// Whether a frame holds a return address.
pub open spec fn is_return_address(frame: StackFrame) -> bool {
    frame is ReturnAddress
}

/// A frame as the profile takes it. The mappings of code made at run time
/// are asked first, then those of the libraries; a frame that neither
/// holds keeps its address.
pub open spec fn resolved_frame(
    frame: StackFrame,
    jit: Seq<LibMappingAdd>,
    regular: Seq<LibMappingAdd>,
) -> ResolvedFrame {
    let address = lookup_address(frame);
    let found = match lookup_address_in(jit, address) {
        Some(resolved) => Some(resolved),
        None => lookup_address_in(regular, address),
    };
    match found {
        Some(resolved) => ResolvedFrame::InLibrary {
            lib: resolved.info.lib_handle,
            relative_address: resolved.relative_address,
            mode: frame.spec_mode(),
            jit_symbol: resolved.info.jit_symbol,
        },
        None => ResolvedFrame::Address {
            address: frame.spec_address(),
            mode: frame.spec_mode(),
            return_address: is_return_address(frame),
        },
    }
}

/// The frames of a sample as the profile takes them, the outermost
/// first; the label of a merged sample stands above them all.
pub open spec fn sample_frames(
    label: Option<StringHandle>,
    frames: Seq<StackFrame>,
    jit: Seq<LibMappingAdd>,
    regular: Seq<LibMappingAdd>,
) -> Seq<ResolvedFrame> {
    let resolved = frames.map_values(|f: StackFrame| resolved_frame(f, jit, regular));
    match label {
        Some(handle) => seq![ResolvedFrame::Label(handle)] + resolved,
        None => resolved,
    }
}

/// How far the samples of a process have been handed over.
pub struct Flushed {
    pub ops: Seq<SinkOpView>,
    /// How far the log of the libraries has been replayed.
    pub regular: int,
    /// How far the log of the code made at run time has been replayed.
    pub jit: int,
}

/// The first `count` samples of a process handed over, in the order in
/// which they were queued. Before each sample the two logs are replayed
/// up to the sample's time; they are never replayed backwards.
pub open spec fn flushed_samples(
    nodes: Seq<StackNode>,
    samples: Seq<UnresolvedSample>,
    regular_log: Seq<TimedOp>,
    jit_log: Seq<TimedOp>,
    count: int,
) -> Flushed
    decreases count,
{
    if count <= 0 || count > samples.len() {
        Flushed { ops: Seq::empty(), regular: 0, jit: 0 }
    } else {
        let before = flushed_samples(nodes, samples, regular_log, jit_log, count - 1);
        let sample = samples[count - 1];
        let regular = replayed_until(regular_log, before.regular, sample.timestamp_raw);
        let jit = replayed_until(jit_log, before.jit, sample.timestamp_raw);
        Flushed {
            ops: before.ops.push(
                SinkOpView::AddSample {
                    thread: sample.thread_handle,
                    timestamp: sample.timestamp,
                    frames: sample_frames(
                        sample.extra_label,
                        chain(nodes, sample.stack),
                        applied(jit_log, jit),
                        applied(regular_log, regular),
                    ),
                    cpu_delta: sample.cpu_delta,
                    weight: sample.weight,
                },
            ),
            regular,
            jit,
        }
    }
}

/// The log of the code that the process `pid` made at run time.
pub open spec fn jit_log(v: EngineView, pid: u64) -> Seq<TimedOp> {
    match lookup(v.jit, pid) {
        Some(j) => v.jit[j].1.jit_mapping_ops,
        None => Seq::empty(),
    }
}

/// What the process at place `p` hands over: the symbol table of its
/// code made at run time, if it made any, then its samples.
pub open spec fn flushed_process(v: EngineView, p: int) -> Seq<SinkOpView> {
    let pid = v.processes[p].0;
    let process = v.processes[p].1;
    let symbols = match lookup(v.jit, pid) {
        Some(j) => seq![
            SinkOpView::SetLibSymbolTable {
                lib: v.jit[j].1.lib_handle,
                symbols: v.jit[j].1.symbols,
            },
        ],
        None => Seq::empty(),
    };
    symbols + flushed_samples(
        v.unresolved_stacks,
        process.unresolved_samples,
        process.regular_lib_mapping_ops,
        jit_log(v, pid),
        process.unresolved_samples.len() as int,
    ).ops
}

/// What the first `count` processes hand over, in the order in which the
/// processes were enrolled.
pub open spec fn flushed(v: EngineView, count: int) -> Seq<SinkOpView>
    decreases count,
{
    if count <= 0 || count > v.processes.len() {
        Seq::empty()
    } else {
        flushed(v, count - 1) + flushed_process(v, count - 1)
    }
}

/// What the engine hands over at the end of the trace.
pub open spec fn finish(v: EngineView) -> Seq<SinkOpView> {
    flushed(v, v.processes.len() as int)
}

fn copy_symbols(symbols: &Vec<Symbol>) -> (copy: Vec<Symbol>)
    ensures
        symbol_views(copy@) == symbol_views(symbols@),
{
    let mut copy: Vec<Symbol> = Vec::new();
    let mut i: usize = 0;
    while i < symbols.len()
        invariant
            i <= symbols.len(),
            symbol_views(copy@) == symbol_views(symbols@).take(i as int),
        decreases symbols.len() - i,
    {
        let symbol = Symbol {
            address: symbols[i].address,
            size: symbols[i].size,
            name: symbols[i].name.clone(),
        };
        proof {
            assert(symbol@ == symbols@[i as int]@);
            assert(symbol_views(symbols@).take(i + 1) =~= symbol_views(symbols@).take(
                i as int,
            ).push(symbols@[i as int]@));
            assert(symbol_views(copy@.push(symbol)) =~= symbol_views(copy@).push(symbol@));
        }
        copy.push(symbol);
        i += 1;
    }
    assert(symbol_views(symbols@).take(symbols.len() as int) == symbol_views(symbols@));
    copy
}

fn resolve_frame(frame: StackFrame, jit: &LibMappings, regular: &LibMappings) -> (resolved:
    ResolvedFrame)
    requires
        jit.well_formed(),
        regular.well_formed(),
    ensures
        resolved == resolved_frame(frame, jit.mappings(), regular.mappings()),
{
    let (address, mode, return_address): (u64, crate::types::StackMode, bool) = match frame {
        StackFrame::InstructionPointer(address, mode) => (address, mode, false),
        StackFrame::ReturnAddress(address, mode) => (address.saturating_sub(1), mode, true),
    };
    let found = match jit.convert_address(address) {
        Some(resolved) => Some(resolved),
        None => regular.convert_address(address),
    };
    match found {
        Some(resolved) => ResolvedFrame::InLibrary {
            lib: resolved.info.lib_handle,
            relative_address: resolved.relative_address,
            mode,
            jit_symbol: resolved.info.jit_symbol,
        },
        None => ResolvedFrame::Address { address: frame.address(), mode, return_address },
    }
}

impl Engine {
    fn flush_process(&self, p: usize, ops: &mut Vec<SinkOp>)
        requires
            self.well_formed(),
            p < self.processes.entries@.len(),
        ensures
            op_views(final(ops)@) == op_views(old(ops)@) + flushed_process(self@, p as int),
    {
        let pid: u64 = self.processes.entries[p].key;
        let process = &self.processes.entries[p].value;
        assert(self@.processes[p as int] == (pid, process@));
        let ghost nodes = self@.unresolved_stacks;
        let ghost samples = process@.unresolved_samples;
        let ghost regular_log = process@.regular_lib_mapping_ops;
        let ghost jit_ops = jit_log(self@, pid);
        let mut jit = match self.jit.find(pid) {
            Some(j) => {
                assert(self@.jit[j as int].1 == self.jit.entries@[j as int].value@);
                let info = &self.jit.entries[j].value;
                let op = SinkOp::SetLibSymbolTable {
                    lib: info.lib_handle,
                    symbols: copy_symbols(&info.symbols),
                };
                proof {
                    lemma_op_views_push(ops@, op);
                }
                ops.push(op);
                LibMappings::new(info.jit_mapping_ops.copy())
            },
            None => LibMappings::new(LibMappingOpQueue::new()),
        };
        let mut regular = LibMappings::new(process.regular_lib_mapping_ops.copy());
        let ghost start = op_views(ops@);
        let mut i: usize = 0;
        proof {
            jit.lemma_well_formed();
            regular.lemma_well_formed();
            assert(start =~= start + flushed_samples(nodes, samples, regular_log, jit_ops, 0).ops);
        }
        while i < process.unresolved_samples.len()
            invariant
                i <= process.unresolved_samples.len(),
                self.well_formed(),
                nodes == self@.unresolved_stacks,
                samples == process@.unresolved_samples,
                jit.well_formed(),
                regular.well_formed(),
                jit.log() == jit_ops,
                regular.log() == regular_log,
                jit.position() == flushed_samples(nodes, samples, regular_log, jit_ops, i as int).jit,
                regular.position() == flushed_samples(
                    nodes,
                    samples,
                    regular_log,
                    jit_ops,
                    i as int,
                ).regular,
                op_views(ops@) == start + flushed_samples(
                    nodes,
                    samples,
                    regular_log,
                    jit_ops,
                    i as int,
                ).ops,
            decreases process.unresolved_samples.len() - i,
        {
            let sample = process.unresolved_samples[i];
            jit.advance_to(sample.timestamp_raw);
            regular.advance_to(sample.timestamp_raw);
            proof {
                jit.lemma_well_formed();
                regular.lemma_well_formed();
            }
            let stack = self.unresolved_stacks.frames_of(sample.stack);
            let mut frames: Vec<ResolvedFrame> = Vec::new();
            if let Some(label) = sample.extra_label {
                frames.push(ResolvedFrame::Label(label));
            }
            let ghost head = frames@;
            let mut k: usize = 0;
            while k < stack.len()
                invariant
                    k <= stack.len(),
                    jit.well_formed(),
                    regular.well_formed(),
                    frames@ == head + stack@.take(k as int).map_values(
                        |f: StackFrame| resolved_frame(f, jit.mappings(), regular.mappings()),
                    ),
                decreases stack.len() - k,
            {
                let resolved = resolve_frame(stack[k], &jit, &regular);
                proof {
                    let f = |f: StackFrame| resolved_frame(f, jit.mappings(), regular.mappings());
                    assert(stack@.take(k + 1).map_values(f) =~= stack@.take(k as int).map_values(
                        f,
                    ).push(resolved));
                }
                frames.push(resolved);
                k += 1;
            }
            proof {
                assert(stack@.take(stack.len() as int) == stack@);
                assert(frames@ =~= sample_frames(
                    sample.extra_label,
                    stack@,
                    jit.mappings(),
                    regular.mappings(),
                ));
            }
            let op = SinkOp::AddSample {
                thread: sample.thread_handle,
                timestamp: sample.timestamp,
                frames,
                cpu_delta: sample.cpu_delta,
                weight: sample.weight,
            };
            proof {
                lemma_op_views_push(ops@, op);
                let before = flushed_samples(nodes, samples, regular_log, jit_ops, i as int);
                assert(start + before.ops.push(op@) =~= (start + before.ops).push(op@));
            }
            ops.push(op);
            i += 1;
        }
        proof {
            let all = flushed_samples(
                nodes,
                samples,
                regular_log,
                jit_ops,
                process.unresolved_samples.len() as int,
            ).ops;
            assert(op_views(ops@) =~= op_views(old(ops)@) + flushed_process(self@, p as int));
        }
    }

    /// The end of the trace: every process hands over the samples that
    /// were queued with it. Triggers that still wait for their stack are
    /// left out.
    pub fn finish(&self) -> (ops: Vec<SinkOp>)
        requires
            self.well_formed(),
        ensures
            op_views(ops@) == finish(self@),
            crate::numbering::handles_known(self@) ==> crate::numbering::leads(
                op_views(ops@),
                self@.next,
                self@.next,
            ),
    {
        proof {
            if crate::numbering::handles_known(self@) {
                crate::numbering_steps::lemma_finish_keeps_numbering(self@);
            }
        }
        let mut ops: Vec<SinkOp> = Vec::new();
        let mut p: usize = 0;
        assert(op_views(ops@) =~= flushed(self@, 0));
        while p < self.processes.entries.len()
            invariant
                p <= self.processes.entries@.len(),
                self.well_formed(),
                op_views(ops@) == flushed(self@, p as int),
            decreases self.processes.entries.len() - p,
        {
            self.flush_process(p, &mut ops);
            p += 1;
        }
        ops
    }
}

/// Whether one of the first `count` entries of a log adds a mapping that
/// holds `address` and resolves it as `resolved` says.
pub open spec fn covered_by(
    log: Seq<TimedOp>,
    count: int,
    address: u64,
    resolved: ResolvedAddress,
) -> bool {
    exists|k: int| 0 <= k < count && covers(#[trigger] log[k], address, resolved)
}

/// Every frame of a resolved sample either keeps its address, because no
/// mapping in place holds it, or lies in a mapping that the logs of its
/// process added: in a library that was loaded, or in a function that was
/// made at run time.
pub proof fn lemma_resolved_frame_is_covered(
    frame: StackFrame,
    jit_log: Seq<TimedOp>,
    jit_count: int,
    regular_log: Seq<TimedOp>,
    regular_count: int,
)
    requires
        0 <= jit_count <= jit_log.len(),
        0 <= regular_count <= regular_log.len(),
    ensures
        match resolved_frame(
            frame,
            applied(jit_log, jit_count),
            applied(regular_log, regular_count),
        ) {
            ResolvedFrame::Label(_) => false,
            ResolvedFrame::Address { address, mode, return_address } => {
                &&& address == frame.spec_address()
                &&& mode == frame.spec_mode()
                &&& lookup_address_in(applied(jit_log, jit_count), lookup_address(frame)) is None
                &&& lookup_address_in(applied(regular_log, regular_count), lookup_address(frame))
                    is None
            },
            ResolvedFrame::InLibrary { lib, relative_address, mode, jit_symbol } => {
                let resolved = ResolvedAddress {
                    relative_address,
                    info: LibMappingInfo { lib_handle: lib, jit_symbol },
                };
                &&& mode == frame.spec_mode()
                &&& covered_by(jit_log, jit_count, lookup_address(frame), resolved) || covered_by(
                    regular_log,
                    regular_count,
                    lookup_address(frame),
                    resolved,
                )
            },
        },
{
    let address = lookup_address(frame);
    let jit = applied(jit_log, jit_count);
    let regular = applied(regular_log, regular_count);
    if lookup_address_in(jit, address) is Some {
        lemma_resolved_address_is_covered(jit_log, jit_count, address);
    } else if lookup_address_in(regular, address) is Some {
        lemma_resolved_address_is_covered(regular_log, regular_count, address);
    }
}

/// Whether an operation hands over the given sample.
pub open spec fn hands_over(op: SinkOpView, sample: UnresolvedSample) -> bool {
    match op {
        SinkOpView::AddSample { thread, timestamp, cpu_delta, weight, .. } => thread
            == sample.thread_handle && timestamp == sample.timestamp && cpu_delta
            == sample.cpu_delta && weight == sample.weight,
        _ => false,
    }
}

/// The samples of a process are handed over one operation each, in their
/// order, and nothing else is.
pub proof fn lemma_flushed_samples_are_samples(
    nodes: Seq<StackNode>,
    samples: Seq<UnresolvedSample>,
    regular_log: Seq<TimedOp>,
    jit_log: Seq<TimedOp>,
    count: int,
)
    requires
        0 <= count <= samples.len(),
    ensures
        ({
            let done = flushed_samples(nodes, samples, regular_log, jit_log, count);
            &&& done.ops.len() == count
            &&& 0 <= done.regular <= regular_log.len()
            &&& 0 <= done.jit <= jit_log.len()
            &&& forall|i: int| 0 <= i < count ==> hands_over(#[trigger] done.ops[i], samples[i])
        }),
    decreases count,
{
    if count > 0 {
        lemma_flushed_samples_are_samples(nodes, samples, regular_log, jit_log, count - 1);
        let before = flushed_samples(nodes, samples, regular_log, jit_log, count - 1);
        let sample = samples[count - 1];
        lemma_replay_stays_in_the_log(regular_log, before.regular, sample.timestamp_raw);
        lemma_replay_stays_in_the_log(jit_log, before.jit, sample.timestamp_raw);
        let done = flushed_samples(nodes, samples, regular_log, jit_log, count);
        assert forall|i: int| 0 <= i < count implies hands_over(
            #[trigger] done.ops[i],
            samples[i],
        ) by {
            if i < count - 1 {
                assert(done.ops[i] == before.ops[i]);
            }
        }
    }
}

/// A replay never leaves its log and never goes back.
pub proof fn lemma_replay_stays_in_the_log(log: Seq<TimedOp>, from: int, timestamp: u64)
    requires
        0 <= from <= log.len(),
    ensures
        from <= replayed_until(log, from, timestamp) <= log.len(),
    decreases log.len() - from,
{
    if from < log.len() && log[from].timestamp <= timestamp {
        lemma_replay_stays_in_the_log(log, from + 1, timestamp);
    }
}

/// A process that made code at run time hands over the whole symbol table
/// of that code before any of its samples.
pub proof fn lemma_symbol_table_goes_first(v: EngineView, p: int)
    requires
        0 <= p < v.processes.len(),
        lookup(v.jit, v.processes[p].0) is Some,
    ensures
        ({
            let jit = v.jit[lookup(v.jit, v.processes[p].0)->0].1;
            let ops = flushed_process(v, p);
            &&& ops.len() == 1 + v.processes[p].1.unresolved_samples.len()
            &&& ops[0] == (SinkOpView::SetLibSymbolTable {
                lib: jit.lib_handle,
                symbols: jit.symbols,
            })
            &&& forall|i: int|
                1 <= i < ops.len() ==> hands_over(
                    #[trigger] ops[i],
                    v.processes[p].1.unresolved_samples[i - 1],
                )
        }),
{
    let process = v.processes[p].1;
    let count = process.unresolved_samples.len() as int;
    lemma_flushed_samples_are_samples(
        v.unresolved_stacks,
        process.unresolved_samples,
        process.regular_lib_mapping_ops,
        jit_log(v, v.processes[p].0),
        count,
    );
    let samples = flushed_samples(
        v.unresolved_stacks,
        process.unresolved_samples,
        process.regular_lib_mapping_ops,
        jit_log(v, v.processes[p].0),
        count,
    ).ops;
    let ops = flushed_process(v, p);
    assert forall|i: int| 1 <= i < ops.len() implies hands_over(
        #[trigger] ops[i],
        process.unresolved_samples[i - 1],
    ) by {
        assert(ops[i] == samples[i - 1]);
    }
}

} // verus!

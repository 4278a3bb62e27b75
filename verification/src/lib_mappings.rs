//! The log of library mappings of one process, and its replay.
//!
//! While the trace is read, every load and unload is only written down
//! with its time. When the samples are resolved, the log is replayed up to
//! each sample's time, and the sample's addresses are looked up among the
//! mappings that are in place then.

use crate::handles::LibraryHandle;
use vstd::prelude::*;

verus! {

/// What a mapping maps to: a library, and for a function made at run time
/// its place in the symbol table of the library that stands for such code.
#[derive(Debug, Clone, Copy, PartialEq, Eq, Structural)]
pub struct LibMappingInfo {
    pub lib_handle: LibraryHandle,
    pub jit_symbol: Option<u32>,
}

impl LibMappingInfo {
    pub fn new_lib(lib_handle: LibraryHandle) -> (info: Self)
        ensures
            info == (LibMappingInfo { lib_handle, jit_symbol: None }),
    {
        LibMappingInfo { lib_handle, jit_symbol: None }
    }

    pub fn new_jit_function(lib_handle: LibraryHandle, symbol: u32) -> (info: Self)
        ensures
            info == (LibMappingInfo { lib_handle, jit_symbol: Some(symbol) }),
    {
        LibMappingInfo { lib_handle, jit_symbol: Some(symbol) }
    }
}

/// The addresses from `start_avma` up to, not including, `end_avma` hold
/// the library's bytes from `relative_address_at_start` on.
#[derive(Debug, Clone, Copy, PartialEq, Eq, Structural)]
pub struct LibMappingAdd {
    pub start_avma: u64,
    pub end_avma: u64,
    pub relative_address_at_start: u32,
    pub info: LibMappingInfo,
}

#[derive(Debug, Clone, Copy, PartialEq, Eq, Structural)]
pub enum LibMappingOp {
    Add(LibMappingAdd),
    /// The mapping that starts at `start_avma` is gone.
    Remove { start_avma: u64 },
}

/// One entry of the log: a raw timestamp and what happened then.
#[derive(Debug, Clone, Copy, PartialEq, Eq, Structural)]
pub struct TimedOp {
    pub timestamp: u64,
    pub op: LibMappingOp,
}

/// An address that was found in a mapping.
#[derive(Debug, Clone, Copy, PartialEq, Eq, Structural)]
pub struct ResolvedAddress {
    pub relative_address: u32,
    pub info: LibMappingInfo,
}

impl LibMappingAdd {
    pub open spec fn spec_contains(self, address: u64) -> bool {
        self.start_avma <= address < self.end_avma
    }

    #[verifier::when_used_as_spec(spec_contains)]
    pub fn contains(self, address: u64) -> (inside: bool)
        ensures
            inside == self.spec_contains(address),
    {
        self.start_avma <= address && address < self.end_avma
    }

    /// The address relative to the library, where it is inside the mapping
    /// and the relative address fits 32 bits.
    pub open spec fn spec_resolve(self, address: u64) -> Option<ResolvedAddress> {
        if self.spec_contains(address) && self.relative_address_at_start + (address
            - self.start_avma) <= u32::MAX {
            Some(
                ResolvedAddress {
                    relative_address: (self.relative_address_at_start + (address
                        - self.start_avma)) as u32,
                    info: self.info,
                },
            )
        } else {
            None
        }
    }

    #[verifier::when_used_as_spec(spec_resolve)]
    pub fn resolve(self, address: u64) -> (resolved: Option<ResolvedAddress>)
        ensures
            resolved == self.spec_resolve(address),
    {
        if !self.contains(address) {
            return None;
        }
        let offset: u64 = address - self.start_avma;
        if offset > (u32::MAX - self.relative_address_at_start) as u64 {
            return None;
        }
        Some(
            ResolvedAddress {
                relative_address: self.relative_address_at_start + offset as u32,
                info: self.info,
            },
        )
    }
}

/// The mappings without the one that starts at `start_avma`.
pub open spec fn without_start(mappings: Seq<LibMappingAdd>, start_avma: u64) -> Seq<LibMappingAdd>
    decreases mappings.len(),
{
    if mappings.len() == 0 {
        Seq::empty()
    } else {
        let rest = without_start(mappings.drop_last(), start_avma);
        if mappings.last().start_avma == start_avma {
            rest
        } else {
            rest.push(mappings.last())
        }
    }
}

/// The mappings after one more entry of the log. A mapping replaces the
/// one that started at the same address, and is the newest from then on.
pub open spec fn apply_op(mappings: Seq<LibMappingAdd>, op: LibMappingOp) -> Seq<LibMappingAdd> {
    match op {
        LibMappingOp::Add(mapping) => without_start(mappings, mapping.start_avma).push(mapping),
        LibMappingOp::Remove { start_avma } => without_start(mappings, start_avma),
    }
}

/// The mappings after the first `count` entries of the log.
pub open spec fn applied(log: Seq<TimedOp>, count: int) -> Seq<LibMappingAdd>
    decreases count,
{
    if count <= 0 || count > log.len() {
        Seq::empty()
    } else {
        apply_op(applied(log, count - 1), log[count - 1].op)
    }
}

/// How far the replay has come once it has reached time `timestamp`,
/// having started at entry `from`: it stops before the first entry that
/// is newer.
pub open spec fn replayed_until(log: Seq<TimedOp>, from: int, timestamp: u64) -> int
    decreases log.len() - from,
{
    if from < 0 || from >= log.len() || log[from].timestamp > timestamp {
        from
    } else {
        replayed_until(log, from + 1, timestamp)
    }
}

/// The newest mapping that holds `address`.
pub open spec fn newest_mapping(mappings: Seq<LibMappingAdd>, address: u64) -> Option<
    LibMappingAdd,
>
    decreases mappings.len(),
{
    if mappings.len() == 0 {
        None
    } else if mappings.last().spec_contains(address) {
        Some(mappings.last())
    } else {
        newest_mapping(mappings.drop_last(), address)
    }
}

/// What `address` resolves to among the mappings: the newest mapping that
/// holds it decides.
pub open spec fn lookup(mappings: Seq<LibMappingAdd>, address: u64) -> Option<ResolvedAddress> {
    match newest_mapping(mappings, address) {
        Some(mapping) => mapping.spec_resolve(address),
        None => None,
    }
}

/// Whether the entries of a log are in the order of their timestamps.
pub open spec fn sorted_by_time(log: Seq<TimedOp>) -> bool {
    forall|i: int, j: int| 0 <= i <= j < log.len() ==> log[i].timestamp <= log[j].timestamp
}

/// The log of one process.
#[derive(Debug, Clone)]
pub struct LibMappingOpQueue {
    pub ops: Vec<TimedOp>,
}

impl View for LibMappingOpQueue {
    type V = Seq<TimedOp>;

    open spec fn view(&self) -> Seq<TimedOp> {
        self.ops@
    }
}

impl LibMappingOpQueue {
    pub fn new() -> (queue: Self)
        ensures
            queue@ == Seq::<TimedOp>::empty(),
    {
        LibMappingOpQueue { ops: Vec::new() }
    }

    /// Writes `op` at the end of the log. A log that is in the order of
    /// its timestamps stays so if `timestamp` is not older than its last
    /// entry.
    pub fn push(&mut self, timestamp: u64, op: LibMappingOp)
        ensures
            final(self)@ == old(self)@.push(TimedOp { timestamp, op }),
            sorted_by_time(old(self)@) && (old(self)@.len() == 0 || old(self)@.last().timestamp
                <= timestamp) ==> sorted_by_time(final(self)@),
    {
        self.ops.push(TimedOp { timestamp, op });
    }

    pub fn len(&self) -> (n: usize)
        ensures
            n == self@.len(),
    {
        self.ops.len()
    }

    /// A copy of the log.
    pub fn copy(&self) -> (log: Self)
        ensures
            log@ == self@,
    {
        let mut ops: Vec<TimedOp> = Vec::new();
        let mut i: usize = 0;
        while i < self.ops.len()
            invariant
                i <= self.ops.len(),
                ops@ == self.ops@.take(i as int),
            decreases self.ops.len() - i,
        {
            ops.push(self.ops[i]);
            i += 1;
        }
        assert(self.ops@.take(self.ops.len() as int) == self.ops@);
        LibMappingOpQueue { ops }
    }
}

impl Default for LibMappingOpQueue {
    fn default() -> (queue: Self)
        ensures
            queue@ == Seq::<TimedOp>::empty(),
    {
        LibMappingOpQueue::new()
    }
}

/// A replay of a log: the entries before `next` have been applied, and
/// `mappings` are what they leave in place.
pub struct LibMappings {
    log: LibMappingOpQueue,
    next: usize,
    mappings: Vec<LibMappingAdd>,
}

fn remove_start(mappings: &Vec<LibMappingAdd>, start_avma: u64) -> (kept: Vec<LibMappingAdd>)
    ensures
        kept@ == without_start(mappings@, start_avma),
{
    let mut kept: Vec<LibMappingAdd> = Vec::new();
    let mut i: usize = 0;
    assert(mappings@.take(0) == Seq::<LibMappingAdd>::empty());
    while i < mappings.len()
        invariant
            i <= mappings.len(),
            kept@ == without_start(mappings@.take(i as int), start_avma),
        decreases mappings.len() - i,
    {
        proof {
            let next = mappings@.take(i + 1);
            assert(next.drop_last() == mappings@.take(i as int));
            assert(next.last() == mappings@[i as int]);
        }
        if mappings[i].start_avma != start_avma {
            kept.push(mappings[i]);
        }
        i += 1;
    }
    assert(mappings@.take(mappings.len() as int) == mappings@);
    kept
}

impl LibMappings {
    /// The log that is replayed.
    pub closed spec fn log(&self) -> Seq<TimedOp> {
        self.log@
    }

    /// How many entries have been applied.
    pub closed spec fn position(&self) -> int {
        self.next as int
    }

    /// The mappings in place, the newest last.
    pub closed spec fn mappings(&self) -> Seq<LibMappingAdd> {
        self.mappings@
    }

    /// The mappings in place are those that the applied entries leave.
    pub closed spec fn well_formed(&self) -> bool {
        &&& self.next <= self.log@.len()
        &&& self.mappings@ == applied(self.log@, self.next as int)
    }

    pub proof fn lemma_well_formed(&self)
        requires
            self.well_formed(),
        ensures
            0 <= self.position() <= self.log().len(),
            self.mappings() == applied(self.log(), self.position()),
    {
    }

    /// Starts a replay at the beginning of the log.
    pub fn new(log: LibMappingOpQueue) -> (replay: Self)
        ensures
            replay.well_formed(),
            replay.log() == log@,
            replay.position() == 0,
    {
        LibMappings { log, next: 0, mappings: Vec::new() }
    }

    /// Applies the entries that are not newer than `timestamp`, up to the
    /// first that is.
    pub fn advance_to(&mut self, timestamp: u64)
        requires
            old(self).well_formed(),
        ensures
            final(self).well_formed(),
            final(self).log() == old(self).log(),
            final(self).position() == replayed_until(
                old(self).log(),
                old(self).position(),
                timestamp,
            ),
    {
        while self.next < self.log.ops.len() && self.log.ops[self.next].timestamp <= timestamp
            invariant
                self.well_formed(),
                self.log@ == old(self).log@,
                replayed_until(self.log@, self.next as int, timestamp) == replayed_until(
                    old(self).log@,
                    old(self).next as int,
                    timestamp,
                ),
            decreases self.log.ops.len() - self.next,
        {
            let entry = self.log.ops[self.next];
            match entry.op {
                LibMappingOp::Add(mapping) => {
                    let mut kept = remove_start(&self.mappings, mapping.start_avma);
                    kept.push(mapping);
                    self.mappings = kept;
                },
                LibMappingOp::Remove { start_avma } => {
                    let kept = remove_start(&self.mappings, start_avma);
                    self.mappings = kept;
                },
            }
            self.next = self.next + 1;
        }
    }

    /// Looks `address` up among the mappings in place.
    pub fn convert_address(&self, address: u64) -> (resolved: Option<ResolvedAddress>)
        requires
            self.well_formed(),
        ensures
            resolved == lookup(self.mappings(), address),
    {
        let mut i: usize = self.mappings.len();
        assert(self.mappings@.take(i as int) == self.mappings@);
        while i > 0
            invariant
                i <= self.mappings.len(),
                newest_mapping(self.mappings@, address) == newest_mapping(
                    self.mappings@.take(i as int),
                    address,
                ),
            decreases i,
        {
            proof {
                let prefix = self.mappings@.take(i as int);
                assert(prefix.drop_last() == self.mappings@.take(i - 1));
                assert(prefix.last() == self.mappings@[i - 1]);
            }
            i -= 1;
            if self.mappings[i].contains(address) {
                return self.mappings[i].resolve(address);
            }
        }
        assert(self.mappings@.take(0) == Seq::<LibMappingAdd>::empty());
        None
    }
}

/// Every mapping in place was written to the log by one of the applied
/// entries, and holds what that entry said.
pub proof fn lemma_mappings_come_from_the_log(log: Seq<TimedOp>, count: int, i: int)
    requires
        0 <= count <= log.len(),
        0 <= i < applied(log, count).len(),
    ensures
        exists|k: int|
            0 <= k < count && (#[trigger] log[k]).op == LibMappingOp::Add(applied(log, count)[i]),
    decreases count,
{
    if count > 0 {
        let before = applied(log, count - 1);
        let op = log[count - 1].op;
        let start = match op {
            LibMappingOp::Add(mapping) => mapping.start_avma,
            LibMappingOp::Remove { start_avma } => start_avma,
        };
        let kept = without_start(before, start);
        if i < kept.len() {
            let j = lemma_kept_mappings_were_there(before, start, i);
            lemma_mappings_come_from_the_log(log, count - 1, j);
            let k = choose|k: int|
                0 <= k < count - 1 && (#[trigger] log[k]).op == LibMappingOp::Add(before[j]);
            assert(log[k].op == LibMappingOp::Add(applied(log, count)[i]));
        } else {
            assert(log[count - 1].op == LibMappingOp::Add(applied(log, count)[i]));
        }
    }
}

/// A mapping that is left after one was taken away was there before.
pub proof fn lemma_kept_mappings_were_there(
    mappings: Seq<LibMappingAdd>,
    start_avma: u64,
    i: int,
) -> (j: int)
    requires
        0 <= i < without_start(mappings, start_avma).len(),
    ensures
        0 <= j < mappings.len(),
        mappings[j] == without_start(mappings, start_avma)[i],
        mappings[j].start_avma != start_avma,
    decreases mappings.len(),
{
    let rest = without_start(mappings.drop_last(), start_avma);
    if mappings.last().start_avma != start_avma && i == rest.len() {
        mappings.len() - 1
    } else {
        lemma_kept_mappings_were_there(mappings.drop_last(), start_avma, i)
    }
}

/// Among the mappings in place no two start at the same address.
pub proof fn lemma_starts_are_distinct(log: Seq<TimedOp>, count: int)
    requires
        0 <= count <= log.len(),
    ensures
        forall|i: int, j: int|
            0 <= i < j < applied(log, count).len() ==> (#[trigger] applied(log, count)[i]).start_avma
                != (#[trigger] applied(log, count)[j]).start_avma,
    decreases count,
{
    if count > 0 {
        lemma_starts_are_distinct(log, count - 1);
        let before = applied(log, count - 1);
        let op = log[count - 1].op;
        let start = match op {
            LibMappingOp::Add(mapping) => mapping.start_avma,
            LibMappingOp::Remove { start_avma } => start_avma,
        };
        let kept = without_start(before, start);
        lemma_kept_keeps_order(before, start);
        let after = applied(log, count);
        assert forall|i: int, j: int| 0 <= i < j < after.len() implies (#[trigger] after[i]).start_avma
            != (#[trigger] after[j]).start_avma by {
            if j < kept.len() {
                assert(after[i] == kept[i]);
                assert(after[j] == kept[j]);
            } else {
                assert(after[i] == kept[i]);
                let _ = lemma_kept_mappings_were_there(before, start, i);
            }
        }
    }
}

/// Taking a mapping away keeps the others in their order: distinct starts
/// stay distinct.
pub proof fn lemma_kept_keeps_order(mappings: Seq<LibMappingAdd>, start_avma: u64)
    requires
        forall|i: int, j: int|
            0 <= i < j < mappings.len() ==> (#[trigger] mappings[i]).start_avma != (
            #[trigger] mappings[j]).start_avma,
    ensures
        forall|i: int, j: int|
            0 <= i < j < without_start(mappings, start_avma).len() ==> (#[trigger] without_start(
                mappings,
                start_avma,
            )[i]).start_avma != (#[trigger] without_start(mappings, start_avma)[j]).start_avma,
    decreases mappings.len(),
{
    if mappings.len() > 0 {
        let front = mappings.drop_last();
        assert forall|i: int, j: int| 0 <= i < j < front.len() implies (#[trigger] front[i]).start_avma
            != (#[trigger] front[j]).start_avma by {
            assert(front[i] == mappings[i]);
            assert(front[j] == mappings[j]);
        }
        lemma_kept_keeps_order(front, start_avma);
        let rest = without_start(front, start_avma);
        let kept = without_start(mappings, start_avma);
        assert forall|i: int, j: int| 0 <= i < j < kept.len() implies (#[trigger] kept[i]).start_avma
            != (#[trigger] kept[j]).start_avma by {
            if j < rest.len() {
                assert(kept[i] == rest[i]);
                assert(kept[j] == rest[j]);
            } else {
                assert(kept[i] == rest[i]);
                let k = lemma_kept_mappings_were_there(front, start_avma, i);
                assert(front[k] == mappings[k]);
                assert(kept[j] == mappings[mappings.len() - 1]);
            }
        }
    }
}

/// Whether a log entry adds a mapping that holds `address` and gives it
/// the resolution `resolved`: the mapping's library, and the mapping's own
/// relative address plus the distance from the mapping's start.
pub open spec fn covers(entry: TimedOp, address: u64, resolved: ResolvedAddress) -> bool {
    match entry.op {
        LibMappingOp::Add(mapping) => mapping.spec_contains(address) && resolved == (
        ResolvedAddress {
            relative_address: (mapping.relative_address_at_start + (address
                - mapping.start_avma)) as u32,
            info: mapping.info,
        }),
        LibMappingOp::Remove { .. } => false,
    }
}

/// An address that resolves lies in a mapping that one of the applied
/// entries added.
pub proof fn lemma_resolved_address_is_covered(log: Seq<TimedOp>, count: int, address: u64)
    requires
        0 <= count <= log.len(),
        lookup(applied(log, count), address) is Some,
    ensures
        exists|k: int|
            0 <= k < count && covers(
                #[trigger] log[k],
                address,
                lookup(applied(log, count), address)->0,
            ),
{
    let mappings = applied(log, count);
    let i = lemma_newest_mapping_is_one_of_them(mappings, address);
    lemma_mappings_come_from_the_log(log, count, i);
    let k = choose|k: int|
        0 <= k < count && (#[trigger] log[k]).op == LibMappingOp::Add(applied(log, count)[i]);
    assert(log[k].op == LibMappingOp::Add(mappings[i]));
}

/// The newest mapping that holds an address is one of the mappings, and
/// no newer one holds the address.
pub proof fn lemma_newest_mapping_is_one_of_them(mappings: Seq<LibMappingAdd>, address: u64) -> (i:
    int)
    requires
        newest_mapping(mappings, address) is Some,
    ensures
        0 <= i < mappings.len(),
        newest_mapping(mappings, address) == Some(mappings[i]),
        mappings[i].spec_contains(address),
        forall|j: int| i < j < mappings.len() ==> !(#[trigger] mappings[j]).spec_contains(address),
    decreases mappings.len(),
{
    if mappings.last().spec_contains(address) {
        mappings.len() - 1
    } else {
        let front = mappings.drop_last();
        let i = lemma_newest_mapping_is_one_of_them(front, address);
        assert forall|j: int| i < j < mappings.len() implies !(#[trigger] mappings[j]).spec_contains(
            address,
        ) by {
            if j < front.len() {
                assert(mappings[j] == front[j]);
            }
        }
        i
    }
}

} // verus!

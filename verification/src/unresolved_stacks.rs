//! Interning of call stacks.
//!
//! Stacks of one thread share long tails: the frames near the thread's
//! entry point are the same in nearly every sample. The interner stores
//! each stack as a node that names its frame and the node of the rest of
//! the chain, so a shared part is stored once, and a whole stack is known
//! by the small number of its last node.

use crate::types::{StackFrame, StackMode};
use std::collections::HashMap;
use vstd::prelude::*;

verus! {

/// The number that stands for the empty chain.
pub const EMPTY_STACK: u32 = 0xffff_ffff;

/// The handle of an interned chain of frames.
#[derive(Debug, Clone, Copy, PartialEq, Eq, Hash, Structural)]
pub struct UnresolvedStackHandle(pub u32);

/// One node of the interner: a frame and the chain that it extends.
#[derive(Debug, Clone, Copy, PartialEq, Eq, Hash, Structural)]
pub struct StackNode {
    pub prefix: UnresolvedStackHandle,
    pub frame: StackFrame,
}

/// A small number for the kind and mode of a frame.
pub open spec fn frame_tag(frame: StackFrame) -> int {
    match frame {
        StackFrame::InstructionPointer(_, StackMode::User) => 0,
        StackFrame::InstructionPointer(_, StackMode::Kernel) => 1,
        StackFrame::ReturnAddress(_, StackMode::User) => 2,
        StackFrame::ReturnAddress(_, StackMode::Kernel) => 3,
    }
}

/// The number under which a node is looked up: prefix, tag and address
/// side by side.
pub open spec fn node_key(node: StackNode) -> u128 {
    (node.prefix.0 * 0x4_0000_0000_0000_0000 + frame_tag(node.frame) * 0x1_0000_0000_0000_0000
        + node.frame.spec_address()) as u128
}

/// Different nodes have different keys.
pub proof fn lemma_node_key_is_injective(a: StackNode, b: StackNode)
    requires
        node_key(a) == node_key(b),
    ensures
        a == b,
{
    let ka = a.prefix.0 * 0x4_0000_0000_0000_0000 + frame_tag(a.frame) * 0x1_0000_0000_0000_0000
        + a.frame.spec_address();
    let kb = b.prefix.0 * 0x4_0000_0000_0000_0000 + frame_tag(b.frame) * 0x1_0000_0000_0000_0000
        + b.frame.spec_address();
    assert(0 <= ka <= u128::MAX);
    assert(0 <= kb <= u128::MAX);
    assert(ka == kb);
    assert(frame_tag(a.frame) == frame_tag(b.frame));
    assert(a.frame.spec_address() == b.frame.spec_address());
    assert(a.prefix.0 == b.prefix.0);
}

/// Whether a handle names a chain of these nodes.
pub open spec fn valid_handle(nodes: Seq<StackNode>, handle: UnresolvedStackHandle) -> bool {
    handle.0 == EMPTY_STACK || handle.0 < nodes.len()
}

/// Every node extends the empty chain or an earlier node, no node occurs
/// twice, and the number of the empty chain names no node.
pub open spec fn well_formed(nodes: Seq<StackNode>) -> bool {
    &&& nodes.len() < EMPTY_STACK
    &&& forall|i: int|
        0 <= i < nodes.len() ==> (#[trigger] nodes[i]).prefix.0 == EMPTY_STACK
            || nodes[i].prefix.0 < i
    &&& forall|i: int, j: int|
        0 <= i < nodes.len() && 0 <= j < nodes.len() && #[trigger] nodes[i] == #[trigger] nodes[j]
            ==> i == j
}

/// The frames of the chain that a handle names, the first frame that was
/// interned first.
pub open spec fn chain(nodes: Seq<StackNode>, handle: UnresolvedStackHandle) -> Seq<StackFrame>
    decreases
        (if handle.0 == EMPTY_STACK {
            0
        } else {
            handle.0 + 1
        }),
{
    if handle.0 == EMPTY_STACK || handle.0 >= nodes.len() {
        Seq::empty()
    } else {
        let node = nodes[handle.0 as int];
        if node.prefix.0 == EMPTY_STACK || node.prefix.0 < handle.0 {
            chain(nodes, node.prefix).push(node.frame)
        } else {
            Seq::empty()
        }
    }
}

/// Where a node stands among the nodes, if it does.
pub open spec fn find_node(nodes: Seq<StackNode>, node: StackNode) -> Option<int> {
    if exists|i: int| 0 <= i < nodes.len() && nodes[i] == node {
        Some(choose|i: int| 0 <= i < nodes.len() && nodes[i] == node)
    } else {
        None
    }
}

/// The nodes with `node` among them, and its handle: a node that is there
/// already keeps its place, a new one goes to the end.
pub open spec fn with_node(nodes: Seq<StackNode>, node: StackNode) -> (
    Seq<StackNode>,
    UnresolvedStackHandle,
) {
    match find_node(nodes, node) {
        Some(i) => (nodes, UnresolvedStackHandle(i as u32)),
        None => (nodes.push(node), UnresolvedStackHandle(nodes.len() as u32)),
    }
}

/// The nodes after the chain `prefix` has been extended by `frames`, one
/// frame after the other, and the handle of the extended chain.
pub open spec fn with_chain(
    nodes: Seq<StackNode>,
    prefix: UnresolvedStackHandle,
    frames: Seq<StackFrame>,
) -> (Seq<StackNode>, UnresolvedStackHandle)
    decreases frames.len(),
{
    if frames.len() == 0 {
        (nodes, prefix)
    } else {
        let (extended, handle) = with_node(nodes, StackNode { prefix, frame: frames[0] });
        with_chain(extended, handle, frames.skip(1))
    }
}

/// In well-formed nodes a chain is named by one handle only.
pub proof fn lemma_equal_chains_have_equal_handles(
    nodes: Seq<StackNode>,
    a: UnresolvedStackHandle,
    b: UnresolvedStackHandle,
)
    requires
        well_formed(nodes),
        valid_handle(nodes, a),
        valid_handle(nodes, b),
        chain(nodes, a) == chain(nodes, b),
    ensures
        a == b,
    decreases
        (if a.0 == EMPTY_STACK {
            0
        } else {
            a.0 + 1
        }),
{
    if a.0 == EMPTY_STACK {
        if b.0 != EMPTY_STACK {
            assert(chain(nodes, b).len() > 0);
        }
    } else if b.0 == EMPTY_STACK {
        assert(chain(nodes, a).len() > 0);
    } else {
        let na = nodes[a.0 as int];
        let nb = nodes[b.0 as int];
        let ca = chain(nodes, na.prefix);
        let cb = chain(nodes, nb.prefix);
        assert(chain(nodes, a) == ca.push(na.frame));
        assert(chain(nodes, b) == cb.push(nb.frame));
        assert(ca.push(na.frame).last() == na.frame);
        assert(cb.push(nb.frame).last() == nb.frame);
        assert(ca.push(na.frame).drop_last() == ca);
        assert(cb.push(nb.frame).drop_last() == cb);
        lemma_equal_chains_have_equal_handles(nodes, na.prefix, nb.prefix);
        assert(na == nb);
    }
}

/// Adding a node keeps the nodes well formed and every chain as it was;
/// the node's handle names the chain of its prefix with its frame added.
pub proof fn lemma_with_node(nodes: Seq<StackNode>, node: StackNode)
    requires
        well_formed(nodes),
        valid_handle(nodes, node.prefix),
        nodes.len() + 1 < EMPTY_STACK,
    ensures
        ({
            let (extended, handle) = with_node(nodes, node);
            &&& well_formed(extended)
            &&& handle.0 < extended.len()
            &&& extended[handle.0 as int] == node
            &&& nodes.len() <= extended.len() <= nodes.len() + 1
            &&& extended.take(nodes.len() as int) == nodes
            &&& chain(extended, handle) == chain(nodes, node.prefix).push(node.frame)
            &&& forall|h: UnresolvedStackHandle|
                valid_handle(nodes, h) ==> chain(extended, h) == chain(nodes, h)
            &&& with_node(extended, node) == (extended, handle)
        }),
{
    let (extended, handle) = with_node(nodes, node);
    assert(extended.take(nodes.len() as int) == nodes);
    assert forall|h: UnresolvedStackHandle| valid_handle(nodes, h) implies chain(extended, h)
        == chain(nodes, h) by {
        lemma_chain_of_more_nodes(nodes, extended, h);
    }
    assert(extended[handle.0 as int] == node);
    assert(find_node(extended, node) is Some);
}

/// A chain stays what it is when nodes are added behind those it names.
pub proof fn lemma_chain_of_more_nodes(
    nodes: Seq<StackNode>,
    extended: Seq<StackNode>,
    handle: UnresolvedStackHandle,
)
    requires
        valid_handle(nodes, handle),
        nodes.len() <= extended.len(),
        extended.take(nodes.len() as int) == nodes,
    ensures
        chain(extended, handle) == chain(nodes, handle),
    decreases
        (if handle.0 == EMPTY_STACK {
            0
        } else {
            handle.0 + 1
        }),
{
    if handle.0 != EMPTY_STACK {
        let node = nodes[handle.0 as int];
        assert(extended[handle.0 as int] == extended.take(nodes.len() as int)[handle.0 as int]);
        if node.prefix.0 == EMPTY_STACK || node.prefix.0 < handle.0 {
            lemma_chain_of_more_nodes(nodes, extended, node.prefix);
        }
    }
}

/// Interning a chain keeps the nodes well formed, keeps every handle and
/// the chain it names, and gives a handle that names the chain asked for.
/// Interning the same chain again changes nothing and gives the same
/// handle.
pub proof fn lemma_with_chain(
    nodes: Seq<StackNode>,
    prefix: UnresolvedStackHandle,
    frames: Seq<StackFrame>,
)
    requires
        well_formed(nodes),
        valid_handle(nodes, prefix),
        nodes.len() + frames.len() < EMPTY_STACK,
    ensures
        ({
            let (extended, handle) = with_chain(nodes, prefix, frames);
            &&& well_formed(extended)
            &&& valid_handle(extended, handle)
            &&& nodes.len() <= extended.len() <= nodes.len() + frames.len()
            &&& extended.take(nodes.len() as int) == nodes
            &&& chain(extended, handle) == chain(nodes, prefix) + frames
            &&& forall|h: UnresolvedStackHandle|
                valid_handle(nodes, h) ==> chain(extended, h) == chain(nodes, h)
            &&& with_chain(extended, prefix, frames) == (extended, handle)
        }),
    decreases frames.len(),
{
    if frames.len() == 0 {
        assert(nodes.take(nodes.len() as int) == nodes);
        assert(chain(nodes, prefix) + frames == chain(nodes, prefix));
    } else {
        let node = StackNode { prefix, frame: frames[0] };
        let (middle, step) = with_node(nodes, node);
        lemma_with_node(nodes, node);
        let rest = frames.skip(1);
        let (extended, handle) = with_chain(middle, step, rest);
        lemma_with_chain(middle, step, rest);
        assert(extended.take(nodes.len() as int) == nodes) by {
            assert(extended.take(middle.len() as int).take(nodes.len() as int) == extended.take(
                nodes.len() as int,
            ));
        }
        assert(chain(extended, handle) == chain(nodes, prefix) + frames) by {
            assert(chain(nodes, prefix).push(frames[0]) + rest == chain(nodes, prefix) + frames);
        }
        assert forall|h: UnresolvedStackHandle| valid_handle(nodes, h) implies chain(extended, h)
            == chain(nodes, h) by {
            assert(valid_handle(middle, h));
        }
        // A second pass finds every node of the first.
        assert(extended[step.0 as int] == node) by {
            assert(extended.take(middle.len() as int)[step.0 as int] == extended[step.0 as int]);
        }
        assert(find_node(extended, node) is Some);
        assert(with_node(extended, node) == (extended, step));
    }
}

/// Two chains that are interned one after the other get the same handle
/// exactly if they are the same chain.
pub proof fn lemma_handles_agree_exactly_when_chains_agree(
    nodes: Seq<StackNode>,
    first: Seq<StackFrame>,
    second: Seq<StackFrame>,
)
    requires
        well_formed(nodes),
        nodes.len() + first.len() + second.len() < EMPTY_STACK,
    ensures
        ({
            let empty = UnresolvedStackHandle(EMPTY_STACK);
            let (once, a) = with_chain(nodes, empty, first);
            let (twice, b) = with_chain(once, empty, second);
            (a == b) <==> (first == second)
        }),
{
    let empty = UnresolvedStackHandle(EMPTY_STACK);
    let (once, a) = with_chain(nodes, empty, first);
    lemma_with_chain(nodes, empty, first);
    let (twice, b) = with_chain(once, empty, second);
    lemma_with_chain(once, empty, second);
    assert(chain(nodes, empty) == Seq::<StackFrame>::empty());
    assert(chain(once, empty) == Seq::<StackFrame>::empty());
    assert(chain(once, a) == first) by {
        assert(Seq::<StackFrame>::empty() + first == first);
    }
    assert(chain(twice, b) == second) by {
        assert(Seq::<StackFrame>::empty() + second == second);
    }
    assert(chain(twice, a) == first);
    assert(valid_handle(twice, a));
    if first == second {
        lemma_equal_chains_have_equal_handles(twice, a, b);
    }
}

/// The interner.
pub struct UnresolvedStacks {
    stacks: Vec<StackNode>,
    stack_lookup: HashMap<u128, u32>,
}

impl View for UnresolvedStacks {
    type V = Seq<StackNode>;

    closed spec fn view(&self) -> Seq<StackNode> {
        self.stacks@
    }
}

impl UnresolvedStackHandle {
    /// The handle of the empty chain.
    pub fn empty() -> (handle: Self)
        ensures
            handle.0 == EMPTY_STACK,
    {
        UnresolvedStackHandle(EMPTY_STACK)
    }
}

fn key_of(node: &StackNode) -> (key: u128)
    ensures
        key == node_key(*node),
{
    let tag: u128 = match node.frame {
        StackFrame::InstructionPointer(_, StackMode::User) => 0,
        StackFrame::InstructionPointer(_, StackMode::Kernel) => 1,
        StackFrame::ReturnAddress(_, StackMode::User) => 2,
        StackFrame::ReturnAddress(_, StackMode::Kernel) => 3,
    };
    (node.prefix.0 as u128) * 0x4_0000_0000_0000_0000 + tag * 0x1_0000_0000_0000_0000 + (
    node.frame.address() as u128)
}

impl UnresolvedStacks {
    /// The nodes are well formed and the lookup table holds exactly them.
    pub closed spec fn well_formed(&self) -> bool {
        &&& well_formed(self.stacks@)
        &&& forall|i: int|
            0 <= i < self.stacks@.len() ==> self.stack_lookup@.contains_key(
                node_key(#[trigger] self.stacks@[i]),
            ) && self.stack_lookup@[node_key(self.stacks@[i])] == i
        &&& forall|key: u128| #[trigger]
            self.stack_lookup@.contains_key(key) ==> self.stack_lookup@[key] < self.stacks@.len()
                && node_key(self.stacks@[self.stack_lookup@[key] as int]) == key
    }

    /// A well-formed interner has well-formed nodes.
    pub proof fn lemma_nodes_are_well_formed(&self)
        requires
            self.well_formed(),
        ensures
            well_formed(self@),
    {
    }

    pub fn new() -> (stacks: Self)
        ensures
            stacks.well_formed(),
            stacks@ == Seq::<StackNode>::empty(),
    {
        UnresolvedStacks { stacks: Vec::new(), stack_lookup: HashMap::new() }
    }

    /// The number of nodes.
    pub fn len(&self) -> (n: usize)
        ensures
            n == self@.len(),
    {
        self.stacks.len()
    }

    /// Interns the chain `frames`, whose first frame is the outermost one,
    /// and returns its handle. Gives `None`, and changes nothing, where the
    /// chain may need more nodes than handles are left.
    pub fn convert(&mut self, frames: &Vec<StackFrame>) -> (handle: Option<UnresolvedStackHandle>)
        requires
            old(self).well_formed(),
        ensures
            final(self).well_formed(),
            handle is Some <==> old(self)@.len() + frames@.len() < EMPTY_STACK,
            handle matches Some(h) ==> (final(self)@, h) == with_chain(
                old(self)@,
                UnresolvedStackHandle(EMPTY_STACK),
                frames@,
            ),
            handle is None ==> final(self)@ == old(self)@,
    {
        broadcast use vstd::std_specs::hash::group_hash_axioms;

        if frames.len() >= (EMPTY_STACK as usize) - self.stacks.len() {
            return None;
        }
        let mut prefix = UnresolvedStackHandle(EMPTY_STACK);
        let mut i: usize = 0;
        assert(frames@.skip(0) == frames@);
        while i < frames.len()
            invariant
                i <= frames.len(),
                self.well_formed(),
                valid_handle(self@, prefix),
                self@.len() + (frames.len() - i) < EMPTY_STACK,
                with_chain(self@, prefix, frames@.skip(i as int)) == with_chain(
                    old(self)@,
                    UnresolvedStackHandle(EMPTY_STACK),
                    frames@,
                ),
            decreases frames.len() - i,
        {
            let node = StackNode { prefix, frame: frames[i] };
            let key: u128 = key_of(&node);
            let ghost before = self@;
            proof {
                assert(frames@.skip(i as int)[0] == frames@[i as int]);
                assert(frames@.skip(i as int).skip(1) == frames@.skip(i + 1));
                lemma_with_node(before, node);
            }
            let found = self.stack_lookup.get(&key);
            match found {
                Some(index) => {
                    let index: u32 = *index;
                    proof {
                        lemma_node_key_is_injective(self.stacks@[index as int], node);
                        assert(find_node(before, node) is Some);
                        assert(find_node(before, node) == Some(index as int));
                    }
                    prefix = UnresolvedStackHandle(index);
                },
                None => {
                    proof {
                        if find_node(before, node) is Some {
                            let j = find_node(before, node)->0;
                            assert(self.stack_lookup@.contains_key(node_key(self.stacks@[j])));
                        }
                    }
                    let index: u32 = self.stacks.len() as u32;
                    self.stacks.push(node);
                    self.stack_lookup.insert(key, index);
                    prefix = UnresolvedStackHandle(index);
                    proof {
                        assert(self@ == before.push(node));
                        assert forall|k: int| 0 <= k < self.stacks@.len() implies
                            self.stack_lookup@.contains_key(node_key(#[trigger] self.stacks@[k]))
                            && self.stack_lookup@[node_key(self.stacks@[k])] == k by {
                            if k < before.len() {
                                assert(self.stacks@[k] == before[k]);
                                if node_key(before[k]) == key {
                                    lemma_node_key_is_injective(before[k], node);
                                }
                            }
                        }
                        assert forall|other: u128| #[trigger]
                            self.stack_lookup@.contains_key(other) implies self.stack_lookup@[other]
                            < self.stacks@.len() && node_key(
                            self.stacks@[self.stack_lookup@[other] as int],
                        ) == other by {
                            if other != key {
                                assert(self.stacks@[self.stack_lookup@[other] as int]
                                    == before[self.stack_lookup@[other] as int]);
                            }
                        }
                    }
                },
            }
            i += 1;
        }
        Some(prefix)
    }

    /// The frames of the chain that `handle` names, the outermost frame
    /// first. A handle that names no chain of this interner gives the
    /// empty one.
    pub fn frames_of(&self, handle: UnresolvedStackHandle) -> (frames: Vec<StackFrame>)
        requires
            self.well_formed(),
        ensures
            frames@ == chain(self@, handle),
    {
        let mut reversed: Vec<StackFrame> = Vec::new();
        let mut current = handle;
        while current.0 != EMPTY_STACK && (current.0 as usize) < self.stacks.len()
            invariant
                self.well_formed(),
                chain(self@, handle) == chain(self@, current) + reversed@.reverse(),
            decreases
                (if current.0 == EMPTY_STACK {
                    0
                } else {
                    current.0 + 1
                }),
        {
            let node = self.stacks[current.0 as usize];
            proof {
                let tail = reversed@.reverse();
                assert(reversed@.push(node.frame).reverse() == seq![node.frame] + tail);
                assert(chain(self@, node.prefix).push(node.frame) + tail == chain(
                    self@,
                    node.prefix,
                ) + (seq![node.frame] + tail));
            }
            reversed.push(node.frame);
            current = node.prefix;
        }
        let mut frames: Vec<StackFrame> = Vec::new();
        let mut i: usize = reversed.len();
        assert(reversed@.reverse().take(0) == Seq::<StackFrame>::empty());
        while i > 0
            invariant
                i <= reversed.len(),
                frames@ == reversed@.reverse().take(reversed.len() - i),
            decreases i,
        {
            i -= 1;
            assert(reversed@.reverse()[reversed.len() - i - 1] == reversed@[i as int]);
            assert(reversed@.reverse().take(reversed.len() - i) == reversed@.reverse().take(
                reversed.len() - i - 1,
            ).push(reversed@[i as int]));
            frames.push(reversed[i]);
        }
        assert(reversed@.reverse().take(reversed.len() as int) == reversed@.reverse());
        assert(chain(self@, current) == Seq::<StackFrame>::empty());
        frames
    }
}

} // verus!

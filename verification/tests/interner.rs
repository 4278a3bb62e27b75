use etw_gecko::types::{StackFrame, StackMode};
use etw_gecko::unresolved_stacks::{UnresolvedStackHandle, UnresolvedStacks, EMPTY_STACK};

fn ip(address: u64) -> StackFrame {
    StackFrame::InstructionPointer(address, StackMode::User)
}

fn ra(address: u64) -> StackFrame {
    StackFrame::ReturnAddress(address, StackMode::User)
}

#[test]
fn equal_chains_get_equal_handles() {
    let mut stacks = UnresolvedStacks::new();
    let chain = vec![ra(3), ra(2), ip(1)];
    let first = stacks.convert(&chain).unwrap();
    let nodes = stacks.len();
    let second = stacks.convert(&chain).unwrap();
    assert_eq!(first, second);
    assert_eq!(stacks.len(), nodes);
    let other = stacks.convert(&vec![ra(9)]).unwrap();
    assert_ne!(other, first);
    assert_eq!(stacks.convert(&chain).unwrap(), first);
}

#[test]
fn different_chains_get_different_handles() {
    let mut stacks = UnresolvedStacks::new();
    let chains = vec![
        vec![],
        vec![ip(1)],
        vec![ra(1)],
        vec![StackFrame::InstructionPointer(1, StackMode::Kernel)],
        vec![StackFrame::ReturnAddress(1, StackMode::Kernel)],
        vec![ra(2), ip(1)],
        vec![ra(1), ip(2)],
        vec![ra(2), ra(2), ip(1)],
        vec![ip(u64::MAX)],
        vec![ra(2)],
    ];
    let mut handles: Vec<UnresolvedStackHandle> = Vec::new();
    for chain in &chains {
        handles.push(stacks.convert(chain).unwrap());
    }
    for i in 0..chains.len() {
        for j in 0..chains.len() {
            assert_eq!(handles[i] == handles[j], i == j, "chains {} and {}", i, j);
        }
    }
    for (chain, handle) in chains.iter().zip(handles.iter()) {
        assert_eq!(&stacks.frames_of(*handle), chain);
    }
}

#[test]
fn the_empty_chain_has_the_empty_handle() {
    let mut stacks = UnresolvedStacks::new();
    let handle = stacks.convert(&vec![]).unwrap();
    assert_eq!(handle, UnresolvedStackHandle::empty());
    assert_eq!(handle.0, EMPTY_STACK);
    assert_eq!(stacks.len(), 0);
    assert!(stacks.frames_of(handle).is_empty());
}

#[test]
fn chains_share_their_common_start() {
    let mut stacks = UnresolvedStacks::new();
    let base = stacks.convert(&vec![ra(100), ra(200)]).unwrap();
    assert_eq!(stacks.len(), 2);
    let a = stacks.convert(&vec![ra(100), ra(200), ip(1)]).unwrap();
    assert_eq!(stacks.len(), 3);
    let b = stacks.convert(&vec![ra(100), ra(200), ip(2)]).unwrap();
    assert_eq!(stacks.len(), 4);
    assert_ne!(a, b);
    assert_eq!(stacks.convert(&vec![ra(100), ra(200)]).unwrap(), base);
    // A chain that starts elsewhere shares nothing.
    stacks.convert(&vec![ra(200), ra(100)]).unwrap();
    assert_eq!(stacks.len(), 6);
}

#[test]
fn handles_count_the_nodes() {
    let mut stacks = UnresolvedStacks::new();
    assert_eq!(stacks.convert(&vec![ip(5)]).unwrap(), UnresolvedStackHandle(0));
    assert_eq!(stacks.convert(&vec![ip(5), ip(6)]).unwrap(), UnresolvedStackHandle(1));
    assert_eq!(stacks.convert(&vec![ip(7)]).unwrap(), UnresolvedStackHandle(2));
    assert_eq!(stacks.convert(&vec![ip(5)]).unwrap(), UnresolvedStackHandle(0));
}

#[test]
fn handles_keep_their_chains_when_more_are_interned() {
    let mut stacks = UnresolvedStacks::new();
    let first = stacks.convert(&vec![ra(3), ip(1)]).unwrap();
    for n in 0..50u64 {
        stacks.convert(&vec![ra(3), ra(n), ip(n + 1)]).unwrap();
    }
    assert_eq!(stacks.frames_of(first), vec![ra(3), ip(1)]);
}

#[test]
fn handles_of_no_chain_give_no_frames() {
    let mut stacks = UnresolvedStacks::new();
    stacks.convert(&vec![ip(1)]).unwrap();
    assert!(stacks.frames_of(UnresolvedStackHandle(17)).is_empty());
}

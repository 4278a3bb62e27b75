//! Stack frames and the user/kernel split of the address space.

use vstd::prelude::*;

verus! {

/// Which half of the address space a frame's address belongs to.
#[derive(Clone, Copy, Debug, PartialEq, Eq, Hash, Structural)]
pub enum StackMode {
    User,
    Kernel,
}

/// One frame of a call stack: the sampled instruction pointer at the top,
/// return addresses below it.
#[derive(Clone, Copy, Debug, PartialEq, Eq, Hash, Structural)]
pub enum StackFrame {
    InstructionPointer(u64, StackMode),
    ReturnAddress(u64, StackMode),
}

/// First kernel address of a process with 4-byte pointers.
pub const KERNEL_START_32: u64 = 0x8000_0000;

/// First kernel address of a process with 8-byte pointers.
pub const KERNEL_START_64: u64 = 0xFFFF_0000_0000_0000;

/// Whether `ip` lies in the kernel half of the address space of a process
/// whose pointers are `pointer_size` bytes wide. Every width other than 4
/// is treated as 8.
pub open spec fn kernel_address(ip: u64, pointer_size: u32) -> bool {
    if pointer_size == 4 {
        ip >= KERNEL_START_32
    } else {
        ip >= KERNEL_START_64
    }
}

/// The mode that an address of the given pointer width stands for.
pub open spec fn address_mode(address: u64, pointer_size: u32) -> StackMode {
    if kernel_address(address, pointer_size) {
        StackMode::Kernel
    } else {
        StackMode::User
    }
}

pub fn is_kernel_address(ip: u64, pointer_size: u32) -> (kernel: bool)
    ensures
        kernel == kernel_address(ip, pointer_size),
{
    if pointer_size == 4 {
        return ip >= KERNEL_START_32;
    }
    ip >= KERNEL_START_64
}

pub fn stack_mode_for_address(address: u64, pointer_size: u32) -> (mode: StackMode)
    ensures
        mode == address_mode(address, pointer_size),
{
    if is_kernel_address(address, pointer_size) {
        StackMode::Kernel
    } else {
        StackMode::User
    }
}

impl StackFrame {
    /// The address the frame holds.
    pub open spec fn spec_address(self) -> u64 {
        match self {
            StackFrame::InstructionPointer(a, _) => a,
            StackFrame::ReturnAddress(a, _) => a,
        }
    }

    /// The mode the frame holds.
    pub open spec fn spec_mode(self) -> StackMode {
        match self {
            StackFrame::InstructionPointer(_, m) => m,
            StackFrame::ReturnAddress(_, m) => m,
        }
    }

    #[verifier::when_used_as_spec(spec_address)]
    pub fn address(self) -> (a: u64)
        ensures
            a == self.spec_address(),
    {
        match self {
            StackFrame::InstructionPointer(a, _) => a,
            StackFrame::ReturnAddress(a, _) => a,
        }
    }

    #[verifier::when_used_as_spec(spec_mode)]
    pub fn mode(self) -> (m: StackMode)
        ensures
            m == self.spec_mode(),
    {
        match self {
            StackFrame::InstructionPointer(_, m) => m,
            StackFrame::ReturnAddress(_, m) => m,
        }
    }
}

} // verus!

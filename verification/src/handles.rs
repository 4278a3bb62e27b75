//! Handles for the things that the engine asks the profile to create.
//!
//! The engine numbers what it creates. The number of a handle counts the
//! creations of its kind that came before it: the first thread that the
//! engine adds is `ThreadHandle(0)`, the next `ThreadHandle(1)`.

use vstd::prelude::*;

verus! {

#[derive(Debug, Clone, Copy, PartialEq, Eq, Hash, Structural)]
pub struct ProcessHandle(pub usize);

#[derive(Debug, Clone, Copy, PartialEq, Eq, Hash, Structural)]
pub struct ThreadHandle(pub usize);

#[derive(Debug, Clone, Copy, PartialEq, Eq, Hash, Structural)]
pub struct LibraryHandle(pub usize);

#[derive(Debug, Clone, Copy, PartialEq, Eq, Hash, Structural)]
pub struct CategoryHandle(pub usize);

#[derive(Debug, Clone, Copy, PartialEq, Eq, Hash, Structural)]
pub struct CounterHandle(pub usize);

#[derive(Debug, Clone, Copy, PartialEq, Eq, Hash, Structural)]
pub struct StringHandle(pub usize);

impl View for CategoryHandle {
    type V = CategoryHandle;

    open spec fn view(&self) -> CategoryHandle {
        *self
    }
}

impl View for CounterHandle {
    type V = CounterHandle;

    open spec fn view(&self) -> CounterHandle {
        *self
    }
}

impl View for StringHandle {
    type V = StringHandle;

    open spec fn view(&self) -> StringHandle {
        *self
    }
}

} // verus!

//! A shareable mutable cell for copyable values.
use vstd::prelude::*;
use vstd::cell::invcell::InvCell;
use vstd::predicate::Predicate;

verus! {

/// Any value may be stored.
pub struct AnyValue;

impl<T> Predicate<T> for AnyValue {
    open spec fn predicate(&self, v: T) -> bool {
        true
    }
}

/// A cell whose value can be read and replaced through a shared reference.
pub struct Cell<T> {
    value: InvCell<T, AnyValue>,
}

impl<T> Cell<T> {
    pub fn new(value: T) -> Self {
        Cell { value: InvCell::new(value, Ghost(AnyValue)) }
    }

    /// A copy of the current value.
    pub fn get(&self) -> T where T: Copy {
        self.value.get()
    }

    /// Replaces the current value.
    pub fn set(&self, value: T) {
        self.value.set(value)
    }
}

} // verus!

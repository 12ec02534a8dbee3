//! Values tied to the allocation scope of a frame.

use vstd::prelude::*;

verus! {

/// A value that lives for the scope of a frame's temporary allocations.
#[derive(Clone)]
pub struct Scope<T> {
    value: T,
}

impl<T> Scope<T> {
    /// The value held.
    pub closed spec fn value(&self) -> T {
        self.value
    }

    /// Wraps a value.
    pub fn new(value: T) -> (r: Self)
        ensures
            r.value() == value,
    {
        Scope { value }
    }

    /// A shared reference to the value.
    pub fn borrow(&self) -> (r: &T)
        ensures
            *r == self.value(),
    {
        &self.value
    }

    /// A mutable reference to the value.
    pub fn borrow_mut(&mut self) -> (r: &mut T)
        ensures
            *r == old(self).value(),
            final(self).value() == *final(r),
    {
        &mut self.value
    }
}

} // verus!

//! Identifiers of loaded stylesheets.

use vstd::prelude::*;

verus! {

/// Identifies a stylesheet by its position in the loader, counted from one so that the
/// identifier is never zero.
#[derive(Debug, Clone, Copy, PartialEq, Eq, Structural)]
pub struct SheetId(usize);

impl SheetId {
    /// The identifier's value: the position plus one.
    pub closed spec fn value(self) -> usize {
        self.0
    }

    /// The identifier of the stylesheet at `position` in the loader.
    pub fn from_position(position: usize) -> (r: SheetId)
        requires
            position < usize::MAX,
        ensures
            r.value() == position + 1,
    {
        SheetId(position + 1)
    }

    /// The position of the stylesheet in the loader.
    pub fn position(self) -> (r: usize)
        requires
            self.value() != 0,
        ensures
            r == self.value() - 1,
    {
        self.0 - 1
    }
}

} // verus!

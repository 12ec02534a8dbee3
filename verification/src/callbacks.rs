//! Callback-related types: the events nodes can listen to, the render phase a callback
//! asks to go back to, and the pointer buttons reported with pointer events.

use vstd::prelude::*;

verus! {

/// A list of events that Nodes can register callbacks for.
#[non_exhaustive]
#[derive(Clone, Copy, Debug, PartialEq, Eq, Structural)]
pub enum On {
    /// Can be used by widgets to signal that they have changed.
    Change,
    PointerDown,
    PointerUp,
    PointerMove,
    PointerEnter,
    PointerLeave,
    PointerWheel,
    Keyboard,
    Focus,
    Blur,
    WindowFocus,
    WindowBlur,
    WindowClose,
}

/// A return type for callbacks to signal which render phase to skip to.
#[must_use]
#[derive(Debug, Copy, PartialEq, Eq, Structural, PartialOrd, Ord, Clone)]
pub enum Phase {
    Idle,
    Draw,
    Layout,
    Build,
}

/// The rank of a phase: later phases redo more work.
pub open spec fn phase_rank(p: Phase) -> int {
    match p {
        Phase::Idle => 0,
        Phase::Draw => 1,
        Phase::Layout => 2,
        Phase::Build => 3,
    }
}

impl Phase {
    fn rank(self) -> (r: u8)
        ensures
            r == phase_rank(self),
    {
        match self {
            Phase::Idle => 0,
            Phase::Draw => 1,
            Phase::Layout => 2,
            Phase::Build => 3,
        }
    }

    /// Keeps the later of the two phases.
    pub fn update(&mut self, other: Phase)
        ensures
            *final(self) == if phase_rank(other) > phase_rank(*old(self)) {
                other
            } else {
                *old(self)
            },
    {
        if other.rank() > self.rank() {
            *self = other;
        }
    }
}

/// A return type for tasks and animations to signal if they should stop running.
#[derive(Debug, Clone, Copy, PartialEq, Eq, Structural)]
pub enum ShouldStop {
    Yes,
    No,
}

/// A button of a pointer device.
#[derive(PartialEq, Eq, Structural, Clone, Copy, Debug)]
pub enum PointerButton {
    /// No button.
    NoButton,
    Left,
    Right,
    Middle,
    X1,
    X2,
}

impl PointerButton {
    /// Returns `true` if this is `PointerButton::Left`.
    pub fn is_left(self) -> (r: bool)
        ensures
            r == (self == PointerButton::Left),
    {
        self == PointerButton::Left
    }

    /// Returns `true` if this is `PointerButton::Right`.
    pub fn is_right(self) -> (r: bool)
        ensures
            r == (self == PointerButton::Right),
    {
        self == PointerButton::Right
    }

    /// Returns `true` if this is `PointerButton::Middle`.
    pub fn is_middle(self) -> (r: bool)
        ensures
            r == (self == PointerButton::Middle),
    {
        self == PointerButton::Middle
    }

    /// Returns `true` if this is `PointerButton::X1`.
    pub fn is_x1(self) -> (r: bool)
        ensures
            r == (self == PointerButton::X1),
    {
        self == PointerButton::X1
    }

    /// Returns `true` if this is `PointerButton::X2`.
    pub fn is_x2(self) -> (r: bool)
        ensures
            r == (self == PointerButton::X2),
    {
        self == PointerButton::X2
    }
}

/// The bit of a button in a [`PointerButtons`] set: bit `n` for the button with code
/// `n`, and none for `NoButton`.
pub open spec fn button_bit(button: PointerButton) -> u8 {
    match button {
        PointerButton::NoButton => 0,
        PointerButton::Left => 2,
        PointerButton::Right => 4,
        PointerButton::Middle => 8,
        PointerButton::X1 => 16,
        PointerButton::X2 => 32,
    }
}

/// A set of pointer buttons, one bit per button.
#[derive(PartialEq, Eq, Structural, Clone, Copy, Default)]
pub struct PointerButtons(u8);

/// The buttons whose bits are set in `bits`.
pub open spec fn buttons_of_bits(bits: u8) -> Set<PointerButton> {
    Set::new(|b: PointerButton| b != PointerButton::NoButton && bits & button_bit(b) != 0)
}

proof fn lemma_bits(x: u8, y: u8)
    by (bit_vector)
    ensures
        x & 0 == 0,
        (x | y) & 2 != 0 <==> (x & 2 != 0 || y & 2 != 0),
        (x | y) & 4 != 0 <==> (x & 4 != 0 || y & 4 != 0),
        (x | y) & 8 != 0 <==> (x & 8 != 0 || y & 8 != 0),
        (x | y) & 16 != 0 <==> (x & 16 != 0 || y & 16 != 0),
        (x | y) & 32 != 0 <==> (x & 32 != 0 || y & 32 != 0),
        (x & !y) & 2 != 0 <==> (x & 2 != 0 && y & 2 == 0),
        (x & !y) & 4 != 0 <==> (x & 4 != 0 && y & 4 == 0),
        (x & !y) & 8 != 0 <==> (x & 8 != 0 && y & 8 == 0),
        (x & !y) & 16 != 0 <==> (x & 16 != 0 && y & 16 == 0),
        (x & !y) & 32 != 0 <==> (x & 32 != 0 && y & 32 == 0),
        x & 193 == 0 && y & 193 == 0 ==> (x | y) & 193 == 0,
        x & 193 == 0 ==> (x & !y) & 193 == 0,
        x & 193 == 0 ==> (x == 0 <==> (x & 2 == 0 && x & 4 == 0 && x & 8 == 0 && x & 16 == 0 && x & 32 == 0)),
        x & 193 == 0 && y & 193 == 0 ==> ((x & y == y) <==> ((y & 2 != 0 ==> x & 2 != 0) && (y & 4 != 0 ==> x & 4 != 0) && (y & 8
            != 0 ==> x & 8 != 0) && (y & 16 != 0 ==> x & 16 != 0) && (y & 32 != 0 ==> x & 32 != 0))),
{
}

proof fn lemma_bit_constants()
    by (bit_vector)
    ensures
        0u8 & 193 == 0 && 2u8 & 193 == 0 && 4u8 & 193 == 0 && 8u8 & 193 == 0 && 16u8 & 193 == 0 && 32u8 & 193 == 0,
        0u8 & 2 == 0 && 0u8 & 4 == 0 && 0u8 & 8 == 0 && 0u8 & 16 == 0 && 0u8 & 32 == 0,
        2u8 & 2 != 0 && 2u8 & 4 == 0 && 2u8 & 8 == 0 && 2u8 & 16 == 0 && 2u8 & 32 == 0,
        4u8 & 2 == 0 && 4u8 & 4 != 0 && 4u8 & 8 == 0 && 4u8 & 16 == 0 && 4u8 & 32 == 0,
        8u8 & 2 == 0 && 8u8 & 4 == 0 && 8u8 & 8 != 0 && 8u8 & 16 == 0 && 8u8 & 32 == 0,
        16u8 & 2 == 0 && 16u8 & 4 == 0 && 16u8 & 8 == 0 && 16u8 & 16 != 0 && 16u8 & 32 == 0,
        32u8 & 2 == 0 && 32u8 & 4 == 0 && 32u8 & 8 == 0 && 32u8 & 16 == 0 && 32u8 & 32 != 0,
{
}

proof fn lemma_single(b: PointerButton)
    ensures
        button_bit(b) & 193 == 0,
        buttons_of_bits(button_bit(b)) == (if b == PointerButton::NoButton {
            Set::<PointerButton>::empty()
        } else {
            Set::<PointerButton>::empty().insert(b)
        }),
{
    lemma_bit_constants();
    assert(buttons_of_bits(button_bit(b)) =~= (if b == PointerButton::NoButton {
        Set::<PointerButton>::empty()
    } else {
        Set::<PointerButton>::empty().insert(b)
    }));
}

proof fn lemma_union_bits(x: u8, y: u8)
    ensures
        buttons_of_bits(x | y) == buttons_of_bits(x).union(buttons_of_bits(y)),
{
    lemma_bits(x, y);
    assert(buttons_of_bits(x | y) =~= buttons_of_bits(x).union(buttons_of_bits(y)));
}

proof fn lemma_diff_bits(x: u8, y: u8)
    ensures
        buttons_of_bits(x & !y) == buttons_of_bits(x).difference(buttons_of_bits(y)),
{
    lemma_bits(x, y);
    assert(buttons_of_bits(x & !y) =~= buttons_of_bits(x).difference(buttons_of_bits(y)));
}

impl View for PointerButtons {
    type V = Set<PointerButton>;

    closed spec fn view(&self) -> Set<PointerButton> {
        buttons_of_bits(self.0)
    }
}

impl PointerButtons {
    /// Only the bits of the five buttons are ever set.
    pub closed spec fn wf(self) -> bool {
        self.0 & 193 == 0
    }

    /// Create a new empty set.
    pub fn new() -> (r: PointerButtons)
        ensures
            r.wf(),
            r@ == Set::<PointerButton>::empty(),
    {
        proof {
            lemma_single(PointerButton::NoButton);
        }
        PointerButtons(0)
    }

    fn mask(button: PointerButton) -> (r: u8)
        ensures
            r == button_bit(button),
    {
        match button {
            PointerButton::NoButton => 0,
            PointerButton::Left => 2,
            PointerButton::Right => 4,
            PointerButton::Middle => 8,
            PointerButton::X1 => 16,
            PointerButton::X2 => 32,
        }
    }

    /// Add the `button` to the set.
    pub fn insert(&mut self, button: PointerButton)
        requires
            old(self).wf(),
        ensures
            final(self).wf(),
            final(self)@ == (if button == PointerButton::NoButton {
                old(self)@
            } else {
                old(self)@.insert(button)
            }),
    {
        let m = Self::mask(button);
        proof {
            lemma_bits(self.0, m);
            lemma_single(button);
            lemma_union_bits(self.0, m);
        }
        self.0 = self.0 | m;
        assert(self@ =~= (if button == PointerButton::NoButton {
            old(self)@
        } else {
            old(self)@.insert(button)
        }));
    }

    /// Remove the `button` from the set.
    pub fn remove(&mut self, button: PointerButton)
        requires
            old(self).wf(),
        ensures
            final(self).wf(),
            final(self)@ == old(self)@.remove(button),
    {
        let m = Self::mask(button);
        proof {
            lemma_bits(self.0, m);
            lemma_single(button);
            lemma_diff_bits(self.0, m);
        }
        self.0 = self.0 & !m;
        assert(self@ =~= old(self)@.remove(button));
    }

    /// Builder-style method for adding the `button` to the set.
    pub fn with(self, button: PointerButton) -> (r: PointerButtons)
        requires
            self.wf(),
        ensures
            r.wf(),
            r@ == (if button == PointerButton::NoButton {
                self@
            } else {
                self@.insert(button)
            }),
    {
        let mut s = self;
        s.insert(button);
        s
    }

    /// Builder-style method for removing the `button` from the set.
    pub fn without(self, button: PointerButton) -> (r: PointerButtons)
        requires
            self.wf(),
        ensures
            r.wf(),
            r@ == self@.remove(button),
    {
        let mut s = self;
        s.remove(button);
        s
    }

    /// Returns `true` if the `button` is in the set.
    pub fn contains(self, button: PointerButton) -> (r: bool)
        requires
            self.wf(),
        ensures
            r == self@.contains(button),
    {
        let m = Self::mask(button);
        proof {
            lemma_single(button);
            lemma_bits(self.0, 0);
        }
        (self.0 & m) != 0
    }

    /// Returns `true` if the set is empty.
    pub fn is_empty(self) -> (r: bool)
        requires
            self.wf(),
        ensures
            r == (self@ == Set::<PointerButton>::empty()),
    {
        proof {
            lemma_bits(self.0, 0);
            if self.0 != 0 {
                if self.0 & 2 != 0 {
                    assert(self@.contains(PointerButton::Left));
                } else if self.0 & 4 != 0 {
                    assert(self@.contains(PointerButton::Right));
                } else if self.0 & 8 != 0 {
                    assert(self@.contains(PointerButton::Middle));
                } else if self.0 & 16 != 0 {
                    assert(self@.contains(PointerButton::X1));
                } else {
                    assert(self@.contains(PointerButton::X2));
                }
            } else {
                lemma_bit_constants();
                assert(self@ =~= Set::<PointerButton>::empty());
            }
        }
        self.0 == 0
    }

    /// Returns `true` if all the `buttons` are in the set.
    pub fn is_superset(self, buttons: PointerButtons) -> (r: bool)
        requires
            self.wf(),
            buttons.wf(),
        ensures
            r == buttons@.subset_of(self@),
    {
        proof {
            lemma_bits(self.0, buttons.0);
            if !((self.0 & buttons.0) == buttons.0) {
                if buttons.0 & 2 != 0 && self.0 & 2 == 0 {
                    assert(buttons@.contains(PointerButton::Left));
                } else if buttons.0 & 4 != 0 && self.0 & 4 == 0 {
                    assert(buttons@.contains(PointerButton::Right));
                } else if buttons.0 & 8 != 0 && self.0 & 8 == 0 {
                    assert(buttons@.contains(PointerButton::Middle));
                } else if buttons.0 & 16 != 0 && self.0 & 16 == 0 {
                    assert(buttons@.contains(PointerButton::X1));
                } else {
                    assert(buttons@.contains(PointerButton::X2));
                }
            }
        }
        (self.0 & buttons.0) == buttons.0
    }

    /// Returns `true` if `PointerButton::Left` is in the set.
    pub fn has_left(self) -> (r: bool)
        requires
            self.wf(),
        ensures
            r == self@.contains(PointerButton::Left),
    {
        self.contains(PointerButton::Left)
    }

    /// Returns `true` if `PointerButton::Right` is in the set.
    pub fn has_right(self) -> (r: bool)
        requires
            self.wf(),
        ensures
            r == self@.contains(PointerButton::Right),
    {
        self.contains(PointerButton::Right)
    }

    /// Returns `true` if `PointerButton::Middle` is in the set.
    pub fn has_middle(self) -> (r: bool)
        requires
            self.wf(),
        ensures
            r == self@.contains(PointerButton::Middle),
    {
        self.contains(PointerButton::Middle)
    }

    /// Returns `true` if `PointerButton::X1` is in the set.
    pub fn has_x1(self) -> (r: bool)
        requires
            self.wf(),
        ensures
            r == self@.contains(PointerButton::X1),
    {
        self.contains(PointerButton::X1)
    }

    /// Returns `true` if `PointerButton::X2` is in the set.
    pub fn has_x2(self) -> (r: bool)
        requires
            self.wf(),
        ensures
            r == self@.contains(PointerButton::X2),
    {
        self.contains(PointerButton::X2)
    }

    /// Adds all the `buttons` to the set.
    pub fn extend(&mut self, buttons: PointerButtons)
        requires
            old(self).wf(),
            buttons.wf(),
        ensures
            final(self).wf(),
            final(self)@ == old(self)@.union(buttons@),
    {
        proof {
            lemma_bits(self.0, buttons.0);
            lemma_union_bits(self.0, buttons.0);
        }
        self.0 = self.0 | buttons.0;
        assert(self@ =~= old(self)@.union(buttons@));
    }

    /// Returns a union of the values in `self` and `other`.
    pub fn union(self, other: PointerButtons) -> (r: PointerButtons)
        requires
            self.wf(),
            other.wf(),
        ensures
            r.wf(),
            r@ == self@.union(other@),
    {
        let mut s = self;
        s.extend(other);
        s
    }

    /// Clear the set.
    pub fn clear(&mut self)
        ensures
            final(self).wf(),
            final(self)@ == Set::<PointerButton>::empty(),
    {
        *self = Self::new();
    }
}

proof fn lemma_same_bits(x: u8, y: u8)
    by (bit_vector)
    ensures
        x & 193 == 0 && y & 193 == 0 ==> (x == y <==> ((x & 2 != 0) == (y & 2 != 0) && (x & 4 != 0) == (y & 4 != 0) && (x
            & 8 != 0) == (y & 8 != 0) && (x & 16 != 0) == (y & 16 != 0) && (x & 32 != 0) == (y & 32 != 0))),
{
}

/// Two well-formed sets are equal exactly when they hold the same buttons.
pub proof fn law_buttons_equal_iff_same(a: PointerButtons, b: PointerButtons)
    requires
        a.wf(),
        b.wf(),
    ensures
        (a == b) <==> (a@ == b@),
{
    lemma_same_bits(a.0, b.0);
    if a@ == b@ {
        assert(a@.contains(PointerButton::Left) == b@.contains(PointerButton::Left));
        assert(a@.contains(PointerButton::Right) == b@.contains(PointerButton::Right));
        assert(a@.contains(PointerButton::Middle) == b@.contains(PointerButton::Middle));
        assert(a@.contains(PointerButton::X1) == b@.contains(PointerButton::X1));
        assert(a@.contains(PointerButton::X2) == b@.contains(PointerButton::X2));
    }
}

/// The union of two sets does not depend on their order, and holds exactly the buttons
/// of either.
pub proof fn law_union_commutes(a: PointerButtons, b: PointerButtons, x: PointerButtons, y: PointerButtons)
    requires
        a.wf(),
        b.wf(),
        x.wf(),
        y.wf(),
        x@ == a@.union(b@),
        y@ == b@.union(a@),
    ensures
        x == y,
        forall|p: PointerButton| x@.contains(p) == (a@.contains(p) || b@.contains(p)),
{
    assert(a@.union(b@) =~= b@.union(a@));
    law_buttons_equal_iff_same(x, y);
}

/// Adding a button and then removing it gives back the set without that button; a set
/// holds a button after it is added.
pub proof fn law_callbacks_insert_remove(s: Set<PointerButton>, b: PointerButton)
    requires
        b != PointerButton::NoButton,
    ensures
        s.insert(b).contains(b),
        s.insert(b).remove(b) == s.remove(b),
{
    assert(s.insert(b).remove(b) =~= s.remove(b));
}

} // verus!

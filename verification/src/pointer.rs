//! Pointer input types used by the event system.

use vstd::prelude::*;

verus! {

/// Identifies a specific button on a pointer device.
#[derive(PartialEq, Eq, Structural, Clone, Copy, Debug, Default)]
pub enum PointerButton {
    #[default]
    NoButton,
    /// The primary pointer button, usually the left mouse button.
    Primary,
    /// The secondary pointer button, usually the right mouse button.
    Secondary,
    /// The auxiliary pointer button, usually the wheel or middle mouse button.
    Auxiliary,
    /// The fourth pointer button, usually the back button.
    X1,
    /// The fifth pointer button, usually the forward button.
    X2,
}

/// The numeric code of a button: `None` is 0, `Primary` is 1, up to `X2` which is 5.
pub open spec fn button_code(button: PointerButton) -> u8 {
    match button {
        PointerButton::NoButton => 0,
        PointerButton::Primary => 1,
        PointerButton::Secondary => 2,
        PointerButton::Auxiliary => 3,
        PointerButton::X1 => 4,
        PointerButton::X2 => 5,
    }
}

/// The bit that stands for `button` in a [`PointerButtons`] set; `None` has no bit.
pub open spec fn button_bit(button: PointerButton) -> u8 {
    match button {
        PointerButton::NoButton => 0,
        PointerButton::Primary => 1,
        PointerButton::Secondary => 2,
        PointerButton::Auxiliary => 4,
        PointerButton::X1 => 8,
        PointerButton::X2 => 16,
    }
}

/// The button that a platform code stands for; unknown codes give `NoButton`.
pub open spec fn button_from_code(value: int) -> PointerButton {
    if value == 1 {
        PointerButton::Primary
    } else if value == 2 {
        PointerButton::Secondary
    } else if value == 3 {
        PointerButton::Auxiliary
    } else if value == 4 {
        PointerButton::X1
    } else if value == 5 {
        PointerButton::X2
    } else {
        PointerButton::NoButton
    }
}

impl From<isize> for PointerButton {
    /// Converts a platform button code (0 to 5) to a button; any other code is `NoButton`.
    fn from(value: isize) -> (r: Self) {
        match value {
            0 => PointerButton::NoButton,
            1 => PointerButton::Primary,
            2 => PointerButton::Secondary,
            3 => PointerButton::Auxiliary,
            4 => PointerButton::X1,
            5 => PointerButton::X2,
            _ => PointerButton::NoButton,
        }
    }
}

impl vstd::std_specs::convert::FromSpecImpl<isize> for PointerButton {
    open spec fn obeys_from_spec() -> bool {
        true
    }

    open spec fn from_spec(v: isize) -> PointerButton {
        button_from_code(v as int)
    }
}

impl PointerButton {
    /// The numeric code of this button.
    pub fn code(self) -> (r: u8)
        ensures
            r == button_code(self),
    {
        match self {
            PointerButton::NoButton => 0,
            PointerButton::Primary => 1,
            PointerButton::Secondary => 2,
            PointerButton::Auxiliary => 3,
            PointerButton::X1 => 4,
            PointerButton::X2 => 5,
        }
    }

    /// Returns `true` if this is [`PointerButton::Primary`].
    pub fn is_primary(self) -> (r: bool)
        ensures
            r == (self == PointerButton::Primary),
    {
        self == PointerButton::Primary
    }

    /// Returns `true` if this is [`PointerButton::Secondary`].
    pub fn is_secondary(self) -> (r: bool)
        ensures
            r == (self == PointerButton::Secondary),
    {
        self == PointerButton::Secondary
    }

    /// Returns `true` if this is [`PointerButton::Auxiliary`].
    pub fn is_auxiliary(self) -> (r: bool)
        ensures
            r == (self == PointerButton::Auxiliary),
    {
        self == PointerButton::Auxiliary
    }

    /// Returns `true` if this is [`PointerButton::X1`].
    pub fn is_x1(self) -> (r: bool)
        ensures
            r == (self == PointerButton::X1),
    {
        self == PointerButton::X1
    }

    /// Returns `true` if this is [`PointerButton::X2`].
    pub fn is_x2(self) -> (r: bool)
        ensures
            r == (self == PointerButton::X2),
    {
        self == PointerButton::X2
    }
}

/// A set of pressed pointer buttons, one bit per button.
#[derive(PartialEq, Eq, Structural, Clone, Copy)]
pub struct PointerButtons(u8);

/// The set of buttons whose bits are set in `bits`.
pub open spec fn buttons_of_bits(bits: u8) -> Set<PointerButton> {
    Set::new(|b: PointerButton| b != PointerButton::NoButton && bits & button_bit(b) != 0)
}

proof fn lemma_bit_cases(x: u8, y: u8)
    by (bit_vector)
    ensures
        (x | y) & 1 != 0 <==> (x & 1 != 0 || y & 1 != 0),
        (x | y) & 2 != 0 <==> (x & 2 != 0 || y & 2 != 0),
        (x | y) & 4 != 0 <==> (x & 4 != 0 || y & 4 != 0),
        (x | y) & 8 != 0 <==> (x & 8 != 0 || y & 8 != 0),
        (x | y) & 16 != 0 <==> (x & 16 != 0 || y & 16 != 0),
        (x & !y) & 1 != 0 <==> (x & 1 != 0 && y & 1 == 0),
        (x & !y) & 2 != 0 <==> (x & 2 != 0 && y & 2 == 0),
        (x & !y) & 4 != 0 <==> (x & 4 != 0 && y & 4 == 0),
        (x & !y) & 8 != 0 <==> (x & 8 != 0 && y & 8 == 0),
        (x & !y) & 16 != 0 <==> (x & 16 != 0 && y & 16 == 0),
        x < 32 && y < 32 ==> (x | y) < 32,
        x < 32 ==> (x & !y) < 32,
        x < 32 ==> (x == 0 <==> (x & 1 == 0 && x & 2 == 0 && x & 4 == 0 && x & 8 == 0
            && x & 16 == 0)),
        x < 32 && y < 32 ==> (x == y <==> ((x & 1 != 0) == (y & 1 != 0) && (x & 2 != 0) == (y
            & 2 != 0) && (x & 4 != 0) == (y & 4 != 0) && (x & 8 != 0) == (y & 8 != 0) && (x & 16
            != 0) == (y & 16 != 0))),
        x < 32 && y < 32 ==> ((x & y == y) <==> ((y & 1 != 0 ==> x & 1 != 0) && (y & 2 != 0
            ==> x & 2 != 0) && (y & 4 != 0 ==> x & 4 != 0) && (y & 8 != 0 ==> x & 8 != 0) && (y
            & 16 != 0 ==> x & 16 != 0))),
        (x & 31) < 32,
        (x & 31) & 1 == x & 1,
        (x & 31) & 2 == x & 2,
        (x & 31) & 4 == x & 4,
        (x & 31) & 8 == x & 8,
        (x & 31) & 16 == x & 16,
        x & 0 == 0,
        x | 0 == x,
        x & !0u8 == x,
{
}

proof fn lemma_bit_of(x: u8, b: PointerButton)
    ensures
        buttons_of_bits(x).contains(b) <==> (match b {
            PointerButton::NoButton => false,
            PointerButton::Primary => x & 1 != 0,
            PointerButton::Secondary => x & 2 != 0,
            PointerButton::Auxiliary => x & 4 != 0,
            PointerButton::X1 => x & 8 != 0,
            PointerButton::X2 => x & 16 != 0,
        }),
{
}

proof fn lemma_union_bits(x: u8, y: u8)
    ensures
        buttons_of_bits(x | y) == buttons_of_bits(x).union(buttons_of_bits(y)),
{
    lemma_bit_cases(x, y);
    assert forall|b: PointerButton|
        buttons_of_bits(x | y).contains(b) == buttons_of_bits(x).union(buttons_of_bits(y)).contains(
            b,
        ) by {
        lemma_bit_of(x | y, b);
        lemma_bit_of(x, b);
        lemma_bit_of(y, b);
    }
    assert(buttons_of_bits(x | y) =~= buttons_of_bits(x).union(buttons_of_bits(y)));
}

proof fn lemma_diff_bits(x: u8, y: u8)
    ensures
        buttons_of_bits(x & !y) == buttons_of_bits(x).difference(buttons_of_bits(y)),
{
    lemma_bit_cases(x, y);
    assert forall|b: PointerButton|
        buttons_of_bits(x & !y).contains(b) == buttons_of_bits(x).difference(
            buttons_of_bits(y),
        ).contains(b) by {
        lemma_bit_of(x & !y, b);
        lemma_bit_of(x, b);
        lemma_bit_of(y, b);
    }
    assert(buttons_of_bits(x & !y) =~= buttons_of_bits(x).difference(buttons_of_bits(y)));
}

proof fn lemma_bit_constants()
    by (bit_vector)
    ensures
        1u8 & 1 != 0 && 1u8 & 2 == 0 && 1u8 & 4 == 0 && 1u8 & 8 == 0 && 1u8 & 16 == 0,
        2u8 & 1 == 0 && 2u8 & 2 != 0 && 2u8 & 4 == 0 && 2u8 & 8 == 0 && 2u8 & 16 == 0,
        4u8 & 1 == 0 && 4u8 & 2 == 0 && 4u8 & 4 != 0 && 4u8 & 8 == 0 && 4u8 & 16 == 0,
        8u8 & 1 == 0 && 8u8 & 2 == 0 && 8u8 & 4 == 0 && 8u8 & 8 != 0 && 8u8 & 16 == 0,
        16u8 & 1 == 0 && 16u8 & 2 == 0 && 16u8 & 4 == 0 && 16u8 & 8 == 0 && 16u8 & 16 != 0,
        0u8 & 1 == 0 && 0u8 & 2 == 0 && 0u8 & 4 == 0 && 0u8 & 8 == 0 && 0u8 & 16 == 0,
        1u8 << 0u8 == 1 && 1u8 << 1u8 == 2 && 1u8 << 2u8 == 4 && 1u8 << 3u8 == 8 && 1u8 << 4u8 == 16,
{
}

proof fn lemma_single_bit(b: PointerButton)
    ensures
        buttons_of_bits(button_bit(b)) == (if b == PointerButton::NoButton {
            Set::<PointerButton>::empty()
        } else {
            Set::<PointerButton>::empty().insert(b)
        }),
{
    lemma_bit_constants();
    assert forall|c: PointerButton|
        buttons_of_bits(button_bit(b)).contains(c) == (if b == PointerButton::NoButton {
            Set::<PointerButton>::empty()
        } else {
            Set::<PointerButton>::empty().insert(b)
        }).contains(c) by {
        lemma_bit_of(button_bit(b), c);
    }
    assert(buttons_of_bits(button_bit(b)) =~= (if b == PointerButton::NoButton {
        Set::<PointerButton>::empty()
    } else {
        Set::<PointerButton>::empty().insert(b)
    }));
}

impl View for PointerButtons {
    type V = Set<PointerButton>;

    closed spec fn view(&self) -> Set<PointerButton> {
        buttons_of_bits(self.0)
    }
}

impl PointerButtons {
    /// Only the five low bits, one per button, are ever set.
    pub closed spec fn wf(self) -> bool {
        self.0 < 32
    }

    /// Creates an empty set of buttons.
    pub fn empty() -> (r: PointerButtons)
        ensures
            r.wf(),
            r@ == Set::<PointerButton>::empty(),
    {
        proof {
            lemma_bit_cases(0, 0);
        }
        let r = PointerButtons(0);
        assert(r@ =~= Set::<PointerButton>::empty());
        r
    }

    /// The bit of `button` in the set; `None` has no bit.
    fn mask(button: PointerButton) -> (r: u8)
        ensures
            r == button_bit(button),
    {
        match button {
            PointerButton::NoButton => 0,
            _ => {
                let shift = button.code() - 1;
                proof {
                    lemma_bit_constants();
                }
                1u8 << shift
            },
        }
    }

    /// Adds a button to the set.
    pub fn insert(&mut self, button: PointerButton)
        requires
            old(self).wf(),
        ensures
            final(self).wf(),
            final(self)@ == (if button == PointerButton::NoButton {
                old(self)@
            } else {
                old(self)@.insert(button)
            }),
    {
        let m = Self::mask(button);
        proof {
            lemma_bit_cases(self.0, m);
            lemma_union_bits(self.0, m);
            lemma_single_bit(button);
        }
        self.0 = self.0 | m;
        assert(self@ =~= (if button == PointerButton::NoButton {
            old(self)@
        } else {
            old(self)@.insert(button)
        }));
    }

    /// Adds multiple buttons to the set.
    pub fn insert_all(&mut self, buttons: PointerButtons)
        requires
            old(self).wf(),
            buttons.wf(),
        ensures
            final(self).wf(),
            final(self)@ == old(self)@.union(buttons@),
    {
        proof {
            lemma_bit_cases(self.0, buttons.0);
            lemma_union_bits(self.0, buttons.0);
        }
        self.0 = self.0 | buttons.0;
        assert(self@ =~= old(self)@.union(buttons@));
    }

    /// Removes a button from the set.
    pub fn remove(&mut self, button: PointerButton)
        requires
            old(self).wf(),
        ensures
            final(self).wf(),
            final(self)@ == old(self)@.remove(button),
    {
        let m = Self::mask(button);
        proof {
            lemma_bit_cases(self.0, m);
            lemma_diff_bits(self.0, m);
            lemma_single_bit(button);
        }
        self.0 = self.0 & !m;
        assert(self@ =~= old(self)@.remove(button));
    }

    /// Removes multiple buttons from the set.
    pub fn remove_all(&mut self, buttons: PointerButtons)
        requires
            old(self).wf(),
            buttons.wf(),
        ensures
            final(self).wf(),
            final(self)@ == old(self)@.difference(buttons@),
    {
        proof {
            lemma_bit_cases(self.0, buttons.0);
            lemma_diff_bits(self.0, buttons.0);
        }
        self.0 = self.0 & !buttons.0;
        assert(self@ =~= old(self)@.difference(buttons@));
    }

    /// Returns the set with a button added.
    pub fn with(self, button: PointerButton) -> (r: PointerButtons)
        requires
            self.wf(),
        ensures
            r.wf(),
            r@ == (if button == PointerButton::NoButton {
                self@
            } else {
                self@.insert(button)
            }),
    {
        let mut s = self;
        s.insert(button);
        s
    }

    /// Returns the set with a button removed.
    pub fn without(self, button: PointerButton) -> (r: PointerButtons)
        requires
            self.wf(),
        ensures
            r.wf(),
            r@ == self@.remove(button),
    {
        let mut s = self;
        s.remove(button);
        s
    }

    /// Clears the set.
    pub fn clear(&mut self)
        ensures
            final(self).wf(),
            final(self)@ == Set::<PointerButton>::empty(),
    {
        *self = Self::empty();
    }

    /// Returns `true` if `button` is in the set.
    pub fn contains(self, button: PointerButton) -> (r: bool)
        requires
            self.wf(),
        ensures
            r == self@.contains(button),
    {
        let m = Self::mask(button);
        proof {
            lemma_bit_of(self.0, button);
            lemma_bit_cases(self.0, 0);
        }
        (self.0 & m) != 0
    }

    /// Returns `true` if the set is empty.
    pub fn is_empty(self) -> (r: bool)
        requires
            self.wf(),
        ensures
            r == (self@ == Set::<PointerButton>::empty()),
    {
        proof {
            lemma_bit_cases(self.0, 0);
            if self.0 != 0 {
                let b = if self.0 & 1 != 0 {
                    PointerButton::Primary
                } else if self.0 & 2 != 0 {
                    PointerButton::Secondary
                } else if self.0 & 4 != 0 {
                    PointerButton::Auxiliary
                } else if self.0 & 8 != 0 {
                    PointerButton::X1
                } else {
                    PointerButton::X2
                };
                assert(self@.contains(b));
            } else {
                assert(self@ =~= Set::<PointerButton>::empty());
            }
        }
        self.0 == 0
    }

    /// Returns `true` if all `buttons` are in the set.
    pub fn is_superset(self, buttons: PointerButtons) -> (r: bool)
        requires
            self.wf(),
            buttons.wf(),
        ensures
            r == buttons@.subset_of(self@),
    {
        proof {
            lemma_bit_cases(self.0, buttons.0);
            lemma_bit_cases(self.0 & buttons.0, 0);
            lemma_bit_of(self.0, PointerButton::Primary);
            lemma_bit_of(self.0, PointerButton::Secondary);
            lemma_bit_of(self.0, PointerButton::Auxiliary);
            lemma_bit_of(self.0, PointerButton::X1);
            lemma_bit_of(self.0, PointerButton::X2);
            lemma_bit_of(buttons.0, PointerButton::Primary);
            lemma_bit_of(buttons.0, PointerButton::Secondary);
            lemma_bit_of(buttons.0, PointerButton::Auxiliary);
            lemma_bit_of(buttons.0, PointerButton::X1);
            lemma_bit_of(buttons.0, PointerButton::X2);
            if self.0 & buttons.0 == buttons.0 {
                assert forall|b: PointerButton| buttons@.contains(b) implies self@.contains(b) by {
                    lemma_bit_of(self.0, b);
                    lemma_bit_of(buttons.0, b);
                }
            }
        }
        self.0 & buttons.0 == buttons.0
    }

    /// Returns `true` if [`PointerButton::Primary`] is in the set.
    pub fn has_primary(self) -> (r: bool)
        requires
            self.wf(),
        ensures
            r == self@.contains(PointerButton::Primary),
    {
        self.contains(PointerButton::Primary)
    }

    /// Returns `true` if [`PointerButton::Secondary`] is in the set.
    pub fn has_secondary(self) -> (r: bool)
        requires
            self.wf(),
        ensures
            r == self@.contains(PointerButton::Secondary),
    {
        self.contains(PointerButton::Secondary)
    }

    /// Returns `true` if [`PointerButton::Auxiliary`] is in the set.
    pub fn has_auxiliary(self) -> (r: bool)
        requires
            self.wf(),
        ensures
            r == self@.contains(PointerButton::Auxiliary),
    {
        self.contains(PointerButton::Auxiliary)
    }

    /// Returns `true` if [`PointerButton::X1`] is in the set.
    pub fn has_x1(self) -> (r: bool)
        requires
            self.wf(),
        ensures
            r == self@.contains(PointerButton::X1),
    {
        self.contains(PointerButton::X1)
    }

    /// Returns `true` if [`PointerButton::X2`] is in the set.
    pub fn has_x2(self) -> (r: bool)
        requires
            self.wf(),
        ensures
            r == self@.contains(PointerButton::X2),
    {
        self.contains(PointerButton::X2)
    }

    /// Builds a set from raw bits; only the five low bits (one per button) are kept.
    pub fn from_bits(value: u8) -> (r: PointerButtons)
        ensures
            r.wf(),
            r@ == buttons_of_bits(value),
    {
        proof {
            lemma_bit_cases(value, 0);
        }
        let r = PointerButtons(value & 0b1_1111);
        assert(r@ =~= buttons_of_bits(value));
        r
    }

    /// The raw bits of the set, for display.
    pub fn bits(self) -> (r: u8)
        requires
            self.wf(),
        ensures
            r < 32,
            buttons_of_bits(r) == self@,
    {
        self.0
    }
}

/// Adding a button and then removing it gives back a set that did not hold it.
pub proof fn law_insert_then_remove(s: PointerButtons, b: PointerButton)
    requires
        s.wf(),
        !s@.contains(b),
    ensures
        (if b == PointerButton::NoButton { s@ } else { s@.insert(b) }).remove(b) == s@,
{
    assert((if b == PointerButton::NoButton { s@ } else { s@.insert(b) }).remove(b) =~= s@);
}

/// Two well-formed sets are equal exactly when they hold the same buttons.
pub proof fn law_equal_iff_same_buttons(a: PointerButtons, b: PointerButtons)
    requires
        a.wf(),
        b.wf(),
    ensures
        (a == b) <==> (a@ == b@),
{
    lemma_bit_cases(a.0, b.0);
    lemma_bit_of(a.0, PointerButton::Primary);
    lemma_bit_of(a.0, PointerButton::Secondary);
    lemma_bit_of(a.0, PointerButton::Auxiliary);
    lemma_bit_of(a.0, PointerButton::X1);
    lemma_bit_of(a.0, PointerButton::X2);
    lemma_bit_of(b.0, PointerButton::Primary);
    lemma_bit_of(b.0, PointerButton::Secondary);
    lemma_bit_of(b.0, PointerButton::Auxiliary);
    lemma_bit_of(b.0, PointerButton::X1);
    lemma_bit_of(b.0, PointerButton::X2);
    if a@ == b@ {
        assert(a@.contains(PointerButton::Primary) == b@.contains(PointerButton::Primary));
        assert(a@.contains(PointerButton::Secondary) == b@.contains(PointerButton::Secondary));
        assert(a@.contains(PointerButton::Auxiliary) == b@.contains(PointerButton::Auxiliary));
        assert(a@.contains(PointerButton::X1) == b@.contains(PointerButton::X1));
        assert(a@.contains(PointerButton::X2) == b@.contains(PointerButton::X2));
    }
}

/// The device type associated with a pointer event.
#[derive(Debug, Default, Clone, Copy, PartialEq, Eq, Structural)]
pub enum PointerType {
    #[default]
    Mouse,
    Pen,
}

} // verus!

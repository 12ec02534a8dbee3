//! A unique identifier for a node, drawn from a counter.

use vstd::prelude::*;

verus! {

/// A unique identifier for a node. It is never zero.
#[derive(Clone, Copy, Debug, Eq, Hash, PartialEq, Structural)]
pub struct Key(u32);

impl Key {
    /// The key as a number.
    pub closed spec fn value(self) -> u32 {
        self.0
    }

    /// Takes the next key from a key counter and advances it (wrapping).
    /// The counter must not be zero: a key is never zero.
    pub fn new(counter: &mut u32) -> (r: Self)
        requires
            *old(counter) != 0,
        ensures
            r.value() == *old(counter),
            r.value() != 0,
            *final(counter) == vstd::wrapping::u32_specs::wrapping_add(*old(counter), 1),
    {
        let value = *counter;
        *counter = value.wrapping_add(1);
        Key(value)
    }
}

/// Keys drawn one after another from a counter that starts at 1 are all different, until
/// the counter comes back round: every key drawn so far is below the counter, so the key
/// drawn next differs from each of them, and afterwards all of them, the new one too,
/// are below the advanced counter.
pub proof fn law_new_key_is_fresh(drawn: Seq<Key>, before: u32, after: u32, k: Key)
    requires
        forall|i: int| 0 <= i < drawn.len() ==> 0 < #[trigger] drawn[i].value() < before,
        k.value() == before,
        0 < before < u32::MAX,
        after == vstd::wrapping::u32_specs::wrapping_add(before, 1),
    ensures
        forall|i: int| 0 <= i < drawn.len() ==> #[trigger] drawn[i] != k,
        forall|i: int| 0 <= i < drawn.len() + 1 ==> 0 < #[trigger] drawn.push(k)[i].value() < after,
{
    assert(after == before + 1);
    assert forall|i: int| 0 <= i < drawn.len() + 1 implies 0 < #[trigger] drawn.push(k)[i].value() < after by {
        if i < drawn.len() {
            assert(drawn.push(k)[i] == drawn[i]);
        }
    }
}

} // verus!

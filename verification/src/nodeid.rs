//! A stable and unique node identifier.

use vstd::prelude::*;

use crate::hasher::{fnv1a, fnv1a_64, FNV_OFFSET_BASIS, FNV_PRIME};
use vstd::string::StringSliceAdditionalSpecFns;

verus! {

/// A unique identifier for a node. It is never zero.
#[derive(Clone, Copy, Debug, Eq, PartialEq, Structural, Hash, PartialOrd, Ord)]
pub struct NodeId(u64);

/// `value`, or `u64::MAX` in place of zero.
pub open spec fn nonzero_or_max(value: u64) -> u64 {
    if value == 0 {
        u64::MAX
    } else {
        value
    }
}

/// The little-endian bytes of a `u32`.
pub open spec fn le_bytes_u32(x: u32) -> Seq<u8> {
    seq![(x & 0xff) as u8, ((x >> 8u32) & 0xff) as u8, ((x >> 16u32) & 0xff) as u8, ((x >> 24u32) & 0xff) as u8]
}

/// The hash of a call location: FNV-1a over the file name, then the line and column
/// as little-endian bytes.
pub open spec fn location_hash(file: Seq<u8>, line: u32, column: u32) -> u64 {
    fnv1a(fnv1a(fnv1a(FNV_OFFSET_BASIS, file), le_bytes_u32(line)), le_bytes_u32(column))
}

fn le_bytes(x: u32) -> (r: [u8; 4])
    ensures
        r@ == le_bytes_u32(x),
{
    let r = [(x & 0xff) as u8, ((x >> 8) & 0xff) as u8, ((x >> 16) & 0xff) as u8, ((x >> 24) & 0xff) as u8];
    assert(r@ =~= le_bytes_u32(x));
    r
}

impl NodeId {
    /// The id as a number.
    pub closed spec fn value(self) -> u64 {
        self.0
    }

    /// Node ids are never zero.
    pub open spec fn wf(self) -> bool {
        self.value() != 0
    }

    /// The id for a call location, used by the `id!()` macro: the FNV-1a hash of the
    /// file name, line and column, with `u64::MAX` standing for a zero hash.
    pub fn __internal_new(file: &str, line: u32, column: u32) -> (r: Self)
        ensures
            r.wf(),
            r.value() == nonzero_or_max(location_hash(file.spec_bytes(), line, column)),
    {
        let h1 = fnv1a_64(FNV_OFFSET_BASIS, file.as_bytes());
        let line_bytes = le_bytes(line);
        let h2 = fnv1a_64(h1, &line_bytes);
        let column_bytes = le_bytes(column);
        let h3 = fnv1a_64(h2, &column_bytes);
        let non_zero = if h3 == 0 {
            u64::MAX
        } else {
            h3
        };
        NodeId(non_zero)
    }

    /// Mixes a value into an id, as the `id!(x, ..)` macro does for each argument:
    /// xor, then multiply by the FNV prime (wrapping), with `u64::MAX` standing for zero.
    pub fn __internal_mix(self, rhs: u64) -> (r: Self)
        ensures
            r.wf(),
            r.value() == nonzero_or_max(vstd::wrapping::u64_specs::wrapping_mul(self.value() ^ rhs, FNV_PRIME)),
    {
        let mixed = (self.0 ^ rhs).wrapping_mul(FNV_PRIME);
        let non_zero = if mixed == 0 {
            u64::MAX
        } else {
            mixed
        };
        NodeId(non_zero)
    }

    /// Takes the next id from an id counter (the counter's value, or `u64::MAX` in place
    /// of zero) and advances the counter, wrapping. Ids are unique until the counter wraps.
    pub fn next(counter: &mut u64) -> (r: Self)
        ensures
            r.wf(),
            r.value() == nonzero_or_max(*old(counter)),
            *final(counter) == vstd::wrapping::u64_specs::wrapping_add(*old(counter), 1),
    {
        let value = *counter;
        *counter = value.wrapping_add(1);
        NodeId(if value == 0 {
            u64::MAX
        } else {
            value
        })
    }

    /// Resumes id generation from a specific value, which must not be zero.
    pub fn set_counter(counter: &mut u64, value: u64)
        requires
            value != 0,
        ensures
            *final(counter) == value,
    {
        *counter = value;
    }

    /// Returns the current value of an id counter, to resume later with [`NodeId::set_counter`].
    pub fn get_counter(counter: &u64) -> (r: u64)
        ensures
            r == *counter,
    {
        *counter
    }

    /// The id as a number.
    pub fn as_u64(self) -> (r: u64)
        ensures
            r == self.value(),
    {
        self.0
    }

    /// An id with the given non-zero value.
    pub fn from_value(value: u64) -> (r: Option<Self>)
        ensures
            match r {
                Some(id) => value != 0 && id.value() == value && id.wf(),
                Option::None => value == 0,
            },
    {
        if value == 0 {
            Option::None
        } else {
            Some(NodeId(value))
        }
    }
}

/// Ids taken one after another from the same counter differ, unless the counter wrapped
/// around to where it started.
pub proof fn law_next_ids_distinct(c: u64)
    requires
        c != 0,
        c != u64::MAX,
    ensures
        nonzero_or_max(c) != nonzero_or_max(vstd::wrapping::u64_specs::wrapping_add(c, 1)),
{
}

} // verus!

//! An identity hasher for keys that are already well distributed integers,
//! with FNV-1a (64-bit) as the fallback for byte input.

use vstd::prelude::*;

verus! {

/// The FNV-1a 64-bit offset basis.
pub const FNV_OFFSET_BASIS: u64 = 0xcbf29ce484222325;

/// The FNV-1a 64-bit prime.
pub const FNV_PRIME: u64 = 0x100000001b3;

/// One FNV-1a step: xor in the byte, then multiply by the prime (wrapping).
pub open spec fn fnv1a_step(hash: u64, byte: u8) -> u64 {
    vstd::wrapping::u64_specs::wrapping_mul(hash ^ (byte as u64), FNV_PRIME)
}

/// FNV-1a over `bytes`, starting from `seed`.
pub open spec fn fnv1a(seed: u64, bytes: Seq<u8>) -> u64
    decreases bytes.len(),
{
    if bytes.len() == 0 {
        seed
    } else {
        fnv1a_step(fnv1a(seed, bytes.drop_last()), bytes.last())
    }
}

/// FNV-1a over `bytes`, starting from `seed`.
pub fn fnv1a_64(seed: u64, bytes: &[u8]) -> (r: u64)
    ensures
        r == fnv1a(seed, bytes@),
{
    let mut hash = seed;
    let n = bytes.len();
    let mut i: usize = 0;
    while i < n
        invariant
            n == bytes@.len(),
            0 <= i <= n,
            hash == fnv1a(seed, bytes@.take(i as int)),
        decreases n - i,
    {
        proof {
            assert(bytes@.take(i + 1).drop_last() =~= bytes@.take(i as int));
        }
        hash = (hash ^ (bytes[i] as u64)).wrapping_mul(FNV_PRIME);
        i += 1;
    }
    assert(bytes@.take(n as int) =~= bytes@);
    hash
}

/// A hasher whose output is the last integer written to it.
pub struct IdentityHasher(u64);

/// Builds [`IdentityHasher`]s.
#[derive(Clone, Default)]
pub struct IdentityBuildHasher;

impl IdentityHasher {
    /// The current output of the hasher.
    pub closed spec fn state(&self) -> u64 {
        self.0
    }

    /// A hasher in its initial state (output 0).
    pub fn default() -> (r: IdentityHasher)
        ensures
            r.state() == 0,
    {
        IdentityHasher(0)
    }

    /// The hash: the last value written.
    pub fn finish(&self) -> (r: u64)
        ensures
            r == self.state(),
    {
        self.0
    }

    /// Writes a `u64`: it becomes the hash.
    pub fn write_u64(&mut self, i: u64)
        ensures
            final(self).state() == i,
    {
        self.0 = i;
    }

    /// Writes a `usize`: it becomes the hash.
    pub fn write_usize(&mut self, i: usize)
        ensures
            final(self).state() == i as u64,
    {
        self.0 = i as u64;
    }

    /// Writes a `u32`: it becomes the hash.
    pub fn write_u32(&mut self, i: u32)
        ensures
            final(self).state() == i as u64,
    {
        self.0 = i as u64;
    }

    /// Writes bytes; the hash becomes their FNV-1a 64-bit hash. Integer keys are expected,
    /// so this is only a fallback.
    pub fn write(&mut self, bytes: &[u8])
        ensures
            final(self).state() == fnv1a(FNV_OFFSET_BASIS, bytes@),
    {
        self.0 = fnv1a_64(FNV_OFFSET_BASIS, bytes);
    }
}

impl IdentityBuildHasher {
    /// A fresh hasher.
    pub fn build_hasher(&self) -> (r: IdentityHasher)
        ensures
            r.state() == 0,
    {
        IdentityHasher::default()
    }
}

} // verus!

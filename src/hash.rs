//! The seeded multiplicative hash that indexes resource paths.
use vstd::prelude::*;
use vstd::utf8::encode_utf8;

verus! {

/// The multiplier of the hash, also the seed of the first-level lookup.
pub const HASH_MUL: u32 = 0x0100_0193;

/// One step: multiply modulo 2^32, then mix in the byte.
pub open spec fn hash_step(h: u32, b: u8) -> u32 {
    (((h as nat * HASH_MUL as nat) % 0x1_0000_0000) as u32) ^ (b as u32)
}

/// The accumulator after folding every byte of `s` into `seed`.
pub open spec fn hash_acc(seed: u32, s: Seq<u8>) -> u32
    decreases s.len(),
{
    if s.len() == 0 {
        seed
    } else {
        hash_step(hash_acc(seed, s.drop_last()), s.last())
    }
}

/// The hash of the bytes `s` under `seed`, with its top bit cleared.
pub open spec fn hash_spec(seed: u32, s: Seq<u8>) -> u32 {
    hash_acc(seed, s) & 0x7FFF_FFFF
}

/// Hashes the UTF-8 bytes of `name` starting from `seed`.
pub fn hash_seeded(seed: u32, name: &str) -> (r: u32)
    ensures
        r == hash_spec(seed, encode_utf8(name@)),
        r < 0x8000_0000,
{
    let bytes = name.as_bytes();
    let mut h: u32 = seed;
    let mut i: usize = 0;
    while i < bytes.len()
        invariant
            i <= bytes@.len(),
            bytes@ == encode_utf8(name@),
            h == hash_acc(seed, bytes@.subrange(0, i as int)),
        decreases bytes@.len() - i,
    {
        let b = bytes[i];
        proof {
            assert(bytes@.subrange(0, i + 1).drop_last() =~= bytes@.subrange(0, i as int));
        }
        h = h.wrapping_mul(HASH_MUL) ^ (b as u32);
        i = i + 1;
    }
    proof {
        assert(bytes@.subrange(0, i as int) =~= bytes@);
    }
    let r = h & 0x7FFF_FFFF;
    assert(r < 0x8000_0000) by (bit_vector)
        requires
            r == h & 0x7FFF_FFFF,
    ;
    r
}

/// The first-level hash of `name`, seeded with the multiplier.
pub fn hash(name: &str) -> (r: u32)
    ensures
        r == hash_spec(HASH_MUL, encode_utf8(name@)),
        r < 0x8000_0000,
{
    hash_seeded(HASH_MUL, name)
}

/// The hash is a function of its seed and bytes: equal inputs give equal
/// results, and every result fits in 31 bits.
pub proof fn lemma_hash_deterministic(seed: u32, a: Seq<u8>, b: Seq<u8>)
    requires
        a == b,
    ensures
        hash_spec(seed, a) == hash_spec(seed, b),
        hash_spec(seed, a) < 0x8000_0000,
{
    let h = hash_acc(seed, a);
    assert(h & 0x7FFF_FFFF < 0x8000_0000) by (bit_vector);
}

} // verus!

//! Location records: a tagged, variable-length stream of big-endian
//! attributes that describes one resource.
use vstd::prelude::*;

verus! {

/// The attributes of one resource, as decoded from its location record.
#[derive(Debug, Clone, Copy, PartialEq, Eq, Structural)]
pub struct Entry {
    pub module_off: u32,
    pub parent_off: u32,
    pub base_off: u32,
    pub ext_off: u32,
    pub content_off: u64,
    pub compressed_size: u64,
    pub uncompressed_size: u64,
}

/// Number of attribute kinds that the record keeps.
pub const KINDS: usize = 8;

/// The unsigned big-endian value of the bytes `s`.
pub open spec fn be_value(s: Seq<u8>) -> nat
    decreases s.len(),
{
    if s.len() == 0 {
        0
    } else {
        be_value(s.drop_last()) * 256 + s.last() as nat
    }
}

/// 256 to the power `n`.
pub open spec fn pow256(n: nat) -> nat
    decreases n,
{
    if n == 0 {
        1
    } else {
        256 * pow256((n - 1) as nat)
    }
}

/// The attribute slots `v` after decoding the stream `s` into them. A tag of
/// 7 or less ends the stream; otherwise its high five bits give the kind and
/// its low three bits the payload length less one. The stream also ends
/// where the bytes run out, and kinds past the last slot are skipped.
pub open spec fn decode_attrs(s: Seq<u8>, v: Seq<u64>) -> Seq<u64>
    decreases s.len(),
{
    if s.len() == 0 || s[0] <= 7 {
        v
    } else {
        let n = (s[0] % 8) as int + 1;
        if s.len() < 1 + n {
            v
        } else {
            let kind = (s[0] / 8) as int;
            let x = be_value(s.subrange(1, 1 + n)) as u64;
            decode_attrs(
                s.subrange(1 + n, s.len() as int),
                if kind < KINDS { v.update(kind, x) } else { v },
            )
        }
    }
}

/// The entry whose attribute slots are `v`.
pub open spec fn entry_of_slots(v: Seq<u64>) -> Entry {
    Entry {
        module_off: (v[1] % 0x1_0000_0000) as u32,
        parent_off: (v[2] % 0x1_0000_0000) as u32,
        base_off: (v[3] % 0x1_0000_0000) as u32,
        ext_off: (v[4] % 0x1_0000_0000) as u32,
        content_off: v[5],
        compressed_size: v[6],
        uncompressed_size: v[7],
    }
}

/// The entry that the record at the start of `s` describes.
pub open spec fn entry_of(s: Seq<u8>) -> Entry {
    entry_of_slots(decode_attrs(s, Seq::new(KINDS as nat, |i: int| 0u64)))
}

proof fn lemma_pow256_mono(i: nat, j: nat)
    requires
        i <= j,
    ensures
        pow256(i) <= pow256(j),
    decreases j - i,
{
    if i < j {
        lemma_pow256_mono(i, (j - 1) as nat);
    }
}

/// Reads `len` bytes at `pos` as one big-endian value.
fn read_be(s: &[u8], pos: usize, len: usize) -> (r: u64)
    requires
        1 <= len <= 8,
        pos + len <= s@.len(),
    ensures
        r == be_value(s@.subrange(pos as int, pos + len)),
{
    let total = s.len();
    let mut x: u64 = 0;
    let mut j: usize = 0;
    proof {
        reveal_with_fuel(pow256, 9);
        assert(pow256(8) == 0x1_0000_0000_0000_0000);
    }
    while j < len
        invariant
            j <= len <= 8,
            pos + len <= s@.len(),
            total == s@.len(),
            x == be_value(s@.subrange(pos as int, pos + j)),
            x < pow256(j as nat),
            pow256(8) == 0x1_0000_0000_0000_0000,
        decreases len - j,
    {
        let b = s[pos + j];
        proof {
            let p = pow256(j as nat);
            assert(x * 256 + b < p * 256) by (nonlinear_arith)
                requires
                    x < p,
                    b < 256,
            ;
            lemma_pow256_mono((j + 1) as nat, 8);
            assert(s@.subrange(pos as int, pos + j + 1).drop_last() =~= s@.subrange(
                pos as int,
                pos + j,
            ));
        }
        x = x * 256 + b as u64;
        j = j + 1;
    }
    x
}

impl Entry {
    /// Decodes the location record at the start of `s`.
    pub fn decode(s: &[u8]) -> (r: Entry)
        ensures
            r == entry_of(s@),
    {
        let mut v: [u64; 8] = [0u64; 8];
        let mut pos: usize = 0;
        proof {
            assert(v@ =~= Seq::new(KINDS as nat, |i: int| 0u64));
            assert(s@.subrange(0, s@.len() as int) =~= s@);
        }
        loop
            invariant
                pos <= s@.len(),
                v@.len() == KINDS,
                decode_attrs(s@, Seq::new(KINDS as nat, |i: int| 0u64)) == decode_attrs(
                    s@.subrange(pos as int, s@.len() as int),
                    v@,
                ),
            ensures
                decode_attrs(s@, Seq::new(KINDS as nat, |i: int| 0u64)) == v@,
            decreases s@.len() - pos,
        {
            if pos >= s.len() {
                break;
            }
            let tag = s[pos];
            if tag <= 7 {
                break;
            }
            let n = (tag % 8) as usize + 1;
            if s.len() - pos < 1 + n {
                break;
            }
            let kind = (tag / 8) as usize;
            let x = read_be(s, pos + 1, n);
            proof {
                let rest = s@.subrange(pos as int, s@.len() as int);
                assert(rest.subrange(1, 1 + n) =~= s@.subrange(pos + 1, pos + 1 + n));
                assert(rest.subrange(1 + n, rest.len() as int) =~= s@.subrange(
                    pos + 1 + n,
                    s@.len() as int,
                ));
            }
            if kind < KINDS {
                v[kind] = x;
            }
            pos = pos + 1 + n;
        }
        Entry {
            module_off: (v[1] % 0x1_0000_0000) as u32,
            parent_off: (v[2] % 0x1_0000_0000) as u32,
            base_off: (v[3] % 0x1_0000_0000) as u32,
            ext_off: (v[4] % 0x1_0000_0000) as u32,
            content_off: v[5],
            compressed_size: v[6],
            uncompressed_size: v[7],
        }
    }
}

} // verus!

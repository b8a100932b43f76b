//! Bit-level models shared by the circuit gadgets: most-significant-bit-first
//! byte streams, little-endian scalar representations, and the 64-bit value
//! decomposition used by the note-value gadget.

use vstd::prelude::*;
use vstd::arithmetic::div_mod::{lemma_fundamental_div_mod, lemma_mod_breakdown};
use vstd::arithmetic::power2::{lemma2_to64, lemma_pow2_pos, lemma_pow2_unfold, pow2};

verus! {

/// Bit `i` of `v`, counting from the least significant bit.
pub open spec fn u64_bit(v: u64, i: u64) -> bool {
    (v >> i) & 1 == 1
}

/// The 64 bits of `v`, least significant first.
pub open spec fn u64_bits_le(v: u64) -> Seq<bool> {
    Seq::new(64, |i: int| u64_bit(v, i as u64))
}

/// Bit `i` of byte `b`, counting from the most significant bit.
pub open spec fn byte_bit_msb(b: u8, i: int) -> bool {
    (b >> ((7 - i) as u8)) & 1 == 1
}

/// The bits of a byte string, reading each byte from its most significant
/// bit down, bytes in order.
pub open spec fn bytes_bits_msb(s: Seq<u8>) -> Seq<bool> {
    Seq::new(s.len() * 8, |i: int| byte_bit_msb(s[i / 8], i % 8))
}

/// Bit `i` of a little-endian byte string: bit `i % 8` (from the least
/// significant end) of byte `i / 8`.
pub open spec fn le_bit(s: Seq<u8>, i: int) -> bool {
    (s[i / 8] >> ((i % 8) as u8)) & 1 == 1
}

/// The first `n` bits of a little-endian byte string, least significant
/// first.
pub open spec fn le_bits(s: Seq<u8>, n: nat) -> Seq<bool> {
    Seq::new(n, |i: int| le_bit(s, i))
}

/// The `len`-byte little-endian encoding of `n`.
pub open spec fn le_bytes_of(n: nat, len: nat) -> Seq<u8>
    decreases len,
{
    if len == 0 {
        Seq::empty()
    } else {
        seq![(n % 256) as u8] + le_bytes_of(n / 256, (len - 1) as nat)
    }
}

/// The integer a little-endian byte string stands for.
pub open spec fn le_bytes_val(s: Seq<u8>) -> nat
    decreases s.len(),
{
    if s.len() == 0 {
        0
    } else {
        s[0] as nat + 256 * le_bytes_val(s.drop_first())
    }
}

/// The order of the BLS12-381 scalar field, the field every witness value
/// lives in.
pub open spec fn scalar_modulus() -> nat {
    0xffffffff00000001nat + pow2(64) * (0x53bda402fffe5bfenat + pow2(64) * (
    0x3339d80809a1d805nat + pow2(64) * 0x73eda753299d7d48nat))
}

/// A 32-byte little-endian string is the canonical encoding of a scalar
/// exactly when its value is below the field order.
pub open spec fn canonical_scalar(s: Seq<u8>) -> bool {
    s.len() == 32 && le_bytes_val(s) < scalar_modulus()
}

/// The integer a bit string stands for, least significant bit first.
pub open spec fn bits_val(s: Seq<bool>) -> nat
    decreases s.len(),
{
    if s.len() == 0 {
        0
    } else {
        (if s[0] { 1nat } else { 0nat }) + 2 * bits_val(s.drop_first())
    }
}

/// Appending one more bit at the most significant end adds its weight.
pub proof fn lemma_bits_val_snoc(s: Seq<bool>, b: bool)
    ensures
        bits_val(s.push(b)) == bits_val(s) + (if b {
            pow2(s.len())
        } else {
            0
        }),
    decreases s.len(),
{
    let p1 = s.push(b);
    assert(p1.len() == s.len() + 1);
    if s.len() == 0 {
        assert(p1[0] == b);
        assert(p1.drop_first() =~= s);
        assert(pow2(0) == 1) by {
            lemma2_to64();
        }
    } else {
        assert(p1[0] == s[0]);
        assert(p1.drop_first() =~= s.drop_first().push(b));
        lemma_bits_val_snoc(s.drop_first(), b);
        lemma_pow2_unfold(s.len());
    }
}

/// Reorders a bit string whose length is a multiple of 8 by reversing each
/// group of 8 bits in place, keeping the groups in order.
pub open spec fn chunks8_reversed(s: Seq<bool>) -> Seq<bool> {
    Seq::new(s.len(), |i: int| s[8 * (i / 8) + 7 - (i % 8)])
}

/// A bit string of length `n <= 64`, read least significant bit first,
/// stands for `w` modulo `2^n`.
proof fn lemma_bits_val_mod(w: u64, n: nat)
    requires
        n <= 64,
    ensures
        bits_val(Seq::new(n, |i: int| u64_bit(w, i as u64))) == (w as nat) % pow2(n),
    decreases n,
{
    let s = Seq::new(n, |i: int| u64_bit(w, i as u64));
    if n == 0 {
        assert(pow2(0) == 1) by {
            lemma2_to64();
        }
    } else {
        let t = Seq::new((n - 1) as nat, |i: int| u64_bit(w >> 1u64, i as u64));
        assert forall|i: int| 0 <= i < n - 1 implies s.drop_first()[i] == t[i] by {
            let iu = i as u64;
            assert((w >> (iu + 1)) & 1 == ((w >> 1u64) >> iu) & 1) by (bit_vector)
                requires
                    iu < 63u64,
            ;
        }
        assert(s.drop_first() =~= t);
        lemma_bits_val_mod(w >> 1u64, (n - 1) as nat);
        assert(w & 1 == w % 2 && (w >> 1u64) == w / 2 && (w >> 0u64) == w) by (bit_vector);
        assert(s[0] == (u64_bit(w, 0u64)));
        lemma_pow2_unfold(n);
        lemma_pow2_pos((n - 1) as nat);
        lemma_mod_breakdown(w as int, 2, pow2((n - 1) as nat) as int);
    }
}

/// Decomposing a 64-bit value into its little-endian bits and reading the
/// bits back as an integer returns the value unchanged.
pub proof fn lemma_u64_bits_le_val(v: u64)
    ensures
        bits_val(u64_bits_le(v)) == v,
{
    lemma_bits_val_mod(v, 64);
    lemma2_to64();
    assert(pow2(64) == 0x10000000000000000) by {
        lemma_pow2_unfold(64);
        lemma2_to64();
    }
    assert((v as nat) % 0x10000000000000000 == v as nat) by {
        lemma_fundamental_div_mod(v as int, 0x10000000000000000);
    }
}

/// Reversing each byte-sized group of bits twice returns the string
/// unchanged.
pub proof fn lemma_chunks8_reversed_involutive(s: Seq<bool>)
    requires
        s.len() % 8 == 0,
    ensures
        chunks8_reversed(chunks8_reversed(s)) =~= s,
{
    assert forall|i: int| 0 <= i < s.len() implies chunks8_reversed(chunks8_reversed(s))[i]
        == s[i] by {
        let j = 8 * (i / 8) + 7 - (i % 8);
        lemma_fundamental_div_mod(i, 8);
        assert(j / 8 == i / 8 && j % 8 == 7 - (i % 8)) by {
            lemma_div_mod_of_8q_plus_r(i / 8, 7 - (i % 8));
        }
    }
}

/// For `0 <= r < 8`, the quotient and remainder of `8q + r` by 8 are `q`
/// and `r`.
proof fn lemma_div_mod_of_8q_plus_r(q: int, r: int)
    requires
        0 <= r < 8,
        0 <= q,
    ensures
        (8 * q + r) / 8 == q,
        (8 * q + r) % 8 == r,
{
    lemma_fundamental_div_mod(8 * q + r, 8);
    assert((8 * q + r) / 8 == q && (8 * q + r) % 8 == r) by (nonlinear_arith)
        requires
            0 <= r < 8,
            0 <= q,
    ;
}

/// Decomposes `v` into its 64 bits, least significant first.
pub fn u64_to_bits_le(v: u64) -> (r: Vec<bool>)
    ensures
        r@ =~= u64_bits_le(v),
{
    let mut r: Vec<bool> = Vec::new();
    for i in 0..64u64
        invariant
            r@.len() == i,
            forall|j: int| 0 <= j < i ==> r@[j] == u64_bit(v, j as u64),
    {
        r.push((v >> i) & 1 == 1);
    }
    r
}

} // verus!

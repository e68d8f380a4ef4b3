//! The tile size of the GEMM kernel, and the stable FNV-1a hash by which the
//! kernel's source text is recorded with each result.

use vstd::prelude::*;
use vstd::arithmetic::div_mod::{lemma_mod_multiples_vanish, lemma_mul_mod_noop_left, lemma_small_mod};
use vstd::string::StringSliceAdditionalSpecFns;
use vstd::wrapping::u64_specs::wrapping_mul;

use crate::text::{push_padded_digits, radix_digits, zero_pad};

verus! {

/// Edge length of the square tiles processed by the compute shader; every
/// matrix dimension is a multiple of it.
pub const TILE_SIZE: u32 = 16;

/// FNV-1a 64-bit offset basis.
pub const FNV_OFFSET_BASIS: u64 = 0xcbf29ce484222325;

/// FNV-1a 64-bit prime.
pub const FNV_PRIME: u64 = 0x100000001b3;

/// The inverse of `FNV_PRIME` modulo 2^64.
pub const FNV_PRIME_INVERSE: u64 = 0xce965057aff6957b;

/// One FNV-1a step: mix in one byte, then multiply by the prime modulo 2^64.
pub open spec fn fnv1a_step(h: u64, b: u8) -> u64 {
    wrapping_mul(h ^ (b as u64), FNV_PRIME)
}

/// The 64-bit FNV-1a hash of a byte sequence.
pub open spec fn fnv1a(bytes: Seq<u8>) -> u64
    decreases bytes.len(),
{
    if bytes.len() == 0 {
        FNV_OFFSET_BASIS
    } else {
        fnv1a_step(fnv1a(bytes.drop_last()), bytes.last())
    }
}

/// The 64-bit FNV-1a hash of `bytes`.
pub fn fnv1a_64(bytes: &[u8]) -> (h: u64)
    ensures
        h == fnv1a(bytes@),
{
    let mut h: u64 = FNV_OFFSET_BASIS;
    let mut i: usize = 0;
    assert(bytes@.take(0) =~= Seq::<u8>::empty());
    while i < bytes.len()
        invariant
            i <= bytes.len(),
            h == fnv1a(bytes@.take(i as int)),
        decreases bytes.len() - i,
    {
        assert(bytes@.take(i + 1).drop_last() =~= bytes@.take(i as int));
        h = (h ^ (bytes[i] as u64)).wrapping_mul(FNV_PRIME);
        i = i + 1;
    }
    assert(bytes@.take(bytes.len() as int) =~= bytes@);
    h
}

/// The hash of `text` (its UTF-8 bytes) as sixteen lowercase hexadecimal digits.
pub fn shader_hash(text: &str) -> (r: String)
    ensures
        r@ == zero_pad(radix_digits(fnv1a(text.spec_bytes()) as nat, 16), 16),
        r@.len() == 16,
{
    let h = fnv1a_64(text.as_bytes());
    let mut out = String::new();
    push_padded_digits(&mut out, h, 16, 16);
    proof {
        vstd::arithmetic::power2::lemma2_to64_rest();
        crate::text::lemma_hex_digit_count(h as nat, 16);
    }
    out
}

// ---------------------------------------------------------------------------
// A single changed byte always changes the hash
// ---------------------------------------------------------------------------

/// Multiplying by the prime modulo 2^64 can be undone.
proof fn lemma_prime_invertible(x: u64)
    ensures
        wrapping_mul(wrapping_mul(x, FNV_PRIME), 0xce965057aff6957b) == x,
{
    let m = 0x1_0000_0000_0000_0000int;
    let p = FNV_PRIME as int;
    let inv = 0xce965057aff6957bint;
    lemma_mul_mod_noop_left(x * p, inv, m);
    assert(p * inv == 1 + 887285111055 * m);
    assert((x * p) * inv == x + (x * 887285111055) * m) by (nonlinear_arith)
        requires p * inv == 1 + 887285111055 * m;
    lemma_mod_multiples_vanish(x * 887285111055, x as int, m);
    assert(m * (x * 887285111055) == (x * 887285111055) * m) by (nonlinear_arith);
    lemma_small_mod(x as nat, m as nat);
}

/// A hash step with the same byte maps different states to different states,
/// and the same state with different bytes to different states.
proof fn lemma_step_injective(h1: u64, b1: u8, h2: u64, b2: u8)
    requires
        h1 != h2 || b1 != b2,
        h1 == h2 || b1 == b2,
    ensures
        fnv1a_step(h1, b1) != fnv1a_step(h2, b2),
{
    let x1 = h1 ^ (b1 as u64);
    let x2 = h2 ^ (b2 as u64);
    let c1 = b1 as u64;
    let c2 = b2 as u64;
    assert(x1 != x2) by (bit_vector)
        requires
            x1 == h1 ^ c1,
            x2 == h2 ^ c2,
            h1 != h2 || c1 != c2,
            h1 == h2 || c1 == c2,
    ;
    lemma_prime_invertible(x1);
    lemma_prime_invertible(x2);
}

/// Two byte sequences of the same length that differ in exactly one position
/// have different FNV-1a hashes: changing one byte of the shader text always
/// changes the recorded hash.
pub proof fn lemma_one_byte_change_changes_hash(a: Seq<u8>, b: Seq<u8>, i: int)
    requires
        a.len() == b.len(),
        0 <= i < a.len(),
        a[i] != b[i],
        forall|j: int| 0 <= j < a.len() && j != i ==> a[j] == b[j],
    ensures
        fnv1a(a) != fnv1a(b),
{
    lemma_prefix_hashes_differ(a, b, i, a.len() as int);
    assert(a.take(a.len() as int) =~= a);
    assert(b.take(b.len() as int) =~= b);
}

proof fn lemma_prefix_hashes_differ(a: Seq<u8>, b: Seq<u8>, i: int, k: int)
    requires
        a.len() == b.len(),
        0 <= i < k <= a.len(),
        a[i] != b[i],
        forall|j: int| 0 <= j < a.len() && j != i ==> a[j] == b[j],
    ensures
        fnv1a(a.take(k)) != fnv1a(b.take(k)),
    decreases k,
{
    assert(a.take(k).drop_last() =~= a.take(k - 1));
    assert(b.take(k).drop_last() =~= b.take(k - 1));
    if k == i + 1 {
        assert(a.take(i) =~= b.take(i));
        lemma_step_injective(fnv1a(a.take(i)), a[i], fnv1a(b.take(i)), b[i]);
    } else {
        lemma_prefix_hashes_differ(a, b, i, k - 1);
        lemma_step_injective(fnv1a(a.take(k - 1)), a[k - 1], fnv1a(b.take(k - 1)), b[k - 1]);
    }
}

/// `FNV_PRIME_INVERSE` undoes a multiplication by the prime modulo 2^64.
pub proof fn lemma_prime_inverse()
    ensures
        wrapping_mul(FNV_PRIME, FNV_PRIME_INVERSE) == 1,
        forall|x: u64| #[trigger] wrapping_mul(wrapping_mul(x, FNV_PRIME), FNV_PRIME_INVERSE) == x,
{
    assert(FNV_PRIME as nat * FNV_PRIME_INVERSE as nat == 1 + 887285111055 * 0x1_0000_0000_0000_0000nat);
    vstd::arithmetic::div_mod::lemma_mod_multiples_vanish(887285111055, 1, 0x1_0000_0000_0000_0000int);
    assert forall|x: u64| #[trigger] wrapping_mul(wrapping_mul(x, FNV_PRIME), FNV_PRIME_INVERSE) == x by {
        lemma_prime_invertible(x);
    }
}

/// The FNV-1a hash byte by byte: the hash of no bytes is the offset basis,
/// and each further byte changes only the low eight bits of the hash so far,
/// by exclusive or with the byte's value (0 to 255), before the
/// multiplication by the prime: undoing that multiplication gives back the
/// previous hash with its low byte XORed with the new byte.
pub proof fn lemma_fnv1a_bytewise(s: Seq<u8>, b: u8)
    ensures
        fnv1a(Seq::<u8>::empty()) == FNV_OFFSET_BASIS,
        wrapping_mul(fnv1a(s.push(b)), FNV_PRIME_INVERSE) >> 8u64 == fnv1a(s) >> 8u64,
        wrapping_mul(fnv1a(s.push(b)), FNV_PRIME_INVERSE) & 0xffu64 == (fnv1a(s) & 0xffu64) ^ (b as u64),
{
    assert(s.push(b).drop_last() =~= s);
    let h = fnv1a(s);
    let x = h ^ (b as u64);
    lemma_prime_invertible(x);
    let c = b as u64;
    assert(x >> 8u64 == h >> 8u64 && x & 0xffu64 == (h & 0xffu64) ^ c) by (bit_vector)
        requires
            x == h ^ c,
            c < 256,
    ;
}

} // verus!

//! The mathematical model of a 64-bit kinsoku mask: which bit positions are
//! set, how many there are, and the facts about single-bit operations that
//! the mask functions rest on.
use vstd::prelude::*;

verus! {

/// The bit index (0..=63) that a code point folds to: the high 16 bits are
/// XORed into the low 16 bits and the low 6 bits of the result are kept.
pub open spec fn spec_bit_of(codepoint: u32) -> u64 {
    ((codepoint ^ (codepoint >> 16u32)) & 0x3fu32) as u64
}

/// Bit `bit` of `mask` is set.
pub open spec fn mask_has(mask: u64, bit: u64) -> bool {
    (mask >> bit) & 1u64 == 1u64
}

/// A code point belongs to the set that `mask` describes.
pub open spec fn covers(mask: u64, codepoint: u32) -> bool {
    mask_has(mask, spec_bit_of(codepoint))
}

/// The number of set bits of `mask` among the positions below `n`.
pub open spec fn bit_count(mask: u64, n: nat) -> nat
    decreases n,
{
    if n == 0 {
        0
    } else {
        bit_count(mask, (n - 1) as nat) + if mask_has(mask, (n - 1) as u64) {
            1nat
        } else {
            0nat
        }
    }
}

/// The number of set bits of a 64-bit mask.
pub open spec fn spec_popcount(mask: u64) -> nat {
    bit_count(mask, 64)
}

/// Bit count by peeling off the lowest bit; equal to `spec_popcount`
/// (see `lemma_ones_is_popcount`).
pub open spec fn ones(mask: u64) -> nat
    decreases mask,
{
    if mask == 0 {
        0
    } else {
        proof {
            lemma_shr1_decreases(mask);
        }
        (if mask & 1u64 == 1u64 {
            1nat
        } else {
            0nat
        }) + ones(mask >> 1u64)
    }
}

pub proof fn lemma_shr1_decreases(mask: u64)
    requires
        mask != 0,
    ensures
        mask >> 1u64 < mask,
{
    assert(mask != 0 ==> mask >> 1u64 < mask) by (bit_vector);
}

/// Setting bit `k` sets exactly that bit.
pub proof fn lemma_or_single(mask: u64, k: u64, b: u64)
    requires
        k < 64,
        b < 64,
    ensures
        mask_has(mask | (1u64 << k), b) == (mask_has(mask, b) || b == k),
{
    assert(((mask | (1u64 << k)) >> b) & 1u64 == 1u64 <==> ((mask >> b) & 1u64 == 1u64 || b
        == k)) by (bit_vector)
        requires
            k < 64,
            b < 64,
    ;
}

/// Clearing bit `k` clears exactly that bit.
pub proof fn lemma_clear_single(mask: u64, k: u64, b: u64)
    requires
        k < 64,
        b < 64,
    ensures
        mask_has(mask & !(1u64 << k), b) == (mask_has(mask, b) && b != k),
{
    assert(((mask & !(1u64 << k)) >> b) & 1u64 == 1u64 <==> ((mask >> b) & 1u64 == 1u64 && b
        != k)) by (bit_vector)
        requires
            k < 64,
            b < 64,
    ;
}

/// Flipping bit `k` flips exactly that bit.
pub proof fn lemma_xor_single(mask: u64, k: u64, b: u64)
    requires
        k < 64,
        b < 64,
    ensures
        mask_has(mask ^ (1u64 << k), b) == (mask_has(mask, b) != (b == k)),
{
    assert(((mask ^ (1u64 << k)) >> b) & 1u64 == 1u64 <==> ((mask >> b) & 1u64 == 1u64 != (b
        == k))) by (bit_vector)
        requires
            k < 64,
            b < 64,
    ;
}

/// A bit of a union is a bit of one of its parts.
pub proof fn lemma_or_bits(x: u64, y: u64, b: u64)
    ensures
        mask_has(x | y, b) == (mask_has(x, b) || mask_has(y, b)),
{
    assert(((x | y) >> b) & 1u64 == 1u64 <==> ((x >> b) & 1u64 == 1u64 || (y >> b) & 1u64
        == 1u64)) by (bit_vector);
}

/// A bit of an intersection is a bit of both parts.
pub proof fn lemma_and_bits(x: u64, y: u64, b: u64)
    ensures
        mask_has(x & y, b) == (mask_has(x, b) && mask_has(y, b)),
{
    assert(((x & y) >> b) & 1u64 == 1u64 <==> ((x >> b) & 1u64 == 1u64 && (y >> b) & 1u64
        == 1u64)) by (bit_vector);
}

/// The empty mask has no bit set.
pub proof fn lemma_zero_has_none(b: u64)
    ensures
        !mask_has(0, b),
{
    assert((0u64 >> b) & 1u64 != 1u64) by (bit_vector);
}

/// The folded bit index is always below 64.
pub proof fn lemma_bit_of_range(codepoint: u32)
    ensures
        spec_bit_of(codepoint) < 64,
{
    assert((codepoint ^ (codepoint >> 16u32)) & 0x3fu32 < 64) by (bit_vector);
}


/// One step of the lowest-bit recursion, stated for every mask.
pub proof fn lemma_ones_unfold(x: u64)
    ensures
        ones(x) == (if x & 1u64 == 1u64 {
            1nat
        } else {
            0nat
        }) + ones(x >> 1u64),
{
    if x == 0 {
        assert(0u64 & 1u64 != 1u64 && 0u64 >> 1u64 == 0u64) by (bit_vector);
    }
}

/// Counting the low `j` bits and peeling the rest one by one gives the
/// same number as peeling them all.
proof fn lemma_ones_split(m: u64, j: nat)
    requires
        j <= 64,
    ensures
        ones(m >> (j as u64)) + bit_count(m, j) == ones(m),
    decreases j,
{
    if j == 0 {
        assert(m >> 0u64 == m) by (bit_vector);
    } else {
        let k = (j - 1) as u64;
        lemma_ones_split(m, (j - 1) as nat);
        lemma_ones_unfold(m >> k);
        assert((m >> k) >> 1u64 == m >> (k + 1) && ((m >> k) & 1u64 == 1u64 <==> (m >> k) & 1u64
            == 1u64)) by (bit_vector)
            requires
                k < 64,
        ;
        assert(k + 1 == j as u64);
    }
}

/// The lowest-bit recursion counts exactly the set bits.
pub proof fn lemma_ones_is_popcount(m: u64)
    ensures
        ones(m) == spec_popcount(m),
{
    lemma_ones_split(m, 64);
    assert(m >> 64u64 == 0u64) by (bit_vector);
    assert(ones(0) == 0);
}

/// Clearing the lowest set bit lowers the count by one.
pub proof fn lemma_ones_clear_lowest(m: u64)
    requires
        m != 0,
    ensures
        ones(m & ((m - 1u64) as u64)) + 1 == ones(m),
    decreases m,
{
    let x = m & ((m - 1u64) as u64);
    lemma_ones_unfold(m);
    lemma_ones_unfold(x);
    if m & 1u64 == 1u64 {
        assert(m & 1u64 == 1u64 ==> (m & ((m - 1u64) as u64)) & 1u64 == 0u64 && (m & ((m - 1u64) as u64)) >> 1u64
            == m >> 1u64) by (bit_vector);
    } else {
        let h = m >> 1u64;
        assert(m != 0u64 && m & 1u64 != 1u64 ==> (m & ((m - 1u64) as u64)) & 1u64 == 0u64 && (m & ((m - 1u64) as u64)) >> 1u64 == (m >> 1u64) & (((m >> 1u64) - 1u64) as u64) && m >> 1u64 != 0u64) by (bit_vector);
        lemma_shr1_decreases(m);
        lemma_ones_clear_lowest(h);
    }
}

/// At most `n` bits are set below position `n`.
pub proof fn lemma_bit_count_bound(m: u64, n: nat)
    ensures
        bit_count(m, n) <= n,
    decreases n,
{
    if n > 0 {
        lemma_bit_count_bound(m, (n - 1) as nat);
    }
}

/// A mask is nonzero exactly when some bit below 64 is set.
pub proof fn lemma_nonzero_has_bit(x: u64)
    ensures
        x != 0 <==> exists|b: u64| b < 64 && #[trigger] mask_has(x, b),
{
    if x != 0 {
        lemma_nonzero_ones(x);
        lemma_ones_is_popcount(x);
        lemma_count_positive_has_bit(x, 64);
    } else {
        assert forall|b: u64| b < 64 implies !#[trigger] mask_has(x, b) by {
            lemma_zero_has_none(b);
        }
    }
}

proof fn lemma_nonzero_ones(x: u64)
    requires
        x != 0,
    ensures
        ones(x) >= 1,
    decreases x,
{
    lemma_ones_unfold(x);
    if x & 1u64 != 1u64 {
        assert(x != 0u64 && x & 1u64 != 1u64 ==> x >> 1u64 != 0u64) by (bit_vector);
        lemma_shr1_decreases(x);
        lemma_nonzero_ones(x >> 1u64);
    }
}

proof fn lemma_count_positive_has_bit(x: u64, n: nat)
    requires
        bit_count(x, n) >= 1,
        n <= 64,
    ensures
        exists|b: u64| b < n && #[trigger] mask_has(x, b),
    decreases n,
{
    if mask_has(x, (n - 1) as u64) {
        assert(mask_has(x, (n - 1) as u64));
    } else {
        lemma_count_positive_has_bit(x, (n - 1) as nat);
    }
}

/// With no set bit at or above `p`, the count below `p` is the whole count.
pub proof fn lemma_bit_count_top_clear(m: u64, p: nat, n: nat)
    requires
        p <= n <= 64,
        forall|b: u64| p <= b < 64 ==> !#[trigger] mask_has(m, b),
    ensures
        bit_count(m, n) == bit_count(m, p),
    decreases n,
{
    if n > p {
        lemma_bit_count_top_clear(m, p, (n - 1) as nat);
        assert(!mask_has(m, (n - 1) as u64));
    }
}

} // verus!

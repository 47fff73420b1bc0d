//! Kinsoku bitmasks: a set of code points is folded into a 64-bit mask, one
//! bit per folded index, so that membership is a shift and an AND.
use vstd::prelude::*;

use crate::bitmask::{
    bit_count, covers, lemma_and_bits, lemma_bit_count_bound, lemma_bit_count_top_clear,
    lemma_bit_of_range, lemma_clear_single, lemma_nonzero_has_bit, lemma_ones_clear_lowest,
    lemma_ones_is_popcount, lemma_or_bits, lemma_or_single, lemma_xor_single, lemma_zero_has_none,
    mask_has, ones, spec_bit_of, spec_popcount,
};

verus! {

/// Code points that may not start a line (closing punctuation and stops).
pub const HEAD_KINSOKU_CODEPOINTS: [u32; 15] = [
    0x3001,  // 、
    0x3002,  // 。
    0xFF0C,  // ，
    0xFF0E,  // ．
    0xFF1A,  // ：
    0xFF1B,  // ；
    0xFF01,  // ！
    0xFF1F,  // ？
    0x300D,  // 」
    0x300F,  // 』
    0x3011,  // 】
    0x3015,  // 〕
    0xFF09,  // ）
    0xFF3D,  // ］
    0xFF5D,  // ｝
];

/// Code points that may not end a line (opening brackets and quotes).
pub const END_KINSOKU_CODEPOINTS: [u32; 9] = [
    0x300C,  // 「
    0x300E,  // 『
    0x3010,  // 【
    0x3014,  // 〔
    0xFF08,  // （
    0xFF3B,  // ［
    0xFF5B,  // ｛
    0x300A,  // 《
    0x3008,  // 〈
];

/// Small punctuation that may hang past the line edge.
pub const HANGING_CODEPOINTS: [u32; 6] = [
    0x3001,  // 、
    0x3002,  // 。
    0xFF0C,  // ，
    0xFF0E,  // ．
    0xFF01,  // ！
    0xFF1F,  // ？
];

/// The mask of a sequence of code points: the OR of one bit per code point.
pub open spec fn spec_build(codes: Seq<u32>) -> u64
    decreases codes.len(),
{
    if codes.len() == 0 {
        0
    } else {
        spec_build(codes.drop_last()) | (1u64 << spec_bit_of(codes.last()))
    }
}

/// Adding one code point to a sequence adds its bit to the mask.
pub proof fn lemma_build_push(codes: Seq<u32>, c: u32)
    ensures
        spec_build(codes.push(c)) == spec_build(codes) | (1u64 << spec_bit_of(c)),
{
    assert(codes.push(c).drop_last() =~= codes);
}

/// The union of a sequence of masks.
pub open spec fn spec_merge(masks: Seq<u64>) -> u64
    decreases masks.len(),
{
    if masks.len() == 0 {
        0
    } else {
        spec_merge(masks.drop_last()) | masks.last()
    }
}

/// Some code point of `codes` folds to bit `b`.
pub open spec fn some_code_folds_to(codes: Seq<u32>, b: u64) -> bool {
    exists|i: int| 0 <= i < codes.len() && spec_bit_of(#[trigger] codes[i]) == b
}

/// Some mask of `masks` has bit `b` set.
pub open spec fn some_mask_has(masks: Seq<u64>, b: u64) -> bool {
    exists|i: int| 0 <= i < masks.len() && mask_has(#[trigger] masks[i], b)
}

pub open spec fn spec_enable(mask: u64, codepoint: u32) -> u64 {
    mask | (1u64 << spec_bit_of(codepoint))
}

pub open spec fn spec_disable(mask: u64, codepoint: u32) -> u64 {
    mask & !(1u64 << spec_bit_of(codepoint))
}

pub open spec fn spec_toggle(mask: u64, codepoint: u32) -> u64 {
    mask ^ (1u64 << spec_bit_of(codepoint))
}

/// A bit of the mask of `codes` is set exactly when some code point of
/// `codes` folds to it.
pub proof fn lemma_build_bits(codes: Seq<u32>, b: u64)
    requires
        b < 64,
    ensures
        mask_has(spec_build(codes), b) <==> some_code_folds_to(codes, b),
    decreases codes.len(),
{
    if codes.len() == 0 {
        lemma_zero_has_none(b);
    } else {
        let init = codes.drop_last();
        lemma_build_bits(init, b);
        lemma_bit_of_range(codes.last());
        lemma_or_single(spec_build(init), spec_bit_of(codes.last()), b);
        if some_code_folds_to(init, b) {
            let i = choose|i: int| 0 <= i < init.len() && spec_bit_of(#[trigger] init[i]) == b;
            assert(codes[i] == init[i]);
        }
        if some_code_folds_to(codes, b) {
            let i = choose|i: int| 0 <= i < codes.len() && spec_bit_of(#[trigger] codes[i]) == b;
            if i < codes.len() - 1 {
                assert(init[i] == codes[i]);
            }
        }
    }
}

/// A bit of the union of `masks` is set exactly when it is set in one of
/// them.
pub proof fn lemma_merge_bits(masks: Seq<u64>, b: u64)
    ensures
        mask_has(spec_merge(masks), b) <==> some_mask_has(masks, b),
    decreases masks.len(),
{
    if masks.len() == 0 {
        lemma_zero_has_none(b);
    } else {
        let init = masks.drop_last();
        lemma_merge_bits(init, b);
        lemma_or_bits(spec_merge(init), masks.last(), b);
        if some_mask_has(init, b) {
            let i = choose|i: int| 0 <= i < init.len() && mask_has(#[trigger] init[i], b);
            assert(masks[i] == init[i]);
        }
        if some_mask_has(masks, b) {
            let i = choose|i: int| 0 <= i < masks.len() && mask_has(#[trigger] masks[i], b);
            if i < masks.len() - 1 {
                assert(init[i] == masks[i]);
            }
        }
    }
}

/// Flipping the same code point twice gives back the mask it started from.
pub proof fn law_toggle_twice(mask: u64, codepoint: u32)
    ensures
        spec_toggle(spec_toggle(mask, codepoint), codepoint) == mask,
{
    let k = 1u64 << spec_bit_of(codepoint);
    assert((mask ^ k) ^ k == mask) by (bit_vector);
}

/// Enabling a code point that is already enabled changes nothing.
pub proof fn law_enable_idempotent(mask: u64, codepoint: u32)
    ensures
        spec_enable(spec_enable(mask, codepoint), codepoint) == spec_enable(mask, codepoint),
{
    let k = 1u64 << spec_bit_of(codepoint);
    assert((mask | k) | k == mask | k) by (bit_vector);
}

/// Disabling undoes enabling, and enabling undoes disabling: after either
/// pair only the last operation on that code point counts.
pub proof fn law_enable_disable_last_wins(mask: u64, codepoint: u32)
    ensures
        spec_disable(spec_enable(mask, codepoint), codepoint) == spec_disable(mask, codepoint),
        spec_enable(spec_disable(mask, codepoint), codepoint) == spec_enable(mask, codepoint),
{
    let k = 1u64 << spec_bit_of(codepoint);
    assert((mask | k) & !k == mask & !k && (mask & !k) | k == mask | k) by (bit_vector);
}

/// Enabling, disabling or flipping one code point leaves the membership of
/// every code point that folds to another bit unchanged.
pub proof fn law_single_bit_edits_are_local(mask: u64, codepoint: u32, other: u32)
    requires
        spec_bit_of(other) != spec_bit_of(codepoint),
    ensures
        covers(spec_enable(mask, codepoint), other) == covers(mask, other),
        covers(spec_disable(mask, codepoint), other) == covers(mask, other),
        covers(spec_toggle(mask, codepoint), other) == covers(mask, other),
{
    lemma_bit_of_range(codepoint);
    lemma_bit_of_range(other);
    lemma_or_single(mask, spec_bit_of(codepoint), spec_bit_of(other));
    lemma_clear_single(mask, spec_bit_of(codepoint), spec_bit_of(other));
    lemma_xor_single(mask, spec_bit_of(codepoint), spec_bit_of(other));
}

/// A code point belongs to the mask of `codes` exactly when it folds to the
/// same bit as one of them (members always belong; others may collide).
pub proof fn law_built_mask_membership(codes: Seq<u32>, codepoint: u32)
    ensures
        covers(spec_build(codes), codepoint) <==> some_code_folds_to(codes, spec_bit_of(codepoint)),
{
    lemma_bit_of_range(codepoint);
    lemma_build_bits(codes, spec_bit_of(codepoint));
}

/// A code point belongs to a union of masks exactly when it belongs to one
/// of them.
pub proof fn law_merged_mask_membership(masks: Seq<u64>, codepoint: u32)
    ensures
        covers(spec_merge(masks), codepoint) <==> exists|i: int|
            0 <= i < masks.len() && covers(#[trigger] masks[i], codepoint),
{
    lemma_merge_bits(masks, spec_bit_of(codepoint));
}

/// The folded bit in arithmetic terms: the low 6 bits of the code point
/// XORed with the low 6 bits of its high half, so a code point of the Basic
/// Multilingual Plane folds to its value modulo 64.
pub proof fn law_bit_of_arithmetic(cp: u32)
    ensures
        spec_bit_of(cp) == (cp % 64) ^ ((cp / 65536) % 64),
        cp < 0x10000 ==> spec_bit_of(cp) == cp % 64,
{
    assert(((cp ^ (cp >> 16u32)) & 0x3fu32) as u64 == ((cp % 64) ^ ((cp / 65536) % 64)) as u64 && (
    cp < 0x10000 ==> ((cp ^ (cp >> 16u32)) & 0x3fu32) as u64 == (cp % 64) as u64))
        by (bit_vector);
}

/// Folds a code point to its bit index: the high 16 bits are XORed into the
/// low 16 and the low 6 bits of the result are kept.
pub fn map_codepoint_to_bit(codepoint: u32) -> (bit: u64)
    ensures
        bit == spec_bit_of(codepoint),
        bit < 64,
        bit == (codepoint % 64) ^ ((codepoint / 65536) % 64),
        codepoint < 0x10000 ==> bit == codepoint % 64,
{
    proof {
        lemma_bit_of_range(codepoint);
        law_bit_of_arithmetic(codepoint);
    }
    ((codepoint ^ (codepoint >> 16u32)) & 0x3fu32) as u64
}

/// Builds the mask of a set of code points: one bit per code point, ORed
/// together.
pub fn build_kinsoku_mask(codes: &[u32]) -> (mask: u64)
    ensures
        mask == spec_build(codes@),
        forall|b: u64| b < 64 ==> (#[trigger] mask_has(mask, b) <==> some_code_folds_to(codes@, b)),
        forall|i: int| 0 <= i < codes@.len() ==> covers(mask, #[trigger] codes@[i]),
{
    let mut mask: u64 = 0;
    let mut i: usize = 0;
    while i < codes.len()
        invariant
            i <= codes@.len(),
            mask == spec_build(codes@.take(i as int)),
        decreases codes@.len() - i,
    {
        let bit = map_codepoint_to_bit(codes[i]);
        mask = mask | (1u64 << bit);
        assert(codes@.take(i + 1).drop_last() =~= codes@.take(i as int));
        i = i + 1;
    }
    assert(codes@.take(codes@.len() as int) =~= codes@);
    proof {
        assert forall|b: u64| b < 64 implies (#[trigger] mask_has(mask, b) <==> some_code_folds_to(
            codes@,
            b,
        )) by {
            lemma_build_bits(codes@, b);
        }
        assert forall|i: int| 0 <= i < codes@.len() implies covers(mask, #[trigger] codes@[i]) by {
            lemma_bit_of_range(codes@[i]);
            lemma_build_bits(codes@, spec_bit_of(codes@[i]));
        }
    }
    mask
}

/// Whether a code point belongs to the set that `mask` describes.
pub fn is_in_kinsoku(codepoint: u32, mask: u64) -> (r: bool)
    ensures
        r == covers(mask, codepoint),
{
    let bit = map_codepoint_to_bit(codepoint);
    (mask >> bit) & 1u64 == 1u64
}

/// The union of several masks.
pub fn merge_kinsoku_masks(masks: &[u64]) -> (r: u64)
    ensures
        r == spec_merge(masks@),
        forall|b: u64| #[trigger] mask_has(r, b) <==> some_mask_has(masks@, b),
{
    let mut result: u64 = 0;
    let mut i: usize = 0;
    while i < masks.len()
        invariant
            i <= masks@.len(),
            result == spec_merge(masks@.take(i as int)),
        decreases masks@.len() - i,
    {
        result = result | masks[i];
        assert(masks@.take(i + 1).drop_last() =~= masks@.take(i as int));
        i = i + 1;
    }
    assert(masks@.take(masks@.len() as int) =~= masks@);
    proof {
        assert forall|b: u64| #[trigger] mask_has(result, b) <==> some_mask_has(masks@, b) by {
            lemma_merge_bits(masks@, b);
        }
    }
    result
}

/// Adds a code point's bit to a mask.
pub fn enable_kinsoku(mask: u64, codepoint: u32) -> (r: u64)
    ensures
        r == spec_enable(mask, codepoint),
        covers(r, codepoint),
        forall|b: u64|
            b < 64 ==> (#[trigger] mask_has(r, b) == (mask_has(mask, b) || b == spec_bit_of(
                codepoint,
            ))),
{
    let bit = map_codepoint_to_bit(codepoint);
    let r = mask | (1u64 << bit);
    proof {
        assert forall|b: u64| b < 64 implies (#[trigger] mask_has(r, b) == (mask_has(mask, b) || b
            == spec_bit_of(codepoint))) by {
            lemma_or_single(mask, bit, b);
        }
        lemma_or_single(mask, bit, bit);
    }
    r
}

/// Removes a code point's bit from a mask.
pub fn disable_kinsoku(mask: u64, codepoint: u32) -> (r: u64)
    ensures
        r == spec_disable(mask, codepoint),
        !covers(r, codepoint),
        forall|b: u64|
            b < 64 ==> (#[trigger] mask_has(r, b) == (mask_has(mask, b) && b != spec_bit_of(
                codepoint,
            ))),
{
    let bit = map_codepoint_to_bit(codepoint);
    let r = mask & !(1u64 << bit);
    proof {
        assert forall|b: u64| b < 64 implies (#[trigger] mask_has(r, b) == (mask_has(mask, b) && b
            != spec_bit_of(codepoint))) by {
            lemma_clear_single(mask, bit, b);
        }
        lemma_clear_single(mask, bit, bit);
    }
    r
}

/// Flips a code point's bit in a mask.
pub fn toggle_kinsoku(mask: u64, codepoint: u32) -> (r: u64)
    ensures
        r == spec_toggle(mask, codepoint),
        covers(r, codepoint) != covers(mask, codepoint),
        forall|b: u64|
            b < 64 ==> (#[trigger] mask_has(r, b) == (mask_has(mask, b) != (b == spec_bit_of(
                codepoint,
            )))),
{
    let bit = map_codepoint_to_bit(codepoint);
    let r = mask ^ (1u64 << bit);
    proof {
        assert forall|b: u64| b < 64 implies (#[trigger] mask_has(r, b) == (mask_has(mask, b) != (b
            == spec_bit_of(codepoint)))) by {
            lemma_xor_single(mask, bit, b);
        }
        lemma_xor_single(mask, bit, bit);
    }
    r
}

/// The positions of the set bits of `mask`, in increasing order.
pub fn extract_enabled_bits(mask: u64) -> (bits: Vec<u8>)
    ensures
        bits@.len() == spec_popcount(mask),
        forall|i: int, j: int| 0 <= i < j < bits@.len() ==> bits@[i] < bits@[j],
        forall|i: int| 0 <= i < bits@.len() ==> #[trigger] bits@[i] < 64 && mask_has(mask, bits@[i] as u64),
        forall|b: u8| b < 64 && mask_has(mask, b as u64) ==> #[trigger] bits@.contains(b),
{
    let mut bits: Vec<u8> = Vec::with_capacity(64);
    let mut current = mask;
    let mut position: u8 = 0;
    assert(mask >> 0u64 == mask) by (bit_vector);
    while current != 0
        invariant
            position <= 64,
            position < 64 ==> current == mask >> (position as u64),
            position == 64 ==> current == 0,
            bits@.len() == bit_count(mask, position as nat),
            forall|i: int, j: int| 0 <= i < j < bits@.len() ==> bits@[i] < bits@[j],
            forall|i: int|
                0 <= i < bits@.len() ==> #[trigger] bits@[i] < position && mask_has(
                    mask,
                    bits@[i] as u64,
                ),
            forall|b: u8| b < position && mask_has(mask, b as u64) ==> #[trigger] bits@.contains(b),
        decreases 64 - position,
    {
        let ghost p = position as u64;
        let ghost old_bits = bits@;
        assert(current & 1u64 == 1u64 <==> mask_has(mask, p));
        if current & 1u64 == 1u64 {
            bits.push(position);
            assert(bits@[bits@.len() - 1] == position);
        }
        proof {
            assert forall|b: u8| b < position + 1 && mask_has(mask, b as u64) implies #[trigger] bits@.contains(b) by {
                if b < position {
                    assert(old_bits.contains(b));
                    let k = choose|k: int| 0 <= k < old_bits.len() && old_bits[k] == b;
                    assert(bits@[k] == b);
                } else {
                    assert(bits@[bits@.len() - 1] == b);
                }
            }
        }
        assert((mask >> p) >> 1u64 == mask >> ((p + 1) as u64) && (p == 63 ==> (mask >> p) >> 1u64
            == 0u64)) by (bit_vector)
            requires
                p < 64,
        ;
        current = current >> 1u64;
        position = position + 1;
    }
    proof {
        let p = position as u64;
        assert forall|b: u64| p <= b < 64 implies !#[trigger] mask_has(mask, b) by {
            assert((p < 64 ==> mask >> p == 0u64) && p <= b < 64 ==> (mask >> b) & 1u64 != 1u64)
                by (bit_vector);
        }
        lemma_bit_count_top_clear(mask, position as nat, 64);
    }
    bits
}

/// Whether two masks share a set bit.
pub fn has_intersection(mask1: u64, mask2: u64) -> (r: bool)
    ensures
        r <==> exists|b: u64| b < 64 && #[trigger] mask_has(mask1, b) && mask_has(mask2, b),
{
    let both = mask1 & mask2;
    proof {
        lemma_nonzero_has_bit(both);
        if both != 0 {
            let b = choose|b: u64| b < 64 && #[trigger] mask_has(both, b);
            lemma_and_bits(mask1, mask2, b);
        }
        assert forall|b: u64| b < 64 && #[trigger] mask_has(mask1, b) && mask_has(mask2, b) implies mask_has(
            both,
            b,
        ) by {
            lemma_and_bits(mask1, mask2, b);
        }
    }
    both != 0
}

/// The number of set bits of a mask, counted by clearing the lowest set bit
/// until none is left.
pub fn popcount(mask: u64) -> (count: u32)
    ensures
        count == spec_popcount(mask),
        count <= 64,
{
    let mut m = mask;
    let mut count: u32 = 0;
    proof {
        lemma_ones_is_popcount(mask);
        lemma_bit_count_bound(mask, 64);
    }
    while m != 0
        invariant
            count + ones(m) == ones(mask),
            ones(mask) <= 64,
        decreases m,
    {
        proof {
            lemma_ones_clear_lowest(m);
        }
        assert(m != 0u64 ==> m & ((m - 1u64) as u64) < m) by (bit_vector);
        m = m & (m - 1);
        count = count + 1;
    }
    count
}

} // verus!

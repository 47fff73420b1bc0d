//! Masks of the standard code point sets, precomputed.
use vstd::prelude::*;

use crate::bitmask::{covers, lemma_or_bits, spec_bit_of};
use crate::kinsoku_map::{
    lemma_build_push, spec_build, END_KINSOKU_CODEPOINTS, HANGING_CODEPOINTS, HEAD_KINSOKU_CODEPOINTS,
};

verus! {

/// Mask of `HEAD_KINSOKU_CODEPOINTS` (see `lemma_prebuilt_masks`).
pub const HEAD_MASK: u64 = 0x2000_0000_ac22_f206u64;

/// Mask of `END_KINSOKU_CODEPOINTS` (see `lemma_prebuilt_masks`).
pub const END_MASK: u64 = 0x0800_0000_0811_5500u64;

/// Mask of `HANGING_CODEPOINTS` (see `lemma_prebuilt_masks`).
pub const HANGING_MASK: u64 = 0x8000_5006u64;

/// Head-kinsoku and hanging rules together.
pub const FULL_KINSOKU_MASK: u64 = HEAD_MASK | HANGING_MASK;

/// The three standard masks: head, end and hanging.
pub const DEFAULT_MASKS: (u64, u64, u64) = (HEAD_MASK, END_MASK, HANGING_MASK);

/// The precomputed masks are the masks of the standard code point sets.
pub proof fn lemma_prebuilt_masks()
    ensures
        HEAD_MASK == spec_build(HEAD_KINSOKU_CODEPOINTS@),
        END_MASK == spec_build(END_KINSOKU_CODEPOINTS@),
        HANGING_MASK == spec_build(HANGING_CODEPOINTS@),
{
    lemma_head_mask();
    lemma_end_mask();
    lemma_hanging_mask();
}

/// The full mask covers exactly what the head mask or the hanging mask
/// covers.
pub proof fn law_full_mask_is_union(codepoint: u32)
    ensures
        covers(FULL_KINSOKU_MASK, codepoint) == (covers(HEAD_MASK, codepoint) || covers(
            HANGING_MASK,
            codepoint,
        )),
{
    lemma_or_bits(HEAD_MASK, HANGING_MASK, spec_bit_of(codepoint));
}

/// Every hanging character is also a head-kinsoku character.
pub proof fn law_hanging_within_head(codepoint: u32)
    ensures
        covers(HANGING_MASK, codepoint) ==> covers(HEAD_MASK, codepoint),
{
    let b = spec_bit_of(codepoint);
    assert((0x8000_5006u64 >> b) & 1u64 == 1u64 ==> (0x2000_0000_ac22_f206u64 >> b) & 1u64 == 1u64)
        by (bit_vector);
}

/// `HEAD_MASK` is the mask of `HEAD_KINSOKU_CODEPOINTS`.
proof fn lemma_head_mask()
    ensures
        HEAD_MASK == spec_build(HEAD_KINSOKU_CODEPOINTS@),
{
    let s0: Seq<u32> = Seq::empty();
    let s1 = s0.push(0x3001u32);
    lemma_build_push(s0, 0x3001u32);
    let s2 = s1.push(0x3002u32);
    lemma_build_push(s1, 0x3002u32);
    let s3 = s2.push(0xFF0Cu32);
    lemma_build_push(s2, 0xFF0Cu32);
    let s4 = s3.push(0xFF0Eu32);
    lemma_build_push(s3, 0xFF0Eu32);
    let s5 = s4.push(0xFF1Au32);
    lemma_build_push(s4, 0xFF1Au32);
    let s6 = s5.push(0xFF1Bu32);
    lemma_build_push(s5, 0xFF1Bu32);
    let s7 = s6.push(0xFF01u32);
    lemma_build_push(s6, 0xFF01u32);
    let s8 = s7.push(0xFF1Fu32);
    lemma_build_push(s7, 0xFF1Fu32);
    let s9 = s8.push(0x300Du32);
    lemma_build_push(s8, 0x300Du32);
    let s10 = s9.push(0x300Fu32);
    lemma_build_push(s9, 0x300Fu32);
    let s11 = s10.push(0x3011u32);
    lemma_build_push(s10, 0x3011u32);
    let s12 = s11.push(0x3015u32);
    lemma_build_push(s11, 0x3015u32);
    let s13 = s12.push(0xFF09u32);
    lemma_build_push(s12, 0xFF09u32);
    let s14 = s13.push(0xFF3Du32);
    lemma_build_push(s13, 0xFF3Du32);
    let s15 = s14.push(0xFF5Du32);
    lemma_build_push(s14, 0xFF5Du32);
    assert(spec_build(s0) == 0);
    assert((((((((((((((((0u64 | (1u64 << (((0x3001u32 ^ (0x3001u32 >> 16u32)) & 0x3fu32) as u64))) | (1u64 << (((0x3002u32 ^ (0x3002u32 >> 16u32)) & 0x3fu32) as u64))) | (1u64 << (((0xFF0Cu32 ^ (0xFF0Cu32 >> 16u32)) & 0x3fu32) as u64))) | (1u64 << (((0xFF0Eu32 ^ (0xFF0Eu32 >> 16u32)) & 0x3fu32) as u64))) | (1u64 << (((0xFF1Au32 ^ (0xFF1Au32 >> 16u32)) & 0x3fu32) as u64))) | (1u64 << (((0xFF1Bu32 ^ (0xFF1Bu32 >> 16u32)) & 0x3fu32) as u64))) | (1u64 << (((0xFF01u32 ^ (0xFF01u32 >> 16u32)) & 0x3fu32) as u64))) | (1u64 << (((0xFF1Fu32 ^ (0xFF1Fu32 >> 16u32)) & 0x3fu32) as u64))) | (1u64 << (((0x300Du32 ^ (0x300Du32 >> 16u32)) & 0x3fu32) as u64))) | (1u64 << (((0x300Fu32 ^ (0x300Fu32 >> 16u32)) & 0x3fu32) as u64))) | (1u64 << (((0x3011u32 ^ (0x3011u32 >> 16u32)) & 0x3fu32) as u64))) | (1u64 << (((0x3015u32 ^ (0x3015u32 >> 16u32)) & 0x3fu32) as u64))) | (1u64 << (((0xFF09u32 ^ (0xFF09u32 >> 16u32)) & 0x3fu32) as u64))) | (1u64 << (((0xFF3Du32 ^ (0xFF3Du32 >> 16u32)) & 0x3fu32) as u64))) | (1u64 << (((0xFF5Du32 ^ (0xFF5Du32 >> 16u32)) & 0x3fu32) as u64))) == 0x2000_0000_ac22_f206u64) by (bit_vector);
    assert(HEAD_KINSOKU_CODEPOINTS@ =~= s15);
}

/// `END_MASK` is the mask of `END_KINSOKU_CODEPOINTS`.
proof fn lemma_end_mask()
    ensures
        END_MASK == spec_build(END_KINSOKU_CODEPOINTS@),
{
    let s0: Seq<u32> = Seq::empty();
    let s1 = s0.push(0x300Cu32);
    lemma_build_push(s0, 0x300Cu32);
    let s2 = s1.push(0x300Eu32);
    lemma_build_push(s1, 0x300Eu32);
    let s3 = s2.push(0x3010u32);
    lemma_build_push(s2, 0x3010u32);
    let s4 = s3.push(0x3014u32);
    lemma_build_push(s3, 0x3014u32);
    let s5 = s4.push(0xFF08u32);
    lemma_build_push(s4, 0xFF08u32);
    let s6 = s5.push(0xFF3Bu32);
    lemma_build_push(s5, 0xFF3Bu32);
    let s7 = s6.push(0xFF5Bu32);
    lemma_build_push(s6, 0xFF5Bu32);
    let s8 = s7.push(0x300Au32);
    lemma_build_push(s7, 0x300Au32);
    let s9 = s8.push(0x3008u32);
    lemma_build_push(s8, 0x3008u32);
    assert(spec_build(s0) == 0);
    assert((((((((((0u64 | (1u64 << (((0x300Cu32 ^ (0x300Cu32 >> 16u32)) & 0x3fu32) as u64))) | (1u64 << (((0x300Eu32 ^ (0x300Eu32 >> 16u32)) & 0x3fu32) as u64))) | (1u64 << (((0x3010u32 ^ (0x3010u32 >> 16u32)) & 0x3fu32) as u64))) | (1u64 << (((0x3014u32 ^ (0x3014u32 >> 16u32)) & 0x3fu32) as u64))) | (1u64 << (((0xFF08u32 ^ (0xFF08u32 >> 16u32)) & 0x3fu32) as u64))) | (1u64 << (((0xFF3Bu32 ^ (0xFF3Bu32 >> 16u32)) & 0x3fu32) as u64))) | (1u64 << (((0xFF5Bu32 ^ (0xFF5Bu32 >> 16u32)) & 0x3fu32) as u64))) | (1u64 << (((0x300Au32 ^ (0x300Au32 >> 16u32)) & 0x3fu32) as u64))) | (1u64 << (((0x3008u32 ^ (0x3008u32 >> 16u32)) & 0x3fu32) as u64))) == 0x0800_0000_0811_5500u64) by (bit_vector);
    assert(END_KINSOKU_CODEPOINTS@ =~= s9);
}

/// `HANGING_MASK` is the mask of `HANGING_CODEPOINTS`.
proof fn lemma_hanging_mask()
    ensures
        HANGING_MASK == spec_build(HANGING_CODEPOINTS@),
{
    let s0: Seq<u32> = Seq::empty();
    let s1 = s0.push(0x3001u32);
    lemma_build_push(s0, 0x3001u32);
    let s2 = s1.push(0x3002u32);
    lemma_build_push(s1, 0x3002u32);
    let s3 = s2.push(0xFF0Cu32);
    lemma_build_push(s2, 0xFF0Cu32);
    let s4 = s3.push(0xFF0Eu32);
    lemma_build_push(s3, 0xFF0Eu32);
    let s5 = s4.push(0xFF01u32);
    lemma_build_push(s4, 0xFF01u32);
    let s6 = s5.push(0xFF1Fu32);
    lemma_build_push(s5, 0xFF1Fu32);
    assert(spec_build(s0) == 0);
    assert(((((((0u64 | (1u64 << (((0x3001u32 ^ (0x3001u32 >> 16u32)) & 0x3fu32) as u64))) | (1u64 << (((0x3002u32 ^ (0x3002u32 >> 16u32)) & 0x3fu32) as u64))) | (1u64 << (((0xFF0Cu32 ^ (0xFF0Cu32 >> 16u32)) & 0x3fu32) as u64))) | (1u64 << (((0xFF0Eu32 ^ (0xFF0Eu32 >> 16u32)) & 0x3fu32) as u64))) | (1u64 << (((0xFF01u32 ^ (0xFF01u32 >> 16u32)) & 0x3fu32) as u64))) | (1u64 << (((0xFF1Fu32 ^ (0xFF1Fu32 >> 16u32)) & 0x3fu32) as u64))) == 0x8000_5006u64) by (bit_vector);
    assert(HANGING_CODEPOINTS@ =~= s6);
}

} // verus!

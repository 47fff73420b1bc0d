//! A typesetting core for Chinese and mixed CJK/Latin text: kinsoku
//! (line-start and line-end prohibition) bitmasks, the per-character
//! arbitration of the layout engine, the decisions of the streaming line
//! breaker, and font fallback by code point range.
use vstd::prelude::*;

pub mod bitmask;
pub mod font_fallback;
pub mod kinsoku_map;
pub mod layout_engine;
pub mod line_break;
pub mod prebuilt_masks;

pub use font_fallback::{cjk_latin_fallback, FontFallback, UnicodeRange};
pub use kinsoku_map::{
    build_kinsoku_mask, disable_kinsoku, enable_kinsoku, extract_enabled_bits, has_intersection,
    is_in_kinsoku, map_codepoint_to_bit, merge_kinsoku_masks, popcount, toggle_kinsoku,
    END_KINSOKU_CODEPOINTS, HANGING_CODEPOINTS, HEAD_KINSOKU_CODEPOINTS,
};
pub use layout_engine::{default_kinsoku_policy, BreakDecision, KinsokuPolicy, LayoutEngineCore};
pub use line_break::{BreakReason, LineScanner, LineSpan, ScanStep};

use crate::bitmask::covers;
use crate::kinsoku_map::spec_build;
use crate::layout_engine::{default_end_codes, default_hanging_codes, default_head_codes};

verus! {

/// The mask of a set of code points, as exported to script hosts.
pub fn build_kinsoku_mask_js(codes: &[u32]) -> (mask: u64)
    ensures
        mask == spec_build(codes@),
{
    kinsoku_map::build_kinsoku_mask(codes)
}

/// Whether a code point belongs to a mask, as exported to script hosts.
pub fn is_in_kinsoku_js(codepoint: u32, mask: u64) -> (r: bool)
    ensures
        r == covers(mask, codepoint),
{
    kinsoku_map::is_in_kinsoku(codepoint, mask)
}

/// The head, end and hanging masks of the default policy, in that order.
pub fn get_default_policy() -> (masks: Vec<u64>)
    ensures
        masks@ == seq![
            spec_build(default_head_codes()),
            spec_build(default_end_codes()),
            spec_build(default_hanging_codes()),
        ],
        masks@ == seq![0x8c00_1006u64, 0x5100u64, 0x1006u64],
{
    let policy = default_kinsoku_policy();
    let masks = vec![policy.head_kinsoku_mask, policy.end_kinsoku_mask, policy.hanging_mask];
    assert(masks@ =~= seq![
        spec_build(default_head_codes()),
        spec_build(default_end_codes()),
        spec_build(default_hanging_codes()),
    ]);
    masks
}

} // verus!

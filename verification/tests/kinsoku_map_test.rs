use text_layout_engine::kinsoku_map::{
    build_kinsoku_mask, disable_kinsoku, enable_kinsoku, extract_enabled_bits, has_intersection,
    is_in_kinsoku, map_codepoint_to_bit, merge_kinsoku_masks, popcount, toggle_kinsoku,
    END_KINSOKU_CODEPOINTS, HANGING_CODEPOINTS, HEAD_KINSOKU_CODEPOINTS,
};
use text_layout_engine::prebuilt_masks::{
    DEFAULT_MASKS, END_MASK, FULL_KINSOKU_MASK, HANGING_MASK, HEAD_MASK,
};

#[test]
fn test_map_codepoint_to_bit_consistency() {
    let codepoint: u32 = 0x3002; // 。
    let bit1 = map_codepoint_to_bit(codepoint);
    let bit2 = map_codepoint_to_bit(codepoint);
    assert_eq!(bit1, bit2, "相同码点的两次映射应产生相同位索引");
    println!("码点到位映射一致性：0x3002 -> 位{}", bit1);
}

#[test]
fn test_bit_index_range() {
    let test_codepoints = [
        0x0000, 0x0041, 0x3000, 0x3002, 0x4E00, 0xFFFF, 0x10000, 0x10FFFF,
    ];
    for &cp in &test_codepoints {
        let bit = map_codepoint_to_bit(cp);
        assert!(bit < 64, "码点 0x{:X} 的映射位 {} 应在 0-63 范围内", cp, bit);
    }
}

#[test]
fn test_build_head_kinsoku_mask() {
    let mask = build_kinsoku_mask(&HEAD_KINSOKU_CODEPOINTS);
    for &cp in HEAD_KINSOKU_CODEPOINTS.iter() {
        assert!(is_in_kinsoku(cp, mask), "码点 0x{:X} 应在避头掩码中", cp);
    }
}

#[test]
fn test_head_end_separation() {
    let head_mask = build_kinsoku_mask(&HEAD_KINSOKU_CODEPOINTS);
    let end_codepoints = END_KINSOKU_CODEPOINTS;
    let mut collision_count = 0;
    for &cp in end_codepoints.iter() {
        if is_in_kinsoku(cp, head_mask) {
            collision_count += 1;
            println!("  注意：避尾字符 0x{:X} 与避头掩码发生碰撞", cp);
        }
    }
    println!(
        "{} 个避尾字符中 {} 个发生碰撞",
        end_codepoints.len(),
        collision_count
    );
}

#[test]
fn test_enable_disable() {
    let mut mask: u64 = 0;
    let codepoint: u32 = 0x3002; // 。
    assert!(!is_in_kinsoku(codepoint, mask));
    mask = enable_kinsoku(mask, codepoint);
    assert!(is_in_kinsoku(codepoint, mask));
    mask = disable_kinsoku(mask, codepoint);
    assert!(!is_in_kinsoku(codepoint, mask));
}

#[test]
fn test_toggle() {
    let mut mask: u64 = 0;
    let codepoint: u32 = 0x3002; // 。
    mask = toggle_kinsoku(mask, codepoint);
    assert!(is_in_kinsoku(codepoint, mask));
    mask = toggle_kinsoku(mask, codepoint);
    assert!(!is_in_kinsoku(codepoint, mask));
}

#[test]
fn test_popcount() {
    // 、 (U+3001) and ！ (U+FF01) fold to the same bit, so the fifteen head
    // code points set fourteen bits: the count is at most the number of code
    // points, one less here for the collision.
    let mask = build_kinsoku_mask(&HEAD_KINSOKU_CODEPOINTS);
    let count = popcount(mask);
    assert!(count as usize <= HEAD_KINSOKU_CODEPOINTS.len());
    assert_eq!(map_codepoint_to_bit(0x3001), map_codepoint_to_bit(0xFF01));
    assert_eq!(count, 14);
}

#[test]
fn test_intersection() {
    let head_mask = build_kinsoku_mask(&HEAD_KINSOKU_CODEPOINTS);
    let hanging_mask = build_kinsoku_mask(&HANGING_CODEPOINTS);
    assert!(
        has_intersection(head_mask, hanging_mask),
        "悬挂掩码应是避头掩码的子集"
    );
}

#[test]
fn test_extract_bits() {
    let mask = 0b1010u64;
    let bits = extract_enabled_bits(mask);
    assert_eq!(bits, vec![1, 3]);
}

#[test]
fn test_prebuilt_masks() {
    assert!(is_in_kinsoku(0x3002, HEAD_MASK));
    assert!(is_in_kinsoku(0x300C, END_MASK));
    assert!(is_in_kinsoku(0xFF0C, HANGING_MASK));
}

// ---- further cases ----

#[test]
fn map_codepoint_folds_high_half_into_low_bits() {
    assert_eq!(map_codepoint_to_bit(0x3002), 2);
    assert_eq!(map_codepoint_to_bit(0xFF0C), 12);
    assert_eq!(map_codepoint_to_bit(0x0000), 0);
    assert_eq!(map_codepoint_to_bit(0x10000), 1);
    assert_eq!(map_codepoint_to_bit(0x10FFFF), 47);
}

#[test]
fn build_mask_exact_values() {
    assert_eq!(build_kinsoku_mask(&[]), 0);
    assert_eq!(build_kinsoku_mask(&[0x3002, 0x3001]), 0b110);
    // U+3001 and U+FF01 fold to the same bit.
    assert_eq!(build_kinsoku_mask(&[0x3001, 0xFF01]), 0b10);
    assert_eq!(build_kinsoku_mask(&HEAD_KINSOKU_CODEPOINTS), HEAD_MASK);
    assert_eq!(build_kinsoku_mask(&END_KINSOKU_CODEPOINTS), END_MASK);
    assert_eq!(build_kinsoku_mask(&HANGING_CODEPOINTS), HANGING_MASK);
}

#[test]
fn colliding_code_point_is_reported_as_member() {
    let mask = build_kinsoku_mask(&[0x3001]);
    assert!(is_in_kinsoku(0xFF01, mask));
    assert!(!is_in_kinsoku(0x3002, mask));
}

#[test]
fn merge_is_union() {
    assert_eq!(merge_kinsoku_masks(&[]), 0);
    assert_eq!(merge_kinsoku_masks(&[1, 2, 4]), 7);
    assert_eq!(merge_kinsoku_masks(&[HEAD_MASK, HANGING_MASK]), FULL_KINSOKU_MASK);
    let merged = merge_kinsoku_masks(&[END_MASK, HANGING_MASK]);
    assert!(is_in_kinsoku(0x300C, merged));
    assert!(is_in_kinsoku(0x3002, merged));
    assert!(!is_in_kinsoku(0x3011, merged));
}

#[test]
fn enable_disable_toggle_exact_values() {
    assert_eq!(enable_kinsoku(0, 0x3002), 4);
    assert_eq!(enable_kinsoku(4, 0x3002), 4);
    assert_eq!(disable_kinsoku(6, 0x3002), 2);
    assert_eq!(disable_kinsoku(2, 0x3002), 2);
    assert_eq!(toggle_kinsoku(6, 0x3002), 2);
    assert_eq!(toggle_kinsoku(2, 0x3002), 6);
}

#[test]
fn single_bit_edits_leave_other_bits() {
    let mask = HEAD_MASK;
    let edited = disable_kinsoku(mask, 0x3002);
    assert!(is_in_kinsoku(0xFF0C, edited));
    let edited = toggle_kinsoku(mask, 0x4E00);
    assert!(is_in_kinsoku(0xFF0C, edited));
}

#[test]
fn toggle_twice_restores_mask() {
    for &cp in HEAD_KINSOKU_CODEPOINTS.iter() {
        assert_eq!(toggle_kinsoku(toggle_kinsoku(HEAD_MASK, cp), cp), HEAD_MASK);
    }
    assert_eq!(toggle_kinsoku(toggle_kinsoku(0, 0x4E00), 0x4E00), 0);
}

#[test]
fn last_enable_or_disable_wins() {
    let m = END_MASK;
    assert_eq!(disable_kinsoku(enable_kinsoku(m, 0x3002), 0x3002), disable_kinsoku(m, 0x3002));
    assert_eq!(enable_kinsoku(disable_kinsoku(m, 0x300C), 0x300C), enable_kinsoku(m, 0x300C));
    assert_eq!(enable_kinsoku(enable_kinsoku(m, 0x3002), 0x3002), enable_kinsoku(m, 0x3002));
}

#[test]
fn extract_bits_edge_cases() {
    assert!(extract_enabled_bits(0).is_empty());
    let all = extract_enabled_bits(u64::MAX);
    assert_eq!(all, (0u8..64).collect::<Vec<u8>>());
    assert_eq!(extract_enabled_bits(1u64 << 63), vec![63]);
    let head = extract_enabled_bits(HEAD_MASK);
    assert_eq!(head, vec![1, 2, 9, 12, 13, 14, 15, 17, 21, 26, 27, 29, 31, 61]);
    assert_eq!(head.len(), popcount(HEAD_MASK) as usize);
}

#[test]
fn extract_bits_match_membership() {
    let bits = extract_enabled_bits(END_MASK);
    for cp in [0x300Cu32, 0x3002, 0x4E00, 0xFF08, 0x0041] {
        let b = map_codepoint_to_bit(cp) as u8;
        assert_eq!(bits.contains(&b), is_in_kinsoku(cp, END_MASK));
    }
}

#[test]
fn intersection_cases() {
    assert!(!has_intersection(0, u64::MAX));
    assert!(!has_intersection(0b0101, 0b1010));
    assert!(has_intersection(1u64 << 63, u64::MAX));
    assert!(has_intersection(HEAD_MASK, END_MASK));
}

#[test]
fn popcount_values() {
    assert_eq!(popcount(0), 0);
    assert_eq!(popcount(u64::MAX), 64);
    assert_eq!(popcount(0b1011), 3);
    assert_eq!(popcount(HEAD_MASK), 14);
    assert_eq!(popcount(END_MASK), 8);
    assert_eq!(popcount(HANGING_MASK), 5);
}

#[test]
fn hanging_characters_are_head_kinsoku() {
    for &cp in HANGING_CODEPOINTS.iter() {
        assert!(is_in_kinsoku(cp, HEAD_MASK));
    }
    assert_eq!(HANGING_MASK & !HEAD_MASK, 0);
    assert_eq!(FULL_KINSOKU_MASK, HEAD_MASK);
    assert_eq!(DEFAULT_MASKS, (HEAD_MASK, END_MASK, HANGING_MASK));
}

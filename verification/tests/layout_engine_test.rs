use text_layout_engine::kinsoku_map::build_kinsoku_mask;
use text_layout_engine::layout_engine::{
    default_kinsoku_policy, is_cjk_punctuation, BreakDecision, KinsokuPolicy, LayoutEngineCore, BREAK_FLAG,
    COMPRESSED_FLAG, HANGING_FLAG, OVERFLOW_FLAG,
};

#[test]
fn break_decision_flags() {
    let mut d = BreakDecision::new();
    assert!(!d.should_break() && !d.should_hang() && !d.should_compress() && !d.is_overflow());
    d.set(HANGING_FLAG);
    assert!(d.should_hang());
    assert!(!d.should_break());
    d.set(BREAK_FLAG | COMPRESSED_FLAG);
    assert!(d.should_hang() && d.should_break() && d.should_compress());
    assert!(!d.is_overflow());
    assert!(d.has(OVERFLOW_FLAG | BREAK_FLAG));
    assert!(!d.has(0));
    d.set(OVERFLOW_FLAG);
    assert!(d.is_overflow());
}

#[test]
fn default_policy_masks() {
    let p = default_kinsoku_policy();
    assert_eq!(p.head_kinsoku_mask, 0x8c00_1006);
    assert_eq!(p.end_kinsoku_mask, 0x5100);
    assert_eq!(p.hanging_mask, 0x1006);
    assert!(!p.force_hanging);
    assert_eq!(
        p.head_kinsoku_mask,
        build_kinsoku_mask(&[0x3002, 0x3001, 0xFF0C, 0xFF1B, 0xFF1A, 0xFF01, 0xFF1F])
    );
}

#[test]
fn head_kinsoku_overflow_hangs_under_default_policy() {
    let policy = default_kinsoku_policy();
    // 。 overflows (90 + 30 > 100); it is head-kinsoku and hanging.
    let d = LayoutEngineCore::arbitrate(0x3002, Some(0x7720), true, 0, false, &policy);
    assert!(d.should_hang(), "避头字符在溢出时应悬挂");
    assert!(!d.should_break());
}

#[test]
fn end_kinsoku_previous_forces_break() {
    let policy = default_kinsoku_policy();
    let d = LayoutEngineCore::arbitrate(0x4ECA, Some(0x300C), true, 0, false, &policy);
    assert!(d.should_break(), "前一个字符是避尾字符时应换行");
    assert!(!d.should_hang() && !d.is_overflow());
}

#[test]
fn head_kinsoku_without_hanging_overflows() {
    let policy = KinsokuPolicy {
        head_kinsoku_mask: build_kinsoku_mask(&[0xFF1B]),
        end_kinsoku_mask: 0,
        hanging_mask: 0,
        force_hanging: false,
    };
    let d = LayoutEngineCore::arbitrate(0xFF1B, None, true, 0, false, &policy);
    assert!(d.is_overflow());
    assert!(!d.should_hang() && !d.should_break());
    let forced = KinsokuPolicy { force_hanging: true, ..policy };
    let d = LayoutEngineCore::arbitrate(0xFF1B, None, true, 0, false, &forced);
    assert!(d.should_hang() && !d.is_overflow());
}

#[test]
fn hanging_non_head_character_hangs() {
    let policy = KinsokuPolicy {
        head_kinsoku_mask: 0,
        end_kinsoku_mask: 0,
        hanging_mask: build_kinsoku_mask(&[0xFF0C]),
        force_hanging: false,
    };
    let d = LayoutEngineCore::arbitrate(0xFF0C, Some(0x4E00), true, 0, false, &policy);
    assert!(d.should_hang());
}

#[test]
fn ordinary_overflow_breaks_and_fitting_character_gets_no_edge_flag() {
    let policy = default_kinsoku_policy();
    let d = LayoutEngineCore::arbitrate(0x4E00, Some(0x4E01), true, 0, false, &policy);
    assert!(d.should_break());
    let d = LayoutEngineCore::arbitrate(0x3002, Some(0x300C), false, 0, false, &policy);
    assert!(!d.should_break() && !d.should_hang() && !d.is_overflow());
}

#[test]
fn compression_only_for_punctuation_in_vertical_text() {
    let policy = default_kinsoku_policy();
    // 春 is no punctuation: never compressed.
    let d = LayoutEngineCore::arbitrate(0x6625, None, false, 1, true, &policy);
    assert!(!d.should_compress() && !d.should_break() && !d.should_hang() && !d.is_overflow());
    let d = LayoutEngineCore::arbitrate(0x3002, None, false, 1, true, &policy);
    assert!(d.should_compress());
    let d = LayoutEngineCore::arbitrate(0x3002, None, false, 0, true, &policy);
    assert!(!d.should_compress());
    let d = LayoutEngineCore::arbitrate(0x3002, None, false, 1, false, &policy);
    assert!(!d.should_compress());
    let d = LayoutEngineCore::arbitrate(0x3002, None, true, 1, true, &policy);
    assert!(d.should_compress() && d.should_hang());
    let d = LayoutEngineCore::arbitrate(0xFF08, None, false, 1, true, &policy);
    assert!(d.should_compress());
}

#[test]
fn cjk_punctuation_classes() {
    assert!(is_cjk_punctuation(0x3001));
    assert!(is_cjk_punctuation(0x300C));
    assert!(is_cjk_punctuation(0xFF0C));
    assert!(is_cjk_punctuation(0xFF5D));
    assert!(!is_cjk_punctuation(0x3000));
    assert!(!is_cjk_punctuation(0x6625));
    assert!(!is_cjk_punctuation(0xFF21));
    assert!(!is_cjk_punctuation(0xFF10));
    assert!(!is_cjk_punctuation('A' as u32));
}

#[test]
fn default_width_classes() {
    assert_eq!(LayoutEngineCore::default_width_permille('春' as u32), 1000);
    assert_eq!(LayoutEngineCore::default_width_permille(0x20000), 1000);
    assert_eq!(LayoutEngineCore::default_width_permille('A' as u32), 500);
    assert_eq!(LayoutEngineCore::default_width_permille('z' as u32), 500);
    assert_eq!(LayoutEngineCore::default_width_permille('0' as u32), 500);
    assert_eq!(LayoutEngineCore::default_width_permille(' ' as u32), 300);
    assert_eq!(LayoutEngineCore::default_width_permille('。' as u32), 800);
    assert_eq!(LayoutEngineCore::default_width_permille('，' as u32), 800);
    assert_eq!(LayoutEngineCore::default_width_permille('あ' as u32), 900);
    assert_eq!(LayoutEngineCore::default_width_permille('ア' as u32), 900);
    assert_eq!(LayoutEngineCore::default_width_permille('!' as u32), 600);
}

#[test]
fn horizontal_and_vertical_share_edge_decisions() {
    let policy = default_kinsoku_policy();
    for &(glyph, prev, overflow) in &[
        (0x3002u32, Some(0x7720u32), true),
        (0xFF0C, None, false),
        (0x4ECA, Some(0x300C), true),
        (0x4E00, None, true),
        (0x4E00, None, false),
    ] {
        let h = LayoutEngineCore::arbitrate(glyph, prev, overflow, 0, true, &policy);
        let v = LayoutEngineCore::arbitrate(glyph, prev, overflow, 1, true, &policy);
        assert_eq!(h.should_break(), v.should_break());
        assert_eq!(h.should_hang(), v.should_hang());
        assert_eq!(h.is_overflow(), v.is_overflow());
        assert!(!h.should_compress());
        assert_eq!(v.should_compress(), glyph == 0x3002 || glyph == 0xFF0C);
    }
}

use text_layout_engine::{build_kinsoku_mask_js, get_default_policy, is_in_kinsoku_js};

#[test]
fn test_build_kinsoku_mask_js() {
    let codes = vec![0x3002, 0x3001];
    let mask = build_kinsoku_mask_js(&codes);
    assert!(is_in_kinsoku_js(0x3002, mask));
    assert!(is_in_kinsoku_js(0x3001, mask));
    assert!(!is_in_kinsoku_js(0x4E00, mask));
}

#[test]
fn test_get_default_policy() {
    let masks = get_default_policy();
    assert_eq!(masks.len(), 3, "默认策略应返回 3 个掩码");
    assert!(masks[0] != 0, "避头掩码不应为空");
    assert!(masks[1] != 0, "避尾掩码不应为空");
    assert!(masks[2] != 0, "悬挂掩码不应为空");
}

#[test]
fn default_policy_exact_masks() {
    assert_eq!(get_default_policy(), vec![0x8c00_1006, 0x5100, 0x1006]);
    assert_eq!(build_kinsoku_mask_js(&[0x3002]), 4);
}

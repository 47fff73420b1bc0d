use text_layout_engine::font_fallback::{cjk_latin_fallback, FontFallback, UnicodeRange};

fn sorted_table() -> FontFallback {
    FontFallback::new(
        vec![
            UnicodeRange { start: 0x0041, end: 0x005A, font_id: 1 },
            UnicodeRange { start: 0x0061, end: 0x007A, font_id: 1 },
            UnicodeRange { start: 0x3000, end: 0x303F, font_id: 0 },
            UnicodeRange { start: 0x3040, end: 0x30FF, font_id: 2 },
            UnicodeRange { start: 0x4E00, end: 0x9FFF, font_id: 3 },
        ],
        7,
    )
}

#[test]
fn sorted_table_finds_containing_range() {
    let f = sorted_table();
    assert_eq!(f.resolve_font_id('A' as u32), 1);
    assert_eq!(f.resolve_font_id('z' as u32), 1);
    assert_eq!(f.resolve_font_id(0x3002), 0);
    assert_eq!(f.resolve_font_id('あ' as u32), 2);
    assert_eq!(f.resolve_font_id('春' as u32), 3);
    assert_eq!(f.resolve_font_id(0x9FFF), 3);
}

#[test]
fn sorted_table_falls_back_to_default() {
    let f = sorted_table();
    assert_eq!(f.resolve_font_id(0x0000), 7);
    assert_eq!(f.resolve_font_id(0x0060), 7);
    assert_eq!(f.resolve_font_id(0x1200), 7);
    assert_eq!(f.resolve_font_id(0x10FFFF), 7);
}

#[test]
fn empty_table_gives_default() {
    let f = FontFallback::new(vec![], 42);
    assert_eq!(f.resolve_font_id(0x4E00), 42);
    assert_eq!(f.resolve_font_id(0x0041), 42);
    assert_eq!(f.resolve_font_id(0x0000), 42);
}

#[test]
fn standard_table_lookups() {
    let f = cjk_latin_fallback();
    assert_eq!(f.resolve_font_id('春' as u32), 0);
    assert_eq!(f.resolve_font_id('A' as u32), 1);
    assert_eq!(f.resolve_font_id('z' as u32), 1);
    assert_eq!(f.resolve_font_id(0x00C0), 1);
    assert_eq!(f.resolve_font_id(0xFF0C), 0);
    assert_eq!(f.resolve_font_id(0x1200), 0);
    assert_eq!(f.resolve_font_id(0x1680), 0);
    assert_eq!(f.resolve_font_id(0x3001), 0);
    assert_eq!(f.resolve_font_id(0x3400), 0);
    assert_eq!(f.resolve_font_id(0x4DBF), 0);
    assert_eq!(f.resolve_font_id(0x9FFF), 0);
    assert_eq!(f.resolve_font_id(0x20000), 0);
    assert_eq!(f.resolve_font_id(0x0301), 0);
}

#[test]
fn test_hiragana_map_to_font_2() {
    let f = cjk_latin_fallback();
    for cp in [0x3042u32, 0x3044, 0x3046, 0x3048, 0x304A, 0x30A2, 0x30AB] {
        assert_eq!(f.resolve_font_id(cp), 2);
    }
}

#[test]
fn test_latin_chars_map_to_font_1() {
    let f = cjk_latin_fallback();
    for c in ('A' as u32)..=('Z' as u32) {
        assert_eq!(f.resolve_font_id(c), 1);
    }
    for c in ('a' as u32)..=('z' as u32) {
        assert_eq!(f.resolve_font_id(c), 1);
    }
}

#[test]
fn test_batch_resolve_codepoints() {
    let f = cjk_latin_fallback();
    let codepoints = ['春' as u32, 'A' as u32, 'あ' as u32, 'D' as u32, '眠' as u32, '、' as u32];
    let mut output = vec![0u8; codepoints.len()];
    f.resolve_codepoints(&codepoints, &mut output);
    assert_eq!(output, vec![0, 1, 2, 1, 0, 0]);
}

#[test]
fn batch_resolution_fills_the_common_prefix() {
    let f = sorted_table();
    let codepoints = ['春' as u32, 'A' as u32, 'あ' as u32, 0x1200];
    let mut output = vec![9u8; 6];
    f.resolve_codepoints(&codepoints, &mut output);
    assert_eq!(output, vec![3, 1, 2, 7, 9, 9]);
    let mut short = vec![9u8; 2];
    f.resolve_codepoints(&codepoints, &mut short);
    assert_eq!(short, vec![3, 1]);
}

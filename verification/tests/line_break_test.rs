use text_layout_engine::kinsoku_map::build_kinsoku_mask;
use text_layout_engine::line_break::{
    build_kinsoku_mask as line_break_build_mask, can_break_between, get_break_class,
    map_codepoint_to_bit as line_break_map_bit, scan_step, BreakClass, BreakReason, LineScanner,
    LineSpan, ScanStep,
};

/// Breaks text with integer widths: a code point overflows when the line
/// so far plus its width exceeds `line_dim`, and fills the line when that
/// sum equals `line_dim`.
fn all_lines(codepoints: &[u32], widths: &[u32], line_dim: u32, head: u64, end: u64) -> Vec<LineSpan> {
    let mut scanner = LineScanner::new(codepoints, head, end);
    let fit = |start: usize, i: usize| -> (bool, bool) {
        let total: u32 = widths[start..=i].iter().sum();
        (total > line_dim, total == line_dim)
    };
    let mut lines = Vec::new();
    while let Some(line) = scanner.next_line(&fit) {
        lines.push(line);
    }
    assert!(scanner.is_done());
    lines
}

fn cps(text: &str) -> Vec<u32> {
    text.chars().map(|c| c as u32).collect()
}

fn widths_60_30(text: &str) -> Vec<u32> {
    text.chars().map(|c| if "，。、！？；：".contains(c) { 30 } else { 60 }).collect()
}

#[test]
fn test_line_break_kinsoku_horizontal() {
    let text = "春眠不觉晓，处处闻啼鸟。";
    let codepoints = cps(text);
    let widths = widths_60_30(text);
    let head_mask = build_kinsoku_mask(&[0x3002, 0x3001, 0xFF0C]);
    let lines = all_lines(&codepoints, &widths, 120, head_mask, 0);
    assert_eq!(lines[0].length, 2);
    assert_eq!(lines[0].break_reason, BreakReason::ExactFit);
    assert!(lines[1].length > 0);
    // 晓 then ， (90), and 处 overflows.
    assert_eq!(lines[2].start_index, 4);
    assert_eq!(lines[2].length, 2);
    assert_eq!(lines[2].break_reason, BreakReason::Overflow);
    let total: usize = lines.iter().map(|l| l.length).sum();
    assert_eq!(total, codepoints.len());
}

#[test]
fn test_line_break_kinsoku_vertical() {
    // The scanner takes no direction: vertical text breaks as horizontal.
    let text = "春眠不觉晓，处处闻啼鸟。";
    let codepoints = cps(text);
    let widths = widths_60_30(text);
    let head_mask = build_kinsoku_mask(&[0x3002, 0x3001, 0xFF0C]);
    let lines = all_lines(&codepoints, &widths, 120, head_mask, 0);
    assert_eq!(lines[0].length, 2);
    assert_eq!(lines[0].break_reason, BreakReason::ExactFit);
    assert!(lines.len() >= 2);
}

#[test]
fn line_break_test_empty_input() {
    let mut scanner = LineScanner::new(&[], 0, 0);
    assert!(scanner.is_done());
    assert!(scanner.next_line(&|_: usize, _: usize| (false, false)).is_none());
    assert_eq!(scanner.progress(), (0, 0));
}

#[test]
fn test_hard_break() {
    let codepoints = cps("春眠\n不觉晓");
    let widths = vec![60, 60, 0, 60, 60, 60];
    let lines = all_lines(&codepoints, &widths, 1000, 0, 0);
    assert_eq!(lines.len(), 2);
    assert_eq!(lines[0].length, 2);
    assert_eq!(lines[0].break_reason, BreakReason::HardBreak);
    assert_eq!(lines[1].start_index, 3);
    assert_eq!(lines[1].length, 3);
}

#[test]
fn consecutive_hard_breaks_give_an_empty_line() {
    let codepoints = cps("春\n\n眠");
    let widths = vec![60, 0, 0, 60];
    let lines = all_lines(&codepoints, &widths, 1000, 0, 0);
    assert_eq!(lines.len(), 3);
    assert_eq!(lines[1].length, 0);
    assert_eq!(lines[1].start_index, 2);
    assert_eq!(lines[1].break_reason, BreakReason::HardBreak);
    assert_eq!(lines[2].start_index, 3);
}

#[test]
fn test_end_kinsoku_break() {
    // 「 would fill the line at 180 but may not end it, so the line breaks
    // before it.
    let codepoints = cps("他说「你好吗");
    let widths = vec![60; 6];
    let end_mask = build_kinsoku_mask(&[0x300C]);
    let lines = all_lines(&codepoints, &widths, 180, 0, end_mask);
    assert_eq!(lines[0].start_index, 0);
    assert_eq!(lines[0].length, 2);
    assert_eq!(lines[0].break_reason, BreakReason::KinsokuEnd);
    assert_eq!(lines[1].start_index, 2);
}

#[test]
fn line_filled_by_non_end_kinsoku_character_is_exact_fit() {
    // 他说 fill 120 exactly and 说 may end a line: the line ends ExactFit and
    // 「 starts the next line.
    let codepoints = cps("他说「你好」");
    let end_mask = build_kinsoku_mask(&[0x300C]);
    let lines = all_lines(&codepoints, &[60; 6], 120, 0, end_mask);
    assert_eq!(lines[0].length, 2);
    assert_eq!(lines[0].break_reason, BreakReason::ExactFit);
    assert_eq!(lines[1].start_index, 2);
    assert_eq!(lines[1].length, 2);
    assert_eq!(lines[1].break_reason, BreakReason::ExactFit);
}

#[test]
fn overflowing_hard_break_still_just_ends_the_line() {
    // The line feed is decided before the width test: it ends the line
    // holding 春 and is dropped, with no extra empty line.
    let codepoints = cps("春\n眠");
    let lines = all_lines(&codepoints, &[60, 100, 60], 100, 0, 0);
    assert_eq!(lines.len(), 2);
    assert_eq!(lines[0].length, 1);
    assert_eq!(lines[0].break_reason, BreakReason::HardBreak);
    assert_eq!(lines[1].start_index, 2);
}

#[test]
fn head_kinsoku_overflowing_stays_with_previous() {
    let codepoints = cps("春。");
    let head_mask = build_kinsoku_mask(&[0x3002]);
    let lines = all_lines(&codepoints, &[60, 60], 100, head_mask, 0);
    assert_eq!(lines.len(), 1);
    assert_eq!(lines[0].length, 2);
    assert_eq!(lines[0].break_reason, BreakReason::KinsokuHead);
}

#[test]
fn end_kinsoku_is_handed_to_next_line_on_overflow() {
    let codepoints = cps("他「你");
    let end_mask = build_kinsoku_mask(&[0x300C]);
    let lines = all_lines(&codepoints, &[60, 60, 60], 150, 0, end_mask);
    assert_eq!(lines[0].length, 1);
    assert_eq!(lines[0].break_reason, BreakReason::KinsokuEnd);
    assert_eq!(lines[1].start_index, 1);
    assert_eq!(lines[1].length, 2);
    // Two end-kinsoku characters in a row both move.
    let codepoints = cps("他「「你");
    let lines = all_lines(&codepoints, &[40, 40, 40, 40], 150, 0, end_mask);
    assert_eq!(lines[0].length, 1);
    assert_eq!(lines[0].break_reason, BreakReason::KinsokuEnd);
    assert_eq!(lines[1].start_index, 1);
}

#[test]
fn overflow_without_kinsoku_breaks_before_character() {
    let codepoints = cps("他说「你好吗");
    let lines = all_lines(&codepoints, &[60; 6], 150, 0, 0);
    assert_eq!(lines[0].length, 2);
    assert_eq!(lines[0].break_reason, BreakReason::Overflow);
    assert_eq!(lines[1].start_index, 2);
}

#[test]
fn head_kinsoku_stays_on_line() {
    let codepoints = cps("春眠。不");
    let widths = vec![60, 60, 30, 60];
    let head_mask = build_kinsoku_mask(&[0x3002]);
    let lines = all_lines(&codepoints, &widths, 120, head_mask, 0);
    assert_eq!(lines[0].length, 2);
    assert_eq!(lines[0].break_reason, BreakReason::ExactFit);
    let lines = all_lines(&codepoints, &widths, 130, head_mask, 0);
    assert_eq!(lines[0].length, 3);
    assert_eq!(lines[0].break_reason, BreakReason::KinsokuHead);
    assert_eq!(lines[1].start_index, 3);
}

#[test]
fn test_all_punctuation() {
    let codepoints = cps("。。。。。。。。。。");
    let widths = vec![30; 10];
    let head_mask = build_kinsoku_mask(&[0x3002]);
    let lines = all_lines(&codepoints, &widths, 60, head_mask, 0);
    let total: usize = lines.iter().map(|l| l.length).sum();
    assert_eq!(total, 10);
    for l in &lines {
        assert!(l.length <= 2);
    }
}

#[test]
fn too_wide_character_gets_its_own_line() {
    let codepoints = cps("春眠");
    let lines = all_lines(&codepoints, &[200, 60], 100, 0, 0);
    assert_eq!(lines.len(), 2);
    assert_eq!(lines[0].length, 1);
    assert_eq!(lines[0].break_reason, BreakReason::Overflow);
    assert_eq!(lines[1].start_index, 1);
    assert_eq!(lines[1].length, 1);
}

#[test]
fn reset_restarts_the_same_run() {
    let codepoints = cps("春眠不觉晓");
    let widths = vec![60; 5];
    let fit = |start: usize, i: usize| -> (bool, bool) {
        let total: u32 = widths[start..=i].iter().sum();
        (total > 180, total == 180)
    };
    let mut scanner = LineScanner::new(&codepoints, 0, 0);
    let first: Vec<(usize, usize)> =
        std::iter::from_fn(|| scanner.next_line(&fit)).map(|l| (l.start_index, l.length)).collect();
    assert_eq!(scanner.progress(), (5, 5));
    scanner.reset();
    assert_eq!(scanner.position(), 0);
    let second: Vec<(usize, usize)> =
        std::iter::from_fn(|| scanner.next_line(&fit)).map(|l| (l.start_index, l.length)).collect();
    assert_eq!(first, vec![(0, 3), (3, 2)]);
    assert_eq!(first, second);
}

#[test]
fn scan_step_rules() {
    let head = build_kinsoku_mask(&[0x3002]);
    let end = build_kinsoku_mask(&[0x300C]);
    assert_eq!(scan_step(0x0A, true, true, Some(1), head, end), ScanStep::Break(BreakReason::HardBreak));
    assert_eq!(scan_step(0x3002, true, false, Some(1), head, end), ScanStep::TakeAndBreak(BreakReason::KinsokuHead));
    assert_eq!(scan_step(0x4E00, true, false, None, head, end), ScanStep::Take);
    assert_eq!(scan_step(0x4E00, true, false, Some(1), head, end), ScanStep::Break(BreakReason::Overflow));
    assert_eq!(scan_step(0x300C, false, true, Some(1), head, end), ScanStep::Break(BreakReason::KinsokuEnd));
    assert_eq!(scan_step(0x300C, false, true, None, head, end), ScanStep::TakeAndBreak(BreakReason::ExactFit));
    assert_eq!(scan_step(0x4E00, false, true, Some(1), head, end), ScanStep::TakeAndBreak(BreakReason::ExactFit));
    assert_eq!(scan_step(0x4E00, false, false, Some(1), head, end), ScanStep::Take);
}

#[test]
fn line_break_module_mask_helpers() {
    assert_eq!(line_break_map_bit(0x3002), 2);
    assert_eq!(line_break_build_mask(&[0x3002, 0x3001]), 0b110);
}

#[test]
fn break_classes() {
    assert_eq!(get_break_class(0x20), BreakClass::SP);
    assert_eq!(get_break_class('A' as u32), BreakClass::AL);
    assert_eq!(get_break_class('7' as u32), BreakClass::NU);
    assert_eq!(get_break_class('春' as u32), BreakClass::ID);
    assert_eq!(get_break_class(0x3400), BreakClass::ID);
    assert_eq!(get_break_class('「' as u32), BreakClass::OP);
    assert_eq!(get_break_class('」' as u32), BreakClass::CP);
    assert_eq!(get_break_class('。' as u32), BreakClass::NS);
    assert_eq!(get_break_class(0x3003), BreakClass::BA);
    assert_eq!(get_break_class(0xFF08), BreakClass::OP);
    assert_eq!(get_break_class(0xFF09), BreakClass::CP);
    assert_eq!(get_break_class(0xFF0C), BreakClass::NS);
    assert_eq!(get_break_class(0xFF01), BreakClass::BA);
    assert_eq!(get_break_class('あ' as u32), BreakClass::ID);
    assert_eq!(get_break_class('ア' as u32), BreakClass::ID);
    assert_eq!(get_break_class(0x1200), BreakClass::AL);
}

#[test]
fn break_opportunities() {
    assert!(can_break_between(BreakClass::SP, BreakClass::CP));
    assert!(!can_break_between(BreakClass::ID, BreakClass::AL));
    assert!(!can_break_between(BreakClass::ID, BreakClass::NU));
    assert!(can_break_between(BreakClass::ID, BreakClass::ID));
    assert!(!can_break_between(BreakClass::OP, BreakClass::ID));
    assert!(!can_break_between(BreakClass::ID, BreakClass::CP));
    assert!(!can_break_between(BreakClass::AL, BreakClass::AL));
    assert!(!can_break_between(BreakClass::AL, BreakClass::NU));
    assert!(!can_break_between(BreakClass::NU, BreakClass::NU));
    assert!(can_break_between(BreakClass::AL, BreakClass::SP));
    assert!(can_break_between(BreakClass::AL, BreakClass::HY));
    assert!(can_break_between(BreakClass::NS, BreakClass::OP));
}

//! Line breaking: the streaming line breaker, which breaks off one line per
//! call under the kinsoku rules given a width test, the laws over runs of
//! its lines, and the simplified UAX #14 break classes.
use vstd::prelude::*;

use crate::bitmask::{covers, spec_bit_of};
use crate::kinsoku_map::{self, spec_build};

verus! {

/// Why a line ended.
#[derive(Debug, Clone, Copy, PartialEq, Eq, Structural)]
pub enum BreakReason {
    /// The line is filled exactly.
    ExactFit,
    /// The next character does not fit.
    Overflow,
    /// The character that did not fit may not start a line, so it was kept
    /// on this one.
    KinsokuHead,
    /// The previous character may not end a line.
    KinsokuEnd,
    /// A line feed or carriage return.
    HardBreak,
}

/// A line of the input: where it starts, how many code points it holds and
/// why it ended.
#[derive(Debug, Clone, Copy)]
pub struct LineSpan {
    /// Index of the first code point of the line.
    pub start_index: usize,
    /// Number of code points in the line.
    pub length: usize,
    /// Why the line ended.
    pub break_reason: BreakReason,
}

/// What the line breaker does with the next code point of a line.
#[derive(Debug, Clone, Copy, PartialEq, Eq, Structural)]
pub enum ScanStep {
    /// The code point joins the line and the scan goes on.
    Take,
    /// The code point joins the line and the line ends.
    TakeAndBreak(BreakReason),
    /// The line ends before the code point.
    Break(BreakReason),
}

/// A line feed or a carriage return.
pub open spec fn is_hard_break(codepoint: u32) -> bool {
    codepoint == 0x000A || codepoint == 0x000D
}

/// The rules for the next code point `codepoint` of a line whose last code
/// point so far is `last`: a line feed or carriage return ends the line
/// whatever the width test says, and never joins a line, however wide;
/// on overflow a head-kinsoku code point stays on the line and ends it, the
/// first code point of a line is kept however wide it is, and otherwise the
/// line ends before it; when it fills the line exactly, an end-kinsoku code
/// point is left for the next line, and any other joins the line and ends
/// it; otherwise it joins the line.
pub open spec fn spec_scan_step(
    codepoint: u32,
    would_overflow: bool,
    fills_line: bool,
    last: Option<u32>,
    head_mask: u64,
    end_mask: u64,
) -> ScanStep {
    if is_hard_break(codepoint) {
        ScanStep::Break(BreakReason::HardBreak)
    } else if would_overflow {
        if covers(head_mask, codepoint) {
            ScanStep::TakeAndBreak(BreakReason::KinsokuHead)
        } else if last is None {
            ScanStep::Take
        } else {
            ScanStep::Break(BreakReason::Overflow)
        }
    } else if fills_line {
        if last is Some && covers(end_mask, codepoint) {
            ScanStep::Break(BreakReason::KinsokuEnd)
        } else {
            ScanStep::TakeAndBreak(BreakReason::ExactFit)
        }
    } else {
        ScanStep::Take
    }
}

/// Decides for the next code point of a line, given whether it would
/// overflow the line, whether it would fill it exactly, and the last code
/// point of the line so far.
pub fn scan_step(
    codepoint: u32,
    would_overflow: bool,
    fills_line: bool,
    last: Option<u32>,
    head_mask: u64,
    end_mask: u64,
) -> (r: ScanStep)
    ensures
        r == spec_scan_step(codepoint, would_overflow, fills_line, last, head_mask, end_mask),
        !is_hard_break(codepoint) && !would_overflow && !fills_line ==> r == ScanStep::Take,
        r matches ScanStep::Break(_) ==> is_hard_break(codepoint) || would_overflow || fills_line,
{
    proof {
        law_scan_step_rules(codepoint, would_overflow, fills_line, last, head_mask, end_mask);
    }
    if codepoint == 0x000A || codepoint == 0x000D {
        ScanStep::Break(BreakReason::HardBreak)
    } else if would_overflow {
        if kinsoku_map::is_in_kinsoku(codepoint, head_mask) {
            ScanStep::TakeAndBreak(BreakReason::KinsokuHead)
        } else if last.is_none() {
            ScanStep::Take
        } else {
            ScanStep::Break(BreakReason::Overflow)
        }
    } else if fills_line {
        if last.is_some() && kinsoku_map::is_in_kinsoku(codepoint, end_mask) {
            ScanStep::Break(BreakReason::KinsokuEnd)
        } else {
            ScanStep::TakeAndBreak(BreakReason::ExactFit)
        }
    } else {
        ScanStep::Take
    }
}

/// The rules for one code point, case by case: a line feed or carriage
/// return always ends the line; a code point that neither overflows nor
/// fills the line always joins it; on overflow, a head-kinsoku code point
/// joins the line and ends it, the first code point of a line joins it, and
/// any other code point is left for the next line; when it fills the line,
/// it is left for the next line exactly when it is end-kinsoku and the line
/// is not empty, and otherwise joins the line and ends it. So a code point
/// is only ever left for the next line at a hard break, on overflow, or when
/// it would fill the line.
pub proof fn law_scan_step_rules(
    c: u32,
    would_overflow: bool,
    fills_line: bool,
    last: Option<u32>,
    head: u64,
    end: u64,
)
    ensures
        ({
            let r = spec_scan_step(c, would_overflow, fills_line, last, head, end);
            &&& is_hard_break(c) ==> r == ScanStep::Break(BreakReason::HardBreak)
            &&& !is_hard_break(c) && !would_overflow && !fills_line ==> r == ScanStep::Take
            &&& !is_hard_break(c) && would_overflow && covers(head, c) ==> r == ScanStep::TakeAndBreak(
                BreakReason::KinsokuHead,
            )
            &&& !is_hard_break(c) && would_overflow && !covers(head, c) && last is None ==> r
                == ScanStep::Take
            &&& !is_hard_break(c) && would_overflow && !covers(head, c) && last is Some ==> r
                == ScanStep::Break(BreakReason::Overflow)
            &&& !is_hard_break(c) && !would_overflow && fills_line && last is Some && covers(end, c)
                ==> r == ScanStep::Break(BreakReason::KinsokuEnd)
            &&& !is_hard_break(c) && !would_overflow && fills_line && !(last is Some && covers(end, c))
                ==> r == ScanStep::TakeAndBreak(BreakReason::ExactFit)
            &&& r matches ScanStep::Break(_) ==> is_hard_break(c) || would_overflow || fills_line
        }),
{
}

/// Code point `start + k` joined the line because it fits: it is no hard
/// break, and the width test said it neither overflows nor fills the line,
/// or it overflows but is the first code point of the line.
pub open spec fn taken_as_fitting(
    text: Seq<u32>,
    ans: spec_fn(int) -> (bool, bool),
    start: int,
    k: int,
) -> bool {
    &&& !is_hard_break(text[start + k])
    &&& (!ans(start + k).0 && !ans(start + k).1) || (ans(start + k).0 && k == 0)
}

proof fn lemma_scan_from_facts(
    text: Seq<u32>,
    head: u64,
    end: u64,
    start: int,
    ans: spec_fn(int) -> (bool, bool),
    m: int,
)
    requires
        0 <= start,
        0 <= m,
        start + m <= text.len(),
    ensures
        ({
            let (l, r, b) = scan_from(text, head, end, start, ans, m);
            let n = text.len();
            &&& m <= l
            &&& start + l <= n
            &&& !b ==> start + l == n && r == BreakReason::Overflow
            &&& b && r == BreakReason::HardBreak ==> start + l < n && is_hard_break(text[start + l])
            &&& b && r == BreakReason::KinsokuHead ==> l >= m + 1 && ans(start + l - 1).0 && covers(
                head,
                text[start + l - 1],
            )
            &&& b && r == BreakReason::ExactFit ==> l >= m + 1 && ans(start + l - 1).1 && !ans(
                start + l - 1,
            ).0
            &&& b && r == BreakReason::Overflow ==> l >= 1 && start + l < n && ans(start + l).0
            &&& b && r == BreakReason::KinsokuEnd ==> l >= 1 && start + l < n && ans(start + l).1
                && !ans(start + l).0 && covers(end, text[start + l])
            &&& forall|k: int|
                m <= k < l && !(b && (r == BreakReason::KinsokuHead || r == BreakReason::ExactFit)
                    && k == l - 1) ==> #[trigger] taken_as_fitting(text, ans, start, k)
        }),
    decreases text.len() - start - m,
{
    if start + m < text.len() {
        law_scan_step_rules(
            text[start + m],
            ans(start + m).0,
            ans(start + m).1,
            last_of_line(text, start, m),
            head,
            end,
        );
        if step_at(text, head, end, start, ans, m) == ScanStep::Take {
            lemma_scan_from_facts(text, head, end, start, ans, m + 1);
            assert(taken_as_fitting(text, ans, start, m));
        }
    }
}

/// A line ends only where the width test says so. When the scan of a line
/// ends before the text does, it ends at a hard break; after a head-kinsoku
/// code point the test said overflows; after a code point the test said
/// fills the line; before a code point the test said overflows; or before
/// an end-kinsoku code point the test said fills the line. Every other code
/// point of the line is no hard break and the test said it fits without
/// filling the line (or it is the first code point of the line and
/// overflows it).
pub proof fn law_line_ends_where_width_test_says(
    text: Seq<u32>,
    head: u64,
    end: u64,
    start: int,
    ans: spec_fn(int) -> (bool, bool),
)
    requires
        0 <= start <= text.len(),
    ensures
        ({
            let (l, r, b) = scan_from(text, head, end, start, ans, 0);
            let n = text.len();
            &&& start + l <= n
            &&& !b ==> start + l == n && r == BreakReason::Overflow
            &&& b && r == BreakReason::HardBreak ==> start + l < n && is_hard_break(text[start + l])
            &&& b && r == BreakReason::KinsokuHead ==> l >= 1 && ans(start + l - 1).0 && covers(
                head,
                text[start + l - 1],
            )
            &&& b && r == BreakReason::ExactFit ==> l >= 1 && ans(start + l - 1).1 && !ans(
                start + l - 1,
            ).0
            &&& b && r == BreakReason::Overflow ==> l >= 1 && start + l < n && ans(start + l).0
            &&& b && r == BreakReason::KinsokuEnd ==> l >= 1 && start + l < n && ans(start + l).1
                && !ans(start + l).0 && covers(end, text[start + l])
            &&& forall|k: int|
                0 <= k < l && !(b && (r == BreakReason::KinsokuHead || r == BreakReason::ExactFit)
                    && k == l - 1) ==> #[trigger] taken_as_fitting(text, ans, start, k)
        }),
{
    lemma_scan_from_facts(text, head, end, start, ans, 0);
}

/// Where the text resumes after `line`: just past it, and past the dropped
/// line feed for a hard break.
pub open spec fn span_end(line: LineSpan) -> int {
    line.start_index + line.length + if line.break_reason == BreakReason::HardBreak {
        1int
    } else {
        0int
    }
}

/// `line` is a line of `text`: it lies inside the text, holds no hard
/// break, and a hard break follows it when that is why it ended.
pub open spec fn line_of(text: Seq<u32>, line: LineSpan) -> bool {
    &&& line.start_index + line.length <= text.len()
    &&& forall|k: int|
        line.start_index <= k < line.start_index + line.length ==> !is_hard_break(
            #[trigger] text[k],
        )
    &&& line.break_reason == BreakReason::HardBreak ==> line.start_index + line.length < text.len()
        && is_hard_break(text[line.start_index + line.length])
}

/// Each line starts where the one before it ended, the first at `start`.
pub open spec fn chained_from(lines: Seq<LineSpan>, start: int) -> bool {
    &&& lines.len() > 0 ==> lines[0].start_index == start
    &&& forall|i: int, j: int|
        #![trigger lines[i], lines[j]]
        0 <= i && j == i + 1 && j < lines.len() ==> lines[j].start_index == span_end(lines[i])
}

/// Where the first `m` lines of a run end.
pub open spec fn run_end(lines: Seq<LineSpan>, start: int, m: int) -> int {
    if m <= 0 {
        start
    } else {
        span_end(lines[m - 1])
    }
}

/// Code point `k` lies in `line`, or is the hard break that ended it.
pub open spec fn accounted_by(text: Seq<u32>, line: LineSpan, k: int) -> bool {
    ||| line.start_index <= k < line.start_index + line.length
    ||| line.break_reason == BreakReason::HardBreak && k == line.start_index + line.length
        && is_hard_break(text[k])
}

/// Code point `k` is accounted for by one of the first `m` lines.
pub open spec fn accounted_in(text: Seq<u32>, lines: Seq<LineSpan>, m: int, k: int) -> bool {
    exists|i: int| 0 <= i < m && accounted_by(text, #[trigger] lines[i], k)
}

/// A run of chained lines covers the text in order: every code point
/// before the end of the first `m` lines lies in one of them or is the hard
/// break that ended one, and each line ends no later than any later line
/// starts.
pub proof fn law_run_covers_text(text: Seq<u32>, lines: Seq<LineSpan>, start: int, m: int)
    requires
        chained_from(lines, start),
        forall|i: int| 0 <= i < lines.len() ==> line_of(text, #[trigger] lines[i]),
        0 <= m <= lines.len(),
    ensures
        forall|k: int|
            start <= k < run_end(lines, start, m) ==> #[trigger] accounted_in(text, lines, m, k),
        forall|i: int, j: int|
            0 <= i < j < lines.len() ==> span_end(#[trigger] lines[i]) <= (
            #[trigger] lines[j]).start_index,
    decreases m,
{
    if m > 0 {
        law_run_covers_text(text, lines, start, m - 1);
        let l = lines[m - 1];
        assert(l.start_index == run_end(lines, start, m - 1)) by {
            if m >= 2 {
                assert(lines[m - 1].start_index == span_end(lines[m - 2]));
            }
        }
        assert(line_of(text, l));
        assert forall|k: int|
            start <= k < run_end(lines, start, m) implies #[trigger] accounted_in(text, lines, m, k) by {
            if k < run_end(lines, start, m - 1) {
                assert(accounted_in(text, lines, m - 1, k));
                let i = choose|i: int| 0 <= i < m - 1 && accounted_by(text, #[trigger] lines[i], k);
                assert(accounted_by(text, lines[i], k));
            } else {
                assert(accounted_by(text, lines[m - 1], k));
            }
        }
    } else {
        assert forall|i: int, j: int|
            0 <= i < j < lines.len() implies span_end(#[trigger] lines[i]) <= (
            #[trigger] lines[j]).start_index by {
            lemma_chain_monotone(lines, start, i, j);
        }
    }
}

/// In a chained run, a line ends no later than a later line starts.
proof fn lemma_chain_monotone(lines: Seq<LineSpan>, start: int, i: int, j: int)
    requires
        chained_from(lines, start),
        0 <= i < j < lines.len(),
    ensures
        span_end(lines[i]) <= lines[j].start_index,
    decreases j - i,
{
    assert(lines[j].start_index == span_end(lines[j - 1]));
    if i < j - 1 {
        lemma_chain_monotone(lines, start, i, j - 1);
    }
}

/// The last code point of a line from `start` that holds `len` code points
/// so far.
pub open spec fn last_of_line(text: Seq<u32>, start: int, len: int) -> Option<u32> {
    if len <= 0 {
        None
    } else {
        Some(text[start + len - 1])
    }
}

/// The rules applied to code point `start + len` of a line from `start`
/// that holds `len` code points, with the width test answering `ans`.
pub open spec fn step_at(
    text: Seq<u32>,
    head: u64,
    end: u64,
    start: int,
    ans: spec_fn(int) -> (bool, bool),
    len: int,
) -> ScanStep {
    spec_scan_step(
        text[start + len],
        ans(start + len).0,
        ans(start + len).1,
        last_of_line(text, start, len),
        head,
        end,
    )
}

/// The scan of a line from `start` that already holds `len` code points,
/// when the width test answers `ans(i)` (overflows, fills) for code point
/// `i`: the length of the line, why it ended, and whether it ended before
/// the text did.
pub open spec fn scan_from(
    text: Seq<u32>,
    head: u64,
    end: u64,
    start: int,
    ans: spec_fn(int) -> (bool, bool),
    len: int,
) -> (int, BreakReason, bool)
    decreases text.len() - start - len,
{
    if start + len >= text.len() || len < 0 {
        (len, BreakReason::Overflow, false)
    } else {
        match step_at(text, head, end, start, ans, len) {
            ScanStep::Take => scan_from(text, head, end, start, ans, len + 1),
            ScanStep::TakeAndBreak(r) => (len + 1, r, true),
            ScanStep::Break(r) => (len, r, true),
        }
    }
}

/// Hands trailing end-kinsoku code points of a line to the next line, as
/// long as the line keeps at least one code point.
pub open spec fn back_off(text: Seq<u32>, end: u64, start: int, len: int, reason: BreakReason) -> (
    int,
    BreakReason,
)
    decreases len,
{
    if len >= 2 && covers(end, text[start + len - 1]) {
        back_off(text, end, start, len - 1, BreakReason::KinsokuEnd)
    } else {
        (len, reason)
    }
}

/// The end-kinsoku hand-over gives the line back only trailing end-kinsoku
/// code points, never empties a non-empty line, and leaves it ending with a
/// code point that may end a line unless one code point is left; the reason
/// becomes the end rule exactly when something was handed over.
pub proof fn law_back_off(text: Seq<u32>, end: u64, start: int, len: int, reason: BreakReason)
    requires
        1 <= len,
        0 <= start,
        start + len <= text.len(),
    ensures
        ({
            let (l, r) = back_off(text, end, start, len, reason);
            &&& 1 <= l <= len
            &&& l < len ==> r == BreakReason::KinsokuEnd
            &&& l == len ==> r == reason
            &&& l >= 2 ==> !covers(end, text[start + l - 1])
            &&& forall|k: int| l <= k < len ==> covers(end, #[trigger] text[start + k])
        }),
    decreases len,
{
    if len >= 2 && covers(end, text[start + len - 1]) {
        law_back_off(text, end, start, len - 1, BreakReason::KinsokuEnd);
        let (l, r) = back_off(text, end, start, len - 1, BreakReason::KinsokuEnd);
        assert forall|k: int| l <= k < len implies covers(end, #[trigger] text[start + k]) by {
            if k < len - 1 {
            } else {
                assert(k == len - 1);
            }
        }
    }
}

/// The line that starts at `start` when the width test answers `ans`: the
/// scan, then the end-kinsoku hand-over for a line that ended on overflow
/// or for the end rule.
pub open spec fn spec_next_line(
    text: Seq<u32>,
    head: u64,
    end: u64,
    start: int,
    ans: spec_fn(int) -> (bool, bool),
) -> LineSpan {
    let (len, reason, broke) = scan_from(text, head, end, start, ans, 0);
    let (len2, reason2) = if broke && (reason == BreakReason::Overflow || reason
        == BreakReason::KinsokuEnd) {
        back_off(text, end, start, len, reason)
    } else {
        (len, reason)
    };
    LineSpan { start_index: start as usize, length: len2 as usize, break_reason: reason2 }
}

/// `ans` are answers that `fit` gives for every code point that the scan of
/// the line from `start` (already holding `len` code points) asks about.
pub open spec fn answers_match<F: Fn(usize, usize) -> (bool, bool)>(
    fit: F,
    text: Seq<u32>,
    head: u64,
    end: u64,
    start: int,
    ans: spec_fn(int) -> (bool, bool),
    len: int,
) -> bool
    decreases text.len() - start - len,
{
    if start + len >= text.len() || len < 0 {
        true
    } else {
        &&& fit.ensures((start as usize, (start + len) as usize), ans(start + len))
        &&& step_at(text, head, end, start, ans, len) == ScanStep::Take ==> answers_match(
            fit,
            text,
            head,
            end,
            start,
            ans,
            len + 1,
        )
    }
}

/// The width test gives one answer for each pair of indices.
pub open spec fn answers_are_functional<F: Fn(usize, usize) -> (bool, bool)>(fit: F) -> bool {
    forall|s: usize, i: usize, r1: (bool, bool), r2: (bool, bool)|
        #![trigger fit.ensures((s, i), r1), fit.ensures((s, i), r2)]
        fit.ensures((s, i), r1) && fit.ensures((s, i), r2) ==> r1 == r2
}

/// When every code point before `len` was taken, scanning from the start of
/// the line is scanning from `len`.
proof fn lemma_scan_prefix<F: Fn(usize, usize) -> (bool, bool)>(
    fit: F,
    text: Seq<u32>,
    head: u64,
    end: u64,
    start: int,
    ans: spec_fn(int) -> (bool, bool),
    len: int,
)
    requires
        0 <= start,
        0 <= len,
        start + len <= text.len(),
        forall|k: int|
            0 <= k < len ==> #[trigger] step_at(text, head, end, start, ans, k) == ScanStep::Take
                && fit.ensures((start as usize, (start + k) as usize), ans(start + k)),
    ensures
        scan_from(text, head, end, start, ans, 0) == scan_from(text, head, end, start, ans, len),
        answers_match(fit, text, head, end, start, ans, 0) == answers_match(
            fit,
            text,
            head,
            end,
            start,
            ans,
            len,
        ),
    decreases len,
{
    if len > 0 {
        lemma_scan_prefix(fit, text, head, end, start, ans, len - 1);
        assert(step_at(text, head, end, start, ans, len - 1) == ScanStep::Take);
    }
}

/// Two sets of answers that a functional width test both gives lead to the
/// same scan.
proof fn lemma_scan_deterministic<F: Fn(usize, usize) -> (bool, bool)>(
    fit: F,
    text: Seq<u32>,
    head: u64,
    end: u64,
    start: int,
    ans1: spec_fn(int) -> (bool, bool),
    ans2: spec_fn(int) -> (bool, bool),
    len: int,
)
    requires
        answers_are_functional(fit),
        answers_match(fit, text, head, end, start, ans1, len),
        answers_match(fit, text, head, end, start, ans2, len),
    ensures
        scan_from(text, head, end, start, ans1, len) == scan_from(text, head, end, start, ans2, len),
    decreases text.len() - start - len,
{
    if !(start + len >= text.len() || len < 0) {
        let a = (start as usize, (start + len) as usize);
        assert(fit.ensures(a, ans1(start + len)) && fit.ensures(a, ans2(start + len)));
        assert(ans1(start + len) == ans2(start + len));
        assert(step_at(text, head, end, start, ans1, len) == step_at(
            text,
            head,
            end,
            start,
            ans2,
            len,
        ));
        if step_at(text, head, end, start, ans1, len) == ScanStep::Take {
            lemma_scan_deterministic(fit, text, head, end, start, ans1, ans2, len + 1);
        }
    }
}

/// A width test with one answer per pair of indices fixes the line: any two
/// sets of answers it gives yield the same line. So scanners over the same
/// text, masks and width test, at the same cursor, break off the same line,
/// whatever else differs between them (such as the writing direction).
pub proof fn law_next_line_is_determined<F: Fn(usize, usize) -> (bool, bool)>(
    fit: F,
    text: Seq<u32>,
    head: u64,
    end: u64,
    start: int,
    ans1: spec_fn(int) -> (bool, bool),
    ans2: spec_fn(int) -> (bool, bool),
)
    requires
        answers_are_functional(fit),
        answers_match(fit, text, head, end, start, ans1, 0),
        answers_match(fit, text, head, end, start, ans2, 0),
    ensures
        spec_next_line(text, head, end, start, ans1) == spec_next_line(text, head, end, start, ans2),
{
    lemma_scan_deterministic(fit, text, head, end, start, ans1, ans2, 0);
}

/// The line breaker over one text: the code points, the kinsoku masks and
/// the index where the next line starts.
pub struct LineScanner<'a> {
    codepoints: &'a [u32],
    head_kinsoku_mask: u64,
    end_kinsoku_mask: u64,
    position: usize,
}

impl<'a> LineScanner<'a> {
    /// The cursor never passes the end of the text.
    #[verifier::type_invariant]
    spec fn cursor_in_text(&self) -> bool {
        self.position <= self.codepoints@.len()
    }

    /// The code points being broken into lines.
    pub closed spec fn text(&self) -> Seq<u32> {
        self.codepoints@
    }

    pub closed spec fn head_mask(&self) -> u64 {
        self.head_kinsoku_mask
    }

    pub closed spec fn end_mask(&self) -> u64 {
        self.end_kinsoku_mask
    }

    /// Index where the next line starts.
    pub closed spec fn spec_position(&self) -> nat {
        self.position as nat
    }

    /// The cursor stays inside the text.
    pub open spec fn wf(&self) -> bool {
        self.spec_position() <= self.text().len()
    }

    /// A scanner at the start of `codepoints`.
    pub fn new(codepoints: &'a [u32], head_mask: u64, end_mask: u64) -> (s: Self)
        ensures
            s.wf(),
            s.text() == codepoints@,
            s.head_mask() == head_mask,
            s.end_mask() == end_mask,
            s.spec_position() == 0,
    {
        LineScanner { codepoints, head_kinsoku_mask: head_mask, end_kinsoku_mask: end_mask, position: 0 }
    }

    /// Index where the next line starts.
    pub fn position(&self) -> (p: usize)
        ensures
            p == self.spec_position(),
    {
        self.position
    }

    /// Whether every code point has been read.
    pub fn is_done(&self) -> (r: bool)
        ensures
            r == (self.spec_position() >= self.text().len()),
    {
        self.position >= self.codepoints.len()
    }

    /// How far the scan has come: the cursor and the number of code points.
    pub fn progress(&self) -> (r: (usize, usize))
        ensures
            r.0 == self.spec_position(),
            r.1 == self.text().len(),
    {
        (self.position, self.codepoints.len())
    }

    /// Back to the start of the text: the state of a new scanner.
    pub fn reset(&mut self)
        ensures
            final(self).wf(),
            final(self).text() == old(self).text(),
            final(self).head_mask() == old(self).head_mask(),
            final(self).end_mask() == old(self).end_mask(),
            final(self).spec_position() == 0,
    {
        self.position = 0;
    }

    /// Breaks off the next line. `fit(start, i)` tells, for a line starting
    /// at `start` that holds the code points before `i`, whether code point
    /// `i` would overflow it and whether it would fill it exactly. There is
    /// a line exactly when code points remain, and it is the line that the
    /// rules give (`spec_next_line`) for answers that `fit` gives to each
    /// code point the scan asks about; it starts at the cursor, the
    /// cursor moves past it (and past the hard break that ended it), it
    /// holds no hard break, and it obeys kinsoku: unless the text ends there,
    /// a hard break ends it, or an overflowing head-kinsoku code point was
    /// kept on it, a line of two or more code points does not end with an
    /// end-kinsoku code point; a line that ends on overflow or for the end
    /// rule is not followed by a head-kinsoku code point, unless that code
    /// point is end-kinsoku as well.
    pub fn next_line<F: Fn(usize, usize) -> (bool, bool)>(&mut self, fit: &F) -> (line: Option<
        LineSpan,
    >)
        requires
            forall|s: usize, i: usize| #[trigger] fit.requires((s, i)),
        ensures
            final(self).wf(),
            final(self).text() == old(self).text(),
            final(self).head_mask() == old(self).head_mask(),
            final(self).end_mask() == old(self).end_mask(),
            old(self).spec_position() >= old(self).text().len() ==> line is None
                && final(self).spec_position() == old(self).spec_position(),
            old(self).spec_position() < old(self).text().len() ==> exists|
                ans: spec_fn(int) -> (bool, bool),
            |
                #[trigger] answers_match(
                    *fit,
                    old(self).text(),
                    old(self).head_mask(),
                    old(self).end_mask(),
                    old(self).spec_position() as int,
                    ans,
                    0,
                ) && line == Some(
                    spec_next_line(
                        old(self).text(),
                        old(self).head_mask(),
                        old(self).end_mask(),
                        old(self).spec_position() as int,
                        ans,
                    ),
                ),
            line matches Some(l) ==> {
                let text = old(self).text();
                let last = l.start_index + l.length - 1;
                let next = final(self).spec_position() as int;
                &&& l.start_index == old(self).spec_position()
                &&& line_of(text, l)
                &&& next == span_end(l)
                &&& next > old(self).spec_position()
                &&& l.length == 0 ==> l.break_reason == BreakReason::HardBreak
                &&& l.break_reason == BreakReason::KinsokuHead ==> l.length >= 1 && covers(
                    old(self).head_mask(),
                    text[last],
                )
                &&& (l.break_reason != BreakReason::HardBreak && l.break_reason
                    != BreakReason::KinsokuHead && next < text.len() && l.length >= 2) ==> !covers(
                    old(self).end_mask(),
                    text[last],
                )
                &&& (l.break_reason == BreakReason::Overflow || l.break_reason
                    == BreakReason::KinsokuEnd) && next < text.len() ==> (!covers(
                    old(self).head_mask(),
                    text[next],
                ) || covers(old(self).end_mask(), text[next]))
            },
    {
        proof {
            use_type_invariant(&*self);
        }
        let n = self.codepoints.len();
        if self.position >= n {
            return None;
        }
        let ghost text = self.codepoints@;
        let head = self.head_kinsoku_mask;
        let end = self.end_kinsoku_mask;
        let start = self.position;
        let mut len: usize = 0;
        let mut reason = BreakReason::Overflow;
        let mut broke = false;
        let ghost mut ans: spec_fn(int) -> (bool, bool) = |j: int| (false, false);
        while start + len < n
            invariant_except_break
                !broke,
                reason == BreakReason::Overflow,
                len == 0 ==> start + len < n,
                forall|k: int|
                    0 <= k < len ==> #[trigger] step_at(text, head, end, start as int, ans, k)
                        == ScanStep::Take && fit.ensures(
                        (start, (start + k) as usize),
                        ans(start + k),
                    ),
            invariant
                text == self.codepoints@,
                n == text.len(),
                start < n,
                start + len <= n,
                head == self.head_kinsoku_mask,
                end == self.end_kinsoku_mask,
                forall|s: usize, i: usize| #[trigger] fit.requires((s, i)),
                forall|k: int| start <= k < start + len ==> !is_hard_break(#[trigger] text[k]),
            ensures
                start + len <= n,
                forall|k: int| start <= k < start + len ==> !is_hard_break(#[trigger] text[k]),
                !broke ==> start + len == n && reason == BreakReason::Overflow && len >= 1,
                broke && reason == BreakReason::HardBreak ==> start + len < n && is_hard_break(
                    text[start + len],
                ),
                broke && reason == BreakReason::KinsokuHead ==> len >= 1 && covers(
                    head,
                    text[start + len - 1],
                ),
                broke && reason == BreakReason::ExactFit ==> len >= 1 && (len == 1 || !covers(
                    end,
                    text[start + len - 1],
                )),
                broke && reason == BreakReason::Overflow ==> len >= 1 && start + len < n
                    && !covers(head, text[start + len]),
                broke && reason == BreakReason::KinsokuEnd ==> len >= 1 && start + len < n
                    && covers(end, text[start + len]),
                len == 0 ==> broke && reason == BreakReason::HardBreak,
                !broke ==> forall|k: int|
                    0 <= k < len ==> #[trigger] step_at(text, head, end, start as int, ans, k)
                        == ScanStep::Take && fit.ensures(
                        (start, (start + k) as usize),
                        ans(start + k),
                    ),
                broke ==> scan_from(text, head, end, start as int, ans, 0) == (
                    len as int,
                    reason,
                    true,
                ) && answers_match(*fit, text, head, end, start as int, ans, 0),
            decreases n - start - len,
        {
            let c = self.codepoints[start + len];
            let last = if len == 0 {
                None
            } else {
                Some(self.codepoints[start + len - 1])
            };
            let (over, fills) = fit(start, start + len);
            let ghost i = (start + len) as int;
            proof {
                let prev_ans = ans;
                ans = |j: int|
                    if j == i {
                        (over, fills)
                    } else {
                        prev_ans(j)
                    };
                assert forall|k: int| 0 <= k < len implies #[trigger] step_at(
                    text,
                    head,
                    end,
                    start as int,
                    ans,
                    k,
                ) == step_at(text, head, end, start as int, prev_ans, k) && ans(start + k) == prev_ans(
                    start + k,
                ) by {}
            }
            let step = scan_step(c, over, fills, last, head, end);
            assert(step == step_at(text, head, end, start as int, ans, len as int));
            match step {
                ScanStep::Take => {
                    len = len + 1;
                },
                ScanStep::TakeAndBreak(r) => {
                    proof {
                        lemma_scan_prefix(*fit, text, head, end, start as int, ans, len as int);
                    }
                    len = len + 1;
                    reason = r;
                    broke = true;
                    break ;
                },
                ScanStep::Break(r) => {
                    proof {
                        lemma_scan_prefix(*fit, text, head, end, start as int, ans, len as int);
                    }
                    reason = r;
                    broke = true;
                    break ;
                },
            }
        }
        if !broke {
            proof {
                lemma_scan_prefix(*fit, text, head, end, start as int, ans, len as int);
            }
        }
        let ghost len0 = len as int;
        let ghost reason0 = reason;
        if broke && (reason == BreakReason::Overflow || reason == BreakReason::KinsokuEnd) {
            while len >= 2 && kinsoku_map::is_in_kinsoku(self.codepoints[start + len - 1], end)
                invariant
                    text == self.codepoints@,
                    n == text.len(),
                    end == self.end_kinsoku_mask,
                    1 <= len,
                    start + len < n,
                    reason == BreakReason::Overflow || reason == BreakReason::KinsokuEnd,
                    forall|k: int| start <= k < start + len ==> !is_hard_break(#[trigger] text[k]),
                    !covers(head, text[start + len]) || covers(end, text[start + len]),
                    back_off(text, end, start as int, len as int, reason) == back_off(
                        text,
                        end,
                        start as int,
                        len0,
                        reason0,
                    ),
                decreases len,
            {
                len = len - 1;
                reason = BreakReason::KinsokuEnd;
            }
        }
        let next = if reason == BreakReason::HardBreak {
            start + len + 1
        } else {
            start + len
        };
        self.position = next;
        let line = LineSpan { start_index: start, length: len, break_reason: reason };
        assert(line == spec_next_line(text, head, end, start as int, ans));
        assert(answers_match(*fit, text, head, end, start as int, ans, 0));
        assert(text == old(self).text() && head == old(self).head_mask() && end == old(
            self,
        ).end_mask() && start == old(self).spec_position());
        assert(answers_match(
            *fit,
            old(self).text(),
            old(self).head_mask(),
            old(self).end_mask(),
            old(self).spec_position() as int,
            ans,
            0,
        ));
        Some(line)
    }
}

/// Folds a code point to its bit index (the same fold as the kinsoku map).
pub fn map_codepoint_to_bit(codepoint: u32) -> (bit: u64)
    ensures
        bit == spec_bit_of(codepoint),
        bit < 64,
{
    kinsoku_map::map_codepoint_to_bit(codepoint)
}

/// Builds the mask of a set of code points (the same mask as the kinsoku
/// map builds).
pub fn build_kinsoku_mask(codes: &[u32]) -> (mask: u64)
    ensures
        mask == spec_build(codes@),
        forall|i: int| 0 <= i < codes@.len() ==> covers(mask, #[trigger] codes@[i]),
{
    kinsoku_map::build_kinsoku_mask(codes)
}

/// Simplified UAX #14 line break classes.
#[derive(Debug, Clone, Copy, PartialEq, Eq, Structural)]
pub enum BreakClass {
    /// Letters.
    AL,
    /// Digits.
    NU,
    /// CJK ideographs and kana.
    ID,
    /// Space.
    SP,
    /// Opening punctuation.
    OP,
    /// Closing punctuation.
    CP,
    /// Quotation marks.
    QU,
    /// Glue.
    GL,
    /// Non-starters: may not begin a line.
    NS,
    /// Exclamation and question marks.
    EX,
    /// Hyphens.
    HY,
    /// Infix separators.
    IS,
    /// Other punctuation.
    BA,
}

/// Whether a line may break between two classes: always after a space;
/// never inside a Latin word (between letters and digits), between an
/// ideograph and a following letter or digit, after opening punctuation, or
/// before closing punctuation; and everywhere else.
pub open spec fn spec_can_break(prev: BreakClass, curr: BreakClass) -> bool {
    if prev == BreakClass::SP {
        true
    } else if (prev == BreakClass::AL || prev == BreakClass::NU) && (curr == BreakClass::AL || curr
        == BreakClass::NU) {
        false
    } else if prev == BreakClass::ID && (curr == BreakClass::AL || curr == BreakClass::NU) {
        false
    } else if prev == BreakClass::OP {
        false
    } else if curr == BreakClass::CP {
        false
    } else {
        true
    }
}

/// The break class of a code point.
pub open spec fn spec_break_class(cp: u32) -> BreakClass {
    if cp == 0x0020 {
        BreakClass::SP
    } else if (0x0041 <= cp <= 0x005A) || (0x0061 <= cp <= 0x007A) {
        BreakClass::AL
    } else if 0x0030 <= cp <= 0x0039 {
        BreakClass::NU
    } else if (0x4E00 <= cp <= 0x9FFF) || (0x3400 <= cp <= 0x4DBF) {
        BreakClass::ID
    } else if 0x3000 <= cp <= 0x303F {
        if cp == 0x300C || cp == 0x300E || cp == 0x3010 || cp == 0x3014 || cp == 0x3016 {
            BreakClass::OP
        } else if cp == 0x300D || cp == 0x300F || cp == 0x3011 || cp == 0x3015 || cp == 0x3017 {
            BreakClass::CP
        } else if cp == 0x3001 || cp == 0x3002 {
            BreakClass::NS
        } else {
            BreakClass::BA
        }
    } else if 0xFF00 <= cp <= 0xFFEF {
        if cp == 0xFF08 {
            BreakClass::OP
        } else if cp == 0xFF09 {
            BreakClass::CP
        } else if cp == 0xFF0C || cp == 0xFF0E {
            BreakClass::NS
        } else {
            BreakClass::BA
        }
    } else if 0x3040 <= cp <= 0x30FF {
        BreakClass::ID
    } else {
        BreakClass::AL
    }
}

/// The break class of each code point, class by class: NS exactly for the
/// stops 、 。 ， ．; OP exactly for the opening brackets 「 『 【 〔 〖 （;
/// CP exactly for the closing brackets 」 』 】 〕 〗 ）; SP exactly for the
/// space; NU exactly for the ASCII digits; ID exactly for the ideographs
/// (U+3400..=U+4DBF, U+4E00..=U+9FFF) and kana (U+3040..=U+30FF); BA for the
/// rest of the CJK punctuation block and the full-width forms; AL for
/// everything else; and no other class.
pub proof fn law_break_class_table(cp: u32)
    ensures
        ({
            let c = spec_break_class(cp);
            let ns = cp == 0x3001 || cp == 0x3002 || cp == 0xFF0C || cp == 0xFF0E;
            let op = cp == 0x300C || cp == 0x300E || cp == 0x3010 || cp == 0x3014 || cp == 0x3016
                || cp == 0xFF08;
            let cl = cp == 0x300D || cp == 0x300F || cp == 0x3011 || cp == 0x3015 || cp == 0x3017
                || cp == 0xFF09;
            let id = (0x3400 <= cp <= 0x4DBF) || (0x4E00 <= cp <= 0x9FFF) || (0x3040 <= cp
                <= 0x30FF);
            let punct_block = (0x3000 <= cp <= 0x303F) || (0xFF00 <= cp <= 0xFFEF);
            &&& (c == BreakClass::NS) == ns
            &&& (c == BreakClass::OP) == op
            &&& (c == BreakClass::CP) == cl
            &&& (c == BreakClass::SP) == (cp == 0x20)
            &&& (c == BreakClass::NU) == (0x30 <= cp <= 0x39)
            &&& (c == BreakClass::ID) == id
            &&& (c == BreakClass::BA) == (punct_block && !ns && !op && !cl)
            &&& (c == BreakClass::AL) == (!punct_block && !id && cp != 0x20 && !(0x30 <= cp <= 0x39))
            &&& c != BreakClass::QU && c != BreakClass::GL && c != BreakClass::EX && c
                != BreakClass::HY && c != BreakClass::IS
        }),
{
}

/// Break opportunities, rule by rule: always after a space; never before
/// closing punctuation otherwise; never after opening punctuation; never
/// inside a run of letters and digits or between an ideograph and a
/// following letter or digit; and everywhere else.
pub proof fn law_break_opportunities(prev: BreakClass, curr: BreakClass)
    ensures
        prev == BreakClass::SP ==> spec_can_break(prev, curr),
        prev != BreakClass::SP && curr == BreakClass::CP ==> !spec_can_break(prev, curr),
        prev == BreakClass::OP ==> !spec_can_break(prev, curr),
        (prev == BreakClass::AL || prev == BreakClass::NU || prev == BreakClass::ID) && (curr
            == BreakClass::AL || curr == BreakClass::NU) ==> !spec_can_break(prev, curr),
        prev != BreakClass::SP && prev != BreakClass::OP && curr != BreakClass::CP && !((prev
            == BreakClass::AL || prev == BreakClass::NU || prev == BreakClass::ID) && (curr
            == BreakClass::AL || curr == BreakClass::NU)) ==> spec_can_break(prev, curr),
{
}

/// Whether a line may break between a character of class `prev_class` and
/// one of class `curr_class`.
pub fn can_break_between(prev_class: BreakClass, curr_class: BreakClass) -> (r: bool)
    ensures
        r == spec_can_break(prev_class, curr_class),
        prev_class != BreakClass::SP && curr_class == BreakClass::CP ==> !r,
        prev_class == BreakClass::OP ==> !r,
        prev_class == BreakClass::SP ==> r,
{
    proof {
        law_break_opportunities(prev_class, curr_class);
    }
    match (prev_class, curr_class) {
        (BreakClass::SP, _) => true,
        (BreakClass::AL, BreakClass::AL) | (BreakClass::AL, BreakClass::NU) | (
            BreakClass::NU,
            BreakClass::AL,
        ) | (BreakClass::NU, BreakClass::NU) => false,
        (BreakClass::ID, BreakClass::AL) | (BreakClass::ID, BreakClass::NU) => false,
        (BreakClass::OP, _) => false,
        (_, BreakClass::CP) => false,
        _ => true,
    }
}

/// The simplified line break class of a code point.
pub fn get_break_class(codepoint: u32) -> (c: BreakClass)
    ensures
        c == spec_break_class(codepoint),
        (c == BreakClass::NS) == (codepoint == 0x3001 || codepoint == 0x3002 || codepoint == 0xFF0C
            || codepoint == 0xFF0E),
        (c == BreakClass::OP) == (codepoint == 0x300C || codepoint == 0x300E || codepoint == 0x3010
            || codepoint == 0x3014 || codepoint == 0x3016 || codepoint == 0xFF08),
        (c == BreakClass::CP) == (codepoint == 0x300D || codepoint == 0x300F || codepoint == 0x3011
            || codepoint == 0x3015 || codepoint == 0x3017 || codepoint == 0xFF09),
{
    proof {
        law_break_class_table(codepoint);
    }
    if codepoint == 0x0020 {
        BreakClass::SP
    } else if (0x0041 <= codepoint && codepoint <= 0x005A) || (0x0061 <= codepoint && codepoint
        <= 0x007A) {
        BreakClass::AL
    } else if 0x0030 <= codepoint && codepoint <= 0x0039 {
        BreakClass::NU
    } else if (0x4E00 <= codepoint && codepoint <= 0x9FFF) || (0x3400 <= codepoint && codepoint
        <= 0x4DBF) {
        BreakClass::ID
    } else if 0x3000 <= codepoint && codepoint <= 0x303F {
        if codepoint == 0x300C || codepoint == 0x300E || codepoint == 0x3010 || codepoint == 0x3014
            || codepoint == 0x3016 {
            BreakClass::OP
        } else if codepoint == 0x300D || codepoint == 0x300F || codepoint == 0x3011 || codepoint
            == 0x3015 || codepoint == 0x3017 {
            BreakClass::CP
        } else if codepoint == 0x3001 || codepoint == 0x3002 {
            BreakClass::NS
        } else {
            BreakClass::BA
        }
    } else if 0xFF00 <= codepoint && codepoint <= 0xFFEF {
        if codepoint == 0xFF08 {
            BreakClass::OP
        } else if codepoint == 0xFF09 {
            BreakClass::CP
        } else if codepoint == 0xFF0C || codepoint == 0xFF0E {
            BreakClass::NS
        } else {
            BreakClass::BA
        }
    } else if 0x3040 <= codepoint && codepoint <= 0x30FF {
        BreakClass::ID
    } else {
        BreakClass::AL
    }
}

} // verus!

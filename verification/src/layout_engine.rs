//! The integer decisions of the layout engine: the per-character arbitration
//! between breaking, overflowing, hanging and compressing, the default
//! kinsoku policy, and the default width class of a code point.
use vstd::prelude::*;

use crate::bitmask::covers;
use crate::kinsoku_map::{build_kinsoku_mask, is_in_kinsoku, lemma_build_push, spec_build};

verus! {

/// Flag: the line breaks before this character.
pub const BREAK_FLAG: u8 = 0b0001;

/// Flag: the character overflows the line.
pub const OVERFLOW_FLAG: u8 = 0b0010;

/// Flag: the character hangs past the line edge.
pub const HANGING_FLAG: u8 = 0b0100;

/// Flag: the character is compressed.
pub const COMPRESSED_FLAG: u8 = 0b1000;

/// The outcome of arbitrating one character: a set of flags in one byte.
#[derive(Debug, Clone, Copy)]
pub struct BreakDecision(u8);

impl View for BreakDecision {
    type V = u8;

    closed spec fn view(&self) -> u8 {
        self.0
    }
}

impl BreakDecision {
    /// The flag set `flag` is part of this decision.
    pub open spec fn holds(self, flag: u8) -> bool {
        self@ & flag != 0
    }

    /// A decision with no flag set.
    pub fn new() -> (d: Self)
        ensures
            d@ == 0,
    {
        BreakDecision(0)
    }

    /// Adds the bits of `flag`.
    pub fn set(&mut self, flag: u8)
        ensures
            final(self)@ == old(self)@ | flag,
    {
        self.0 = self.0 | flag;
    }

    /// Whether any bit of `flag` is set.
    pub fn has(&self, flag: u8) -> (r: bool)
        ensures
            r == self.holds(flag),
    {
        self.0 & flag != 0
    }

    /// Whether the line breaks before this character.
    pub fn should_break(&self) -> (r: bool)
        ensures
            r == self.holds(BREAK_FLAG),
    {
        self.has(BREAK_FLAG)
    }

    /// Whether the character hangs past the line edge.
    pub fn should_hang(&self) -> (r: bool)
        ensures
            r == self.holds(HANGING_FLAG),
    {
        self.has(HANGING_FLAG)
    }

    /// Whether the character is compressed.
    pub fn should_compress(&self) -> (r: bool)
        ensures
            r == self.holds(COMPRESSED_FLAG),
    {
        self.has(COMPRESSED_FLAG)
    }

    /// Whether the character overflows the line.
    pub fn is_overflow(&self) -> (r: bool)
        ensures
            r == self.holds(OVERFLOW_FLAG),
    {
        self.has(OVERFLOW_FLAG)
    }
}

/// After setting a flag it is present, and flags present before stay.
pub proof fn law_set_adds_and_keeps(before: u8, flag: u8, other: u8)
    ensures
        flag != 0 ==> (before | flag) & flag != 0,
        before & other != 0 ==> (before | flag) & other != 0,
        (before | flag) | flag == before | flag,
{
    assert((flag != 0 ==> (before | flag) & flag != 0) && (before & other != 0 ==> (before | flag)
        & other != 0) && (before | flag) | flag == before | flag) by (bit_vector);
}

/// The kinsoku part of a layout policy: the three masks and whether
/// hanging is forced.
#[derive(Debug, Clone, Copy)]
pub struct KinsokuPolicy {
    /// Characters that may not start a line.
    pub head_kinsoku_mask: u64,
    /// Characters that may not end a line.
    pub end_kinsoku_mask: u64,
    /// Characters that may hang past the line edge.
    pub hanging_mask: u64,
    /// Every head-kinsoku character that overflows hangs.
    pub force_hanging: bool,
}

/// The flag that arbitration gives a character for the line edge: none when
/// it fits; on overflow a head-kinsoku character hangs (when hanging is
/// forced or it is a hanging character) or else overflows; otherwise the
/// line breaks when the previous character is end-kinsoku, the character
/// hangs when it is a hanging character, and the line breaks in every other
/// case.
pub open spec fn spec_edge_flag(
    glyph_id: u32,
    prev_glyph_id: Option<u32>,
    would_overflow: bool,
    policy: KinsokuPolicy,
) -> u8 {
    if !would_overflow {
        0
    } else if covers(policy.head_kinsoku_mask, glyph_id) {
        if policy.force_hanging || covers(policy.hanging_mask, glyph_id) {
            HANGING_FLAG
        } else {
            OVERFLOW_FLAG
        }
    } else if prev_glyph_id matches Some(p) && covers(policy.end_kinsoku_mask, p) {
        BREAK_FLAG
    } else if covers(policy.hanging_mask, glyph_id) {
        HANGING_FLAG
    } else {
        BREAK_FLAG
    }
}

/// CJK punctuation: the CJK symbols and punctuation block after the
/// ideographic space, and the punctuation of the full-width forms.
pub open spec fn spec_is_cjk_punctuation(cp: u32) -> bool {
    ||| 0x3001 <= cp <= 0x303F
    ||| 0xFF01 <= cp <= 0xFF0F
    ||| 0xFF1A <= cp <= 0xFF20
    ||| 0xFF3B <= cp <= 0xFF40
    ||| 0xFF5B <= cp <= 0xFF65
}

/// Whether a code point is CJK punctuation.
pub fn is_cjk_punctuation(cp: u32) -> (r: bool)
    ensures
        r == spec_is_cjk_punctuation(cp),
        r ==> (0x3001 <= cp <= 0x303F) || (0xFF01 <= cp <= 0xFF65),
        !r ==> cp < 0x3001 || cp > 0xFF65 || (0x3040 <= cp <= 0xFF00) || (0xFF10 <= cp <= 0xFF19)
            || (0xFF21 <= cp <= 0xFF3A) || (0xFF41 <= cp <= 0xFF5A),
{
    (0x3001 <= cp && cp <= 0x303F) || (0xFF01 <= cp && cp <= 0xFF0F) || (0xFF1A <= cp && cp
        <= 0xFF20) || (0xFF3B <= cp && cp <= 0xFF40) || (0xFF5B <= cp && cp <= 0xFF65)
}

/// Vertical text compresses its punctuation when the scaled compression
/// factor is below one.
pub open spec fn spec_compress_flag(glyph_id: u32, direction: u8, compression_below_one: bool) -> u8 {
    if direction == 1 && compression_below_one && spec_is_cjk_punctuation(glyph_id) {
        COMPRESSED_FLAG
    } else {
        0
    }
}

/// The full decision for one character.
pub open spec fn spec_decision(
    glyph_id: u32,
    prev_glyph_id: Option<u32>,
    would_overflow: bool,
    direction: u8,
    compression_below_one: bool,
    policy: KinsokuPolicy,
) -> u8 {
    spec_edge_flag(glyph_id, prev_glyph_id, would_overflow, policy) | spec_compress_flag(
        glyph_id,
        direction,
        compression_below_one,
    )
}

/// Reading the single flags back out of a decision built from an edge flag
/// and a compression flag.
proof fn lemma_flag_bits(e: u8, c: u8)
    requires
        e == 0 || e == 1 || e == 2 || e == 4,
        c == 0 || c == 8,
    ensures
        ((e | c) & 1u8 != 0) == (e == 1),
        ((e | c) & 2u8 != 0) == (e == 2),
        ((e | c) & 4u8 != 0) == (e == 4),
        ((e | c) & 8u8 != 0) == (c == 8),
        (0u8 | e) | c == e | c,
{
    assert(((e | c) & 1u8 != 0) == (e == 1) && ((e | c) & 2u8 != 0) == (e == 2) && ((e | c) & 4u8
        != 0) == (e == 4) && ((e | c) & 8u8 != 0) == (c == 8) && (0u8 | e) | c == e | c)
        by (bit_vector)
        requires
            e == 0 || e == 1 || e == 2 || e == 4,
            c == 0 || c == 8,
    ;
}

/// The layout engine. Its floating-point stages (positions, widths) run
/// outside the verified library; the decisions they take stand here.
pub struct LayoutEngineCore;

impl LayoutEngineCore {
    /// Arbitrates one character: given whether it would overflow the line,
    /// the previous character, the direction and whether the scaled
    /// compression factor is below one, decides between breaking,
    /// overflowing, hanging and compressing (punctuation in vertical text).
    pub fn arbitrate(
        glyph_id: u32,
        prev_glyph_id: Option<u32>,
        would_overflow: bool,
        direction: u8,
        compression_below_one: bool,
        policy: &KinsokuPolicy,
    ) -> (d: BreakDecision)
        ensures
            d@ == spec_decision(
                glyph_id,
                prev_glyph_id,
                would_overflow,
                direction,
                compression_below_one,
                *policy,
            ),
            d.holds(BREAK_FLAG) == (spec_edge_flag(glyph_id, prev_glyph_id, would_overflow, *policy)
                == BREAK_FLAG),
            d.holds(OVERFLOW_FLAG) == (spec_edge_flag(
                glyph_id,
                prev_glyph_id,
                would_overflow,
                *policy,
            ) == OVERFLOW_FLAG),
            d.holds(HANGING_FLAG) == (spec_edge_flag(
                glyph_id,
                prev_glyph_id,
                would_overflow,
                *policy,
            ) == HANGING_FLAG),
            d.holds(COMPRESSED_FLAG) == (direction == 1 && compression_below_one
                && spec_is_cjk_punctuation(glyph_id)),
            !would_overflow ==> !d.holds(BREAK_FLAG) && !d.holds(OVERFLOW_FLAG) && !d.holds(
                HANGING_FLAG,
            ),
            would_overflow && covers(policy.head_kinsoku_mask, glyph_id) ==> {
                &&& d.holds(HANGING_FLAG) == (policy.force_hanging || covers(
                    policy.hanging_mask,
                    glyph_id,
                ))
                &&& d.holds(OVERFLOW_FLAG) == !(policy.force_hanging || covers(
                    policy.hanging_mask,
                    glyph_id,
                ))
                &&& !d.holds(BREAK_FLAG)
            },
            would_overflow && !covers(policy.head_kinsoku_mask, glyph_id) ==> {
                &&& !d.holds(OVERFLOW_FLAG)
                &&& d.holds(BREAK_FLAG) == ((prev_glyph_id matches Some(p) && covers(
                    policy.end_kinsoku_mask,
                    p,
                )) || !covers(policy.hanging_mask, glyph_id))
                &&& d.holds(HANGING_FLAG) == !d.holds(BREAK_FLAG)
            },
    {
        proof {
            law_edge_flag_rules(glyph_id, prev_glyph_id, would_overflow, *policy);
        }
        let mut decision = BreakDecision::new();
        let mut edge: u8 = 0;
        if would_overflow {
            let is_head_kinsoku = is_in_kinsoku(glyph_id, policy.head_kinsoku_mask);
            let is_hanging = is_in_kinsoku(glyph_id, policy.hanging_mask);
            let prev_is_end_kinsoku = match prev_glyph_id {
                Some(pid) => is_in_kinsoku(pid, policy.end_kinsoku_mask),
                None => false,
            };
            if is_head_kinsoku {
                if policy.force_hanging || is_hanging {
                    edge = HANGING_FLAG;
                } else {
                    edge = OVERFLOW_FLAG;
                }
            } else if prev_is_end_kinsoku {
                edge = BREAK_FLAG;
            } else if is_hanging {
                edge = HANGING_FLAG;
            } else {
                edge = BREAK_FLAG;
            }
        }
        decision.set(edge);
        let mut compress: u8 = 0;
        if direction == 1 && compression_below_one && is_cjk_punctuation(glyph_id) {
            compress = COMPRESSED_FLAG;
        }
        decision.set(compress);
        proof {
            lemma_flag_bits(edge, compress);
        }
        decision
    }

    /// The default width of a code point in thousandths of the font size:
    /// ideographs are square, CJK and full-width punctuation take 0.8,
    /// kana 0.9, Latin letters and digits 0.5, the space 0.3 and everything
    /// else 0.6.
    pub fn default_width_permille(codepoint: u32) -> (w: u32)
        ensures
            w == spec_width_permille(codepoint),
            (w == 1000) == ((0x3400 <= codepoint <= 0x4DBF) || (0x4E00 <= codepoint <= 0x9FFF) || (
            0x20000 <= codepoint <= 0x2A6DF)),
            (w == 900) == (0x3040 <= codepoint <= 0x30FF),
            (w == 300) == (codepoint == 0x20),
    {
        proof {
            law_width_classes(codepoint);
        }
        if (0x4E00 <= codepoint && codepoint <= 0x9FFF) || (0x3400 <= codepoint && codepoint
            <= 0x4DBF) || (0x20000 <= codepoint && codepoint <= 0x2A6DF) {
            1000
        } else if 0x3000 <= codepoint && codepoint <= 0x303F {
            800
        } else if 0xFF00 <= codepoint && codepoint <= 0xFFEF {
            800
        } else if 0x3040 <= codepoint && codepoint <= 0x30FF {
            900
        } else if (0x0041 <= codepoint && codepoint <= 0x005A) || (0x0061 <= codepoint && codepoint
            <= 0x007A) {
            500
        } else if 0x0030 <= codepoint && codepoint <= 0x0039 {
            500
        } else if codepoint == 0x0020 {
            300
        } else {
            600
        }
    }
}

/// The default width of a code point in thousandths of the font size.
pub open spec fn spec_width_permille(cp: u32) -> u32 {
    if (0x4E00 <= cp <= 0x9FFF) || (0x3400 <= cp <= 0x4DBF) || (0x20000 <= cp <= 0x2A6DF) {
        1000
    } else if 0x3000 <= cp <= 0x303F || 0xFF00 <= cp <= 0xFFEF {
        800
    } else if 0x3040 <= cp <= 0x30FF {
        900
    } else if (0x0041 <= cp <= 0x005A) || (0x0061 <= cp <= 0x007A) || (0x0030 <= cp <= 0x0039) {
        500
    } else if cp == 0x0020 {
        300
    } else {
        600
    }
}

/// The edge flag, case by case in terms of the inputs: none when the
/// character fits; on overflow, a head-kinsoku character hangs exactly when
/// hanging is forced or it is a hanging character and overflows otherwise,
/// whatever the previous character; a character that is not head-kinsoku
/// breaks the line when the previous character is end-kinsoku or it is no
/// hanging character, and hangs otherwise.
pub proof fn law_edge_flag_rules(
    glyph_id: u32,
    prev_glyph_id: Option<u32>,
    would_overflow: bool,
    policy: KinsokuPolicy,
)
    ensures
        ({
            let e = spec_edge_flag(glyph_id, prev_glyph_id, would_overflow, policy);
            let hangs = policy.force_hanging || covers(policy.hanging_mask, glyph_id);
            let prev_end = prev_glyph_id matches Some(p) && covers(policy.end_kinsoku_mask, p);
            &&& !would_overflow ==> e == 0
            &&& would_overflow && covers(policy.head_kinsoku_mask, glyph_id) && hangs ==> e
                == HANGING_FLAG
            &&& would_overflow && covers(policy.head_kinsoku_mask, glyph_id) && !hangs ==> e
                == OVERFLOW_FLAG
            &&& would_overflow && !covers(policy.head_kinsoku_mask, glyph_id) && prev_end ==> e
                == BREAK_FLAG
            &&& would_overflow && !covers(policy.head_kinsoku_mask, glyph_id) && !prev_end && covers(
                policy.hanging_mask,
                glyph_id,
            ) ==> e == HANGING_FLAG
            &&& would_overflow && !covers(policy.head_kinsoku_mask, glyph_id) && !prev_end
                && !covers(policy.hanging_mask, glyph_id) ==> e == BREAK_FLAG
        }),
        forall|other: Option<u32>|
            covers(policy.head_kinsoku_mask, glyph_id) ==> #[trigger] spec_edge_flag(
                glyph_id,
                other,
                would_overflow,
                policy,
            ) == spec_edge_flag(glyph_id, prev_glyph_id, would_overflow, policy),
{
}

/// The default width classes, class by class: ideographs (U+3400..=U+4DBF,
/// U+4E00..=U+9FFF, U+20000..=U+2A6DF) are square; the CJK punctuation block
/// and the full-width forms take 0.8 of the font size; kana take 0.9; ASCII
/// letters and digits 0.5; the space 0.3; everything else 0.6. Every CJK
/// punctuation mark is in the 0.8 class.
pub proof fn law_width_classes(cp: u32)
    ensures
        ({
            let w = spec_width_permille(cp);
            let ideograph = (0x3400 <= cp <= 0x4DBF) || (0x4E00 <= cp <= 0x9FFF) || (0x20000 <= cp
                <= 0x2A6DF);
            let full = (0x3000 <= cp <= 0x303F) || (0xFF00 <= cp <= 0xFFEF);
            let kana = 0x3040 <= cp <= 0x30FF;
            let alnum = (0x41 <= cp <= 0x5A) || (0x61 <= cp <= 0x7A) || (0x30 <= cp <= 0x39);
            &&& (w == 1000) == ideograph
            &&& (w == 800) == full
            &&& (w == 900) == kana
            &&& (w == 500) == alnum
            &&& (w == 300) == (cp == 0x20)
            &&& (w == 600) == !(ideograph || full || kana || alnum || cp == 0x20)
            &&& spec_is_cjk_punctuation(cp) ==> w == 800
        }),
{
}

/// What arbitration guarantees for every character: a character that fits
/// gets no edge flag; an overflowing one gets exactly one of break, overflow
/// and hang; an overflowing head-kinsoku character is never pushed to the
/// start of the next line; and only punctuation in vertical text with a
/// compression factor below one is compressed.
pub proof fn law_arbitration_outcomes(
    glyph_id: u32,
    prev_glyph_id: Option<u32>,
    would_overflow: bool,
    direction: u8,
    compression_below_one: bool,
    policy: KinsokuPolicy,
)
    ensures
        ({
            let e = spec_edge_flag(glyph_id, prev_glyph_id, would_overflow, policy);
            &&& !would_overflow ==> e == 0
            &&& would_overflow ==> (e == BREAK_FLAG || e == OVERFLOW_FLAG || e == HANGING_FLAG)
            &&& would_overflow && covers(policy.head_kinsoku_mask, glyph_id) ==> e != BREAK_FLAG
            &&& would_overflow && !covers(policy.head_kinsoku_mask, glyph_id) ==> e != OVERFLOW_FLAG
        }),
        ({
            let d = spec_decision(
                glyph_id,
                prev_glyph_id,
                would_overflow,
                direction,
                compression_below_one,
                policy,
            );
            d & 8u8 != 0 <==> (direction == 1 && compression_below_one && spec_is_cjk_punctuation(
                glyph_id,
            ))
        }),
{
    let e = spec_edge_flag(glyph_id, prev_glyph_id, would_overflow, policy);
    let c = spec_compress_flag(glyph_id, direction, compression_below_one);
    lemma_flag_bits(e, c);
}

/// Horizontal and vertical text are arbitrated alike: the direction changes
/// the compression flag only, never the break, overflow or hanging flags.
pub proof fn law_direction_only_affects_compression(
    glyph_id: u32,
    prev_glyph_id: Option<u32>,
    would_overflow: bool,
    direction1: u8,
    direction2: u8,
    compression_below_one: bool,
    policy: KinsokuPolicy,
)
    ensures
        spec_decision(glyph_id, prev_glyph_id, would_overflow, direction1, compression_below_one, policy)
            & 7u8 == spec_decision(
            glyph_id,
            prev_glyph_id,
            would_overflow,
            direction2,
            compression_below_one,
            policy,
        ) & 7u8,
{
    let e = spec_edge_flag(glyph_id, prev_glyph_id, would_overflow, policy);
    let c1 = spec_compress_flag(glyph_id, direction1, compression_below_one);
    let c2 = spec_compress_flag(glyph_id, direction2, compression_below_one);
    assert((e | c1) & 7u8 == (e | c2) & 7u8) by (bit_vector)
        requires
            e == 0 || e == 1 || e == 2 || e == 4,
            c1 == 0 || c1 == 8,
            c2 == 0 || c2 == 8,
    ;
}

/// The head-kinsoku code points of the default policy.
pub open spec fn default_head_codes() -> Seq<u32> {
    seq![0x3002u32, 0x3001, 0xFF0C, 0xFF1B, 0xFF1A, 0xFF01, 0xFF1F]
}

/// The end-kinsoku code points of the default policy.
pub open spec fn default_end_codes() -> Seq<u32> {
    seq![0x300Cu32, 0x300E, 0xFF08]
}

/// The hanging code points of the default policy.
pub open spec fn default_hanging_codes() -> Seq<u32> {
    seq![0x3002u32, 0x3001, 0xFF0C]
}

/// The default head-kinsoku mask.
pub proof fn lemma_default_head_mask()
    ensures
        spec_build(default_head_codes()) == 0x8c00_1006u64,
{
    let s0: Seq<u32> = Seq::empty();
    let s1 = s0.push(0x3002u32);
    lemma_build_push(s0, 0x3002u32);
    let s2 = s1.push(0x3001u32);
    lemma_build_push(s1, 0x3001u32);
    let s3 = s2.push(0xFF0Cu32);
    lemma_build_push(s2, 0xFF0Cu32);
    let s4 = s3.push(0xFF1Bu32);
    lemma_build_push(s3, 0xFF1Bu32);
    let s5 = s4.push(0xFF1Au32);
    lemma_build_push(s4, 0xFF1Au32);
    let s6 = s5.push(0xFF01u32);
    lemma_build_push(s5, 0xFF01u32);
    let s7 = s6.push(0xFF1Fu32);
    lemma_build_push(s6, 0xFF1Fu32);
    assert(spec_build(s0) == 0);
    assert((((((((0u64 | (1u64 << (((0x3002u32 ^ (0x3002u32 >> 16u32)) & 0x3fu32) as u64))) | (1u64 << (((0x3001u32 ^ (0x3001u32 >> 16u32)) & 0x3fu32) as u64))) | (1u64 << (((0xFF0Cu32 ^ (0xFF0Cu32 >> 16u32)) & 0x3fu32) as u64))) | (1u64 << (((0xFF1Bu32 ^ (0xFF1Bu32 >> 16u32)) & 0x3fu32) as u64))) | (1u64 << (((0xFF1Au32 ^ (0xFF1Au32 >> 16u32)) & 0x3fu32) as u64))) | (1u64 << (((0xFF01u32 ^ (0xFF01u32 >> 16u32)) & 0x3fu32) as u64))) | (1u64 << (((0xFF1Fu32 ^ (0xFF1Fu32 >> 16u32)) & 0x3fu32) as u64))) == 0x8c00_1006u64) by (bit_vector);
    assert(default_head_codes() =~= s7);
}

/// The default end-kinsoku mask.
pub proof fn lemma_default_end_mask()
    ensures
        spec_build(default_end_codes()) == 0x5100u64,
{
    let s0: Seq<u32> = Seq::empty();
    let s1 = s0.push(0x300Cu32);
    lemma_build_push(s0, 0x300Cu32);
    let s2 = s1.push(0x300Eu32);
    lemma_build_push(s1, 0x300Eu32);
    let s3 = s2.push(0xFF08u32);
    lemma_build_push(s2, 0xFF08u32);
    assert(spec_build(s0) == 0);
    assert((((0u64 | (1u64 << (((0x300Cu32 ^ (0x300Cu32 >> 16u32)) & 0x3fu32) as u64))) | (1u64 << (((0x300Eu32 ^ (0x300Eu32 >> 16u32)) & 0x3fu32) as u64))) | (1u64 << (((0xFF08u32 ^ (0xFF08u32 >> 16u32)) & 0x3fu32) as u64))) == 0x5100u64) by (bit_vector);
    assert(default_end_codes() =~= s3);
}

/// The default hanging mask.
pub proof fn lemma_default_hanging_mask()
    ensures
        spec_build(default_hanging_codes()) == 0x1006u64,
{
    let s0: Seq<u32> = Seq::empty();
    let s1 = s0.push(0x3002u32);
    lemma_build_push(s0, 0x3002u32);
    let s2 = s1.push(0x3001u32);
    lemma_build_push(s1, 0x3001u32);
    let s3 = s2.push(0xFF0Cu32);
    lemma_build_push(s2, 0xFF0Cu32);
    assert(spec_build(s0) == 0);
    assert((((0u64 | (1u64 << (((0x3002u32 ^ (0x3002u32 >> 16u32)) & 0x3fu32) as u64))) | (1u64 << (((0x3001u32 ^ (0x3001u32 >> 16u32)) & 0x3fu32) as u64))) | (1u64 << (((0xFF0Cu32 ^ (0xFF0Cu32 >> 16u32)) & 0x3fu32) as u64))) == 0x1006u64) by (bit_vector);
    assert(default_hanging_codes() =~= s3);
}

/// The kinsoku part of the default layout policy, after the national
/// typesetting conventions: the usual stops and closing marks may not start
/// a line, opening quotes and brackets may not end one, and the small stops
/// may hang.
pub fn default_kinsoku_policy() -> (p: KinsokuPolicy)
    ensures
        p.head_kinsoku_mask == spec_build(default_head_codes()),
        p.end_kinsoku_mask == spec_build(default_end_codes()),
        p.hanging_mask == spec_build(default_hanging_codes()),
        p.head_kinsoku_mask == 0x8c00_1006u64,
        p.end_kinsoku_mask == 0x5100u64,
        p.hanging_mask == 0x1006u64,
        !p.force_hanging,
{
    proof {
        lemma_default_head_mask();
        lemma_default_end_mask();
        lemma_default_hanging_mask();
    }
    let head: [u32; 7] = [0x3002, 0x3001, 0xFF0C, 0xFF1B, 0xFF1A, 0xFF01, 0xFF1F];
    let end: [u32; 3] = [0x300C, 0x300E, 0xFF08];
    let hanging: [u32; 3] = [0x3002, 0x3001, 0xFF0C];
    assert(head@ =~= default_head_codes());
    assert(end@ =~= default_end_codes());
    assert(hanging@ =~= default_hanging_codes());
    KinsokuPolicy {
        head_kinsoku_mask: build_kinsoku_mask(&head),
        end_kinsoku_mask: build_kinsoku_mask(&end),
        hanging_mask: build_kinsoku_mask(&hanging),
        force_hanging: false,
    }
}

} // verus!

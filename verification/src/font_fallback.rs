//! Font fallback: a table of Unicode ranges, each with a font id, searched
//! by bisection.
use vstd::prelude::*;

verus! {

/// A range of code points (both ends included) and the font that serves it.
#[derive(Debug, Clone, Copy)]
pub struct UnicodeRange {
    /// First code point of the range.
    pub start: u32,
    /// Last code point of the range.
    pub end: u32,
    /// Font id for the range.
    pub font_id: u8,
}

/// `range` holds `codepoint`.
pub open spec fn range_holds(range: UnicodeRange, codepoint: u32) -> bool {
    range.start <= codepoint <= range.end
}

/// The table is in increasing order and its ranges do not overlap.
pub open spec fn ranges_sorted(ranges: Seq<UnicodeRange>) -> bool {
    &&& forall|i: int| 0 <= i < ranges.len() ==> (#[trigger] ranges[i]).start <= ranges[i].end
    &&& forall|i: int, j: int| 0 <= i < j < ranges.len() ==> (#[trigger] ranges[i]).end < (
    #[trigger] ranges[j]).start
}

/// Maps code points to font ids through a table of ranges, with a default
/// font for code points that no range holds.
pub struct FontFallback {
    ranges: Vec<UnicodeRange>,
    default_font_id: u8,
}

impl FontFallback {
    /// The table of ranges.
    pub closed spec fn spec_ranges(&self) -> Seq<UnicodeRange> {
        self.ranges@
    }

    /// The default font id.
    pub closed spec fn spec_default(&self) -> u8 {
        self.default_font_id
    }

    /// A fallback from a table of ranges, meant to be sorted by `start`, and
    /// a default font id.
    pub fn new(ranges: Vec<UnicodeRange>, default_font_id: u8) -> (f: Self)
        ensures
            f.spec_ranges() == ranges@,
            f.spec_default() == default_font_id,
    {
        FontFallback { ranges, default_font_id }
    }

    /// The font id of a code point, found by bisection over the table: on a
    /// sorted table, the font of the range that holds the code point, or the
    /// default when none does.
    pub fn resolve_font_id(&self, codepoint: u32) -> (id: u8)
        ensures
            id == spec_font_of(self.spec_ranges(), self.spec_default(), codepoint),
            id == self.spec_default() || exists|i: int|
                0 <= i < self.spec_ranges().len() && range_holds(
                    #[trigger] self.spec_ranges()[i],
                    codepoint,
                ) && id == self.spec_ranges()[i].font_id,
            ranges_sorted(self.spec_ranges()) ==> forall|k: int|
                0 <= k < self.spec_ranges().len() && range_holds(
                    #[trigger] self.spec_ranges()[k],
                    codepoint,
                ) ==> id == self.spec_ranges()[k].font_id,
            ranges_sorted(self.spec_ranges()) && (forall|k: int|
                0 <= k < self.spec_ranges().len() ==> !range_holds(
                    #[trigger] self.spec_ranges()[k],
                    codepoint,
                )) ==> id == self.spec_default(),
    {
        proof {
            law_font_of_meaning(self.spec_ranges(), self.spec_default(), codepoint);
        }
        let ghost rs = self.ranges@;
        let ghost d = self.default_font_id;
        if self.ranges.len() == 0 {
            return self.default_font_id;
        }
        let mut low: usize = 0;
        let mut high: usize = self.ranges.len() - 1;
        while low <= high
            invariant
                rs == self.ranges@,
                d == self.default_font_id,
                high < rs.len(),
                high < self.ranges.len(),
                spec_font_of(rs, d, codepoint) == bisect(rs, d, codepoint, low as int, high as int),
            decreases high + 1 - low,
        {
            let mid = low + (high - low) / 2;
            assert(low <= mid <= high);
            let range = self.ranges[mid];
            if codepoint < range.start {
                if mid == 0 {
                    return self.default_font_id;
                }
                high = mid - 1;
            } else if codepoint > range.end {
                low = mid + 1;
            } else {
                assert(range_holds(self.spec_ranges()[mid as int], codepoint));
                return range.font_id;
            }
        }
        self.default_font_id
    }

    /// Writes the font id of each code point into `output_font_ids`, as far
    /// as both slices reach; the rest of the output is left as it was.
    pub fn resolve_codepoints(&self, codepoints: &[u32], output_font_ids: &mut [u8])
        ensures
            final(output_font_ids)@.len() == old(output_font_ids)@.len(),
            forall|i: int|
                0 <= i < codepoints@.len() && i < old(output_font_ids)@.len() ==> #[trigger] final(output_font_ids)@[i] == spec_font_of(self.spec_ranges(), self.spec_default(), codepoints@[i]),
            forall|i: int|
                codepoints@.len() <= i < old(output_font_ids)@.len() ==> #[trigger] final(output_font_ids)@[i] == old(output_font_ids)@[i],
    {
        let len = if codepoints.len() < output_font_ids.len() {
            codepoints.len()
        } else {
            output_font_ids.len()
        };
        let mut i: usize = 0;
        while i < len
            invariant
                len <= codepoints@.len(),
                len <= output_font_ids@.len(),
                len == codepoints@.len() || len == output_font_ids@.len(),
                i <= len,
                output_font_ids@.len() == old(output_font_ids)@.len(),
                forall|k: int|
                    0 <= k < i ==> #[trigger] output_font_ids@[k] == spec_font_of(
                        self.spec_ranges(),
                        self.spec_default(),
                        codepoints@[k],
                    ),
                forall|k: int|
                    i <= k < output_font_ids@.len() ==> #[trigger] output_font_ids@[k] == old(output_font_ids)@[k],
            decreases len - i,
        {
            let id = self.resolve_font_id(codepoints[i]);
            output_font_ids[i] = id;
            i = i + 1;
        }
    }
}

/// The standard table, in increasing order: Latin letters to font 1,
/// combining accents, CJK punctuation, ideographs and full-width forms to
/// font 0, kana to font 2.
pub open spec fn spec_cjk_latin_ranges() -> Seq<UnicodeRange> {
    seq![
        UnicodeRange { start: 0x0041, end: 0x005A, font_id: 1 },
        UnicodeRange { start: 0x0061, end: 0x007A, font_id: 1 },
        UnicodeRange { start: 0x00C0, end: 0x00FF, font_id: 1 },
        UnicodeRange { start: 0x0300, end: 0x036F, font_id: 0 },
        UnicodeRange { start: 0x3000, end: 0x303F, font_id: 0 },
        UnicodeRange { start: 0x3040, end: 0x309F, font_id: 2 },
        UnicodeRange { start: 0x30A0, end: 0x30FF, font_id: 2 },
        UnicodeRange { start: 0x3400, end: 0x4DBF, font_id: 0 },
        UnicodeRange { start: 0x4E00, end: 0x9FFF, font_id: 0 },
        UnicodeRange { start: 0xFF00, end: 0xFFEF, font_id: 0 },
        UnicodeRange { start: 0x20000, end: 0x2A6DF, font_id: 0 },
    ]
}

/// A table whose ranges are well formed and each end before the next one
/// starts is sorted.
proof fn lemma_sorted_from_adjacent(ranges: Seq<UnicodeRange>)
    requires
        forall|i: int| 0 <= i < ranges.len() ==> (#[trigger] ranges[i]).start <= ranges[i].end,
        forall|i: int| 0 <= i < ranges.len() - 1 ==> (#[trigger] ranges[i]).end < ranges[i + 1].start,
    ensures
        ranges_sorted(ranges),
{
    assert forall|i: int, j: int| 0 <= i < j < ranges.len() implies (#[trigger] ranges[i]).end < (
    #[trigger] ranges[j]).start by {
        lemma_adjacent_chain(ranges, i, j);
    }
}

proof fn lemma_adjacent_chain(ranges: Seq<UnicodeRange>, i: int, j: int)
    requires
        forall|k: int| 0 <= k < ranges.len() ==> (#[trigger] ranges[k]).start <= ranges[k].end,
        forall|k: int| 0 <= k < ranges.len() - 1 ==> (#[trigger] ranges[k]).end < ranges[k + 1].start,
        0 <= i < j < ranges.len(),
    ensures
        ranges[i].end < ranges[j].start,
    decreases j - i,
{
    assert(ranges[j - 1].end < ranges[j].start);
    if i < j - 1 {
        lemma_adjacent_chain(ranges, i, j - 1);
        assert(ranges[j - 1].start <= ranges[j - 1].end);
    }
}

/// The standard table is sorted.
pub proof fn lemma_cjk_latin_sorted()
    ensures
        ranges_sorted(spec_cjk_latin_ranges()),
{
    let r = spec_cjk_latin_ranges();
    assert forall|i: int| 0 <= i < r.len() implies (#[trigger] r[i]).start <= r[i].end by {}
    assert forall|i: int| 0 <= i < r.len() - 1 implies (#[trigger] r[i]).end < r[i + 1].start by {}
    lemma_sorted_from_adjacent(r);
}

/// The standard fallback's font for a code point: the Latin font 1 for
/// A-Z, a-z and U+00C0..=U+00FF, the kana font 2 for U+3040..=U+30FF, and
/// font 0 for everything else.
pub open spec fn standard_font(cp: u32) -> u8 {
    if (0x41 <= cp <= 0x5A) || (0x61 <= cp <= 0x7A) || (0xC0 <= cp <= 0xFF) {
        1
    } else if 0x3040 <= cp <= 0x30FF {
        2
    } else {
        0
    }
}

/// The standard table with default 0 gives every code point its standard
/// font.
pub proof fn law_standard_fonts(cp: u32)
    ensures
        spec_font_of(spec_cjk_latin_ranges(), 0, cp) == standard_font(cp),
{
    let r = spec_cjk_latin_ranges();
    assert(r[0] == UnicodeRange { start: 0x0041, end: 0x005A, font_id: 1 });
    assert(r[1] == UnicodeRange { start: 0x0061, end: 0x007A, font_id: 1 });
    assert(r[2] == UnicodeRange { start: 0x00C0, end: 0x00FF, font_id: 1 });
    assert(r[3] == UnicodeRange { start: 0x0300, end: 0x036F, font_id: 0 });
    assert(r[4] == UnicodeRange { start: 0x3000, end: 0x303F, font_id: 0 });
    assert(r[5] == UnicodeRange { start: 0x3040, end: 0x309F, font_id: 2 });
    assert(r[6] == UnicodeRange { start: 0x30A0, end: 0x30FF, font_id: 2 });
    assert(r[7] == UnicodeRange { start: 0x3400, end: 0x4DBF, font_id: 0 });
    assert(r[8] == UnicodeRange { start: 0x4E00, end: 0x9FFF, font_id: 0 });
    assert(r[9] == UnicodeRange { start: 0xFF00, end: 0xFFEF, font_id: 0 });
    assert(r[10] == UnicodeRange { start: 0x20000, end: 0x2A6DF, font_id: 0 });
    lemma_cjk_latin_sorted();
    law_font_of_meaning(r, 0, cp);
    assert forall|k: int| 0 <= k < r.len() && range_holds(#[trigger] r[k], cp) implies r[k].font_id
        == standard_font(cp) by {}
    if exists|k: int| 0 <= k < r.len() && range_holds(#[trigger] r[k], cp) {
        let k = choose|k: int| 0 <= k < r.len() && range_holds(#[trigger] r[k], cp);
        assert(r[k].font_id == standard_font(cp));
    } else {
        assert(standard_font(cp) == 0) by {
            if (0x41 <= cp <= 0x5A) {
                assert(range_holds(r[0], cp));
            } else if (0x61 <= cp <= 0x7A) {
                assert(range_holds(r[1], cp));
            } else if (0xC0 <= cp <= 0xFF) {
                assert(range_holds(r[2], cp));
            } else if 0x3040 <= cp <= 0x309F {
                assert(range_holds(r[5], cp));
            } else if 0x30A0 <= cp <= 0x30FF {
                assert(range_holds(r[6], cp));
            }
        }
    }
}

/// The standard fallback for CJK and Latin text, with font 0 as default.
pub fn cjk_latin_fallback() -> (f: FontFallback)
    ensures
        f.spec_ranges() == spec_cjk_latin_ranges(),
        ranges_sorted(f.spec_ranges()),
        f.spec_default() == 0,
        forall|cp: u32| #[trigger] spec_font_of(f.spec_ranges(), f.spec_default(), cp) == standard_font(cp),
{
    let ranges = vec![
        UnicodeRange { start: 0x0041, end: 0x005A, font_id: 1 },
        UnicodeRange { start: 0x0061, end: 0x007A, font_id: 1 },
        UnicodeRange { start: 0x00C0, end: 0x00FF, font_id: 1 },
        UnicodeRange { start: 0x0300, end: 0x036F, font_id: 0 },
        UnicodeRange { start: 0x3000, end: 0x303F, font_id: 0 },
        UnicodeRange { start: 0x3040, end: 0x309F, font_id: 2 },
        UnicodeRange { start: 0x30A0, end: 0x30FF, font_id: 2 },
        UnicodeRange { start: 0x3400, end: 0x4DBF, font_id: 0 },
        UnicodeRange { start: 0x4E00, end: 0x9FFF, font_id: 0 },
        UnicodeRange { start: 0xFF00, end: 0xFFEF, font_id: 0 },
        UnicodeRange { start: 0x20000, end: 0x2A6DF, font_id: 0 },
    ];
    assert(ranges@ =~= spec_cjk_latin_ranges());
    proof {
        lemma_cjk_latin_sorted();
        assert forall|cp: u32| #[trigger] spec_font_of(spec_cjk_latin_ranges(), 0, cp) == standard_font(cp) by {
            law_standard_fonts(cp);
        }
    }
    FontFallback::new(ranges, 0)
}

/// What bisection over `ranges[low..=high]` finds for `codepoint`: the
/// middle range decides which half to search next, a range that holds the
/// code point gives its font, and an empty search gives the default.
pub open spec fn bisect(
    ranges: Seq<UnicodeRange>,
    default_font_id: u8,
    codepoint: u32,
    low: int,
    high: int,
) -> u8
    decreases high - low + 1,
{
    if low < 0 || low > high || high >= ranges.len() {
        default_font_id
    } else {
        let mid = low + (high - low) / 2;
        if codepoint < ranges[mid].start {
            if mid == 0 {
                default_font_id
            } else {
                bisect(ranges, default_font_id, codepoint, low, mid - 1)
            }
        } else if codepoint > ranges[mid].end {
            bisect(ranges, default_font_id, codepoint, mid + 1, high)
        } else {
            ranges[mid].font_id
        }
    }
}

/// The font id that the fallback gives a code point.
pub open spec fn spec_font_of(ranges: Seq<UnicodeRange>, default_font_id: u8, codepoint: u32) -> u8 {
    bisect(ranges, default_font_id, codepoint, 0, ranges.len() - 1)
}

/// Bisection only ever answers the default or the font of a range that
/// holds the code point.
proof fn lemma_bisect_sound(
    ranges: Seq<UnicodeRange>,
    default_font_id: u8,
    codepoint: u32,
    low: int,
    high: int,
)
    ensures
        ({
            let id = bisect(ranges, default_font_id, codepoint, low, high);
            id == default_font_id || exists|i: int|
                0 <= i < ranges.len() && range_holds(#[trigger] ranges[i], codepoint) && id
                    == ranges[i].font_id
        }),
    decreases high - low + 1,
{
    if !(low < 0 || low > high || high >= ranges.len()) {
        let mid = low + (high - low) / 2;
        if codepoint < ranges[mid].start {
            if mid != 0 {
                lemma_bisect_sound(ranges, default_font_id, codepoint, low, mid - 1);
            }
        } else if codepoint > ranges[mid].end {
            lemma_bisect_sound(ranges, default_font_id, codepoint, mid + 1, high);
        } else {
            assert(range_holds(ranges[mid], codepoint));
        }
    }
}

/// On a sorted table, bisection over a stretch that holds every range
/// containing the code point finds the right font, or the default when no
/// range contains it.
proof fn lemma_bisect_sorted(
    ranges: Seq<UnicodeRange>,
    default_font_id: u8,
    codepoint: u32,
    low: int,
    high: int,
)
    requires
        ranges_sorted(ranges),
        0 <= low,
        high < ranges.len(),
        forall|k: int|
            0 <= k < ranges.len() && range_holds(#[trigger] ranges[k], codepoint) ==> low <= k
                <= high,
    ensures
        forall|k: int|
            0 <= k < ranges.len() && range_holds(#[trigger] ranges[k], codepoint) ==> bisect(
                ranges,
                default_font_id,
                codepoint,
                low,
                high,
            ) == ranges[k].font_id,
        (forall|k: int| 0 <= k < ranges.len() ==> !range_holds(#[trigger] ranges[k], codepoint))
            ==> bisect(ranges, default_font_id, codepoint, low, high) == default_font_id,
    decreases high - low + 1,
{
    if low <= high {
        let mid = low + (high - low) / 2;
        if codepoint < ranges[mid].start {
            assert forall|k: int|
                0 <= k < ranges.len() && range_holds(#[trigger] ranges[k], codepoint) implies k
                < mid by {
                if k > mid {
                    assert(ranges[mid].end < ranges[k].start);
                }
            }
            if mid != 0 {
                lemma_bisect_sorted(ranges, default_font_id, codepoint, low, mid - 1);
            }
        } else if codepoint > ranges[mid].end {
            assert forall|k: int|
                0 <= k < ranges.len() && range_holds(#[trigger] ranges[k], codepoint) implies k
                > mid by {
                if k < mid {
                    assert(ranges[k].end < ranges[mid].start);
                }
            }
            lemma_bisect_sorted(ranges, default_font_id, codepoint, mid + 1, high);
        } else {
            assert forall|k: int|
                0 <= k < ranges.len() && range_holds(#[trigger] ranges[k], codepoint) implies k
                == mid by {
                if k < mid {
                    assert(ranges[k].end < ranges[mid].start);
                }
                if k > mid {
                    assert(ranges[mid].end < ranges[k].start);
                }
            }
        }
    }
}

/// What the fallback gives a code point: always the default or the font of
/// a range that holds it; and on a sorted table exactly the font of the
/// range that holds it, or the default when none does.
pub proof fn law_font_of_meaning(ranges: Seq<UnicodeRange>, default_font_id: u8, codepoint: u32)
    ensures
        ({
            let id = spec_font_of(ranges, default_font_id, codepoint);
            &&& id == default_font_id || exists|i: int|
                0 <= i < ranges.len() && range_holds(#[trigger] ranges[i], codepoint) && id
                    == ranges[i].font_id
            &&& ranges_sorted(ranges) ==> forall|k: int|
                0 <= k < ranges.len() && range_holds(#[trigger] ranges[k], codepoint) ==> id
                    == ranges[k].font_id
            &&& ranges_sorted(ranges) && (forall|k: int|
                0 <= k < ranges.len() ==> !range_holds(#[trigger] ranges[k], codepoint)) ==> id
                == default_font_id
        }),
{
    lemma_bisect_sound(ranges, default_font_id, codepoint, 0, ranges.len() - 1);
    if ranges_sorted(ranges) && ranges.len() > 0 {
        lemma_bisect_sorted(ranges, default_font_id, codepoint, 0, ranges.len() - 1);
    }
}

} // verus!

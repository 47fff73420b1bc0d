# text_layout_engine

A typesetting core for Chinese and mixed CJK/Latin text, verified with Verus.

- `src/bitmask.rs` — the model of a 64-bit kinsoku mask (which bits are set,
  how many) and the bit-level facts the mask operations rest on.
- `src/kinsoku_map.rs` — folding code points into mask bits; building,
  querying, merging and editing masks; listing and counting set bits.
- `src/prebuilt_masks.rs` — the masks of the standard head, end and hanging
  code point sets, with proofs that they are what the builder computes.
- `src/layout_engine.rs` — the per-character arbitration between breaking,
  overflowing, hanging and compressing; the default kinsoku policy; the
  default width class of a code point.
- `src/line_break.rs` — the streaming line breaker: each call breaks off the
  next line under the kinsoku rules; its contract gives the line as a
  function of the answers of a width test (whether a code point would
  overflow or exactly fill the line); laws that a run of lines covers the
  text in order and that the line is fixed by the text, masks and width
  test; simplified UAX #14 break classes.
- `src/font_fallback.rs` — font lookup by bisection over code point ranges.
- `app/` — the floating-point stages (the overflow and exact-fit test on
  `f32` widths, line widths, positions) and the script-host exports, which
  call the library for every decision.

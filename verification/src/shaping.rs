//! Shaping decisions and the single-codepoint fast path.
//!
//! Shaping maps text plus hints to positioned glyphs. The hot path —
//! exactly one codepoint, no hints, no features, no variations — bypasses
//! the outside shaping engine entirely: the glyph comes from the font's
//! character map and the advance from its horizontal metrics. Everything
//! else is prepared here (direction words, script tags, feature settings in
//! the engine's `tag` / `tag=value` format) and handed to the engine
//! outside the library; its output comes back as plain glyph records and is
//! checked here, where an empty run is a shaping failure.

use vstd::prelude::*;
use vstd::string::StrSliceExecFns;
use vstd::string::StringExecFns;

use crate::batch::TextConfig;
use crate::errors::Error;
use crate::fonts::{advance_of, glyph_advance, glyph_for_char, glyph_id_of, FontInstance};
use crate::strutil::{lowered, lowered_code, packed_tag, tag_char_ok, tag_packs};

verus! {

/// A positioned glyph in font design units.
#[derive(Clone, Copy, Debug, PartialEq, Eq, Structural)]
pub struct ShapedGlyph {
    /// Glyph id in the font.
    pub glyph_id: u32,
    /// Horizontal advance.
    pub x_advance: i32,
    /// Vertical advance, normally zero.
    pub y_advance: i32,
    /// Horizontal offset from the cursor.
    pub x_offset: i32,
    /// Vertical offset from the baseline.
    pub y_offset: i32,
}

/// A shaped run: positioned glyphs and the point size they were shaped at.
#[derive(Clone, Debug)]
pub struct ShapedText {
    /// The positioned glyphs in visual order.
    pub glyphs: Vec<ShapedGlyph>,
    /// Point size of the run.
    pub font_size: u32,
}

/// Text direction hints accepted by the pipeline.
#[derive(Clone, Copy, Debug, PartialEq, Eq, Structural)]
pub enum Direction {
    /// Left to right.
    Ltr,
    /// Right to left.
    Rtl,
    /// Top to bottom.
    Ttb,
    /// Bottom to top.
    Btt,
}

/// The direction named by a hint, compared without regard to ASCII case;
/// anything outside the closed set is no direction.
pub open spec fn direction_of(d: Seq<char>) -> Option<Direction> {
    if d.len() != 3 {
        None
    } else if lowered(d[0]) == ('l' as u32) && lowered(d[1]) == ('t' as u32) && lowered(d[2]) == (
    'r' as u32) {
        Some(Direction::Ltr)
    } else if lowered(d[0]) == ('r' as u32) && lowered(d[1]) == ('t' as u32) && lowered(d[2]) == (
    'l' as u32) {
        Some(Direction::Rtl)
    } else if lowered(d[0]) == ('t' as u32) && lowered(d[1]) == ('t' as u32) && lowered(d[2]) == (
    'b' as u32) {
        Some(Direction::Ttb)
    } else if lowered(d[0]) == ('b' as u32) && lowered(d[1]) == ('t' as u32) && lowered(d[2]) == (
    't' as u32) {
        Some(Direction::Btt)
    } else {
        None
    }
}

/// Parse a direction hint. An unknown word yields nothing, and the caller
/// falls back to the engine's heuristics.
pub fn parse_direction(label: &str) -> (r: Option<Direction>)
    ensures
        r == direction_of(label@),
{
    let n = label.unicode_len();
    if n != 3 {
        return None;
    }
    let a = lowered_code(label.get_char(0));
    let b = lowered_code(label.get_char(1));
    let c = lowered_code(label.get_char(2));
    let lw = 'l' as u32;
    let rw = 'r' as u32;
    let tw = 't' as u32;
    let bw = 'b' as u32;
    if a == lw && b == tw && c == rw {
        Some(Direction::Ltr)
    } else if a == rw && b == tw && c == lw {
        Some(Direction::Rtl)
    } else if a == tw && b == tw && c == bw {
        Some(Direction::Ttb)
    } else if a == bw && b == tw && c == tw {
        Some(Direction::Btt)
    } else {
        None
    }
}

/// Parse a script hint into a packed four-character tag. Accepted exactly
/// when the label is four printable ASCII characters; anything else yields
/// nothing and the caller falls back to the engine's heuristics.
pub fn parse_script(label: &str) -> (r: Option<u32>)
    ensures
        r is Some <==> tag_packs(label@),
        r matches Some(t) ==> t == packed_tag(label@),
{
    crate::strutil::pack_tag(label)
}

/// The first `=` in an entry at or after position `i`, or the length when
/// there is none.
pub open spec fn eq_index(s: Seq<char>, i: int) -> int
    recommends
        0 <= i <= s.len(),
    decreases s.len() - i,
{
    if i < 0 || i >= s.len() {
        s.len() as int
    } else if s[i] == '=' {
        i
    } else {
        eq_index(s, i + 1)
    }
}

/// A tag padded on the right with spaces to four characters; longer tags
/// are truncated.
pub open spec fn padded_tag4(s: Seq<char>) -> Seq<char> {
    if s.len() >= 4 {
        s.take(4)
    } else {
        s + Seq::new((4 - s.len()) as nat, |i: int| ' ')
    }
}

/// The numeric value of decimal characters.
pub open spec fn chars_value(s: Seq<char>) -> int
    decreases s.len(),
{
    if s.len() == 0 {
        0
    } else {
        chars_value(s.drop_last()) * 10 + ((s.last() as u32) - 0x30)
    }
}

/// Whether every character is a decimal digit.
pub open spec fn all_digit_chars(s: Seq<char>) -> bool {
    forall|i: int| 0 <= i < s.len() ==> 0x30 <= ((#[trigger] s[i]) as u32) <= 0x39
}

/// The value a feature entry's `=value` part selects: its decimal value
/// when it is all digits and fits, one otherwise.
pub open spec fn feature_value_of(s: Seq<char>) -> u32 {
    if s.len() > 0 && all_digit_chars(s) && chars_value(s) <= u32::MAX {
        chars_value(s) as u32
    } else {
        1
    }
}

/// What one feature entry contributes: the packed padded tag with its
/// selected value, or nothing when the tag does not pack. An entry without
/// `=` selects value one.
pub open spec fn feature_of(s: Seq<char>) -> Option<(u32, u32)> {
    let e = eq_index(s, 0);
    let tagpart = padded_tag4(s.take(e));
    if tag_packs(tagpart) {
        if e == s.len() {
            Some((packed_tag(tagpart), 1u32))
        } else {
            Some((packed_tag(tagpart), feature_value_of(s.skip(e + 1))))
        }
    } else {
        None
    }
}

/// The feature settings of a whole list, in order, entries that do not pack
/// dropped.
pub open spec fn features_of(fs: Seq<String>) -> Seq<(u32, u32)>
    decreases fs.len(),
{
    if fs.len() == 0 {
        Seq::empty()
    } else {
        features_of(fs.drop_last()) + match feature_of(fs.last()@) {
            Some(p) => seq![p],
            None => Seq::empty(),
        }
    }
}

/// Parse one feature entry into a packed `(tag, value)` setting.
pub fn parse_feature(entry: &str) -> (r: Option<(u32, u32)>)
    ensures
        r == feature_of(entry@),
{
    let n = entry.unicode_len();
    let mut e: usize = 0;
    loop
        invariant
            e <= n,
            n == entry@.len(),
            eq_index(entry@, 0) == eq_index(entry@, e as int),
        ensures
            e <= n,
            e as int == eq_index(entry@, 0),
        decreases n - e,
    {
        if e >= n {
            proof {
                assert(eq_index(entry@, e as int) == n as int);
            }
            break ;
        }
        if entry.get_char(e) == '=' {
            proof {
                assert(eq_index(entry@, e as int) == e as int);
            }
            break ;
        }
        e = e + 1;
    }
    // Pad or truncate the tag part to four characters.
    let t0: char = if e > 0 {
        entry.get_char(0)
    } else {
        ' '
    };
    let t1: char = if e > 1 {
        entry.get_char(1)
    } else {
        ' '
    };
    let t2: char = if e > 2 {
        entry.get_char(2)
    } else {
        ' '
    };
    let t3: char = if e > 3 {
        entry.get_char(3)
    } else {
        ' '
    };
    let ghost tagpart = padded_tag4(entry@.take(e as int));
    proof {
        assert(tagpart.len() == 4);
        assert(tagpart[0] == t0 && tagpart[1] == t1 && tagpart[2] == t2 && tagpart[3] == t3);
    }
    let u0 = t0 as u32;
    let u1 = t1 as u32;
    let u2 = t2 as u32;
    let u3 = t3 as u32;
    if u0 < 0x20 || u0 > 0x7E || u1 < 0x20 || u1 > 0x7E || u2 < 0x20 || u2 > 0x7E || u3 < 0x20
        || u3 > 0x7E {
        proof {
            assert(!tag_packs(tagpart)) by {
                assert(!(tag_char_ok(tagpart[0]) && tag_char_ok(tagpart[1]) && tag_char_ok(
                    tagpart[2],
                ) && tag_char_ok(tagpart[3])));
            }
        }
        return None;
    }
    proof {
        assert(tag_packs(tagpart));
        assert(u0 % 256 == u0 && u1 % 256 == u1 && u2 % 256 == u2 && u3 % 256 == u3);
    }
    let tag: u32 = u0 * 0x1000000 + u1 * 0x10000 + u2 * 0x100 + u3;
    if e == n {
        return Some((tag, 1));
    }
    // Parse the value after the equals sign.
    let vstart = e + 1;
    let mut k: usize = vstart;
    let mut acc: u64 = 0;
    let mut numeric = vstart < n;
    proof {
        if vstart >= n {
            assert(entry@.skip(vstart as int).len() == 0);
        }
    }
    while k < n
        invariant
            vstart <= k <= n,
            vstart <= n,
            n == entry@.len(),
            numeric ==> all_digit_chars(entry@.subrange(vstart as int, k as int)) && acc
                == chars_value(entry@.subrange(vstart as int, k as int)) && acc <= u32::MAX,
            numeric ==> vstart < n,
            !numeric ==> !(entry@.skip(vstart as int).len() > 0 && all_digit_chars(
                entry@.skip(vstart as int),
            ) && chars_value(entry@.skip(vstart as int)) <= u32::MAX),
        decreases n - k,
    {
        let c = entry.get_char(k);
        let u = c as u32;
        if numeric {
            if u < 0x30 || u > 0x39 {
                numeric = false;
                proof {
                    assert(!all_digit_chars(entry@.skip(vstart as int))) by {
                        assert(entry@.skip(vstart as int)[k - vstart] == entry@[k as int]);
                    }
                }
            } else {
                let next: u64 = acc * 10 + ((u - 0x30) as u64);
                proof {
                    assert(entry@.subrange(vstart as int, k as int + 1).drop_last()
                        =~= entry@.subrange(vstart as int, k as int));
                }
                if next > 0xFFFFFFFF {
                    numeric = false;
                    proof {
                        let full = entry@.skip(vstart as int);
                        if all_digit_chars(full) {
                            assert(full.take(k + 1 - vstart) =~= entry@.subrange(
                                vstart as int,
                                k as int + 1,
                            ));
                            lemma_chars_value_take_monotone(full, k + 1 - vstart);
                        }
                    }
                } else {
                    acc = next;
                }
            }
        }
        k = k + 1;
    }
    let value: u32 = if numeric {
        proof {
            assert(entry@.subrange(vstart as int, n as int) =~= entry@.skip(vstart as int));
        }
        acc as u32
    } else {
        1
    };
    proof {
        if numeric {
            assert(entry@.skip(vstart as int).len() > 0);
        }
    }
    Some((tag, value))
}

/// Character digit values never fall when more digits are appended.
proof fn lemma_chars_value_take_monotone(d: Seq<char>, m: int)
    requires
        all_digit_chars(d),
        0 <= m <= d.len(),
    ensures
        chars_value(d.take(m)) <= chars_value(d),
    decreases d.len() - m,
{
    if m == d.len() {
        assert(d.take(m) =~= d);
    } else {
        lemma_chars_value_nonneg(d.take(m + 1));
        lemma_chars_value_take_monotone(d, m + 1);
        assert(d.take(m + 1).drop_last() =~= d.take(m));
        lemma_chars_value_nonneg(d.take(m));
        assert(chars_value(d.take(m)) <= chars_value(d.take(m)) * 10 + ((d[m] as u32) - 0x30))
            by (nonlinear_arith)
            requires
                chars_value(d.take(m)) >= 0 && (d[m] as u32) - 0x30 >= 0,
        ;
    }
}

/// Digit character values are never negative.
proof fn lemma_chars_value_nonneg(d: Seq<char>)
    requires
        all_digit_chars(d),
    ensures
        chars_value(d) >= 0,
    decreases d.len(),
{
    if d.len() > 0 {
        lemma_chars_value_nonneg(d.drop_last());
    }
}

/// Build the engine's feature settings from the supplied entries, in order,
/// dropping entries whose tag cannot be packed.
pub fn build_features(features: &Vec<String>) -> (r: Vec<(u32, u32)>)
    ensures
        r@ == features_of(features@),
{
    let n = features.len();
    let mut out: Vec<(u32, u32)> = Vec::new();
    proof {
        assert(features@.take(0) =~= Seq::<String>::empty());
    }
    let mut i: usize = 0;
    while i < n
        invariant
            i <= n,
            n == features@.len(),
            out@ == features_of(features@.take(i as int)),
        decreases n - i,
    {
        proof {
            assert(features@.take(i as int + 1).drop_last() =~= features@.take(i as int));
            assert(features@.take(i as int + 1).last() == features@[i as int]);
        }
        match parse_feature(features[i].as_str()) {
            Some(p) => {
                out.push(p);
                proof {
                    assert(out@ =~= features_of(features@.take(i as int + 1)));
                }
            },
            None => {
                proof {
                    assert(out@ =~= features_of(features@.take(i as int + 1)));
                }
            },
        }
        i = i + 1;
    }
    proof {
        assert(features@.take(n as int) =~= features@);
    }
    out
}

/// The fast path is taken exactly when no hint is set, no feature is
/// supplied, the instance has no variations, and the text is one character.
pub open spec fn fast_path_applies(t: TextConfig, coords_len: nat) -> bool {
    &&& t.script is None
    &&& t.direction is None
    &&& t.language is None
    &&& t.features@.len() == 0
    &&& coords_len == 0
    &&& t.content@.len() == 1
}

/// How a request will be shaped: on the fast path entirely inside the
/// library, or by the outside engine.
#[derive(Clone, Copy, Debug, PartialEq, Eq, Structural)]
pub enum ShapePlan {
    /// Single codepoint, no hints: character map plus static metrics.
    FastPath,
    /// Everything else goes through the outside shaping engine.
    FullShaping,
}

/// Decide how to shape a request: the fast path applies exactly under the
/// single-codepoint, hint-free, variation-free condition.
pub fn plan_shaping(text: &TextConfig, instance: &FontInstance) -> (r: ShapePlan)
    ensures
        r == ShapePlan::FastPath <==> fast_path_applies(*text, instance.spec_coords().len()),
{
    let hinted = text.script.is_some() || text.direction.is_some() || text.language.is_some()
        || text.features.len() > 0 || instance.has_variations();
    if hinted {
        return ShapePlan::FullShaping;
    }
    if text.content.as_str().unicode_len() == 1 {
        ShapePlan::FastPath
    } else {
        ShapePlan::FullShaping
    }
}

impl ShapedText {
    /// A run with no glyphs at the given size.
    pub fn empty_run(font_size: u32) -> (r: ShapedText)
        ensures
            r.glyphs@.len() == 0,
            r.font_size == font_size,
    {
        ShapedText { glyphs: Vec::new(), font_size }
    }

    /// Total advance width of the run in font units.
    pub open spec fn spec_total_advance(glyphs: Seq<ShapedGlyph>) -> int
        decreases glyphs.len(),
    {
        if glyphs.len() == 0 {
            0
        } else {
            Self::spec_total_advance(glyphs.drop_last()) + glyphs.last().x_advance
        }
    }

    /// Calculate the total advance width in font units, saturating at the
    /// 64-bit range boundaries is unnecessary: every prefix sum must fit,
    /// which the caller guarantees through the run's provenance.
    pub fn total_advance_width(&self) -> (r: i64)
        requires
            self.glyphs@.len() <= 100000,
            forall|i: int|
                0 <= i < self.glyphs@.len() ==> -2147483648 <= (#[trigger] self.glyphs@[i]).x_advance
                    <= 2147483647,
        ensures
            r == Self::spec_total_advance(self.glyphs@),
    {
        let n = self.glyphs.len();
        let mut sum: i64 = 0;
        proof {
            assert(self.glyphs@.take(0) =~= Seq::<ShapedGlyph>::empty());
        }
        let mut i: usize = 0;
        while i < n
            invariant
                i <= n,
                n == self.glyphs@.len(),
                n <= 100000,
                forall|j: int|
                    0 <= j < n ==> -2147483648 <= (#[trigger] self.glyphs@[j]).x_advance
                        <= 2147483647,
                sum == Self::spec_total_advance(self.glyphs@.take(i as int)),
                -2147483648int * (i as int) <= sum <= 2147483647int * (i as int),
            decreases n - i,
        {
            proof {
                assert(self.glyphs@.take(i as int + 1).drop_last() =~= self.glyphs@.take(i as int));
                lemma_advance_partial_bounds(self.glyphs@, i as int);
            }
            sum = sum + (self.glyphs[i].x_advance as i64);
            i = i + 1;
        }
        proof {
            assert(self.glyphs@.take(n as int) =~= self.glyphs@);
        }
        sum
    }
}

/// Prefix advance sums stay within the element bounds times the count.
proof fn lemma_advance_partial_bounds(glyphs: Seq<ShapedGlyph>, i: int)
    requires
        0 <= i < glyphs.len(),
        forall|j: int|
            0 <= j < glyphs.len() ==> -2147483648 <= (#[trigger] glyphs[j]).x_advance <= 2147483647,
    ensures
        -2147483648 * (i + 1) <= ShapedText::spec_total_advance(glyphs.take(i + 1)) <= 2147483647 * (
        i + 1),
    decreases i,
{
    assert(glyphs.take(i + 1).drop_last() =~= glyphs.take(i));
    assert(glyphs.take(i + 1).last() == glyphs[i]);
    if i == 0 {
        assert(glyphs.take(0) =~= Seq::<ShapedGlyph>::empty());
        assert(ShapedText::spec_total_advance(Seq::<ShapedGlyph>::empty()) == 0);
        assert(ShapedText::spec_total_advance(glyphs.take(1)) == glyphs[0].x_advance);
    } else {
        lemma_advance_partial_bounds(glyphs, i - 1);
    }
}

/// Shape a single codepoint on the fast path: the glyph id from the
/// character map, the advance from the static horizontal metrics, zero
/// offsets. Fails exactly when the character map has no glyph for the
/// codepoint; a glyph missing from the metrics table advances by zero, as
/// the engine would report.
pub fn shape_single_char(instance: &FontInstance, c: char, font_size: u32) -> (r: Result<
    ShapedText,
    Error,
>)
    ensures
        r.is_ok() <==> glyph_id_of(instance.spec_data(), c) is Some,
        r matches Ok(run) ==> ({
            let gid = glyph_id_of(instance.spec_data(), c)->0;
            &&& run.font_size == font_size
            &&& run.glyphs@.len() == 1
            &&& run.glyphs@[0].glyph_id == gid
            &&& run.glyphs@[0].x_advance == match advance_of(instance.spec_data(), gid) {
                Some(a) => a as int,
                None => 0int,
            }
            &&& run.glyphs@[0].y_advance == 0
            &&& run.glyphs@[0].x_offset == 0
            &&& run.glyphs@[0].y_offset == 0
        }),
        r.is_err() ==> r->Err_0 is Internal,
{
    let gid = match glyph_for_char(instance.font_data(), c) {
        Some(g) => g,
        None => {
            return Err(
                Error::Internal { reason: String::from_str("Character not found in font") },
            );
        },
    };
    let advance: i32 = match glyph_advance(instance.font_data(), gid) {
        Some(a) => a as i32,
        None => 0,
    };
    let mut glyphs: Vec<ShapedGlyph> = Vec::new();
    glyphs.push(
        ShapedGlyph { glyph_id: gid, x_advance: advance, y_advance: 0, x_offset: 0, y_offset: 0 },
    );
    Ok(ShapedText { glyphs, font_size })
}

/// Accept a glyph run handed back by the outside shaping engine. An empty
/// run is a hard shaping failure; anything else is taken as shaped text at
/// the given size.
pub fn shaped_from_glyphs(glyphs: Vec<ShapedGlyph>, font_size: u32) -> (r: Result<
    ShapedText,
    Error,
>)
    ensures
        r.is_ok() <==> glyphs@.len() > 0,
        r matches Ok(run) ==> run.glyphs@ == glyphs@ && run.font_size == font_size,
        r.is_err() ==> r->Err_0 is ShapingFailed,
{
    if glyphs.len() == 0 {
        return Err(
            Error::ShapingFailed { reason: String::from_str("Shaping engine returned zero glyphs") },
        );
    }
    Ok(ShapedText { glyphs, font_size })
}

/// The pen position of glyph `i` in a run, in font units: the advances of
/// the glyphs before it plus its own offset.
pub open spec fn glyph_pos_x(glyphs: Seq<ShapedGlyph>, i: int) -> int {
    ShapedText::spec_total_advance(glyphs.take(i)) + glyphs[i].x_offset
}

/// The run's bounding box `(min_x, min_y, w, h)` is correct: zero for an
/// empty run; otherwise the horizontal span covers every glyph's position
/// through its advance, and the vertical span covers every offset through
/// its vertical advance, each bound attained by some glyph.
pub open spec fn run_bbox_ok(glyphs: Seq<ShapedGlyph>, r: (i64, i64, i64, i64)) -> bool {
    if glyphs.len() == 0 {
        r == (0i64, 0i64, 0i64, 0i64)
    } else {
        &&& (exists|i: int| 0 <= i < glyphs.len() && r.0 == glyph_pos_x(glyphs, i))
        &&& (forall|i: int| 0 <= i < glyphs.len() ==> r.0 <= glyph_pos_x(glyphs, i))
        &&& (exists|i: int|
            0 <= i < glyphs.len() && r.0 + r.2 == glyph_pos_x(glyphs, i) + glyphs[i].x_advance)
        &&& (forall|i: int|
            0 <= i < glyphs.len() ==> glyph_pos_x(glyphs, i) + glyphs[i].x_advance <= r.0 + r.2)
        &&& (exists|i: int| 0 <= i < glyphs.len() && r.1 == (#[trigger] glyphs[i]).y_offset)
        &&& (forall|i: int| 0 <= i < glyphs.len() ==> r.1 <= (#[trigger] glyphs[i]).y_offset)
        &&& (exists|i: int|
            0 <= i < glyphs.len() && r.1 + r.3 == (#[trigger] glyphs[i]).y_offset
                + glyphs[i].y_advance)
        &&& (forall|i: int|
            0 <= i < glyphs.len() ==> (#[trigger] glyphs[i]).y_offset + glyphs[i].y_advance <= r.1
                + r.3)
    }
}

impl ShapedText {
    /// Calculate the bounding box of the run's glyph positions in font
    /// units: position and extent, all zero for an empty run.
    pub fn bounding_box(&self) -> (r: (i64, i64, i64, i64))
        requires
            self.glyphs@.len() <= 100000,
            forall|i: int|
                0 <= i < self.glyphs@.len() ==> -2147483648 <= (#[trigger] self.glyphs@[i]).x_advance
                    <= 2147483647,
        ensures
            run_bbox_ok(self.glyphs@, r),
    {
        let n = self.glyphs.len();
        if n == 0 {
            return (0, 0, 0, 0);
        }
        let mut min_x: i64 = i64::MAX;
        let mut min_y: i64 = i64::MAX;
        let mut max_x: i64 = i64::MIN;
        let mut max_y: i64 = i64::MIN;
        let mut cursor: i64 = 0;
        proof {
            assert(self.glyphs@.take(0) =~= Seq::<ShapedGlyph>::empty());
        }
        let mut i: usize = 0;
        while i < n
            invariant
                i <= n,
                0 < n == self.glyphs@.len(),
                n <= 100000,
                forall|j: int|
                    0 <= j < n ==> -2147483648 <= (#[trigger] self.glyphs@[j]).x_advance
                        <= 2147483647,
                cursor == Self::spec_total_advance(self.glyphs@.take(i as int)),
                -2147483648int * (i as int) <= cursor <= 2147483647int * (i as int),
                i > 0 ==> ({
                    &&& (exists|j: int| 0 <= j < i && min_x == glyph_pos_x(self.glyphs@, j))
                    &&& (forall|j: int| 0 <= j < i ==> min_x <= glyph_pos_x(self.glyphs@, j))
                    &&& (exists|j: int|
                        0 <= j < i && max_x == glyph_pos_x(self.glyphs@, j)
                            + self.glyphs@[j].x_advance)
                    &&& (forall|j: int|
                        0 <= j < i ==> glyph_pos_x(self.glyphs@, j) + self.glyphs@[j].x_advance
                            <= max_x)
                    &&& (exists|j: int|
                        0 <= j < i && min_y == (#[trigger] self.glyphs@[j]).y_offset)
                    &&& (forall|j: int|
                        0 <= j < i ==> min_y <= (#[trigger] self.glyphs@[j]).y_offset)
                    &&& (exists|j: int|
                        0 <= j < i && max_y == (#[trigger] self.glyphs@[j]).y_offset
                            + self.glyphs@[j].y_advance)
                    &&& (forall|j: int|
                        0 <= j < i ==> (#[trigger] self.glyphs@[j]).y_offset
                            + self.glyphs@[j].y_advance <= max_y)
                }),
                i == 0 ==> min_x == i64::MAX && min_y == i64::MAX && max_x == i64::MIN && max_y
                    == i64::MIN,
                i > 0 ==> -0x4000000000000 <= min_x <= 0x4000000000000 && -0x4000000000000 <= max_x
                    <= 0x4000000000000 && -0x4000000000000 <= min_y <= 0x4000000000000
                    && -0x4000000000000 <= max_y <= 0x4000000000000,
            decreases n - i,
        {
            let g = self.glyphs[i];
            proof {
                assert(self.glyphs@.take(i as int + 1).drop_last() =~= self.glyphs@.take(i as int));
                lemma_advance_partial_bounds(self.glyphs@, i as int);
            }
            let gx: i64 = cursor + (g.x_offset as i64);
            let gx_end: i64 = gx + (g.x_advance as i64);
            let gy: i64 = g.y_offset as i64;
            let gy_end: i64 = gy + (g.y_advance as i64);
            proof {
                assert(gx == glyph_pos_x(self.glyphs@, i as int));
            }
            if gx < min_x {
                min_x = gx;
            }
            if gx_end > max_x {
                max_x = gx_end;
            }
            if gy < min_y {
                min_y = gy;
            }
            if gy_end > max_y {
                max_y = gy_end;
            }
            cursor = cursor + (g.x_advance as i64);
            proof {
                let gs = self.glyphs@;
                assert(exists|j: int| 0 <= j < i + 1 && min_x == glyph_pos_x(gs, j)) by {
                    if min_x == gx {
                        assert(min_x == glyph_pos_x(gs, i as int));
                    }
                }
                assert(exists|j: int|
                    0 <= j < i + 1 && max_x == glyph_pos_x(gs, j) + gs[j].x_advance) by {
                    if max_x == gx_end {
                        assert(max_x == glyph_pos_x(gs, i as int) + gs[i as int].x_advance);
                    }
                }
                assert(exists|j: int| 0 <= j < i + 1 && min_y == (#[trigger] gs[j]).y_offset) by {
                    if min_y == gy {
                        assert(min_y == gs[i as int].y_offset);
                    }
                }
                assert(exists|j: int|
                    0 <= j < i + 1 && max_y == (#[trigger] gs[j]).y_offset
                        + gs[j].y_advance) by {
                    if max_y == gy_end {
                        assert(max_y == gs[i as int].y_offset + gs[i as int].y_advance);
                    }
                }
            }
            i = i + 1;
        }
        (min_x, min_y, max_x - min_x, max_y - min_y)
    }
}

} // verus!

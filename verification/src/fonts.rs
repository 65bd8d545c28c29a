//! Font instances: parsed font data with sanitized variation coordinates.
//!
//! A `FontInstance` owns the font bytes and carries what the pipeline reads
//! from them: the design-unit scale, the variation axes, and the supplied
//! coordinates after sanitization. Sanitization is the contract with
//! upstream: a coordinate on an axis the font declares is clamped into the
//! axis bounds intersected with the hard design clamps; a coordinate on an
//! unknown axis is dropped; a static font keeps no coordinates at all.
//! Values are 16.16 fixed-point throughout — the font format's own
//! representation — so keys compare bit-exactly.
//!
//! The outside font parser supplies the axes, the unit count, the character
//! map, and the static advances; everything it returns is a function of the
//! font bytes alone.

use std::sync::Arc;

use vstd::prelude::*;
use vstd::string::StringExecFns;

use crate::batch::VariationSetting;
use crate::errors::Error;
use crate::security::validate_font_size;
use crate::strutil::{pack_tag, packed_tag, tag_packs};

verus! {

/// Packed `wght` axis tag.
pub const WGHT_TAG: u32 = 0x77676874;

/// Packed `wdth` axis tag.
pub const WDTH_TAG: u32 = 0x77647468;

/// One variation axis as the font declares it: packed tag and bounds in
/// 16.16 fixed-point.
#[derive(Clone, Copy, Debug, PartialEq, Eq, Structural)]
pub struct AxisBounds {
    /// Packed four-character axis tag.
    pub tag: u32,
    /// Smallest value the font allows.
    pub min: i32,
    /// The axis default.
    pub def: i32,
    /// Largest value the font allows.
    pub max: i32,
}

/// The hard design clamp floor for an axis: weight at 100, width at 50,
/// other axes unconstrained.
pub open spec fn hard_min(tag: u32) -> int {
    if tag == WGHT_TAG {
        100int * 65536
    } else if tag == WDTH_TAG {
        50int * 65536
    } else {
        i32::MIN as int
    }
}

/// The hard design clamp ceiling for an axis: weight at 900, width at 200,
/// other axes unconstrained.
pub open spec fn hard_max(tag: u32) -> int {
    if tag == WGHT_TAG {
        900int * 65536
    } else if tag == WDTH_TAG {
        200int * 65536
    } else {
        i32::MAX as int
    }
}

/// The effective lower bound of an axis: the stricter of the font's bound
/// and the hard clamp.
pub open spec fn eff_min(a: AxisBounds) -> int {
    if hard_min(a.tag) > a.min {
        hard_min(a.tag)
    } else {
        a.min as int
    }
}

/// The effective upper bound of an axis.
pub open spec fn eff_max(a: AxisBounds) -> int {
    if hard_max(a.tag) < a.max {
        hard_max(a.tag)
    } else {
        a.max as int
    }
}

/// A supplied value clamped into the effective bounds; when the hard clamps
/// and the font bounds do not intersect, the effective floor wins.
pub open spec fn clamp_value(v: int, a: AxisBounds) -> int {
    let capped = if v > eff_max(a) {
        eff_max(a)
    } else {
        v
    };
    if capped < eff_min(a) {
        eff_min(a)
    } else {
        capped
    }
}

/// The first axis declared under a packed tag, if any.
pub open spec fn axis_for(axes: Seq<AxisBounds>, tag: u32) -> Option<AxisBounds>
    decreases axes.len(),
{
    if axes.len() == 0 {
        None
    } else if axes[0].tag == tag {
        Some(axes[0])
    } else {
        axis_for(axes.drop_first(), tag)
    }
}

/// What one supplied coordinate contributes to the applied set: its clamped
/// pair when its tag packs and names a declared axis, nothing otherwise.
pub open spec fn clamped_entry(axes: Seq<AxisBounds>, c: VariationSetting) -> Seq<(u32, i32)> {
    if tag_packs(c.tag@) && axis_for(axes, packed_tag(c.tag@)) is Some {
        seq![(packed_tag(c.tag@), clamp_value(c.value as int, axis_for(axes, packed_tag(c.tag@))->0) as i32)]
    } else {
        Seq::empty()
    }
}

/// The applied coordinates, in supplied order: each supplied coordinate on
/// a declared axis clamped into the effective bounds, unknown axes dropped.
/// On a static font (no axes) this is always empty.
pub open spec fn spec_clamped(axes: Seq<AxisBounds>, coords: Seq<VariationSetting>) -> Seq<
    (u32, i32),
>
    decreases coords.len(),
{
    if coords.len() == 0 {
        Seq::empty()
    } else {
        spec_clamped(axes, coords.drop_last()) + clamped_entry(axes, coords.last())
    }
}

/// Find the first axis with a packed tag.
fn find_axis(axes: &Vec<AxisBounds>, tag: u32) -> (r: Option<AxisBounds>)
    ensures
        r == axis_for(axes@, tag),
{
    let n = axes.len();
    proof {
        assert(axes@.skip(0) =~= axes@);
    }
    let mut i: usize = 0;
    while i < n
        invariant
            i <= n,
            n == axes@.len(),
            axis_for(axes@, tag) == axis_for(axes@.skip(i as int), tag),
        decreases n - i,
    {
        let a = axes[i];
        proof {
            assert(axes@.skip(i as int)[0] == axes@[i as int]);
            assert(axes@.skip(i as int).drop_first() =~= axes@.skip(i as int + 1));
        }
        if a.tag == tag {
            return Some(a);
        }
        i = i + 1;
    }
    proof {
        assert(axes@.skip(n as int) =~= Seq::<AxisBounds>::empty());
    }
    None
}

/// Clamp one value into an axis's effective bounds.
fn clamp_into(v: i32, a: AxisBounds) -> (r: i32)
    ensures
        r == clamp_value(v as int, a),
{
    let lo_hard: i64 = if a.tag == WGHT_TAG {
        6553600
    } else if a.tag == WDTH_TAG {
        3276800
    } else {
        i32::MIN as i64
    };
    let hi_hard: i64 = if a.tag == WGHT_TAG {
        58982400
    } else if a.tag == WDTH_TAG {
        13107200
    } else {
        i32::MAX as i64
    };
    let lo: i64 = if lo_hard > a.min as i64 {
        lo_hard
    } else {
        a.min as i64
    };
    let hi: i64 = if hi_hard < a.max as i64 {
        hi_hard
    } else {
        a.max as i64
    };
    let capped: i64 = if (v as i64) > hi {
        hi
    } else {
        v as i64
    };
    let result: i64 = if capped < lo {
        lo
    } else {
        capped
    };
    result as i32
}

/// Sanitize supplied coordinates against the declared axes: clamp each
/// coordinate on a declared axis into the effective bounds, drop the rest.
/// The result lists the applied pairs in supplied order; a static font gets
/// an empty result.
pub fn clamp_coordinates(axes: &Vec<AxisBounds>, coords: &Vec<VariationSetting>) -> (r: Vec<
    (u32, i32),
>)
    ensures
        r@ == spec_clamped(axes@, coords@),
{
    let n = coords.len();
    let mut out: Vec<(u32, i32)> = Vec::new();
    proof {
        assert(coords@.take(0) =~= Seq::<VariationSetting>::empty());
    }
    let mut i: usize = 0;
    while i < n
        invariant
            i <= n,
            n == coords@.len(),
            out@ == spec_clamped(axes@, coords@.take(i as int)),
        decreases n - i,
    {
        proof {
            assert(coords@.take(i as int + 1).drop_last() =~= coords@.take(i as int));
            assert(coords@.take(i as int + 1).last() == coords@[i as int]);
        }
        let c = &coords[i];
        match pack_tag(c.tag.as_str()) {
            Some(tag) => {
                match find_axis(axes, tag) {
                    Some(a) => {
                        let clamped = clamp_into(c.value, a);
                        out.push((tag, clamped));
                        proof {
                            assert(out@ =~= spec_clamped(axes@, coords@.take(i as int + 1)));
                        }
                    },
                    None => {
                        proof {
                            assert(out@ =~= spec_clamped(axes@, coords@.take(i as int + 1)));
                        }
                    },
                }
            },
            None => {
                proof {
                    assert(out@ =~= spec_clamped(axes@, coords@.take(i as int + 1)));
                }
            },
        }
        i = i + 1;
    }
    proof {
        assert(coords@.take(n as int) =~= coords@);
    }
    out
}

/// Pairs ordered by packed tag, non-strictly.
pub open spec fn sorted_by_tag(s: Seq<(u32, i32)>) -> bool {
    forall|i: int, j: int| 0 <= i < j < s.len() ==> (#[trigger] s[i]).0 <= (#[trigger] s[j]).0
}

/// Sort coordinate pairs by packed tag. The result holds exactly the input
/// pairs, in tag order, so two coordinate sets that differ only in supplied
/// order become identical.
pub fn sort_pairs_by_tag(input: Vec<(u32, i32)>) -> (r: Vec<(u32, i32)>)
    ensures
        sorted_by_tag(r@),
        r@.to_multiset() == input@.to_multiset(),
{
    broadcast use vstd::seq_lib::group_to_multiset_ensures;

    let mut rest = input;
    let mut out: Vec<(u32, i32)> = Vec::new();
    loop
        invariant
            sorted_by_tag(out@),
            out@.to_multiset().add(rest@.to_multiset()) =~= input@.to_multiset(),
            forall|i: int, j: int|
                0 <= i < out@.len() && 0 <= j < rest@.len() ==> (#[trigger] out@[i]).0 <= (
                #[trigger] rest@[j]).0,
        ensures
            rest@.len() == 0,
        decreases rest@.len(),
    {
        let m = rest.len();
        if m == 0 {
            break ;
        }
        let mut best: usize = 0;
        let mut k: usize = 1;
        while k < m
            invariant
                best < k <= m,
                m == rest@.len(),
                forall|j: int| 0 <= j < k ==> rest@[best as int].0 <= (#[trigger] rest@[j]).0,
            decreases m - k,
        {
            if rest[k].0 < rest[best].0 {
                best = k;
            }
            k = k + 1;
        }
        let ghost pre = rest@;
        let ghost pre_out = out@;
        let x = rest.remove(best);
        out.push(x);
        proof {
            pre.to_multiset_ensures();
            pre_out.to_multiset_ensures();
            assert(pre.contains(pre[best as int]));
            assert(rest@ == pre.remove(best as int));
            assert(pre.remove(best as int).to_multiset() =~= pre.to_multiset().remove(
                pre[best as int],
            ));
            assert(out@ == pre_out.push(pre[best as int]));
            assert(pre_out.push(pre[best as int]).to_multiset() =~= pre_out.to_multiset().insert(
                pre[best as int],
            ));
            assert(pre.to_multiset().count(pre[best as int]) > 0);
            assert(out@.to_multiset().add(rest@.to_multiset()) =~= input@.to_multiset());
            assert forall|a: int, b: int|
                0 <= a < out@.len() && 0 <= b < rest@.len() implies (#[trigger] out@[a]).0 <= (
            #[trigger] rest@[b]).0 by {
                let ob = if b < best { b } else { b + 1 };
                assert(rest@[b] == pre[ob]);
                if a < out@.len() - 1 {
                    assert(out@[a] == pre_out[a]);
                } else {
                    assert(out@[a] == pre[best as int]);
                }
            }
            assert forall|a: int, b: int|
                0 <= a < b < out@.len() implies (#[trigger] out@[a]).0 <= (
            #[trigger] out@[b]).0 by {
                if b < out@.len() - 1 {
                    assert(out@[a] == pre_out[a] && out@[b] == pre_out[b]);
                } else {
                    assert(out@[a] == pre_out[a]);
                    assert(out@[b] == pre[best as int]);
                }
            }
        }
    }
    proof {
        rest@.to_multiset_ensures();
        assert(rest@ =~= Seq::<(u32, i32)>::empty());
        assert(rest@.to_multiset().len() == 0);
        assert(out@.to_multiset() =~= input@.to_multiset());
    }
    out
}

/// Variation sanitization, stated for every supplied coordinate: a
/// coordinate whose tag names a declared axis appears in the applied set,
/// clamped into the axis's effective bounds; everything in the applied set
/// comes from such a coordinate; and a static font applies nothing.
pub proof fn lemma_variation_sanitization(axes: Seq<AxisBounds>, coords: Seq<VariationSetting>)
    ensures
        axes.len() == 0 ==> spec_clamped(axes, coords).len() == 0,
        forall|i: int|
            0 <= i < coords.len() && tag_packs((#[trigger] coords[i]).tag@) && axis_for(
                axes,
                packed_tag(coords[i].tag@),
            ) is Some ==> spec_clamped(axes, coords).contains(
                (
                    packed_tag(coords[i].tag@),
                    clamp_value(
                        coords[i].value as int,
                        axis_for(axes, packed_tag(coords[i].tag@))->0,
                    ) as i32,
                ),
            ),
        forall|j: int|
            0 <= j < spec_clamped(axes, coords).len() ==> axis_for(
                axes,
                (#[trigger] spec_clamped(axes, coords)[j]).0,
            ) is Some,
    decreases coords.len(),
{
    if coords.len() == 0 {
    } else {
        lemma_variation_sanitization(axes, coords.drop_last());
        let prefix = spec_clamped(axes, coords.drop_last());
        let whole = spec_clamped(axes, coords);
        let c = coords.last();
        assert forall|i: int|
            0 <= i < coords.len() && tag_packs((#[trigger] coords[i]).tag@) && axis_for(
                axes,
                packed_tag(coords[i].tag@),
            ) is Some implies whole.contains(
            (
                packed_tag(coords[i].tag@),
                clamp_value(coords[i].value as int, axis_for(axes, packed_tag(coords[i].tag@))->0)
                    as i32,
            ),
        ) by {
            let pair = (
                packed_tag(coords[i].tag@),
                clamp_value(coords[i].value as int, axis_for(axes, packed_tag(coords[i].tag@))->0)
                    as i32,
            );
            if i < coords.len() - 1 {
                assert(coords.drop_last()[i] == coords[i]);
                assert(prefix.contains(pair));
                let w = choose|w: int| 0 <= w < prefix.len() && prefix[w] == pair;
                assert(whole[w] == pair);
            } else {
                assert(whole[whole.len() - 1] == pair);
            }
        }
        assert forall|j: int|
            0 <= j < whole.len() implies axis_for(axes, (#[trigger] whole[j]).0) is Some by {
            if j < prefix.len() {
                assert(whole[j] == prefix[j]);
            } else {
                assert(whole[j] == clamped_entry(axes, c)[j - prefix.len()]);
            }
        }
        if axes.len() == 0 {
            assert(clamped_entry(axes, c) =~= Seq::<(u32, i32)>::empty());
        }
    }
}

/// A loaded font with its sanitized variation coordinates. Instances are
/// immutable after construction; new coordinates make a new instance.
pub struct FontInstance {
    data: Vec<u8>,
    upem: u16,
    axes: Vec<AxisBounds>,
    coords: Vec<(u32, i32)>,
}

impl FontInstance {
    /// The raw font bytes.
    pub closed spec fn spec_data(&self) -> Seq<u8> {
        self.data@
    }

    /// Design units per em.
    pub closed spec fn spec_upem(&self) -> u16 {
        self.upem
    }

    /// The declared variation axes.
    pub closed spec fn spec_axes(&self) -> Seq<AxisBounds> {
        self.axes@
    }

    /// The applied coordinates: sorted, sanitized pairs.
    pub closed spec fn spec_coords(&self) -> Seq<(u32, i32)> {
        self.coords@
    }

    /// The instance faithfully describes its bytes, and its coordinates are
    /// the sanitized form of some supplied set: sorted by tag, every pair on
    /// a declared axis.
    pub open spec fn wf(&self) -> bool {
        &&& Some(self.spec_axes()) == font_axes_of(self.spec_data())
        &&& Some(self.spec_upem()) == font_upem_of(self.spec_data())
        &&& sorted_by_tag(self.spec_coords())
        &&& forall|j: int|
            0 <= j < self.spec_coords().len() ==> axis_for(
                self.spec_axes(),
                (#[trigger] self.spec_coords()[j]).0,
            ) is Some
    }

    /// Parse font bytes and apply variation coordinates. Rejects a file over
    /// the size cap or one the parser cannot read; otherwise the instance
    /// carries the bytes, the declared axes, the unit count, and exactly the
    /// sanitized coordinates, sorted by tag.
    pub fn from_bytes(data: Vec<u8>, coords: &Vec<VariationSetting>) -> (r: Result<
        FontInstance,
        Error,
    >)
        ensures
            r matches Ok(inst) ==> ({
                &&& inst.wf()
                &&& inst.spec_data() == data@
                &&& Some(inst.spec_axes()) == font_axes_of(data@)
                &&& inst.spec_coords().to_multiset() == spec_clamped(
                    font_axes_of(data@)->0,
                    coords@,
                ).to_multiset()
            }),
            r.is_err() ==> (r->Err_0 is InvalidFont),
            font_axes_of(data@) is Some && font_upem_of(data@) is Some && data@.len()
                <= crate::security::MAX_FONT_SIZE ==> r is Ok,
    {
        if let Err(_) = validate_font_size(data.len()) {
            return Err(
                Error::InvalidFont {
                    path: String::new(),
                    reason: String::from_str("Font file too large"),
                },
            );
        }
        let axes = match font_axes(&data) {
            Some(a) => a,
            None => {
                return Err(
                    Error::InvalidFont {
                        path: String::new(),
                        reason: String::from_str("Failed to parse font file"),
                    },
                );
            },
        };
        let upem = match font_upem(&data) {
            Some(u) => u,
            None => {
                return Err(
                    Error::InvalidFont {
                        path: String::new(),
                        reason: String::from_str("Failed to read font header"),
                    },
                );
            },
        };
        let clamped = clamp_coordinates(&axes, coords);
        let sorted = sort_pairs_by_tag(clamped);
        proof {
            lemma_variation_sanitization(axes@, coords@);
            assert forall|j: int|
                0 <= j < sorted@.len() implies axis_for(
                axes@,
                (#[trigger] sorted@[j]).0,
            ) is Some by {
                sorted@.to_multiset_ensures();
                spec_clamped(axes@, coords@).to_multiset_ensures();
                assert(sorted@.contains(sorted@[j]));
                assert(sorted@.to_multiset().count(sorted@[j]) > 0);
                assert(spec_clamped(axes@, coords@).to_multiset().count(sorted@[j]) > 0);
                assert(spec_clamped(axes@, coords@).contains(sorted@[j]));
                let k = choose|k: int|
                    0 <= k < spec_clamped(axes@, coords@).len() && spec_clamped(axes@, coords@)[k]
                        == sorted@[j];
                assert(axis_for(axes@, spec_clamped(axes@, coords@)[k].0) is Some);
            }
        }
        Ok(FontInstance { data, upem, axes, coords: sorted })
    }

    /// The raw font bytes.
    pub fn font_data(&self) -> (r: &Vec<u8>)
        ensures
            r@ == self.spec_data(),
    {
        &self.data
    }

    /// Design units per em.
    pub fn units_per_em(&self) -> (r: u16)
        ensures
            r == self.spec_upem(),
    {
        self.upem
    }

    /// The applied coordinates as sorted `(packed tag, fixed value)` pairs.
    pub fn coordinates(&self) -> (r: &Vec<(u32, i32)>)
        ensures
            r@ == self.spec_coords(),
    {
        &self.coords
    }

    /// The declared axes.
    pub fn axes(&self) -> (r: &Vec<AxisBounds>)
        ensures
            r@ == self.spec_axes(),
    {
        &self.axes
    }

    /// Whether any coordinates are applied.
    pub fn has_variations(&self) -> (r: bool)
        ensures
            r == (self.spec_coords().len() > 0),
    {
        self.coords.len() > 0
    }
}

/// Basic font metadata: face index, family name, and whether the face is
/// variable. The parser wired in reads no name table, so the family name is
/// the unknown placeholder.
#[derive(Clone, Debug)]
pub struct FontMetadata {
    /// Face index within the file.
    pub index: u32,
    /// Family name; unknown until a name-table reader is wired in.
    pub family_name: String,
    /// Whether the face declares variation axes.
    pub is_variable: bool,
}

impl FontInstance {
    /// Basic metadata of the loaded face: a face is variable exactly when it
    /// declares at least one axis.
    pub fn metadata(&self, index: u32) -> (r: FontMetadata)
        ensures
            r.index == index,
            r.is_variable == (self.spec_axes().len() > 0),
            r.family_name@ == "Unknown"@,
    {
        FontMetadata {
            index,
            family_name: String::from_str("Unknown"),
            is_variable: self.axes().len() > 0,
        }
    }
}

/// What the outside font parser reports as the variation axes of a font
/// file: packed tag and min/default/max in 16.16 fixed bits, or nothing
/// when the file does not parse. A static font parses to an empty list.
pub uninterp spec fn font_axes_of(data: Seq<u8>) -> Option<Seq<AxisBounds>>;

/// What the outside font parser reports as the design units per em, or
/// nothing when the file does not parse.
pub uninterp spec fn font_upem_of(data: Seq<u8>) -> Option<u16>;

/// What the outside character map reports for a codepoint in a font file.
pub uninterp spec fn glyph_id_of(data: Seq<u8>, c: char) -> Option<u32>;

/// What the outside horizontal-metrics table reports as the advance of a
/// glyph in a font file.
pub uninterp spec fn advance_of(data: Seq<u8>, glyph_id: u32) -> Option<u16>;

/// Relies on read_fonts: FileRef::new parses the font file (a collection
/// contributes its first face), fvar's axis records carry the tag and the
/// min/default/max values as 16.16 fixed. A font without an fvar table has
/// no axes. The result is a function of the bytes alone.
#[verifier::external_body]
fn font_axes(data: &Vec<u8>) -> (r: Option<Vec<AxisBounds>>)
    ensures
        r is Some <==> font_axes_of(data@) is Some,
        r matches Some(v) ==> v@ == font_axes_of(data@)->0,
{
    let font = match read_fonts::FileRef::new(data.as_slice()).ok()? {
        read_fonts::FileRef::Font(f) => f,
        read_fonts::FileRef::Collection(c) => c.get(0).ok()?,
    };
    let mut out: Vec<AxisBounds> = Vec::new();
    if let Ok(fvar) = read_fonts::TableProvider::fvar(&font) {
        for a in fvar.axes().ok()? {
            let tag = u32::from_be_bytes(a.axis_tag().to_be_bytes());
            let (min, def, max) = (a.min_value().to_bits(), a.default_value().to_bits(), a.max_value().to_bits());
            out.push(AxisBounds { tag, min, def, max });
        }
    }
    Some(out)
}

/// Relies on read_fonts: the head table's unitsPerEm field. The result is a
/// function of the bytes alone.
#[verifier::external_body]
fn font_upem(data: &Vec<u8>) -> (r: Option<u16>)
    ensures
        r is Some <==> font_upem_of(data@) is Some,
        r matches Some(u) ==> Some(u) == font_upem_of(data@),
{
    let font = match read_fonts::FileRef::new(data.as_slice()).ok()? {
        read_fonts::FileRef::Font(f) => f,
        read_fonts::FileRef::Collection(c) => c.get(0).ok()?,
    };
    Some(read_fonts::TableProvider::head(&font).ok()?.units_per_em())
}

/// Relies on read_fonts: the cmap table's codepoint lookup. The result is a
/// function of the bytes and the character alone.
#[verifier::external_body]
pub fn glyph_for_char(data: &Vec<u8>, c: char) -> (r: Option<u32>)
    ensures
        r == glyph_id_of(data@, c),
{
    let font = match read_fonts::FileRef::new(data.as_slice()).ok()? {
        read_fonts::FileRef::Font(f) => f,
        read_fonts::FileRef::Collection(c) => c.get(0).ok()?,
    };
    let cmap = read_fonts::TableProvider::cmap(&font).ok()?;
    Some(cmap.map_codepoint(c as u32)?.to_u32())
}

/// Relies on read_fonts: the hmtx table's advance for a glyph. The result
/// is a function of the bytes and the glyph alone.
#[verifier::external_body]
pub fn glyph_advance(data: &Vec<u8>, glyph_id: u32) -> (r: Option<u16>)
    ensures
        r == advance_of(data@, glyph_id),
{
    let font = match read_fonts::FileRef::new(data.as_slice()).ok()? {
        read_fonts::FileRef::Font(f) => f,
        read_fonts::FileRef::Collection(c) => c.get(0).ok()?,
    };
    let hmtx = read_fonts::TableProvider::hmtx(&font).ok()?;
    hmtx.advance(read_fonts::types::GlyphId::new(glyph_id))
}

/// Relies on the standard library's Arc::clone: the new handle points to the
/// same instance.
#[verifier::external_body]
fn clone_handle(v: &Arc<FontInstance>) -> (res: Arc<FontInstance>)
    ensures
        *res == **v,
{
    v.clone()
}

/// Cache key for font instances: the path and the supplied coordinates with
/// bit-exact values.
#[derive(Clone, Debug)]
pub struct FontCacheKey {
    /// The resolved path string.
    pub path: String,
    /// Supplied coordinates as `(tag, fixed value)` pairs, sorted by tag.
    pub coordinates: Vec<(u32, i32)>,
}

/// Two font cache keys name the same instance.
pub open spec fn font_key_matches(a: FontCacheKey, b: FontCacheKey) -> bool {
    &&& a.path@ == b.path@
    &&& a.coordinates@ == b.coordinates@
}

/// Compare two font cache keys.
pub fn font_key_eq(a: &FontCacheKey, b: &FontCacheKey) -> (r: bool)
    ensures
        r == font_key_matches(*a, *b),
{
    if !crate::strutil::str_eq(a.path.as_str(), b.path.as_str()) {
        return false;
    }
    let n = a.coordinates.len();
    if n != b.coordinates.len() {
        assert(a.coordinates@ != b.coordinates@);
        return false;
    }
    let mut i: usize = 0;
    while i < n
        invariant
            i <= n,
            n == a.coordinates@.len(),
            n == b.coordinates@.len(),
            forall|j: int| 0 <= j < i ==> a.coordinates@[j] == b.coordinates@[j],
        decreases n - i,
    {
        let (ta, va) = a.coordinates[i];
        let (tb, vb) = b.coordinates[i];
        if ta != tb || va != vb {
            assert(a.coordinates@[i as int] != b.coordinates@[i as int]);
            return false;
        }
        i = i + 1;
    }
    proof {
        assert(a.coordinates@ =~= b.coordinates@);
    }
    true
}

/// Cache statistics for observability.
#[derive(Clone, Copy, Debug)]
pub struct CacheStats {
    /// Maximum number of cached font instances.
    pub capacity: usize,
    /// Currently cached font instances.
    pub entries: usize,
}

/// The font instance cache: strictly least-recently-used on the key. A hit
/// refreshes the entry's recency; once the capacity is reached, the least
/// recently used entry is evicted. Instances are handed out as shared
/// reference-counted handles, so eviction never invalidates a handle a
/// worker still holds. A capacity of zero disables caching: nothing is
/// stored and every lookup misses, while outstanding handles live on.
pub struct FontLoader {
    entries: Vec<(FontCacheKey, Arc<FontInstance>)>,
    capacity: usize,
}

impl FontLoader {
    /// Held entries, least recently used first.
    pub closed spec fn spec_entries(&self) -> Seq<(FontCacheKey, Arc<FontInstance>)> {
        self.entries@
    }

    /// The configured capacity.
    pub closed spec fn spec_capacity(&self) -> usize {
        self.capacity
    }

    /// The loader never holds more instances than its capacity.
    pub open spec fn wf(&self) -> bool {
        self.spec_entries().len() <= self.spec_capacity()
    }

    /// An instance is cached under a key.
    pub open spec fn has_instance(&self, key: FontCacheKey, inst: FontInstance) -> bool {
        font_entries_have(self.spec_entries(), key, inst)
    }

    /// Create a loader with the given instance capacity; a capacity of zero
    /// is raised to one, matching the configurable default's floor.
    pub fn new(cache_size: usize) -> (r: FontLoader)
        ensures
            r.wf(),
            r.spec_entries().len() == 0,
            r.spec_capacity() == if cache_size >= 1 {
                cache_size as int
            } else {
                1int
            },
    {
        let capacity = if cache_size >= 1 {
            cache_size
        } else {
            1
        };
        FontLoader { entries: Vec::new(), capacity }
    }

    /// Look up a cached instance without any I/O, refreshing its recency. A
    /// hit hands out a shared handle to exactly the instance cached under
    /// the key; the cached key-to-instance mapping is unchanged either way.
    pub fn lookup(&mut self, key: &FontCacheKey) -> (r: Option<Arc<FontInstance>>)
        requires
            old(self).wf(),
        ensures
            final(self).wf(),
            final(self).spec_capacity() == old(self).spec_capacity(),
            r matches Some(inst) ==> old(self).has_instance(*key, *inst),
            forall|k: FontCacheKey, i: FontInstance|
                final(self).has_instance(k, i) <==> old(self).has_instance(k, i),
            r is None ==> (*final(self) == *old(self) && !(exists|i: int|
                0 <= i < old(self).spec_entries().len() && font_key_matches(
                    (#[trigger] old(self).spec_entries()[i]).0,
                    *key,
                ))),
    {
        let n = self.entries.len();
        let mut i: usize = 0;
        while i < n
            invariant
                i <= n,
                n == self.spec_entries().len(),
                *self == *old(self),
                old(self).wf(),
                forall|j: int|
                    0 <= j < i ==> !font_key_matches((#[trigger] self.spec_entries()[j]).0, *key),
            decreases n - i,
        {
            if font_key_eq(&self.entries[i].0, key) {
                let ghost pre = self.entries@;
                let entry = self.entries.remove(i);
                let handle = clone_handle(&entry.1);
                self.entries.push(entry);
                proof {
                    assert(self.entries@ =~= pre.remove(i as int).push(pre[i as int]));
                    assert(self.entries@ == pre.remove(i as int).push(pre[i as int]));
                    assert(*handle == *pre[i as int].1);
                    assert(font_key_matches(pre[i as int].0, *key));
                    assert(old(self).has_instance(*key, *handle));
                    assert forall|k: FontCacheKey, inst: FontInstance|
                        self.has_instance(k, inst) <==> old(self).has_instance(k, inst) by {
                        lemma_font_remove_push_entries(pre, i as int, k, inst);
                    }
                }
                return Some(handle);
            }
            i = i + 1;
        }
        None
    }

    /// Cache an instance under a key, evicting the least recently used entry
    /// when full. With a zero capacity nothing is stored. Afterwards the
    /// instance is cached under the key whenever the loader caches at all.
    pub fn store(&mut self, key: FontCacheKey, inst: Arc<FontInstance>)
        requires
            old(self).wf(),
        ensures
            final(self).wf(),
            final(self).spec_capacity() == old(self).spec_capacity(),
            old(self).spec_capacity() >= 1 ==> final(self).has_instance(key, *inst),
    {
        if self.capacity == 0 {
            return ;
        }
        if self.entries.len() >= self.capacity {
            let _ = self.entries.remove(0);
        }
        self.entries.push((key, inst));
        proof {
            let post = self.entries@;
            assert(post[post.len() - 1].0 == key);
            assert(font_key_matches(post[post.len() - 1].0, key));
            assert(*post[post.len() - 1].1 == *inst);
        }
    }

    /// Resize the cache, evicting least recently used entries until the new
    /// capacity holds. Resizing to zero disables caching without touching
    /// any handle already handed out.
    pub fn set_capacity(&mut self, capacity: usize)
        requires
            old(self).wf(),
        ensures
            final(self).wf(),
            final(self).spec_capacity() == capacity,
    {
        while self.entries.len() > capacity
            invariant
                self.wf(),
                self.spec_capacity() == old(self).spec_capacity(),
            decreases self.spec_entries().len(),
        {
            let _ = self.entries.remove(0);
        }
        self.capacity = capacity;
    }

    /// Remove every cached instance; outstanding handles stay valid.
    pub fn clear(&mut self)
        requires
            old(self).wf(),
        ensures
            final(self).wf(),
            final(self).spec_entries().len() == 0,
            final(self).spec_capacity() == old(self).spec_capacity(),
    {
        self.entries.clear();
    }

    /// Current cache statistics.
    pub fn stats(&self) -> (r: CacheStats)
        ensures
            r.capacity == self.spec_capacity(),
            r.entries == self.spec_entries().len(),
    {
        CacheStats { capacity: self.capacity, entries: self.entries.len() }
    }

    /// Entry count and capacity as a pair.
    pub fn cache_stats(&self) -> (r: (usize, usize))
        ensures
            r.0 == self.spec_entries().len(),
            r.1 == self.spec_capacity(),
    {
        (self.entries.len(), self.capacity)
    }
}

/// Some entry of the list matches this key and carries this instance.
pub open spec fn font_entries_have(
    s: Seq<(FontCacheKey, Arc<FontInstance>)>,
    k: FontCacheKey,
    inst: FontInstance,
) -> bool {
    exists|a: int|
        0 <= a < s.len() && font_key_matches((#[trigger] s[a]).0, k) && *s[a].1 == inst
}

/// Moving one entry to the back keeps the key-to-instance mapping.
proof fn lemma_font_remove_push_entries(
    s: Seq<(FontCacheKey, Arc<FontInstance>)>,
    i: int,
    k: FontCacheKey,
    inst: FontInstance,
)
    requires
        0 <= i < s.len(),
    ensures
        font_entries_have(s.remove(i).push(s[i]), k, inst) <==> font_entries_have(s, k, inst),
{
    let t = s.remove(i).push(s[i]);
    if font_entries_have(t, k, inst) {
        let a = choose|a: int|
            0 <= a < t.len() && font_key_matches((#[trigger] t[a]).0, k) && *t[a].1 == inst;
        let orig = if a == t.len() - 1 {
            i
        } else if a < i {
            a
        } else {
            a + 1
        };
        assert(t[a] == s[orig]);
        assert(font_key_matches(s[orig].0, k) && *s[orig].1 == inst);
        assert(font_entries_have(s, k, inst));
    }
    if font_entries_have(s, k, inst) {
        let a = choose|a: int|
            0 <= a < s.len() && font_key_matches((#[trigger] s[a]).0, k) && *s[a].1 == inst;
        let moved = if a == i {
            t.len() - 1
        } else if a < i {
            a
        } else {
            a - 1
        };
        assert(t[moved] == s[a]);
        assert(font_key_matches(t[moved].0, k) && *t[moved].1 == inst);
        assert(font_entries_have(t, k, inst));
    }
}

} // verus!

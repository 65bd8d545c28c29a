//! The render pipeline's decision and assembly stages.
//!
//! One job flows validate → resolve → cache lookup → shape → rasterize →
//! encode → cache insert → result. Everything here is the pipeline's own
//! logic: cache keys, glyph placement arithmetic in 16.16 fixed-point, the
//! payload for each output format, and the result records. The two stages
//! that leave the library — reading font bytes, and rendering outline masks
//! — hand plain values in and out; the driver loop around them performs the
//! I/O and calls back in order.

use vstd::prelude::*;
use vstd::string::StrSliceExecFns;
use vstd::string::StringExecFns;

use crate::batch::{Job, JobResult, RenderingOutput, TimingInfo};
use crate::cache::{GlyphCache, GlyphCacheKey, JobPayload};
use crate::errors::Error;
use crate::output::{base64_of, pgm_bytes, ImageOutput};
use crate::render::{bbox_ok, byte_sum, longest_run_of, Image};
use crate::shaping::{ShapedGlyph, ShapedText};
use crate::strutil::{append_decimal, decimal_chars, str_eq};

verus! {

broadcast use vstd::string::group_string_axioms;

/// Options governing one processing session: path confinement, a per-job
/// time budget, and the shared glyph result cache.
pub struct ExecutionOptions {
    /// Canonical base directory confining font paths, when configured.
    pub base_dir: Option<String>,
    /// Per-job timeout in milliseconds; absent means no deadline.
    pub timeout_ms: Option<u64>,
    /// The glyph result cache; absent means caching is disabled.
    pub glyph_cache: Option<GlyphCache>,
}

impl ExecutionOptions {
    /// The options are sound when any attached cache is well formed.
    pub open spec fn wf(&self) -> bool {
        self.glyph_cache matches Some(c) ==> c.wf()
    }

    /// Options without a cache.
    pub fn new(base_dir: Option<String>, timeout_ms: Option<u64>) -> (r: ExecutionOptions)
        ensures
            r.wf(),
            r.base_dir == base_dir,
            r.timeout_ms == timeout_ms,
            r.glyph_cache is None,
    {
        ExecutionOptions { base_dir, timeout_ms, glyph_cache: None }
    }

    /// Attach or resize the glyph cache; zero capacity disables caching and
    /// drops the cache.
    pub fn set_glyph_cache_capacity(&mut self, capacity: usize)
        requires
            old(self).wf(),
        ensures
            final(self).wf(),
            capacity == 0 ==> final(self).glyph_cache is None,
            capacity >= 1 ==> (final(self).glyph_cache matches Some(c) && c.spec_capacity()
                == capacity),
            final(self).base_dir == old(self).base_dir,
            final(self).timeout_ms == old(self).timeout_ms,
    {
        if capacity == 0 {
            self.glyph_cache = None;
            return ;
        }
        let mut taken = None;
        std::mem::swap(&mut taken, &mut self.glyph_cache);
        match taken {
            Some(mut cache) => {
                cache.set_capacity(capacity);
                self.glyph_cache = Some(cache);
            },
            None => {
                self.glyph_cache = GlyphCache::new(capacity);
            },
        }
    }

    /// The current glyph cache capacity; zero when caching is disabled.
    pub fn glyph_cache_capacity(&self) -> (r: usize)
        ensures
            r == match self.glyph_cache {
                Some(c) => c.spec_capacity() as int,
                None => 0int,
            },
    {
        match &self.glyph_cache {
            Some(c) => c.stats().capacity,
            None => 0,
        }
    }

    /// Snapshot of the glyph cache counters when caching is enabled:
    /// entries, capacity, hits.
    pub fn glyph_cache_stats(&self) -> (r: Option<(usize, usize, u64)>)
        ensures
            r is Some <==> self.glyph_cache is Some,
            r matches Some(s) ==> (self.glyph_cache matches Some(c) && s.0
                == c.spec_entries().len() && s.1 == c.spec_capacity() && s.2 == c.spec_hits()),
    {
        match &self.glyph_cache {
            Some(c) => {
                let st = c.stats();
                Some((st.entries, st.capacity, st.hits))
            },
            None => None,
        }
    }
}

/// Build the glyph cache key for a job rendered from a resolved path with
/// the given applied coordinates. The key copies exactly the fields that
/// influence the rendered bytes.
pub fn build_cache_key(job: &Job, font_path: &String, applied: &Vec<(u32, i32)>) -> (r:
    GlyphCacheKey)
    ensures
        r.font_path@ == font_path@,
        r.font_size == job.font.size,
        r.width == job.rendering.width,
        r.height == job.rendering.height,
        r.format@ == job.rendering.format@,
        r.encoding@ == job.rendering.encoding@,
        r.text@ == job.text.content@,
        (r.script is Some <==> job.text.script is Some),
        (r.script matches Some(s) ==> job.text.script matches Some(t) && s@ == t@),
        r.variations@ == applied@,
{
    let script = match &job.text.script {
        Some(s) => Some(s.clone()),
        None => None,
    };
    let mut variations: Vec<(u32, i32)> = Vec::new();
    let n = applied.len();
    let mut i: usize = 0;
    while i < n
        invariant
            i <= n,
            n == applied@.len(),
            variations@ == applied@.take(i as int),
        decreases n - i,
    {
        let (t, v) = applied[i];
        variations.push((t, v));
        proof {
            assert(variations@ =~= applied@.take(i as int + 1));
        }
        i = i + 1;
    }
    proof {
        assert(applied@.take(n as int) =~= applied@);
    }
    GlyphCacheKey {
        font_path: font_path.clone(),
        font_size: job.font.size,
        width: job.rendering.width,
        height: job.rendering.height,
        format: job.rendering.format.clone(),
        encoding: job.rendering.encoding.clone(),
        text: job.text.content.clone(),
        script,
        variations,
    }
}

/// The payload of a metrics job: the canvas's exact metric parts.
pub fn metrics_payload(image: &Image) -> (r: JobPayload)
    requires
        image.wf(),
    ensures
        r matches JobPayload::Metrics(m) && m.ink_total == byte_sum(image.spec_pixels())
            && m.longest_run == longest_run_of(image.spec_pixels()) && m.pixel_count
            == image.spec_pixels().len() && m.ink_total <= 255 * m.pixel_count && m.longest_run
            <= m.pixel_count && m.pixel_count > 0,
{
    JobPayload::Metrics(image.metrics())
}

/// The payload of a PGM image job: the canvas encoded as binary PGM, then
/// base64, with its tight bounding box.
pub fn pgm_payload(job: &Job, image: &Image) -> (r: Result<JobPayload, Error>)
    requires
        image.wf(),
        image.spec_width() == job.rendering.width,
        image.spec_height() == job.rendering.height,
    ensures
        r matches Ok(p) ==> (p matches JobPayload::Rendering(out) && out.format@
            == job.rendering.format@ && out.encoding@ == "base64"@ && out.data@ == base64_of(
            pgm_bytes(image.spec_width(), image.spec_height(), image.spec_pixels()),
        ) && out.width == image.spec_width() && out.height == image.spec_height() && bbox_ok(
            *image,
            out.actual_bbox,
        )),
        r is Ok,
{
    let pgm = match ImageOutput::write_pgm_binary(image.pixels(), image.width(), image.height()) {
        Ok(p) => p,
        Err(e) => {
            proof {
                assert(false);
            }
            return Err(e);
        },
    };
    let data = ImageOutput::encode_base64(&pgm);
    let bbox = image.calculate_bbox();
    Ok(
        JobPayload::Rendering(
            RenderingOutput {
                format: job.rendering.format.clone(),
                encoding: String::from_str("base64"),
                data,
                width: image.width(),
                height: image.height(),
                actual_bbox: bbox,
            },
        ),
    )
}

/// The payload for a rendered job in its requested format: exact metric
/// parts for `metrics`, base64 PGM for `pgm`. No PNG encoder is wired in,
/// so `png` jobs fail with an internal error; any other format is rejected
/// as a render-parameter error, though validation rules those out earlier.
pub fn payload_for_format(job: &Job, image: &Image) -> (r: Result<JobPayload, Error>)
    requires
        image.wf(),
        image.spec_width() == job.rendering.width,
        image.spec_height() == job.rendering.height,
    ensures
        job.rendering.format@ == "metrics"@ ==> (r matches Ok(p) && p is Metrics),
        job.rendering.format@ == "pgm"@ ==> (r matches Ok(p) && p matches JobPayload::Rendering(out)
            && out.data@ == base64_of(
            pgm_bytes(image.spec_width(), image.spec_height(), image.spec_pixels()),
        ) && bbox_ok(*image, out.actual_bbox)),
        job.rendering.format@ == "png"@ ==> (r matches Err(e) && e is Internal),
{
    proof {
        reveal_strlit("metrics");
        reveal_strlit("pgm");
        reveal_strlit("png");
        assert("pgm"@.len() == 3);
        assert("metrics"@.len() == 7);
        assert("pgm"@ != "metrics"@);
        assert("pgm"@[1] == 'g');
        assert("png"@[1] == 'n');
        assert("pgm"@ != "png"@);
    }
    let f = job.rendering.format.as_str();
    if str_eq(f, "metrics") {
        Ok(metrics_payload(image))
    } else if str_eq(f, "pgm") {
        pgm_payload(job, image)
    } else if str_eq(f, "png") {
        Err(Error::Internal { reason: String::from_str("PNG encoder is not available") })
    } else {
        Err(Error::InvalidRenderParams { reason: String::from_str("Invalid output format") })
    }
}

/// Assemble the success result for a job from its payload: exactly one of
/// the rendering or metrics fields is populated, matching the payload.
pub fn build_job_result(
    job: &Job,
    font_meta: Option<crate::batch::FontResult>,
    payload: JobPayload,
    timing: TimingInfo,
) -> (r: JobResult)
    ensures
        r.id == job.id,
        r.status@ == "success"@,
        r.error is None,
        r.font == font_meta,
        r.timing == timing,
        payload matches JobPayload::Rendering(out) ==> (r.rendering matches Some(o) && o == out
            && r.metrics is None),
        payload matches JobPayload::Metrics(m) ==> (r.metrics matches Some(o) && o == m
            && r.rendering is None),
{
    match payload {
        JobPayload::Rendering(out) => JobResult {
            id: job.id.clone(),
            status: String::from_str("success"),
            rendering: Some(out),
            metrics: None,
            error: None,
            font: font_meta,
            timing,
        },
        JobPayload::Metrics(m) => JobResult {
            id: job.id.clone(),
            status: String::from_str("success"),
            rendering: None,
            metrics: Some(m),
            error: None,
            font: font_meta,
            timing,
        },
    }
}

/// Assemble the error result for a failed job: the error kind rendered to
/// text once, payload fields empty, font metadata attached when the font
/// had already been resolved.
pub fn build_error_result(
    id: &String,
    e: &Error,
    font_meta: Option<crate::batch::FontResult>,
    timing: TimingInfo,
) -> (r: JobResult)
    ensures
        r.id@ == id@,
        r.status@ == "error"@,
        r.rendering is None,
        r.metrics is None,
        r.error is Some,
        r.font == font_meta,
        r.timing == timing,
{
    JobResult {
        id: id.clone(),
        status: String::from_str("error"),
        rendering: None,
        metrics: None,
        error: Some(e.message()),
        font: font_meta,
        timing,
    }
}

/// The pixels-per-unit scale of a render in 16.16 fixed-point:
/// `size * 65536 / upem`.
pub open spec fn spec_scale_fixed(font_size: u32, upem: u16) -> int
    recommends
        upem >= 1,
{
    (font_size * 65536) as int / (upem as int)
}

/// The cursor position before glyph `i`, in fixed-point pixels: each glyph
/// advances the cursor by its advance plus tracking, scaled.
pub open spec fn spec_cursor(glyphs: Seq<ShapedGlyph>, i: int, scale: int, tracking: int) -> int
    decreases i,
{
    if i <= 0 {
        0
    } else {
        spec_cursor(glyphs, i - 1, scale, tracking) + (glyphs[i - 1].x_advance + tracking) * scale
    }
}

/// Where one glyph's mask goes: the glyph and its position in fixed-point
/// pixels (x grows right, y grows down, origin at the canvas corner).
#[derive(Clone, Copy, Debug, PartialEq, Eq, Structural)]
pub struct MaskRequest {
    /// The glyph to rasterize.
    pub glyph_id: u32,
    /// Horizontal pen position in 16.16 fixed-point pixels.
    pub x_fixed: i128,
    /// Vertical pen position in 16.16 fixed-point pixels.
    pub y_fixed: i128,
}

/// Cursor positions stay within a budget proportional to the glyph count.
proof fn lemma_cursor_bounds(glyphs: Seq<ShapedGlyph>, i: int, scale: int, tracking: int)
    requires
        0 <= i <= glyphs.len(),
        0 <= scale < 0x10000000000000,
        -2147483648 <= tracking <= 2147483647,
    ensures
        -0x400000000000000000000000 * i <= spec_cursor(glyphs, i, scale, tracking)
            <= 0x400000000000000000000000 * i,
    decreases i,
{
    if i > 0 {
        lemma_cursor_bounds(glyphs, i - 1, scale, tracking);
        assert(-0x400000000000000000000000 <= (glyphs[i - 1].x_advance + tracking) * scale
            <= 0x400000000000000000000000) by (nonlinear_arith)
            requires
                -2147483648 <= glyphs[i - 1].x_advance <= 2147483647,
                -2147483648 <= tracking <= 2147483647,
                0 <= scale < 0x10000000000000,
        ;
    }
}

/// Plan the placement of every glyph of a shaped run on a canvas: the
/// baseline sits at three quarters of the height, each glyph is offset from
/// the cursor by its scaled offsets, and the cursor advances by the scaled
/// advance plus tracking. Glyphs with no outline still advance the cursor;
/// placement clipping happens at compositing time.
pub fn plan_glyph_placements(
    shaped: &ShapedText,
    height: u32,
    upem: u16,
    tracking: i32,
) -> (r: Vec<MaskRequest>)
    requires
        upem >= 1,
        shaped.glyphs@.len() <= 100000,
    ensures
        r@.len() == shaped.glyphs@.len(),
        forall|i: int|
            0 <= i < r@.len() ==> ({
                let scale = spec_scale_fixed(shaped.font_size, upem);
                let baseline = (3 * height * 65536) as int / 4;
                &&& (#[trigger] r@[i]).glyph_id == shaped.glyphs@[i].glyph_id
                &&& r@[i].x_fixed == spec_cursor(shaped.glyphs@, i, scale, tracking as int)
                    + shaped.glyphs@[i].x_offset * scale
                &&& r@[i].y_fixed == baseline - shaped.glyphs@[i].y_offset * scale
            }),
{
    let scale_num: u64 = (shaped.font_size as u64) * 65536;
    let scale: i128 = (scale_num / (upem as u64)) as i128;
    proof {
        assert(scale == spec_scale_fixed(shaped.font_size, upem));
        assert(scale_num / (upem as u64) <= scale_num) by (nonlinear_arith)
            requires
                upem as u64 >= 1,
        ;
        assert(scale < 0x10000000000000);
    }
    let baseline: i128 = ((3u64 * (height as u64) * 65536) / 4) as i128;
    let n = shaped.glyphs.len();
    let mut out: Vec<MaskRequest> = Vec::new();
    let mut cursor: i128 = 0;
    let mut i: usize = 0;
    while i < n
        invariant
            i <= n,
            n == shaped.glyphs@.len(),
            n <= 100000,
            out@.len() == i,
            0 <= scale < 0x10000000000000,
            scale == spec_scale_fixed(shaped.font_size, upem),
            baseline == (3 * height * 65536) as int / 4,
            cursor == spec_cursor(shaped.glyphs@, i as int, scale as int, tracking as int),
            -0x400000000000000000000000 * (i as int) <= cursor <= 0x400000000000000000000000 * (
            i as int),
            forall|j: int|
                0 <= j < i ==> ({
                    &&& (#[trigger] out@[j]).glyph_id == shaped.glyphs@[j].glyph_id
                    &&& out@[j].x_fixed == spec_cursor(
                        shaped.glyphs@,
                        j,
                        scale as int,
                        tracking as int,
                    ) + shaped.glyphs@[j].x_offset * scale
                    &&& out@[j].y_fixed == baseline as int - shaped.glyphs@[j].y_offset * scale
                }),
        decreases n - i,
    {
        let g = shaped.glyphs[i];
        proof {
            assert(-0x400000000000000000000000 <= (g.x_offset as int) * (scale as int)
                <= 0x400000000000000000000000) by (nonlinear_arith)
                requires
                    -2147483648 <= (g.x_offset as int) && (g.x_offset as int) <= 2147483647,
                    0 <= (scale as int) && (scale as int) < 0x10000000000000,
            ;
            assert(-0x400000000000000000000000 <= (g.y_offset as int) * (scale as int)
                <= 0x400000000000000000000000) by (nonlinear_arith)
                requires
                    -2147483648 <= (g.y_offset as int) && (g.y_offset as int) <= 2147483647,
                    0 <= (scale as int) && (scale as int) < 0x10000000000000,
            ;
            assert(-0x400000000000000000000000 <= ((g.x_advance + tracking) as int) * (scale as int)
                <= 0x400000000000000000000000) by (nonlinear_arith)
                requires
                    -2147483648 <= (g.x_advance as int) && (g.x_advance as int) <= 2147483647,
                    -2147483648 <= (tracking as int) && (tracking as int) <= 2147483647,
                    0 <= (scale as int) && (scale as int) < 0x10000000000000,
            ;
        }
        let x = cursor + (g.x_offset as i128) * scale;
        let y = baseline - (g.y_offset as i128) * scale;
        out.push(MaskRequest { glyph_id: g.glyph_id, x_fixed: x, y_fixed: y });
        cursor = cursor + ((g.x_advance as i128) + (tracking as i128)) * scale;
        i = i + 1;
    }
    out
}

/// Finish a composited canvas into an image: invert it to dark-on-light and
/// wrap it with its dimensions. The caller guarantees the buffer matches the
/// canvas size.
pub fn finish_render(canvas: Vec<u8>, width: u32, height: u32) -> (r: Result<Image, Error>)
    requires
        1 <= width <= 10000,
        1 <= height <= 10000,
        canvas@.len() == width * height,
    ensures
        r matches Ok(img) ==> ({
            &&& img.wf()
            &&& img.spec_width() == width
            &&& img.spec_height() == height
            &&& img.spec_pixels().len() == canvas@.len()
            &&& forall|i: int|
                0 <= i < canvas@.len() ==> img.spec_pixels()[i] == 255 - canvas@[i]
        }),
        r is Ok,
{
    let mut canvas = canvas;
    crate::render::invert_canvas(&mut canvas);
    match Image::new(width, height, canvas) {
        Ok(img) => Ok(img),
        Err(e) => {
            proof {
                assert(false);
            }
            Err(e)
        },
    }
}

/// Counters a streaming session keeps: lines processed, successes, errors.
#[derive(Clone, Copy, Debug, PartialEq, Eq, Structural)]
pub struct StreamCounters {
    /// Results emitted.
    pub processed: u64,
    /// Results with success status.
    pub successes: u64,
    /// Results with error status.
    pub errors: u64,
}

impl StreamCounters {
    /// Fresh counters at zero.
    pub fn new() -> (r: StreamCounters)
        ensures
            r.processed == 0,
            r.successes == 0,
            r.errors == 0,
    {
        StreamCounters { processed: 0, successes: 0, errors: 0 }
    }

    /// Record one emitted result: processed always grows by one, and exactly
    /// one of the success and error counters grows with it.
    pub fn record(&mut self, success: bool)
        requires
            old(self).processed < u64::MAX,
            old(self).successes < u64::MAX,
            old(self).errors < u64::MAX,
        ensures
            final(self).processed == old(self).processed + 1,
            final(self).successes == old(self).successes + if success {
                1int
            } else {
                0int
            },
            final(self).errors == old(self).errors + if success {
                0int
            } else {
                1int
            },
    {
        self.processed = self.processed + 1;
        if success {
            self.successes = self.successes + 1;
        } else {
            self.errors = self.errors + 1;
        }
    }
}

/// The fallback correlation id of a stream line that could not be parsed:
/// `line-` followed by the one-based line number.
pub fn fallback_line_id(line_no: u64) -> (r: String)
    requires
        line_no < u64::MAX,
    ensures
        r@ == "line-"@ + decimal_chars(line_no as int + 1),
{
    let mut s = String::from_str("line-");
    append_decimal(line_no + 1, &mut s);
    s
}

/// Mapping commutes with removing one element.
proof fn lemma_map_remove<A, B>(s: Seq<A>, f: spec_fn(A) -> B, j: int)
    requires
        0 <= j < s.len(),
    ensures
        s.remove(j).map_values(f) == s.map_values(f).remove(j),
{
    assert(s.remove(j).map_values(f) =~= s.map_values(f).remove(j));
}

/// A multiset with one occurrence removed and reinserted is unchanged.
proof fn lemma_multiset_remove_insert<B>(m: vstd::multiset::Multiset<B>, x: B)
    requires
        m.count(x) >= 1,
    ensures
        m.remove(x).insert(x) == m,
{
    assert(m.remove(x).insert(x) =~= m);
}

/// Batch determinism: processing is a function of the job alone, so any two
/// arrangements of the same jobs — one worker taking them in order, or many
/// workers splitting them — produce the same multiset of results.
pub proof fn lemma_batch_order_irrelevant(
    jobs1: Seq<Job>,
    jobs2: Seq<Job>,
    process: spec_fn(Job) -> JobResult,
)
    requires
        jobs1.to_multiset() == jobs2.to_multiset(),
    ensures
        jobs1.map_values(process).to_multiset() == jobs2.map_values(process).to_multiset(),
    decreases jobs1.len(),
{
    jobs1.to_multiset_ensures();
    jobs2.to_multiset_ensures();
    jobs1.map_values(process).to_multiset_ensures();
    jobs2.map_values(process).to_multiset_ensures();
    if jobs1.len() == 0 {
        assert(jobs2.len() == 0);
        assert(jobs1.map_values(process) =~= Seq::<JobResult>::empty());
        assert(jobs2.map_values(process) =~= Seq::<JobResult>::empty());
    } else {
        let x = jobs1.last();
        let k = jobs1.len() - 1;
        assert(jobs1.contains(x));
        assert(jobs1.to_multiset().count(x) > 0);
        assert(jobs2.to_multiset().count(x) > 0);
        assert(jobs2.contains(x));
        let j = choose|j: int| 0 <= j < jobs2.len() && jobs2[j] == x;
        let rest1 = jobs1.remove(k);
        let rest2 = jobs2.remove(j);
        assert(rest1.to_multiset() == jobs1.to_multiset().remove(x)) by {
            assert(jobs1[k] == x);
        }
        assert(rest2.to_multiset() == jobs2.to_multiset().remove(x));
        lemma_batch_order_irrelevant(rest1, rest2, process);
        lemma_map_remove(jobs1, process, k);
        lemma_map_remove(jobs2, process, j);
        let m1 = jobs1.map_values(process);
        let m2 = jobs2.map_values(process);
        assert(m1.remove(k).to_multiset() == m1.to_multiset().remove(m1[k]));
        assert(m2.remove(j).to_multiset() == m2.to_multiset().remove(m2[j]));
        assert(m1[k] == process(x) && m2[j] == process(x));
        assert(m1.contains(m1[k]));
        assert(m1.to_multiset().count(process(x)) >= 1);
        assert(m2.contains(m2[j]));
        assert(m2.to_multiset().count(process(x)) >= 1);
        lemma_multiset_remove_insert(m1.to_multiset(), process(x));
        lemma_multiset_remove_insert(m2.to_multiset(), process(x));
        assert(m1.to_multiset() == m1.to_multiset().remove(process(x)).insert(process(x)));
        assert(m1.to_multiset().remove(process(x)) == m2.to_multiset().remove(process(x)));
    }
}

} // verus!

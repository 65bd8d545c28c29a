//! Job specifications and results for batch rendering.
//!
//! A `Job` describes one render: a font with variation coordinates, the text
//! to shape, and the canvas parameters. Validation stands in front of the
//! rest of the pipeline: a job that fails any constraint is rejected with a
//! distinct error kind and never reaches the font loader.
//!
//! Variation values are carried as 16.16 fixed-point integers (the font
//! format's own representation of axis values); conversion from decimal
//! notation happens outside the library.

use vstd::prelude::*;
use vstd::string::StrSliceExecFns;
use vstd::string::StringExecFns;

use crate::errors::Error;
use crate::security::{is_forbidden_control, text_input_ok, validate_text_input, MAX_JOBS_PER_SPEC};
use crate::strutil::{lowered, lowered_code, str_eq};

verus! {

/// One variation axis setting: a tag such as `wght` and a 16.16 fixed-point
/// value.
#[derive(Clone, Debug)]
pub struct VariationSetting {
    /// Axis tag, normally four ASCII characters.
    pub tag: String,
    /// Axis value in 16.16 fixed-point font units.
    pub value: i32,
}

/// Font selection for a job.
#[derive(Clone, Debug)]
pub struct FontConfig {
    /// Path to the font file.
    pub path: String,
    /// Font size in points.
    pub size: u32,
    /// Requested variable-font coordinates.
    pub variations: Vec<VariationSetting>,
}

/// Text content and shaping hints for a job.
#[derive(Clone, Debug)]
pub struct TextConfig {
    /// Text to render.
    pub content: String,
    /// Optional script hint (e.g. `Latn`).
    pub script: Option<String>,
    /// Optional direction hint (`ltr`, `rtl`, `ttb`, `btt`).
    pub direction: Option<String>,
    /// Optional language hint (e.g. `en`).
    pub language: Option<String>,
    /// OpenType feature toggles (e.g. `liga=0`, `kern`).
    pub features: Vec<String>,
}

/// Canvas parameters for a job.
#[derive(Clone, Debug)]
pub struct RenderingConfig {
    /// Output format: `pgm`, `png`, or `metrics`.
    pub format: String,
    /// Payload encoding label carried into the result.
    pub encoding: String,
    /// Canvas width in pixels.
    pub width: u32,
    /// Canvas height in pixels.
    pub height: u32,
}

/// A single rendering job.
#[derive(Clone, Debug)]
pub struct Job {
    /// Correlation handle echoed into the result.
    pub id: String,
    /// Font selection.
    pub font: FontConfig,
    /// Text and shaping hints.
    pub text: TextConfig,
    /// Canvas parameters.
    pub rendering: RenderingConfig,
}

/// A batch of jobs with a version header.
#[derive(Clone, Debug)]
pub struct JobSpec {
    /// Format version; must be `1.0`.
    pub version: String,
    /// The jobs to process.
    pub jobs: Vec<Job>,
}

/// A tight bounding box of rendered ink: position and extent in pixels.
#[derive(Clone, Copy, Debug, PartialEq, Eq, Structural)]
pub struct BBox {
    /// Left edge.
    pub x: u32,
    /// Top edge.
    pub y: u32,
    /// Width; zero when the canvas is blank.
    pub w: u32,
    /// Height; zero when the canvas is blank.
    pub h: u32,
}

/// Image payload of a successful render.
#[derive(Clone, Debug)]
pub struct RenderingOutput {
    /// Output format: `pgm` or `png`.
    pub format: String,
    /// Encoding of `data`, normally `base64`.
    pub encoding: String,
    /// Encoded image bytes.
    pub data: String,
    /// Canvas width in pixels.
    pub width: u32,
    /// Canvas height in pixels.
    pub height: u32,
    /// Tight bounding box of the rendered ink.
    pub actual_bbox: BBox,
}

/// Metrics payload of a successful metrics job, as exact integer parts.
/// Density is `ink_total / (255 * pixel_count)` and beam is
/// `longest_run / pixel_count`; the divisions happen at the output boundary.
#[derive(Clone, Debug)]
pub struct MetricsOutput {
    /// Sum of all pixel values on the canvas.
    pub ink_total: u64,
    /// Length of the longest run of non-zero pixels in row-major order.
    pub longest_run: u64,
    /// Number of pixels on the canvas.
    pub pixel_count: u64,
}

/// Wall-clock timings of a job, in whole milliseconds.
#[derive(Clone, Debug)]
pub struct TimingInfo {
    /// Time spent shaping.
    pub shape_ms: u64,
    /// Time spent rasterizing.
    pub render_ms: u64,
    /// Total time for the job.
    pub total_ms: u64,
}

impl Default for TimingInfo {
    /// All-zero timings.
    fn default() -> (t: TimingInfo)
        ensures
            t.shape_ms == 0 && t.render_ms == 0 && t.total_ms == 0,
    {
        TimingInfo { shape_ms: 0, render_ms: 0, total_ms: 0 }
    }
}

/// Font metadata echoed with a result: the resolved path and the variation
/// coordinates actually applied after sanitization.
#[derive(Clone, Debug)]
pub struct FontResult {
    /// Path used after sanitization.
    pub path: String,
    /// Applied coordinates, after clamping and dropping.
    pub variations: Vec<VariationSetting>,
}

/// The result of one job: either a payload or an error, correlated by id.
#[derive(Clone, Debug)]
pub struct JobResult {
    /// Job id, matching the input.
    pub id: String,
    /// `success` or `error`.
    pub status: String,
    /// Image payload, present on successful image jobs.
    pub rendering: Option<RenderingOutput>,
    /// Metrics payload, present on successful metrics jobs.
    pub metrics: Option<MetricsOutput>,
    /// Error message, present on failed jobs.
    pub error: Option<String>,
    /// Sanitized font metadata when the font was resolved.
    pub font: Option<FontResult>,
    /// Timings.
    pub timing: TimingInfo,
}

impl JobResult {
    /// Build an error result carrying a message, with no payload attached.
    pub fn error(id: String, message: String) -> (r: JobResult)
        ensures
            r.id == id,
            r.status@ == "error"@,
            r.rendering is None,
            r.metrics is None,
            r.error matches Some(m) && m == message,
            r.font is None,
    {
        JobResult {
            id,
            status: String::from_str("error"),
            rendering: None,
            metrics: None,
            error: Some(message),
            font: None,
            timing: TimingInfo::default(),
        }
    }
}

/// A direction hint is one of the four closed-set words, compared without
/// regard to ASCII case.
pub open spec fn direction_ok(d: Seq<char>) -> bool {
    &&& d.len() == 3
    &&& {
        ||| lowered(d[0]) == ('l' as u32) && lowered(d[1]) == ('t' as u32) && lowered(d[2]) == (
        'r' as u32)
        ||| lowered(d[0]) == ('r' as u32) && lowered(d[1]) == ('t' as u32) && lowered(d[2]) == (
        'l' as u32)
        ||| lowered(d[0]) == ('t' as u32) && lowered(d[1]) == ('t' as u32) && lowered(d[2]) == (
        'b' as u32)
        ||| lowered(d[0]) == ('b' as u32) && lowered(d[1]) == ('t' as u32) && lowered(d[2]) == (
        't' as u32)
    }
}

/// A character allowed in a language tag: ASCII alphanumeric, `-`, or `_`.
pub open spec fn lang_char_ok(c: char) -> bool {
    ||| ('0' as u32) <= (c as u32) && (c as u32) <= ('9' as u32)
    ||| ('A' as u32) <= (c as u32) && (c as u32) <= ('Z' as u32)
    ||| ('a' as u32) <= (c as u32) && (c as u32) <= ('z' as u32)
    ||| c == '-'
    ||| c == '_'
}

/// A language tag is at most 32 characters, all from the allowed set.
pub open spec fn language_ok(l: Seq<char>) -> bool {
    &&& l.len() <= 32
    &&& forall|i: int| 0 <= i < l.len() ==> lang_char_ok(#[trigger] l[i])
}

/// Plain whitespace for the purpose of feature-entry emptiness: space, tab,
/// and the ASCII line-control characters.
pub open spec fn plain_space(c: char) -> bool {
    ||| c == ' '
    ||| (c as u32) == 0x09
    ||| (c as u32) == 0x0A
    ||| (c as u32) == 0x0B
    ||| (c as u32) == 0x0C
    ||| (c as u32) == 0x0D
}

/// A feature entry is acceptable when it holds at least one non-whitespace
/// character.
pub open spec fn feature_entry_ok(f: Seq<char>) -> bool {
    exists|i: int| 0 <= i < f.len() && !plain_space(#[trigger] f[i])
}

/// At most 64 feature entries, each non-empty.
pub open spec fn features_ok(fs: Seq<String>) -> bool {
    &&& fs.len() <= 64
    &&& forall|i: int| 0 <= i < fs.len() ==> feature_entry_ok((#[trigger] fs[i])@)
}

/// The output format is one of the three supported words.
pub open spec fn format_ok(f: Seq<char>) -> bool {
    ||| f == "pgm"@
    ||| f == "png"@
    ||| f == "metrics"@
}

/// Canvas dimensions within the supported range.
pub open spec fn dims_ok(w: u32, h: u32) -> bool {
    1 <= w <= 10000 && 1 <= h <= 10000
}

/// Everything `Job::validate` checks before the canvas dimensions, in its
/// order: id, font size, text content, direction, language, features, and
/// format.
pub open spec fn job_fields_before_dims_ok(j: Job) -> bool {
    &&& j.id@.len() > 0
    &&& 1 <= j.font.size <= 10000
    &&& j.text.content@.len() > 0
    &&& text_input_ok(j.text.content@)
    &&& (j.text.direction matches Some(d) ==> direction_ok(d@))
    &&& (j.text.language matches Some(l) ==> language_ok(l@))
    &&& features_ok(j.text.features@)
    &&& format_ok(j.rendering.format@)
}

/// A job acceptable to the pipeline.
pub open spec fn job_valid(j: Job) -> bool {
    &&& job_fields_before_dims_ok(j)
    &&& dims_ok(j.rendering.width, j.rendering.height)
}

/// Check a direction hint against the closed set, ignoring ASCII case.
pub fn direction_is_valid(d: &str) -> (r: bool)
    ensures
        r == direction_ok(d@),
{
    let n = d.unicode_len();
    if n != 3 {
        return false;
    }
    let a = lowered_code(d.get_char(0));
    let b = lowered_code(d.get_char(1));
    let c = lowered_code(d.get_char(2));
    let lw = 'l' as u32;
    let rw = 'r' as u32;
    let tw = 't' as u32;
    let bw = 'b' as u32;
    (a == lw && b == tw && c == rw) || (a == rw && b == tw && c == lw) || (a == tw && b == tw && c
        == bw) || (a == bw && b == tw && c == tw)
}

/// Check a language tag: at most 32 characters, ASCII alphanumeric plus
/// `-` and `_`.
pub fn language_is_valid(l: &str) -> (r: bool)
    ensures
        r == language_ok(l@),
{
    let n = l.unicode_len();
    if n > 32 {
        return false;
    }
    let mut i: usize = 0;
    while i < n
        invariant
            i <= n,
            n == l@.len(),
            n <= 32,
            forall|j: int| 0 <= j < i ==> lang_char_ok(#[trigger] l@[j]),
        decreases n - i,
    {
        let c = l.get_char(i);
        let u = c as u32;
        let ok = (0x30 <= u && u <= 0x39) || (0x41 <= u && u <= 0x5A) || (0x61 <= u && u <= 0x7A)
            || c == '-' || c == '_';
        if !ok {
            assert(!lang_char_ok(l@[i as int]));
            return false;
        }
        i = i + 1;
    }
    true
}

/// Check that a feature entry holds a non-whitespace character.
pub fn feature_entry_is_valid(f: &str) -> (r: bool)
    ensures
        r == feature_entry_ok(f@),
{
    let n = f.unicode_len();
    let mut i: usize = 0;
    while i < n
        invariant
            i <= n,
            n == f@.len(),
            forall|j: int| 0 <= j < i ==> plain_space(#[trigger] f@[j]),
        decreases n - i,
    {
        let c = f.get_char(i);
        let u = c as u32;
        if !(c == ' ' || u == 0x09 || u == 0x0A || u == 0x0B || u == 0x0C || u == 0x0D) {
            return true;
        }
        i = i + 1;
    }
    false
}

impl Job {
    /// Validate one job against every constraint of the data model. The job
    /// is accepted exactly when all constraints hold; each rejection carries
    /// the kind of the first constraint violated, in validation order.
    pub fn validate(&self) -> (r: Result<(), Error>)
        ensures
            r.is_ok() <==> job_valid(*self),
            r.is_err() ==> (r->Err_0 is InvalidJobSpec || r->Err_0 is InvalidRenderParams),
            self.id@.len() == 0 ==> (r matches Err(e) && e is InvalidJobSpec),
            self.id@.len() > 0 && !(1 <= self.font.size <= 10000) ==> (r matches Err(e)
                && e is InvalidRenderParams),
            job_fields_before_dims_ok(*self) && !dims_ok(
                self.rendering.width,
                self.rendering.height,
            ) ==> (r matches Err(e) && e matches Error::InvalidRenderParams { reason } && reason@
                == "Canvas dimensions out of bounds (1-10000)"@),
    {
        if self.id.as_str().is_empty() {
            return Err(Error::InvalidJobSpec { reason: String::from_str("Job ID is empty") });
        }
        if self.font.size == 0 || self.font.size > 10000 {
            return Err(
                Error::InvalidRenderParams {
                    reason: String::from_str("Font size out of bounds (1-10000)"),
                },
            );
        }
        if self.text.content.as_str().is_empty() {
            return Err(Error::InvalidJobSpec { reason: String::from_str("Text content is empty") });
        }
        if let Err(e) = validate_text_input(self.text.content.as_str()) {
            return Err(e);
        }
        if let Some(direction) = &self.text.direction {
            if !direction_is_valid(direction.as_str()) {
                return Err(
                    Error::InvalidJobSpec {
                        reason: String::from_str("Unsupported text direction"),
                    },
                );
            }
        }
        if let Some(language) = &self.text.language {
            if !language_is_valid(language.as_str()) {
                return Err(
                    Error::InvalidJobSpec { reason: String::from_str("Invalid language tag") },
                );
            }
        }
        if self.text.features.len() > 64 {
            return Err(
                Error::InvalidJobSpec {
                    reason: String::from_str("Too many OpenType features supplied"),
                },
            );
        }
        let nf = self.text.features.len();
        let mut i: usize = 0;
        while i < nf
            invariant
                i <= nf,
                nf == self.text.features@.len(),
                self.id@.len() > 0,
                1 <= self.font.size <= 10000,
                forall|j: int| 0 <= j < i ==> feature_entry_ok((#[trigger] self.text.features@[j])@),
            decreases nf - i,
        {
            if !feature_entry_is_valid(self.text.features[i].as_str()) {
                return Err(
                    Error::InvalidJobSpec {
                        reason: String::from_str("OpenType feature entries must be non-empty"),
                    },
                );
            }
            i = i + 1;
        }
        let f = self.rendering.format.as_str();
        if !(str_eq(f, "pgm") || str_eq(f, "png") || str_eq(f, "metrics")) {
            return Err(
                Error::InvalidRenderParams { reason: String::from_str("Invalid output format") },
            );
        }
        if self.rendering.width == 0 || self.rendering.height == 0 || self.rendering.width > 10000
            || self.rendering.height > 10000 {
            return Err(
                Error::InvalidRenderParams {
                    reason: String::from_str("Canvas dimensions out of bounds (1-10000)"),
                },
            );
        }
        Ok(())
    }
}

/// The batch header is acceptable: version `1.0` and a job count in
/// `[1, MAX_JOBS_PER_SPEC]`.
pub open spec fn header_ok(s: JobSpec) -> bool {
    &&& s.version@ == "1.0"@
    &&& s.jobs@.len() > 0
    &&& s.jobs@.len() <= MAX_JOBS_PER_SPEC
}

/// The whole spec is acceptable: header plus every job.
pub open spec fn spec_valid(s: JobSpec) -> bool {
    &&& header_ok(s)
    &&& forall|i: int| 0 <= i < s.jobs@.len() ==> job_valid(#[trigger] s.jobs@[i])
}

impl JobSpec {
    /// Validate the batch envelope alone: version and job count. Accepted
    /// exactly when the header constraints hold; every rejection is the
    /// job-spec kind.
    pub fn validate_header(&self) -> (r: Result<(), Error>)
        ensures
            r.is_ok() <==> header_ok(*self),
            r.is_err() ==> r->Err_0 is InvalidJobSpec,
    {
        if !str_eq(self.version.as_str(), "1.0") {
            return Err(
                Error::InvalidJobSpec { reason: String::from_str("Unsupported API version") },
            );
        }
        if self.jobs.len() == 0 {
            return Err(Error::InvalidJobSpec { reason: String::from_str("Jobs array is empty") });
        }
        if self.jobs.len() > MAX_JOBS_PER_SPEC {
            return Err(
                Error::InvalidJobSpec { reason: String::from_str("Too many jobs in spec") },
            );
        }
        Ok(())
    }

    /// Validate the envelope and every job in it. Accepted exactly when the
    /// header and all jobs are acceptable.
    pub fn validate(&self) -> (r: Result<(), Error>)
        ensures
            r.is_ok() <==> spec_valid(*self),
            r.is_err() ==> (r->Err_0 is InvalidJobSpec || r->Err_0 is InvalidRenderParams),
    {
        if let Err(e) = self.validate_header() {
            return Err(e);
        }
        let n = self.jobs.len();
        let mut i: usize = 0;
        while i < n
            invariant
                i <= n,
                n == self.jobs@.len(),
                header_ok(*self),
                forall|j: int| 0 <= j < i ==> job_valid(#[trigger] self.jobs@[j]),
            decreases n - i,
        {
            if let Err(e) = self.jobs[i].validate() {
                return Err(e);
            }
            i = i + 1;
        }
        Ok(())
    }
}

/// Validation totality: every constraint of the data model is necessary for
/// acceptance, so an input violating any one of them is rejected — an empty
/// id, a font size or canvas outside bounds, empty or oversized or
/// control-laden text, a direction outside the closed set, a malformed
/// language tag, an empty or oversized feature list, or an unknown format —
/// and `Job::validate` accepts exactly the jobs satisfying all of them.
pub proof fn lemma_validation_totality(j: Job)
    ensures
        j.id@.len() == 0 ==> !job_valid(j),
        !(1 <= j.font.size <= 10000) ==> !job_valid(j),
        j.text.content@.len() == 0 ==> !job_valid(j),
        j.text.content@.len() > crate::security::MAX_TEXT_LENGTH ==> !job_valid(j),
        (exists|i: int|
            0 <= i < j.text.content@.len() && is_forbidden_control(j.text.content@[i]))
            ==> !job_valid(j),
        (j.text.direction matches Some(d) && direction_ok(d@) == false) ==> !job_valid(j),
        (j.text.language matches Some(l) && language_ok(l@) == false) ==> !job_valid(j),
        j.text.features@.len() > 64 ==> !job_valid(j),
        (exists|i: int|
            0 <= i < j.text.features@.len() && !feature_entry_ok((#[trigger] j.text.features@[i])@))
            ==> !job_valid(j),
        !format_ok(j.rendering.format@) ==> !job_valid(j),
        !dims_ok(j.rendering.width, j.rendering.height) ==> !job_valid(j),
        job_valid(j) <==> (job_fields_before_dims_ok(j) && dims_ok(
            j.rendering.width,
            j.rendering.height,
        )),
{
}

} // verus!

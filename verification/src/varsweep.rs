//! Variation sweeps: rendering one glyph across many coordinate sets.
//!
//! A sweep explores a variable font's design space by rendering the same
//! text at many coordinate sets and comparing the metrics. Each sweep point
//! becomes one metrics job built here; the driver outside the library runs
//! the points in parallel, which is safe to do in any order because a job's
//! result is a function of the job alone.

use vstd::prelude::*;
use vstd::string::StringExecFns;

use crate::batch::{FontConfig, Job, MetricsOutput, RenderingConfig, TextConfig, VariationSetting};

verus! {

/// A sweep: one font, one text, one canvas, many coordinate sets.
pub struct SweepConfig {
    /// Path of the font to sweep.
    pub font_path: String,
    /// Font size in points.
    pub font_size: u32,
    /// The text to render at every point, usually a single glyph.
    pub text: String,
    /// Canvas width.
    pub width: u32,
    /// Canvas height.
    pub height: u32,
    /// The coordinate sets to render, one sweep point each.
    pub coord_sets: Vec<Vec<VariationSetting>>,
}

/// The outcome of one sweep point: the coordinates used and the exact
/// metric parts of the render.
pub struct SweepPoint {
    /// The coordinate set this point was rendered at.
    pub coords: Vec<VariationSetting>,
    /// The exact metric parts of the rendered canvas.
    pub metrics: MetricsOutput,
    /// Render time in milliseconds.
    pub render_ms: u64,
}

/// Build the metrics job for one sweep point: the sweep's font, text, and
/// canvas with the point's coordinates, always in the metrics format.
pub fn build_sweep_job(config: &SweepConfig, coords: &Vec<VariationSetting>, index: u64) -> (r:
    Job)
    requires
        index < u64::MAX,
    ensures
        r.font.path@ == config.font_path@,
        r.font.size == config.font_size,
        r.font.variations@ == coords@,
        r.text.content@ == config.text@,
        r.text.script is None,
        r.text.direction is None,
        r.text.language is None,
        r.text.features@.len() == 0,
        r.rendering.format@ == "metrics"@,
        r.rendering.width == config.width,
        r.rendering.height == config.height,
        r.id@ == "sweep-"@ + crate::strutil::decimal_chars(index as int + 1),
{
    let mut id = String::from_str("sweep-");
    crate::strutil::append_decimal(index + 1, &mut id);
    let n = coords.len();
    let mut variations: Vec<VariationSetting> = Vec::new();
    let mut i: usize = 0;
    while i < n
        invariant
            i <= n,
            n == coords@.len(),
            variations@.len() == i,
            forall|j: int| 0 <= j < i ==> variations@[j] == coords@[j],
        decreases n - i,
    {
        variations.push(
            VariationSetting { tag: coords[i].tag.clone(), value: coords[i].value },
        );
        proof {
            assert(variations@[i as int].tag@ == coords@[i as int].tag@);
            assert(variations@[i as int] == coords@[i as int]) by {
                assert(variations@[i as int].tag == coords@[i as int].tag);
            }
        }
        i = i + 1;
    }
    proof {
        assert(variations@ =~= coords@);
    }
    Job {
        id,
        font: FontConfig {
            path: config.font_path.clone(),
            size: config.font_size,
            variations,
        },
        text: TextConfig {
            content: config.text.clone(),
            script: None,
            direction: None,
            language: None,
            features: Vec::new(),
        },
        rendering: RenderingConfig {
            format: String::from_str("metrics"),
            encoding: String::from_str("json"),
            width: config.width,
            height: config.height,
        },
    }
}

} // verus!

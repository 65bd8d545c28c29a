//! Error kinds for the render pipeline.
//!
//! Each failure mode of the pipeline gets a distinct kind, so callers can
//! route per-job failures without parsing text. Human-readable text is
//! produced exactly once, by `message`, at the output boundary.

use vstd::prelude::*;
use vstd::string::StringExecFns;

verus! {

/// A pipeline failure, tagged by kind.
#[derive(Clone, Debug)]
pub enum Error {
    /// The job specification is malformed: bad version, empty jobs,
    /// missing or invalid fields.
    InvalidJobSpec { reason: String },
    /// The rendering parameters are out of bounds: bad dimensions, bad
    /// format, or bad size.
    InvalidRenderParams { reason: String },
    /// The font path does not resolve or the file is missing.
    FontNotFound { path: String },
    /// The font file is too large, fails to parse, or names an unsupported
    /// collection entry.
    InvalidFont { path: String, reason: String },
    /// The shaping engine returned no glyphs or errored.
    ShapingFailed { reason: String },
    /// Outline extraction or drawing failed for a specific glyph.
    RasterizationFailed { glyph_id: u32, reason: String },
    /// A path traversal attempt, or a path outside the base directory.
    PathViolation { reason: String },
    /// The job's deadline tripped at a checkpoint.
    Timeout { stage: String },
    /// Table-read failures, buffer mismatches, serialization errors.
    Internal { reason: String },
}

impl Error {
    /// Render the error as human-readable text. The kind's prefix always
    /// appears, followed by the reason recorded at the failure site.
    pub fn message(&self) -> (r: String)
        ensures
            match self {
                Error::InvalidJobSpec { reason } => r@ == "Invalid job spec: "@ + reason@,
                Error::InvalidRenderParams { reason } => r@ == "Invalid render parameters: "@
                    + reason@,
                Error::FontNotFound { path } => r@ == "Font file not found: "@ + path@,
                Error::InvalidFont { path, reason } => r@ == "Invalid font: "@ + reason@,
                Error::ShapingFailed { reason } => r@ == "Shaping failed: "@ + reason@,
                Error::RasterizationFailed { glyph_id, reason } => r@ == "Rasterization failed: "@
                    + reason@,
                Error::PathViolation { reason } => r@ == "Path violation: "@ + reason@,
                Error::Timeout { stage } => r@ == "Timeout at checkpoint: "@ + stage@,
                Error::Internal { reason } => r@ == "Internal error: "@ + reason@,
            },
    {
        match self {
            Error::InvalidJobSpec { reason } => {
                let mut s = String::from_str("Invalid job spec: ");
                s.append(reason.as_str());
                s
            },
            Error::InvalidRenderParams { reason } => {
                let mut s = String::from_str("Invalid render parameters: ");
                s.append(reason.as_str());
                s
            },
            Error::FontNotFound { path } => {
                let mut s = String::from_str("Font file not found: ");
                s.append(path.as_str());
                s
            },
            Error::InvalidFont { path: _, reason } => {
                let mut s = String::from_str("Invalid font: ");
                s.append(reason.as_str());
                s
            },
            Error::ShapingFailed { reason } => {
                let mut s = String::from_str("Shaping failed: ");
                s.append(reason.as_str());
                s
            },
            Error::RasterizationFailed { glyph_id: _, reason } => {
                let mut s = String::from_str("Rasterization failed: ");
                s.append(reason.as_str());
                s
            },
            Error::PathViolation { reason } => {
                let mut s = String::from_str("Path violation: ");
                s.append(reason.as_str());
                s
            },
            Error::Timeout { stage } => {
                let mut s = String::from_str("Timeout at checkpoint: ");
                s.append(stage.as_str());
                s
            },
            Error::Internal { reason } => {
                let mut s = String::from_str("Internal error: ");
                s.append(reason.as_str());
                s
            },
        }
    }
}

} // verus!

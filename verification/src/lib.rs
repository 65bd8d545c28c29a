//! Haforu: batch font rasterization primitives with verified contracts.
//!
//! The library covers the render pipeline's logic: input validation and path
//! sanitization, font variation sanitization, shaping decisions, canvas
//! compositing, image metrics, result caching, and the batch bookkeeping.
//! File and network I/O, the outside shaping engine's full path, and the
//! outline rasterizer live outside the library and hand plain values in.

pub mod batch;
pub mod bufpool;
pub mod cache;
pub mod errors;
pub mod fontfile;
pub mod fonts;
pub mod image_ops;
pub mod memory;
pub mod orchestrator;
pub mod output;
pub mod pipeline;
pub mod render;
pub mod security;
pub mod shaping;
pub mod storage;
pub mod strutil;
pub mod varsweep;

pub use batch::{FontResult, Job, JobResult, JobSpec, MetricsOutput, RenderingOutput, TimingInfo};
pub use errors::Error;
pub use fontfile::FontType;
pub use fonts::{AxisBounds, CacheStats, FontInstance, FontLoader, FontMetadata};
pub use image_ops::{align_and_compare, AlignCompareResult, AlignMethod};
pub use memory::{BatchProcessor, MemoryGuard, MemoryPool, MemoryTracker};
pub use orchestrator::{JobStats, ParallelizationStrategy, WorkGroup};
pub use output::ImageOutput;
pub use pipeline::{ExecutionOptions, MaskRequest, StreamCounters};
pub use render::Image;
pub use security::{validate_font_size, validate_json_size, validate_text_input};
pub use shaping::{ShapePlan, ShapedGlyph, ShapedText};
pub use storage::{IndexEntry, ShardWriter};
pub use varsweep::{SweepConfig, SweepPoint};

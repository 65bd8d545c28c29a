use haforu::batch::{FontConfig, RenderingConfig, TextConfig};
use haforu::pipeline::{
    build_cache_key, build_error_result, build_job_result, fallback_line_id, payload_for_format,
    plan_glyph_placements,
};
use haforu::cache::JobPayload;
use haforu::batch::TimingInfo;
use haforu::{Error, ExecutionOptions, Image, Job, ShapedGlyph, ShapedText, StreamCounters};

fn metrics_job(format: &str) -> Job {
    Job {
        id: "j1".to_string(),
        font: FontConfig { path: "/f.ttf".to_string(), size: 256, variations: vec![] },
        text: TextConfig {
            content: "A".to_string(),
            script: None,
            direction: None,
            language: None,
            features: vec![],
        },
        rendering: RenderingConfig {
            format: format.to_string(),
            encoding: "base64".to_string(),
            width: 4,
            height: 1,
        },
    }
}

#[test]
fn metrics_payload_carries_exact_parts() {
    let job = metrics_job("metrics");
    let image = Image::new(4, 1, vec![0, 255, 255, 0]).unwrap();
    match payload_for_format(&job, &image).unwrap() {
        JobPayload::Metrics(m) => {
            assert_eq!(m.ink_total, 510);
            assert_eq!(m.longest_run, 2);
            assert_eq!(m.pixel_count, 4);
            let density = m.ink_total as f64 / (255.0 * m.pixel_count as f64);
            let beam = m.longest_run as f64 / m.pixel_count as f64;
            assert!(density > 0.0 && density <= 1.0);
            assert!(beam > 0.0 && beam <= 1.0);
        },
        _ => panic!("expected metrics"),
    }
}

#[test]
fn pgm_payload_encodes_the_canvas() {
    let job = metrics_job("pgm");
    let image = Image::new(4, 1, vec![9, 8, 7, 6]).unwrap();
    match payload_for_format(&job, &image).unwrap() {
        JobPayload::Rendering(out) => {
            assert_eq!(out.format, "pgm");
            assert_eq!(out.encoding, "base64");
            assert_eq!(out.width, 4);
            assert_eq!(out.height, 1);
            let mut pgm = b"P5\n4 1\n255\n".to_vec();
            pgm.extend_from_slice(&[9, 8, 7, 6]);
            assert_eq!(out.data, haforu::ImageOutput::encode_base64(&pgm));
        },
        _ => panic!("expected rendering"),
    }
}

#[test]
fn png_jobs_fail_without_an_encoder() {
    let job = metrics_job("png");
    let image = Image::new(4, 1, vec![0; 4]).unwrap();
    assert!(payload_for_format(&job, &image).is_err());
}

#[test]
fn results_carry_exactly_one_payload() {
    let job = metrics_job("metrics");
    let image = Image::new(4, 1, vec![0, 1, 0, 0]).unwrap();
    let payload = payload_for_format(&job, &image).unwrap();
    let r = build_job_result(&job, None, payload, TimingInfo::default());
    assert_eq!(r.status, "success");
    assert!(r.metrics.is_some());
    assert!(r.rendering.is_none());
    assert!(r.error.is_none());

    let e = Error::FontNotFound { path: "/f.ttf".to_string() };
    let r = build_error_result(&job.id, &e, None, TimingInfo::default());
    assert_eq!(r.status, "error");
    assert!(r.error.unwrap().contains("Font file not found"));
    assert!(r.metrics.is_none());
    assert!(r.rendering.is_none());
}

#[test]
fn cache_keys_copy_the_render_inputs() {
    let job = metrics_job("pgm");
    let key = build_cache_key(&job, &"/resolved.ttf".to_string(), &vec![(7, 9)]);
    assert_eq!(key.font_path, "/resolved.ttf");
    assert_eq!(key.font_size, 256);
    assert_eq!(key.width, 4);
    assert_eq!(key.height, 1);
    assert_eq!(key.format, "pgm");
    assert_eq!(key.text, "A");
    assert_eq!(key.variations, vec![(7, 9)]);
}

#[test]
fn glyph_placement_scales_and_advances() {
    // One glyph, size 100 on upem 1000: scale is 0.1 in fixed-point.
    let shaped = ShapedText {
        glyphs: vec![
            ShapedGlyph { glyph_id: 1, x_advance: 500, y_advance: 0, x_offset: 0, y_offset: 0 },
            ShapedGlyph { glyph_id: 2, x_advance: 500, y_advance: 0, x_offset: 10, y_offset: 20 },
        ],
        font_size: 100,
    };
    let plan = plan_glyph_placements(&shaped, 200, 1000, 0);
    assert_eq!(plan.len(), 2);
    let scale = (100u64 * 65536 / 1000) as i128;
    assert_eq!(plan[0].x_fixed, 0);
    // Baseline sits at three quarters of the height.
    assert_eq!(plan[0].y_fixed, (3 * 200 * 65536 / 4) as i128);
    assert_eq!(plan[1].x_fixed, 500 * scale + 10 * scale);
    assert_eq!(plan[1].y_fixed, (3 * 200 * 65536 / 4) as i128 - 20 * scale);
}

#[test]
fn stream_counters_track_successes_and_errors() {
    let mut c = StreamCounters::new();
    c.record(true);
    c.record(false);
    c.record(true);
    assert_eq!(c.processed, 3);
    assert_eq!(c.successes, 2);
    assert_eq!(c.errors, 1);
}

#[test]
fn fallback_ids_number_the_lines() {
    assert_eq!(fallback_line_id(0), "line-1");
    assert_eq!(fallback_line_id(41), "line-42");
}

#[test]
fn options_manage_the_glyph_cache() {
    let mut opts = ExecutionOptions::new(None, None);
    assert_eq!(opts.glyph_cache_capacity(), 0);
    assert!(opts.glyph_cache_stats().is_none());
    opts.set_glyph_cache_capacity(2048);
    assert_eq!(opts.glyph_cache_capacity(), 2048);
    assert_eq!(opts.glyph_cache_stats(), Some((0, 2048, 0)));
    opts.set_glyph_cache_capacity(0);
    assert_eq!(opts.glyph_cache_capacity(), 0);
}

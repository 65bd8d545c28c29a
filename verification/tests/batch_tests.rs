use haforu::batch::{FontConfig, RenderingConfig, TextConfig, VariationSetting};
use haforu::{Job, JobResult, JobSpec};

fn sample_job() -> Job {
    Job {
        id: "test1".to_string(),
        font: FontConfig {
            path: "/path/to/font.ttf".to_string(),
            size: 1000,
            variations: vec![VariationSetting { tag: "wght".to_string(), value: 600 * 65536 }],
        },
        text: TextConfig {
            content: "A".to_string(),
            script: None,
            direction: None,
            language: None,
            features: Vec::new(),
        },
        rendering: RenderingConfig {
            format: "pgm".to_string(),
            encoding: "base64".to_string(),
            width: 3000,
            height: 1200,
        },
    }
}

#[test]
fn test_validate_valid_spec() {
    let spec = JobSpec { version: "1.0".to_string(), jobs: vec![sample_job()] };
    assert!(spec.validate().is_ok());
}

#[test]
fn test_validate_invalid_version() {
    let spec = JobSpec { version: "2.0".to_string(), jobs: vec![] };
    let err = spec.validate().unwrap_err();
    assert!(err.message().contains("Unsupported API version"));
}

#[test]
fn test_validate_empty_jobs() {
    let spec = JobSpec { version: "1.0".to_string(), jobs: vec![] };
    let err = spec.validate().unwrap_err();
    assert!(err.message().contains("empty"));
}

#[test]
fn invalid_dimensions_name_the_canvas() {
    let mut job = sample_job();
    job.rendering.width = 0;
    job.rendering.height = 64;
    let err = job.validate().unwrap_err();
    assert!(err.message().contains("Canvas"));
}

#[test]
fn validation_rejects_each_bad_field() {
    let mut job = sample_job();
    job.id = String::new();
    assert!(job.validate().is_err());

    let mut job = sample_job();
    job.font.size = 0;
    assert!(job.validate().is_err());
    job.font.size = 10001;
    assert!(job.validate().is_err());

    let mut job = sample_job();
    job.text.content = String::new();
    assert!(job.validate().is_err());

    let mut job = sample_job();
    job.text.direction = Some("diagonal".to_string());
    assert!(job.validate().is_err());
    job.text.direction = Some("RTL".to_string());
    assert!(job.validate().is_ok());

    let mut job = sample_job();
    job.text.language = Some("x".repeat(33));
    assert!(job.validate().is_err());
    job.text.language = Some("en-US".to_string());
    assert!(job.validate().is_ok());
    job.text.language = Some("en US".to_string());
    assert!(job.validate().is_err());

    let mut job = sample_job();
    job.text.features = vec!["  ".to_string()];
    assert!(job.validate().is_err());
    job.text.features = vec!["liga=0".to_string(), "kern".to_string()];
    assert!(job.validate().is_ok());
    job.text.features = vec!["kern".to_string(); 65];
    assert!(job.validate().is_err());

    let mut job = sample_job();
    job.rendering.format = "bmp".to_string();
    assert!(job.validate().is_err());
    job.rendering.format = "metrics".to_string();
    assert!(job.validate().is_ok());
}

#[test]
fn error_result_has_no_payload() {
    let r = JobResult::error("abc".to_string(), "Font file not found".to_string());
    assert_eq!(r.id, "abc");
    assert_eq!(r.status, "error");
    assert!(r.rendering.is_none());
    assert!(r.metrics.is_none());
    assert_eq!(r.error.as_deref(), Some("Font file not found"));
    assert!(r.font.is_none());
}

use haforu::batch::VariationSetting;
use haforu::SweepConfig;

#[test]
fn sweep_points_become_metrics_jobs() {
    let config = SweepConfig {
        font_path: "/fonts/var.ttf".to_string(),
        font_size: 256,
        text: "A".to_string(),
        width: 64,
        height: 64,
        coord_sets: vec![vec![VariationSetting { tag: "wght".to_string(), value: 700 * 65536 }]],
    };
    let job = haforu::varsweep::build_sweep_job(&config, &config.coord_sets[0], 0);
    assert_eq!(job.id, "sweep-1");
    assert_eq!(job.font.path, "/fonts/var.ttf");
    assert_eq!(job.font.size, 256);
    assert_eq!(job.font.variations.len(), 1);
    assert_eq!(job.font.variations[0].tag, "wght");
    assert_eq!(job.font.variations[0].value, 700 * 65536);
    assert_eq!(job.rendering.format, "metrics");
    assert_eq!(job.rendering.width, 64);
    assert!(job.validate().is_ok());
}

use haforu::batch::{MetricsOutput, RenderingOutput};
use haforu::cache::{GlyphCache, GlyphCacheKey, JobPayload};
use haforu::batch::BBox;

fn key(text: &str) -> GlyphCacheKey {
    GlyphCacheKey {
        font_path: "font".to_string(),
        font_size: 640,
        width: 64,
        height: 64,
        format: "pgm".to_string(),
        encoding: "base64".to_string(),
        text: text.to_string(),
        script: Some("Latn".to_string()),
        variations: vec![],
    }
}

#[test]
fn glyph_cache_stores_and_retrieves_payloads() {
    let mut cache = GlyphCache::new(4).expect("cache enabled");
    let payload = JobPayload::Rendering(RenderingOutput {
        format: "pgm".to_string(),
        encoding: "base64".to_string(),
        data: "data".to_string(),
        width: 64,
        height: 64,
        actual_bbox: BBox { x: 0, y: 0, w: 0, h: 0 },
    });
    cache.insert(key("A"), payload);
    let hit = cache.get(&key("A")).expect("payload present");
    match hit {
        JobPayload::Rendering(output) => assert_eq!(output.data, "data"),
        _ => panic!("expected rendering payload"),
    }
    assert_eq!(cache.stats().hits, 1);
}

#[test]
fn glyph_cache_can_be_disabled() {
    assert!(GlyphCache::new(0).is_none());
}

#[test]
fn repeated_hits_increase_the_counter() {
    let mut cache = GlyphCache::new(2).unwrap();
    let m = JobPayload::Metrics(MetricsOutput { ink_total: 5, longest_run: 2, pixel_count: 16 });
    cache.insert(key("B"), m);
    assert!(cache.get(&key("B")).is_some());
    assert!(cache.get(&key("B")).is_some());
    assert_eq!(cache.stats().hits, 2);
    assert!(cache.get(&key("C")).is_none());
    assert_eq!(cache.stats().hits, 2);
}

#[test]
fn lru_eviction_drops_the_oldest_entry() {
    let mut cache = GlyphCache::new(2).unwrap();
    let m = |v| JobPayload::Metrics(MetricsOutput { ink_total: v, longest_run: 1, pixel_count: 4 });
    cache.insert(key("A"), m(1));
    cache.insert(key("B"), m(2));
    // Touch A so B becomes the least recently used entry.
    assert!(cache.get(&key("A")).is_some());
    cache.insert(key("C"), m(3));
    assert!(cache.get(&key("B")).is_none());
    assert!(cache.get(&key("A")).is_some());
    assert!(cache.get(&key("C")).is_some());
}

#[test]
fn identical_keys_serve_identical_payloads() {
    let mut cache = GlyphCache::new(4).unwrap();
    let m = JobPayload::Metrics(MetricsOutput { ink_total: 7, longest_run: 3, pixel_count: 9 });
    cache.insert(key("D"), m);
    let first = cache.get(&key("D")).unwrap();
    let second = cache.get(&key("D")).unwrap();
    match (first, second) {
        (JobPayload::Metrics(a), JobPayload::Metrics(b)) => {
            assert_eq!(a.ink_total, b.ink_total);
            assert_eq!(a.longest_run, b.longest_run);
            assert_eq!(a.pixel_count, b.pixel_count);
        },
        _ => panic!("expected metrics payloads"),
    }
}

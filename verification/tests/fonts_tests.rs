use haforu::batch::VariationSetting;
use haforu::fonts::{
    clamp_coordinates, font_key_eq, sort_pairs_by_tag, FontCacheKey, WDTH_TAG, WGHT_TAG,
};
use haforu::{AxisBounds, FontLoader};

fn fixed(v: i32) -> i32 {
    v * 65536
}

#[test]
fn test_cache_key_equality() {
    let key1 = FontCacheKey {
        path: "font.ttf".to_string(),
        coordinates: vec![(WGHT_TAG, fixed(600))],
    };
    let key2 = FontCacheKey {
        path: "font.ttf".to_string(),
        coordinates: vec![(WGHT_TAG, fixed(600))],
    };
    assert!(font_key_eq(&key1, &key2));
}

#[test]
fn test_cache_key_inequality_different_coords() {
    let key1 = FontCacheKey {
        path: "font.ttf".to_string(),
        coordinates: vec![(WGHT_TAG, fixed(600))],
    };
    let key2 = FontCacheKey {
        path: "font.ttf".to_string(),
        coordinates: vec![(WGHT_TAG, fixed(700))],
    };
    assert!(!font_key_eq(&key1, &key2));
}

#[test]
fn unknown_axes_are_dropped_and_known_axes_clamped() {
    // A variable font with wght 100..1000 and wdth 25..150.
    let axes = vec![
        AxisBounds { tag: WGHT_TAG, min: fixed(100), def: fixed(400), max: fixed(1000) },
        AxisBounds { tag: WDTH_TAG, min: fixed(25), def: fixed(100), max: fixed(150) },
    ];
    let coords = vec![
        VariationSetting { tag: "wght".to_string(), value: fixed(2500) },
        VariationSetting { tag: "wdth".to_string(), value: fixed(5) },
        VariationSetting { tag: "ZZZZ".to_string(), value: fixed(12) },
    ];
    let applied = clamp_coordinates(&axes, &coords);
    // wght: font max 1000 intersected with the hard clamp 900 -> 900.
    // wdth: font min 25 intersected with the hard clamp 50 -> 50.
    assert_eq!(applied, vec![(WGHT_TAG, fixed(900)), (WDTH_TAG, fixed(50))]);
}

#[test]
fn static_font_applies_nothing() {
    let axes: Vec<AxisBounds> = Vec::new();
    let coords = vec![
        VariationSetting { tag: "wght".to_string(), value: fixed(700) },
        VariationSetting { tag: "ZZZZ".to_string(), value: fixed(12) },
    ];
    let applied = clamp_coordinates(&axes, &coords);
    assert!(applied.is_empty());
}

#[test]
fn coordinate_order_does_not_affect_the_key() {
    let a = sort_pairs_by_tag(vec![(WGHT_TAG, fixed(700)), (WDTH_TAG, fixed(100))]);
    let b = sort_pairs_by_tag(vec![(WDTH_TAG, fixed(100)), (WGHT_TAG, fixed(700))]);
    assert_eq!(a, b);
}

#[test]
fn font_loader_reports_capacity() {
    let loader = FontLoader::new(256);
    let (used, cap) = loader.cache_stats();
    assert_eq!(used, 0);
    assert_eq!(cap, 256);
}

#[test]
fn font_loader_resize_to_zero_disables_caching() {
    let mut loader = FontLoader::new(4);
    loader.set_capacity(0);
    let (used, cap) = loader.cache_stats();
    assert_eq!(used, 0);
    assert_eq!(cap, 0);
}

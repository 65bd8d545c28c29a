use haforu::batch::TextConfig;
use haforu::shaping::{
    build_features, parse_direction, parse_feature, parse_script, plan_shaping,
    shaped_from_glyphs, Direction,
};
use haforu::{ShapePlan, ShapedGlyph, ShapedText};

#[test]
fn directions_parse_case_insensitively() {
    assert_eq!(parse_direction("ltr"), Some(Direction::Ltr));
    assert_eq!(parse_direction("RTL"), Some(Direction::Rtl));
    assert_eq!(parse_direction("Ttb"), Some(Direction::Ttb));
    assert_eq!(parse_direction("btt"), Some(Direction::Btt));
    assert_eq!(parse_direction("diagonal"), None);
    assert_eq!(parse_direction(""), None);
}

#[test]
fn scripts_must_be_four_character_tags() {
    assert!(parse_script("Latn").is_some());
    assert!(parse_script("arab").is_some());
    assert!(parse_script("La").is_none());
    assert!(parse_script("toolong").is_none());
}

#[test]
fn features_follow_the_engine_format() {
    // tag=value
    let (tag, value) = parse_feature("liga=0").unwrap();
    assert_eq!(tag, u32::from_be_bytes(*b"liga"));
    assert_eq!(value, 0);
    // bare tag defaults to one
    let (tag, value) = parse_feature("kern").unwrap();
    assert_eq!(tag, u32::from_be_bytes(*b"kern"));
    assert_eq!(value, 1);
    // short tags are padded with spaces
    let (tag, _) = parse_feature("ab").unwrap();
    assert_eq!(tag, u32::from_be_bytes(*b"ab  "));
    // long tags are truncated to four characters
    let (tag, _) = parse_feature("kerning=2").unwrap();
    assert_eq!(tag, u32::from_be_bytes(*b"kern"));
    // an unparsable value defaults to one
    let (_, value) = parse_feature("liga=x9").unwrap();
    assert_eq!(value, 1);

    let list = vec!["liga=0".to_string(), "kern".to_string()];
    let built = build_features(&list);
    assert_eq!(built.len(), 2);
    assert_eq!(built[0], (u32::from_be_bytes(*b"liga"), 0));
    assert_eq!(built[1], (u32::from_be_bytes(*b"kern"), 1));
}

#[test]
fn empty_and_single_glyph_advances() {
    let shaped = ShapedText { glyphs: vec![], font_size: 100 };
    assert_eq!(shaped.total_advance_width(), 0);

    let shaped = ShapedText {
        glyphs: vec![ShapedGlyph {
            glyph_id: 1,
            x_advance: 500,
            y_advance: 0,
            x_offset: 0,
            y_offset: 0,
        }],
        font_size: 100,
    };
    assert_eq!(shaped.total_advance_width(), 500);
}

#[test]
fn shaped_from_engine_output_rejects_empty_runs() {
    assert!(shaped_from_glyphs(vec![], 72).is_err());
    let run = shaped_from_glyphs(
        vec![ShapedGlyph { glyph_id: 3, x_advance: 10, y_advance: 0, x_offset: 1, y_offset: 2 }],
        72,
    )
    .unwrap();
    assert_eq!(run.glyphs.len(), 1);
    assert_eq!(run.font_size, 72);
}

#[test]
fn fast_path_requires_bare_single_codepoint() {
    // plan_shaping needs a FontInstance; the decision on hints alone is
    // visible through the text config before any font is involved.
    let bare = TextConfig {
        content: "A".to_string(),
        script: None,
        direction: None,
        language: None,
        features: Vec::new(),
    };
    let hinted = TextConfig { script: Some("Latn".to_string()), ..bare.clone() };
    // Build a minimal static font to carry the (empty) coordinate set.
    let data = minimal_font_bytes();
    let inst = haforu::FontInstance::from_bytes(data, &Vec::new()).expect("font parses");
    assert_eq!(inst.units_per_em(), 1000);
    assert!(inst.axes().is_empty());
    assert_eq!(plan_shaping(&bare, &inst), ShapePlan::FastPath);
    assert_eq!(plan_shaping(&hinted, &inst), ShapePlan::FullShaping);
    let two = TextConfig { content: "AB".to_string(), ..bare };
    assert_eq!(plan_shaping(&two, &inst), ShapePlan::FullShaping);
}

#[test]
fn fast_path_reads_the_character_map_and_metrics() {
    let data = font_with_cmap_and_metrics();
    let inst = haforu::FontInstance::from_bytes(data, &Vec::new()).expect("font parses");
    let run = haforu::shaping::shape_single_char(&inst, 'A', 256).expect("mapped character");
    assert_eq!(run.font_size, 256);
    assert_eq!(run.glyphs.len(), 1);
    assert_eq!(run.glyphs[0].glyph_id, 1);
    assert_eq!(run.glyphs[0].x_advance, 550);
    assert_eq!(run.glyphs[0].x_offset, 0);
    assert_eq!(run.glyphs[0].y_offset, 0);
    // A character outside the map is a per-job failure, not a panic.
    assert!(haforu::shaping::shape_single_char(&inst, 'Z', 256).is_err());
}

/// An sfnt with head, maxp, hhea, hmtx, and a cmap mapping `A` to glyph 1
/// with advance 550: just enough for the single-codepoint fast path.
fn font_with_cmap_and_metrics() -> Vec<u8> {
    let mut head = vec![0u8; 54];
    head[0..4].copy_from_slice(&[0, 1, 0, 0]);
    head[12..16].copy_from_slice(&0x5F0F3CF5u32.to_be_bytes());
    head[18..20].copy_from_slice(&1000u16.to_be_bytes());

    let mut maxp = Vec::new();
    maxp.extend_from_slice(&0x00005000u32.to_be_bytes()); // version 0.5
    maxp.extend_from_slice(&2u16.to_be_bytes()); // numGlyphs

    let mut hhea = vec![0u8; 36];
    hhea[0..4].copy_from_slice(&[0, 1, 0, 0]);
    hhea[34..36].copy_from_slice(&2u16.to_be_bytes()); // numberOfHMetrics

    let mut hmtx = Vec::new();
    hmtx.extend_from_slice(&500u16.to_be_bytes()); // gid 0 advance
    hmtx.extend_from_slice(&0i16.to_be_bytes());
    hmtx.extend_from_slice(&550u16.to_be_bytes()); // gid 1 advance
    hmtx.extend_from_slice(&0i16.to_be_bytes());

    // cmap: one format 4 subtable, platform 3 encoding 1, mapping 0x41 -> 1.
    let mut sub = Vec::new();
    sub.extend_from_slice(&4u16.to_be_bytes()); // format
    sub.extend_from_slice(&32u16.to_be_bytes()); // length
    sub.extend_from_slice(&0u16.to_be_bytes()); // language
    sub.extend_from_slice(&4u16.to_be_bytes()); // segCountX2
    sub.extend_from_slice(&4u16.to_be_bytes()); // searchRange
    sub.extend_from_slice(&1u16.to_be_bytes()); // entrySelector
    sub.extend_from_slice(&0u16.to_be_bytes()); // rangeShift
    sub.extend_from_slice(&0x41u16.to_be_bytes()); // endCode[0]
    sub.extend_from_slice(&0xFFFFu16.to_be_bytes()); // endCode[1]
    sub.extend_from_slice(&0u16.to_be_bytes()); // reservedPad
    sub.extend_from_slice(&0x41u16.to_be_bytes()); // startCode[0]
    sub.extend_from_slice(&0xFFFFu16.to_be_bytes()); // startCode[1]
    sub.extend_from_slice(&(1i16 - 0x41i16).to_be_bytes()); // idDelta[0]
    sub.extend_from_slice(&1i16.to_be_bytes()); // idDelta[1]
    sub.extend_from_slice(&0u16.to_be_bytes()); // idRangeOffsets[0]
    sub.extend_from_slice(&0u16.to_be_bytes()); // idRangeOffsets[1]
    let mut cmap = Vec::new();
    cmap.extend_from_slice(&0u16.to_be_bytes()); // version
    cmap.extend_from_slice(&1u16.to_be_bytes()); // numTables
    cmap.extend_from_slice(&3u16.to_be_bytes()); // platform
    cmap.extend_from_slice(&1u16.to_be_bytes()); // encoding
    cmap.extend_from_slice(&12u32.to_be_bytes()); // subtable offset
    cmap.extend_from_slice(&sub);

    let tables: Vec<(&[u8; 4], Vec<u8>)> = vec![
        (b"cmap", cmap),
        (b"head", head),
        (b"hhea", hhea),
        (b"hmtx", hmtx),
        (b"maxp", maxp),
    ];
    let mut font = Vec::new();
    font.extend_from_slice(&[0, 1, 0, 0]);
    font.extend_from_slice(&(tables.len() as u16).to_be_bytes());
    font.extend_from_slice(&64u16.to_be_bytes());
    font.extend_from_slice(&2u16.to_be_bytes());
    font.extend_from_slice(&16u16.to_be_bytes());
    let mut offset = 12 + 16 * tables.len();
    let mut directory = Vec::new();
    let mut body = Vec::new();
    for (tag, data) in &tables {
        directory.extend_from_slice(*tag);
        directory.extend_from_slice(&0u32.to_be_bytes()); // checksum
        directory.extend_from_slice(&(offset as u32).to_be_bytes());
        directory.extend_from_slice(&(data.len() as u32).to_be_bytes());
        offset += data.len();
        let pad = (4 - data.len() % 4) % 4;
        offset += pad;
        body.extend_from_slice(data);
        body.extend_from_slice(&vec![0u8; pad]);
    }
    font.extend_from_slice(&directory);
    font.extend_from_slice(&body);
    font
}

// A minimal sfnt with only a `head` table: enough for the parser to accept
// the file and read unitsPerEm, declaring no variation axes.
fn minimal_font_bytes() -> Vec<u8> {
    let mut head = vec![0u8; 54];
    head[0..4].copy_from_slice(&[0, 1, 0, 0]); // version 1.0
    head[12..16].copy_from_slice(&0x5F0F3CF5u32.to_be_bytes()); // magic
    head[18..20].copy_from_slice(&1000u16.to_be_bytes()); // unitsPerEm
    head[50..52].copy_from_slice(&0u16.to_be_bytes()); // indexToLocFormat

    let mut font = Vec::new();
    font.extend_from_slice(&[0, 1, 0, 0]); // sfnt version
    font.extend_from_slice(&1u16.to_be_bytes()); // numTables
    font.extend_from_slice(&16u16.to_be_bytes()); // searchRange
    font.extend_from_slice(&0u16.to_be_bytes()); // entrySelector
    font.extend_from_slice(&0u16.to_be_bytes()); // rangeShift
    font.extend_from_slice(b"head");
    font.extend_from_slice(&0u32.to_be_bytes()); // checksum
    font.extend_from_slice(&28u32.to_be_bytes()); // offset
    font.extend_from_slice(&54u32.to_be_bytes()); // length
    font.extend_from_slice(&head);
    font
}

#[test]
fn run_bounding_box_spans_all_glyphs() {
    let shaped = ShapedText { glyphs: vec![], font_size: 100 };
    assert_eq!(shaped.bounding_box(), (0, 0, 0, 0));

    let shaped = ShapedText {
        glyphs: vec![
            ShapedGlyph { glyph_id: 1, x_advance: 500, y_advance: 0, x_offset: 0, y_offset: -10 },
            ShapedGlyph { glyph_id: 2, x_advance: 300, y_advance: 0, x_offset: 20, y_offset: 40 },
        ],
        font_size: 100,
    };
    // Positions: glyph 1 at x 0..500, glyph 2 at x 520..820; y spans -10..40.
    assert_eq!(shaped.bounding_box(), (0, -10, 820, 50));
}

#[test]
fn empty_runs_carry_only_their_size() {
    let run = ShapedText::empty_run(72);
    assert_eq!(run.glyphs.len(), 0);
    assert_eq!(run.font_size, 72);
}

use haforu::batch::BBox;
use haforu::render::{composite_mask, invert_canvas};
use haforu::Image;

#[test]
fn image_rejects_invalid_dimensions() {
    let result = Image::new(0, 10, vec![]);
    assert!(result.is_err());

    let result = Image::new(10, 10, vec![0u8; 5]);
    assert!(result.is_err());
}

#[test]
fn image_is_empty_detects_blank_canvas() {
    let img = Image::new(4, 4, vec![0u8; 16]).unwrap();
    assert!(img.is_empty());

    let mut pixels = vec![0u8; 16];
    pixels[3] = 1;
    let img = Image::new(4, 4, pixels).unwrap();
    assert!(!img.is_empty());
}

#[test]
fn calculate_bbox_handles_basic_shapes() {
    let mut pixels = vec![0u8; 100 * 50];
    assert_eq!(
        Image::new(100, 50, pixels.clone()).unwrap().calculate_bbox(),
        BBox { x: 0, y: 0, w: 0, h: 0 }
    );

    pixels[25 * 100 + 50] = 255;
    assert_eq!(
        Image::new(100, 50, pixels.clone()).unwrap().calculate_bbox(),
        BBox { x: 50, y: 25, w: 1, h: 1 }
    );

    pixels.fill(0);
    for y in 10..15 {
        for x in 20..30 {
            pixels[y * 100 + x] = 255;
        }
    }
    assert_eq!(
        Image::new(100, 50, pixels).unwrap().calculate_bbox(),
        BBox { x: 20, y: 10, w: 10, h: 5 }
    );
}

#[test]
fn density_parts_report_lit_pixel_ratio() {
    let img = Image::new(4, 1, vec![0, 0, 255, 255]).unwrap();
    let m = img.metrics();
    assert_eq!(m.ink_total, 510);
    assert_eq!(m.pixel_count, 4);
    let density = m.ink_total as f64 / (255.0 * m.pixel_count as f64);
    assert!((density - 0.5).abs() < 1e-9);

    let blank = Image::new(2, 2, vec![0; 4]).unwrap();
    assert_eq!(blank.metrics().ink_total, 0);
}

#[test]
fn beam_parts_report_longest_run_ratio() {
    let img = Image::new(5, 1, vec![0, 255, 255, 0, 255]).unwrap();
    let m = img.metrics();
    assert_eq!(m.longest_run, 2);
    let beam = m.longest_run as f64 / m.pixel_count as f64;
    assert!((beam - 0.4).abs() < 1e-9);

    let blank = Image::new(3, 1, vec![0; 3]).unwrap();
    assert_eq!(blank.metrics().longest_run, 0);
}

#[test]
fn block_kernels_agree_with_plain_kernels() {
    // A pattern longer than one 32-byte block, with runs crossing block
    // boundaries.
    let mut pixels = vec![0u8; 100];
    for i in 20..55 {
        pixels[i] = (i as u8).max(1);
    }
    pixels[77] = 3;
    let img = Image::new(100, 1, pixels).unwrap();
    assert_eq!(img.pixel_sum(), img.pixel_sum_blocks());
    assert_eq!(img.longest_run(), img.longest_run_blocks());
    assert_eq!(img.longest_run(), 35);
}

#[test]
fn pixel_delta_parts_detect_incomparable_images() {
    let img = Image::new(4, 4, vec![0u8; 16]).unwrap();
    assert!(img.pixel_delta_parts(&img).is_none());

    let other = Image::new(2, 8, vec![1u8; 16]).unwrap();
    let lit = Image::new(4, 4, vec![1u8; 16]).unwrap();
    assert!(lit.pixel_delta_parts(&other).is_none());

    let left = Image::new(2, 2, vec![0, 0, 0, 255]).unwrap();
    let right = Image::new(2, 2, vec![255, 0, 0, 255]).unwrap();
    assert_eq!(left.pixel_delta_parts(&right), Some(255));
}

#[test]
fn composite_blends_and_clips() {
    // 4x4 canvas, 2x2 mask placed at (1, 1).
    let mut canvas = vec![0u8; 16];
    let mask = vec![255, 128, 0, 255];
    composite_mask(&mut canvas, 4, 4, &mask, 1, 1, 2, 2);
    assert_eq!(canvas[1 * 4 + 1], 255);
    assert_eq!(canvas[1 * 4 + 2], 128);
    assert_eq!(canvas[2 * 4 + 1], 0);
    assert_eq!(canvas[2 * 4 + 2], 255);
    assert_eq!(canvas[0], 0);

    // Placement partly off the canvas clips instead of wrapping.
    let mut canvas2 = vec![0u8; 16];
    composite_mask(&mut canvas2, 4, 4, &mask, -1, -1, 2, 2);
    assert_eq!(canvas2[0], 255); // mask's bottom-right sample lands at (0,0)
    assert_eq!(canvas2[1], 0);

    // Blending is saturating over existing ink.
    let mut canvas3 = vec![200u8; 1];
    composite_mask(&mut canvas3, 1, 1, &vec![255u8], 0, 0, 1, 1);
    assert_eq!(canvas3[0], 255);
}

#[test]
fn invert_turns_ink_dark_on_light() {
    let mut canvas = vec![0u8, 255, 128, 10];
    invert_canvas(&mut canvas);
    assert_eq!(canvas, vec![255u8, 0, 127, 245]);
}

use haforu::image_ops::{dark_count, find_dark_bounding_box};
use haforu::{align_and_compare, AlignMethod};

#[test]
fn test_bounding_box() {
    // 3x3 image with dark center pixel
    let data = vec![255, 255, 255, 255, 0, 255, 255, 255, 255];

    let bbox = find_dark_bounding_box(&data, 3, 3, 128);
    assert_eq!(bbox, Some((1, 1, 1, 1)), "Bounding box should be center pixel");
}

#[test]
fn bounding_box_none_on_all_white() {
    let data = vec![255u8; 9];
    assert_eq!(find_dark_bounding_box(&data, 3, 3, 128), None);
}

#[test]
fn dark_count_matches_density_numerator() {
    let all_white = vec![255u8; 100];
    assert_eq!(dark_count(&all_white, 128), 0);

    let all_black = vec![0u8; 100];
    assert_eq!(dark_count(&all_black, 128), 100);

    let density = dark_count(&all_black, 128) as f64 / all_black.len() as f64;
    assert!(density > 0.99);
}

#[test]
fn align_identical_images_has_zero_delta() {
    let data_a = vec![0, 255, 255, 0];
    let data_b = data_a.clone();

    let result = align_and_compare(&data_a, 2, 2, &data_b, 2, 2, AlignMethod::Center);

    assert_eq!(result.width, 2);
    assert_eq!(result.height, 2);
    assert_eq!(result.delta_sum, 0);
    let pixel_delta = result.delta_sum as f32 / (result.width * result.height) as f32;
    assert!(pixel_delta < 0.1);
}

#[test]
fn align_different_sizes_pads_on_white() {
    let data_a = vec![0u8; 4]; // 2x2 all dark
    let data_b = vec![255u8; 9]; // 3x3 all white

    let result = align_and_compare(&data_a, 2, 2, &data_b, 3, 3, AlignMethod::Center);

    assert_eq!(result.width, 3);
    assert_eq!(result.height, 3);
    assert!(result.delta_sum > 0);
    assert_eq!(result.dark_a, 4);
    assert_eq!(result.dark_b, 0);
    // A is centered: its four dark pixels sit inside the 3x3 canvas.
    let dark_in_aligned = result.aligned_a.iter().filter(|&&p| p < 128).count();
    assert_eq!(dark_in_aligned, 4);
}

#[test]
fn corner_alignment_places_at_origin() {
    let data_a = vec![0u8; 1];
    let data_b = vec![255u8; 9];
    let result = align_and_compare(&data_a, 1, 1, &data_b, 3, 3, AlignMethod::CornerTopLeft);
    assert_eq!(result.aligned_a[0], 0);
    assert!(result.aligned_a[1..].iter().all(|&p| p == 255));
}

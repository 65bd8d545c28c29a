use haforu::ImageOutput;

#[test]
fn pgm_header_is_exact() {
    let pixels = vec![1u8, 2, 3, 4, 5, 6];
    let pgm = ImageOutput::write_pgm_binary(&pixels, 3, 2).unwrap();
    let mut expected = b"P5\n3 2\n255\n".to_vec();
    expected.extend_from_slice(&pixels);
    assert_eq!(pgm, expected);
}

#[test]
fn pgm_rejects_bad_inputs() {
    assert!(ImageOutput::write_pgm_binary(&vec![0u8; 5], 3, 2).is_err());
    assert!(ImageOutput::write_pgm_binary(&vec![], 0, 2).is_err());
    assert!(ImageOutput::write_pgm_binary(&vec![0u8; 20001 * 1], 20001, 1).is_err());
}

#[test]
fn pgm_round_trips_pixels_exactly() {
    let pixels: Vec<u8> = (0..=255u8).chain(0..=255u8).collect();
    let pgm = ImageOutput::write_pgm_binary(&pixels, 32, 16).unwrap();
    let image = ImageOutput::parse_pgm_binary(&pgm).expect("own encoding parses");
    assert_eq!(image.width(), 32);
    assert_eq!(image.height(), 16);
    assert_eq!(image.pixels(), &pixels);
    // Re-encode: byte-identical.
    let again = ImageOutput::write_pgm_binary(image.pixels(), image.width(), image.height()).unwrap();
    assert_eq!(again, pgm);
}

#[test]
fn pgm_parser_rejects_malformed_headers() {
    assert!(ImageOutput::parse_pgm_binary(&b"P6\n1 1\n255\nx".to_vec()).is_none());
    assert!(ImageOutput::parse_pgm_binary(&b"P5\n01 1\n255\nx".to_vec()).is_none());
    assert!(ImageOutput::parse_pgm_binary(&b"P5\n1 1\n255\n".to_vec()).is_none());
    assert!(ImageOutput::parse_pgm_binary(&b"P5\n1 1\n255\nxy".to_vec()).is_none());
}

#[test]
fn base64_uses_the_standard_alphabet() {
    assert_eq!(ImageOutput::encode_base64(&b"hello".to_vec()), "aGVsbG8=");
    assert_eq!(ImageOutput::encode_base64(&Vec::new()), "");
    assert_eq!(ImageOutput::encode_base64(&vec![251u8, 239]), "++8=");
}

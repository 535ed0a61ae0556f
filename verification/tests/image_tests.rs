use edrefis::image::{decode_png_rgba, header_failure, rgba_result};

/// A 2×1 RGB PNG: pixels (10, 20, 30) and (40, 50, 60).
const TWO_PIXELS: [u8; 72] = [
    137, 80, 78, 71, 13, 10, 26, 10, 0, 0, 0, 13, 73, 72, 68, 82, 0, 0, 0, 2, 0, 0, 0, 1, 8, 2, 0, 0, 0, 123, 64,
    232, 221, 0, 0, 0, 15, 73, 68, 65, 84, 120, 156, 99, 224, 18, 145, 211, 48, 178, 1, 0, 2, 55, 0, 211, 91, 86, 81,
    216, 0, 0, 0, 0, 73, 69, 78, 68, 174, 66, 96, 130,
];

#[test]
fn rgb_png_becomes_rgba() {
    let image = decode_png_rgba(&TWO_PIXELS).unwrap();
    assert_eq!((image.width, image.height), (2, 1));
    assert_eq!(image.pixels, vec![10, 20, 30, 255, 40, 50, 60, 255]);
}

#[test]
fn bytes_that_are_not_png_fail_at_the_header() {
    let e = decode_png_rgba(b"not a png at all").err().unwrap();
    assert!(e.starts_with("failed to decode PNG header: "), "{}", e);
}

#[test]
fn truncated_png_fails_at_decoding() {
    let e = decode_png_rgba(&TWO_PIXELS[..40]).err().unwrap();
    assert!(e.starts_with("failed to decode PNG: "), "{}", e);
}

#[test]
fn failure_text_is_the_prefix_and_the_decoder_message() {
    let bad = b"not a png at all";
    let header = minipng::decode_png_header(bad).err().unwrap().to_string();
    assert_eq!(decode_png_rgba(bad).err().unwrap(), format!("failed to decode PNG header: {}", header));
    let cut = &TWO_PIXELS[..40];
    let mut buffer = vec![0u8; 64];
    let decode = minipng::decode_png(cut, &mut buffer).err().unwrap().to_string();
    assert_eq!(decode_png_rgba(cut).err().unwrap(), format!("failed to decode PNG: {}", decode));
}

#[test]
fn stage_results_become_image_or_text() {
    assert_eq!(header_failure("bad".to_string()), "failed to decode PNG header: bad");
    assert_eq!(rgba_result(Err((true, "x".to_string()))).err().unwrap(), "failed to decode PNG: x");
    assert_eq!(
        rgba_result(Err((false, "y".to_string()))).err().unwrap(),
        "failed to convert PNG to rgba8bpc: y"
    );
    let image = rgba_result(Ok((1, 2, vec![1, 2, 3, 4, 5, 6, 7, 8]))).ok().unwrap();
    assert_eq!((image.width, image.height, image.pixels), (1, 2, vec![1, 2, 3, 4, 5, 6, 7, 8]));
}

use dino_jump::pixel_mask::{try_load_mask, ImageData, PixelMask};

/// A 2x2 RGBA image; `alphas` are the alpha bytes in row-major order.
fn rgba_2x2(alphas: [u8; 4]) -> ImageData {
    let mut data = Vec::new();
    for a in alphas {
        data.extend_from_slice(&[10, 20, 30, a]);
    }
    ImageData { width: 2, height: 2, data: Some(data) }
}

#[test]
fn from_image_marks_pixels_with_alpha() {
    let mask = PixelMask::from_image(&rgba_2x2([0, 255, 1, 0]));
    assert_eq!(mask.width, 2);
    assert_eq!(mask.height, 2);
    assert_eq!(mask.data, vec![0, 1, 1, 0]);
}

#[test]
fn from_image_without_data_is_transparent() {
    let mask = PixelMask::from_image(&ImageData { width: 3, height: 2, data: None });
    assert_eq!(mask.data, vec![0; 6]);
}

#[test]
fn from_image_short_data_leaves_missing_pixels_transparent() {
    // Only the first pixel and half of the second are present.
    let image = ImageData { width: 2, height: 1, data: Some(vec![0, 0, 0, 9, 0, 0]) };
    let mask = PixelMask::from_image(&image);
    assert_eq!(mask.data, vec![1, 0]);
}

#[test]
fn from_image_empty_image() {
    let mask = PixelMask::from_image(&ImageData { width: 0, height: 5, data: Some(vec![]) });
    assert!(mask.data.is_empty());
}

#[test]
fn is_opaque_reads_row_major_with_top_left_origin() {
    let mask = PixelMask::from_image(&rgba_2x2([0, 255, 1, 0]));
    assert!(!mask.is_opaque(0, 0));
    assert!(mask.is_opaque(1, 0));
    assert!(mask.is_opaque(0, 1));
    assert!(!mask.is_opaque(1, 1));
}

#[test]
fn is_opaque_out_of_bounds_is_false() {
    let mask = PixelMask { width: 2, height: 2, data: vec![1, 1, 1, 1] };
    assert!(!mask.is_opaque(-1, 0));
    assert!(!mask.is_opaque(0, -1));
    assert!(!mask.is_opaque(2, 0));
    assert!(!mask.is_opaque(0, 2));
    assert!(!mask.is_opaque(i32::MIN, i32::MAX));
    assert!(mask.is_opaque(1, 1));
}

#[test]
fn is_opaque_width_beyond_i32_has_no_pixel() {
    let mask = PixelMask { width: 3_000_000_000, height: 0, data: vec![] };
    assert!(!mask.is_opaque(0, 0));
    assert!(!mask.is_opaque(5, 0));
}

#[test]
fn try_load_mask_waits_for_the_image() {
    assert!(try_load_mask(None).is_none());
    let image = rgba_2x2([1, 0, 0, 1]);
    let mask = try_load_mask(Some(&image)).expect("loaded image gives a mask");
    assert_eq!(mask.data, vec![1, 0, 0, 1]);
}

#[test]
fn mask_pixel_matches_alpha_law_on_values() {
    // Every pixel of the mask agrees with the alpha byte of the image.
    let alphas = [0u8, 7, 0, 200];
    let image = rgba_2x2(alphas);
    let mask = PixelMask::from_image(&image);
    for y in 0..2i32 {
        for x in 0..2i32 {
            let alpha = alphas[(y * 2 + x) as usize];
            assert_eq!(mask.is_opaque(x, y), alpha > 0);
        }
    }
}

use rust_image_fiddler::image::{pad_image, png_bit_depth, png_image_data, PngLayoutError};
use rust_image_fiddler::rgba::{indexed_to_rgba, palette_to_rgba, rgba_to_grayscale};
use rust_image_fiddler::transmit::PaletteColor;

#[test]
fn pad_centres_image() {
    let (out, w, h) = pad_image(vec![1, 2, 3, 4], 0, 2, 2, 5, 4);
    assert_eq!((w, h), (5, 4));
    assert_eq!(
        out,
        vec![
            0, 0, 0, 0, 0, //
            0, 1, 2, 0, 0, //
            0, 3, 4, 0, 0, //
            0, 0, 0, 0, 0,
        ]
    );
}

#[test]
fn pad_same_size_is_unchanged() {
    let (out, w, h) = pad_image(vec![5, 6, 7], 9, 3, 1, 3, 1);
    assert_eq!(out, vec![5, 6, 7]);
    assert_eq!((w, h), (3, 1));
}

#[test]
fn pad_height_only() {
    let (out, _, _) = pad_image(vec![1, 2], 7, 2, 1, 2, 4);
    assert_eq!(out, vec![7, 7, 1, 2, 7, 7, 7, 7]);
}

#[test]
fn png_depths() {
    assert_eq!(png_bit_depth(2), Ok(1));
    assert_eq!(png_bit_depth(3), Ok(2));
    assert_eq!(png_bit_depth(16), Ok(4));
    assert_eq!(png_bit_depth(256), Ok(8));
    assert_eq!(png_bit_depth(257), Err(PngLayoutError::SixteenBitUnsupported));
    assert_eq!(png_bit_depth(65537), Err(PngLayoutError::PaletteTooLarge));
}

#[test]
fn png_data_is_packed_rows() {
    assert_eq!(png_image_data(&[0, 1, 2, 3], 4, 4), Ok((2, vec![0x1B])));
    assert_eq!(png_image_data(&[0, 1], 2, 300), Err(PngLayoutError::SixteenBitUnsupported));
}

#[test]
fn grayscale_uses_srgb_luma_and_keeps_alpha() {
    let out = rgba_to_grayscale(&[255, 0, 0, 10, 0, 255, 0, 20, 0, 0, 255, 30, 255, 255, 255, 40]);
    // (2126 * 255) / 10000 = 54, (7152 * 255) / 10000 = 182, (722 * 255) / 10000 = 18.
    assert_eq!(out, vec![54, 54, 54, 10, 182, 182, 182, 20, 18, 18, 18, 30, 255, 255, 255, 40]);
}

#[test]
fn indexed_and_palette_to_rgba() {
    let pal = vec![PaletteColor { r: 1, g: 2, b: 3, a: 4 }, PaletteColor { r: 5, g: 6, b: 7, a: 8 }];
    assert_eq!(indexed_to_rgba(&[1, 0, 1], &pal), vec![5, 6, 7, 8, 1, 2, 3, 4, 5, 6, 7, 8]);
    assert_eq!(palette_to_rgba(&pal), vec![1, 2, 3, 255, 5, 6, 7, 255]);
}

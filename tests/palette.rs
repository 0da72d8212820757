use rust_image_fiddler::palette::{brightness_order, new_index_of, reorder_palette_by_brightness};
use rust_image_fiddler::transmit::PaletteColor;

fn c(r: u8, g: u8, b: u8) -> PaletteColor {
    PaletteColor { r, g, b, a: 255 }
}

#[test]
fn order_is_dark_to_bright_and_stable() {
    let pal = vec![c(200, 200, 200), c(10, 0, 0), c(0, 5, 5), c(100, 0, 0), c(0, 0, 10)];
    assert_eq!(brightness_order(&pal), vec![1, 2, 4, 3, 0]);
}

#[test]
fn reorder_keeps_the_picture() {
    let pal = vec![c(255, 255, 255), c(0, 0, 0), c(128, 128, 128)];
    let indexes = vec![0u8, 1, 2, 2, 1, 0];
    let (new_idx, new_pal) = reorder_palette_by_brightness(&indexes, &pal);
    assert_eq!(new_pal, vec![c(0, 0, 0), c(128, 128, 128), c(255, 255, 255)]);
    assert_eq!(new_idx, vec![2, 0, 1, 1, 0, 2]);
    for (old, new) in indexes.iter().zip(new_idx.iter()) {
        assert_eq!(pal[*old as usize], new_pal[*new as usize]);
    }
}

#[test]
fn unknown_index_becomes_zero() {
    assert_eq!(new_index_of(&[2, 0, 1], 7), 0);
    assert_eq!(new_index_of(&[2, 0, 1], 1), 2);
}

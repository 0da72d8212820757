use rust_image_fiddler::pack::{pack_indices, packed_row_len, unpack_indices};

#[test]
fn pack_two_bit_row_example() {
    assert_eq!(pack_indices(&[0, 1, 2, 3], 4, 2), vec![0x1B]);
}

#[test]
fn pack_one_bit_pads_each_row() {
    // Two rows of three pixels: each row takes its own byte.
    let packed = pack_indices(&[1, 0, 1, 0, 1, 1], 3, 1);
    assert_eq!(packed, vec![0b1010_0000, 0b0110_0000]);
}

#[test]
fn pack_four_bit_odd_width() {
    let packed = pack_indices(&[0xA, 0xB, 0xC, 0x1, 0x2, 0x3], 3, 4);
    assert_eq!(packed, vec![0xAB, 0xC0, 0x12, 0x30]);
}

#[test]
fn pack_eight_bit_is_identity() {
    let data = vec![7u8, 200, 0, 255];
    assert_eq!(pack_indices(&data, 2, 8), data);
}

#[test]
fn pack_masks_values_to_depth() {
    // 5 is 0b101: at two bits only 0b01 remains.
    assert_eq!(pack_indices(&[5, 5, 5, 5], 4, 2), vec![0b0101_0101]);
}

#[test]
fn packed_row_length_is_ceiling() {
    assert_eq!(packed_row_len(1, 1), 1);
    assert_eq!(packed_row_len(8, 1), 1);
    assert_eq!(packed_row_len(9, 1), 2);
    assert_eq!(packed_row_len(5, 2), 2);
    assert_eq!(packed_row_len(5, 4), 3);
    assert_eq!(packed_row_len(5, 8), 5);
}

#[test]
fn unpack_inverts_pack_for_every_depth() {
    for &(d, max) in &[(1u8, 2u16), (2, 4), (4, 16), (8, 256)] {
        for width in 1usize..12 {
            let height = 3usize;
            let data: Vec<u8> = (0..width * height).map(|i| ((i * 7 + 3) % max as usize) as u8).collect();
            let packed = pack_indices(&data, width, d);
            assert_eq!(packed.len(), height * ((width * d as usize + 7) / 8));
            assert_eq!(unpack_indices(&packed, width, d), data, "depth {d} width {width}");
        }
    }
}

#[test]
fn unpack_example() {
    assert_eq!(unpack_indices(&[0x1B], 4, 2), vec![0, 1, 2, 3]);
    assert_eq!(unpack_indices(&[0b1010_0000, 0b0110_0000], 3, 1), vec![1, 0, 1, 0, 1, 1]);
}

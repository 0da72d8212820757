use rust_image_fiddler::rle::{rle_decode, rle_encode, FRAME_SIZE};

#[test]
fn rle_isolated_bytes_pass_through() {
    assert_eq!(rle_encode(&[1, 2, 3]), vec![1, 2, 3]);
}

#[test]
fn rle_run_becomes_triple() {
    assert_eq!(rle_encode(&[9, 9, 9, 9, 1]), vec![9, 9, 4, 1]);
    assert_eq!(rle_encode(&[4, 4]), vec![4, 4, 2]);
}

#[test]
fn rle_long_run_is_split_at_255() {
    let data = vec![7u8; 300];
    let enc = rle_encode(&data);
    assert_eq!(enc, vec![7, 7, 255, 7, 7, 45]);
    assert_eq!(rle_decode(&enc), data);
}

#[test]
fn rle_run_reaching_frame_end_becomes_literals() {
    // 19 distinct bytes, then a run: the first triple sits at 19..21, so the
    // bytes at positions 22 and 23 are literal.
    let mut data: Vec<u8> = (100..119).collect();
    data.extend(std::iter::repeat(5u8).take(10));
    let enc = rle_encode(&data);
    assert_eq!(&enc[19..22], &[5, 5, 10]);
    let mut data2: Vec<u8> = (100..120).collect();
    data2.extend(std::iter::repeat(5u8).take(10));
    let enc2 = rle_encode(&data2);
    // Starting at position 20, no triple fits before the frame end.
    assert_eq!(&enc2[20..24], &[5, 5, 5, 5]);
    assert_eq!(&enc2[24..27], &[5, 5, 6]);
    assert_eq!(rle_decode(&enc2), data2);
}

#[test]
fn rle_round_trip_many_streams() {
    let mut seed: u32 = 12345;
    for len in 0..200usize {
        let mut data = Vec::with_capacity(len);
        for _ in 0..len {
            seed = seed.wrapping_mul(1103515245).wrapping_add(12345);
            let v = ((seed >> 16) % 4) as u8;
            let run = ((seed >> 8) % 5) as usize + 1;
            for _ in 0..run {
                data.push(v);
            }
        }
        let enc = rle_encode(&data);
        assert_eq!(rle_decode(&enc), data);
    }
}

#[test]
fn rle_frames_decode_independently() {
    let mut data = Vec::new();
    for i in 0..500u32 {
        let v = (i / 7 % 3) as u8;
        data.push(v);
    }
    data.extend(std::iter::repeat(1u8).take(256));
    let enc = rle_encode(&data);
    let mut joined = Vec::new();
    for frame in enc.chunks(FRAME_SIZE) {
        joined.extend(rle_decode(frame));
    }
    assert_eq!(joined, data);
    assert_eq!(rle_decode(&enc), data);
}

#[test]
fn rle_empty_stream() {
    assert_eq!(rle_encode(&[]), Vec::<u8>::new());
    assert_eq!(rle_decode(&[]), Vec::<u8>::new());
}

#[test]
fn rle_triple_never_starts_after_offset_19() {
    let mut data: Vec<u8> = (0..20).collect();
    data.extend([50u8, 50, 50]);
    let enc = rle_encode(&data);
    assert_eq!(&enc[20..23], &[50, 50, 50]);
    assert_eq!(rle_decode(&enc), data);
}

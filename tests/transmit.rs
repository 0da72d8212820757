use rust_image_fiddler::transmit::{
    resolve_pixfmt, Color, PaletteColor, PixFmt, Register, RegisterWrite, SetupError, Stage, Step,
    TransmissionOptions, Transmitter,
};

fn palette(n: usize) -> Vec<PaletteColor> {
    (0..n)
        .map(|i| PaletteColor { r: i as u8, g: (i * 2) as u8, b: (i * 3) as u8, a: 255 })
        .collect()
}

fn opts(pixfmt: PixFmt, rle: bool) -> TransmissionOptions {
    TransmissionOptions { pixfmt, rle_compression: rle }
}

/// Runs a transmission to its end, cancelling once `cancel_at` steps have
/// been taken; returns the steps' writes and how it finished.
fn run(t: &mut Transmitter, cancel_at: Option<usize>) -> (Vec<(Stage, Vec<RegisterWrite>)>, bool) {
    let mut steps = Vec::new();
    loop {
        let cancelled = cancel_at.map_or(false, |n| steps.len() >= n);
        let stage = t.stage();
        match t.next_step(cancelled) {
            Step::Send { writes, progress } => {
                assert_eq!(progress.stage, stage);
                steps.push((stage, writes));
            }
            Step::Finished { cancelled } => return (steps, cancelled),
        }
        assert!(steps.len() < 10_000);
    }
}

fn frame_bytes(writes: &[RegisterWrite]) -> Vec<i32> {
    writes
        .iter()
        .filter_map(|w| match w {
            RegisterWrite::Int(Register::Data(_), v) => Some(*v),
            _ => None,
        })
        .collect()
}

#[test]
fn auto_depth_for_five_colours_is_four() {
    assert_eq!(resolve_pixfmt(PixFmt::Auto(Color::Indexed), 5), Ok((4, Color::Indexed)));
}

#[test]
fn auto_depth_brackets() {
    let a = PixFmt::Auto(Color::Grayscale);
    assert_eq!(resolve_pixfmt(a, 0), Ok((1, Color::Grayscale)));
    assert_eq!(resolve_pixfmt(a, 2), Ok((1, Color::Grayscale)));
    assert_eq!(resolve_pixfmt(a, 3), Ok((2, Color::Grayscale)));
    assert_eq!(resolve_pixfmt(a, 4), Ok((2, Color::Grayscale)));
    assert_eq!(resolve_pixfmt(a, 16), Ok((4, Color::Grayscale)));
    assert_eq!(resolve_pixfmt(a, 17), Ok((8, Color::Grayscale)));
    assert_eq!(resolve_pixfmt(a, 256), Ok((8, Color::Grayscale)));
    assert_eq!(resolve_pixfmt(a, 257), Err(SetupError::PaletteTooLarge));
    assert_eq!(resolve_pixfmt(PixFmt::Bpp2(Color::Indexed), 200), Ok((2, Color::Indexed)));
}

#[test]
fn setup_errors() {
    let pal = palette(4);
    let o = opts(PixFmt::Auto(Color::Indexed), false);
    assert!(matches!(Transmitter::new(&[], &pal, 0, 0, o), Err(SetupError::EmptyImage)));
    assert!(matches!(Transmitter::new(&[0, 1], &pal, 0, 2, o), Err(SetupError::EmptyImage)));
    assert!(matches!(Transmitter::new(&[0, 1, 2], &pal, 2, 2, o), Err(SetupError::SizeMismatch)));
    assert!(matches!(Transmitter::new(&[0; 4], &palette(300), 2, 2, o), Err(SetupError::PaletteTooLarge)));
}

#[test]
fn full_indexed_transmission_follows_protocol_order() {
    let pal = palette(10);
    let indices: Vec<u8> = (0..60).map(|i| (i % 10) as u8).collect();
    let mut t = Transmitter::new(&indices, &pal, 10, 6, opts(PixFmt::Auto(Color::Indexed), false)).ok().unwrap();
    assert_eq!(t.bitdepth(), 4);
    assert_eq!(t.stream().len(), 30);
    let (steps, cancelled) = run(&mut t, None);
    assert!(!cancelled);
    let stages: Vec<Stage> = steps.iter().map(|s| s.0).collect();
    assert_eq!(
        stages,
        vec![
            Stage::ResetClockHigh,
            Stage::ResetClockLow,
            Stage::ResetPixelPointer,
            Stage::SetCompression,
            Stage::SetBitDepth,
            Stage::ResetPaletteIndex,
            Stage::UploadPalette,
            Stage::UploadPalette,
            Stage::EnablePalette,
            Stage::ClearReset,
            Stage::StreamPixels,
            Stage::StreamPixels,
        ]
    );
    assert_eq!(steps[0].1, vec![RegisterWrite::Bool(Register::Clk, true)]);
    assert_eq!(steps[1].1, vec![RegisterWrite::Bool(Register::Clk, false)]);
    assert_eq!(
        steps[2].1,
        vec![
            RegisterWrite::Int(Register::Data(0), 0),
            RegisterWrite::Bool(Register::Reset, true),
            RegisterWrite::Bool(Register::Clk, true),
        ]
    );
    // Compression off, then bit depth 4 (register value 64).
    let mut expect = vec![0x80, 5, 0, 0, 0, 0, 0];
    expect.resize(24, 0);
    assert_eq!(frame_bytes(&steps[3].1), expect);
    assert_eq!(steps[3].1[24], RegisterWrite::Bool(Register::Clk, false));
    let mut expect = vec![0x80, 2, 0, 64, 0, 0, 0];
    expect.resize(24, 0);
    assert_eq!(frame_bytes(&steps[4].1), expect);
    assert_eq!(steps[4].1[24], RegisterWrite::Bool(Register::Clk, true));
    // First palette chunk: colours 0..7.
    let chunk = frame_bytes(&steps[6].1);
    assert_eq!(chunk[0], 0xC0);
    assert_eq!(&chunk[1..4], &[0, 0, 0]);
    assert_eq!(&chunk[4..7], &[1, 2, 3]);
    assert_eq!(&chunk[19..22], &[6, 12, 18]);
    assert_eq!(&chunk[22..24], &[0, 0]);
    // Second chunk: colours 7..10, then zeros.
    let chunk = frame_bytes(&steps[7].1);
    assert_eq!(&chunk[1..10], &[7, 14, 21, 8, 16, 24, 9, 18, 27]);
    assert!(chunk[10..].iter().all(|&b| b == 0));
    let mut expect = vec![0x80, 3, 0, 255, 0, 0, 0];
    expect.resize(24, 0);
    assert_eq!(frame_bytes(&steps[8].1), expect);
    assert_eq!(steps[9].1, vec![RegisterWrite::Bool(Register::Reset, false)]);
    // Pixel chunks: 24 bytes, then the last 6 padded with zeros.
    let stream: Vec<i32> = t.stream().iter().map(|&b| b as i32).collect();
    assert_eq!(frame_bytes(&steps[10].1), stream[0..24].to_vec());
    let mut last = stream[24..30].to_vec();
    last.resize(24, 0);
    assert_eq!(frame_bytes(&steps[11].1), last);
    // The clock toggles after every frame.
    assert_eq!(steps[10].1[24], RegisterWrite::Bool(Register::Clk, false));
    assert_eq!(steps[11].1[24], RegisterWrite::Bool(Register::Clk, true));
    assert!(matches!(t.next_step(false), Step::Finished { cancelled: false }));
}

#[test]
fn grayscale_transmission_skips_palette() {
    let indices = vec![0u8, 1, 1, 0];
    let mut t = Transmitter::new(&indices, &palette(2), 2, 2, opts(PixFmt::Bpp8(Color::Grayscale), true)).ok().unwrap();
    let (steps, cancelled) = run(&mut t, None);
    assert!(!cancelled);
    let stages: Vec<Stage> = steps.iter().map(|s| s.0).collect();
    assert_eq!(
        stages,
        vec![
            Stage::ResetClockHigh,
            Stage::ResetClockLow,
            Stage::ResetPixelPointer,
            Stage::SetCompression,
            Stage::SetBitDepth,
            Stage::SetGrayscale,
            Stage::ClearReset,
            Stage::StreamPixels,
        ]
    );
    let mut expect = vec![0x80, 5, 0, 255, 0, 0, 0];
    expect.resize(24, 0);
    assert_eq!(frame_bytes(&steps[3].1), expect);
    let mut expect = vec![0x80, 2, 0, 0, 0, 0, 0];
    expect.resize(24, 0);
    assert_eq!(frame_bytes(&steps[4].1), expect);
    let mut expect = vec![0x80, 3, 0, 0, 0, 0, 0];
    expect.resize(24, 0);
    assert_eq!(frame_bytes(&steps[5].1), expect);
    // Run-length encoded: 0, then the triple 1 1 2, then 0.
    assert_eq!(t.stream(), &[0, 1, 1, 2, 0]);
}

#[test]
fn cancel_before_first_pixel_chunk_sends_no_pixels() {
    let indices: Vec<u8> = (0..48).map(|i| (i % 2) as u8).collect();
    let mut t = Transmitter::new(&indices, &palette(2), 8, 6, opts(PixFmt::Auto(Color::Grayscale), false)).ok().unwrap();
    // Seven steps come before the pixel stream with a grayscale palette.
    let (steps, cancelled) = run(&mut t, Some(7));
    assert!(cancelled);
    assert_eq!(steps.len(), 7);
    assert!(steps.iter().all(|s| s.0 != Stage::StreamPixels));
    assert_eq!(t.stage(), Stage::Finished);
    assert!(matches!(t.next_step(false), Step::Finished { cancelled: true }));
}

#[test]
fn cancel_during_palette_upload_stops_there() {
    let indices = vec![0u8; 4];
    let mut t = Transmitter::new(&indices, &palette(20), 2, 2, opts(PixFmt::Auto(Color::Indexed), false)).ok().unwrap();
    let (steps, cancelled) = run(&mut t, Some(7));
    assert!(cancelled);
    assert_eq!(steps.last().unwrap().0, Stage::UploadPalette);
    assert_eq!(steps.iter().filter(|s| s.0 == Stage::UploadPalette).count(), 1);
}

#[test]
fn pixfmt_names_round_trip() {
    for f in PixFmt::into_iter() {
        assert_eq!(PixFmt::from_str(&f.to_string()), Ok(f));
        assert_eq!(PixFmt::parse(f.name()), Some(f));
    }
    assert_eq!(PixFmt::into_iter().len(), 10);
    assert_eq!(PixFmt::from_str("Bpp4"), Ok(PixFmt::Bpp4(Color::Indexed)));
    assert_eq!(PixFmt::from_str("Bpp2(Grayscale)"), Ok(PixFmt::Bpp2(Color::Grayscale)));
    assert_eq!(PixFmt::from_str("Bpp3"), Err("Couldn't parse as PixFmt: Bpp3".to_string()));
    assert_eq!(PixFmt::parse("Bpp3"), None);
    assert_eq!(PixFmt::Auto(Color::Indexed).name(), "Auto(Indexed)");
    assert_eq!(PixFmt::default(), PixFmt::Auto(Color::Indexed));
    assert_eq!(Color::from_str("Grayscale"), Ok(Color::Grayscale));
    assert_eq!(Color::from_str("gray"), Err("Couldn't parse as Color: gray".to_string()));
    assert_eq!(Color::parse("Indexed"), Some(Color::Indexed));
    assert_eq!(Color::default().to_string(), "Indexed");
}

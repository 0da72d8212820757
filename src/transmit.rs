//! The transmission protocol: a state machine that yields, one step at a
//! time, the register writes that configure the device and stream an image
//! to it. The caller performs each step on the wire, waits its pacing delay
//! and asks for the next one, passing in whether the user has cancelled.
use crate::pack::{pack_indices, packed, valid_depth};
use crate::rle::{rle_encode, rle_encoding, FRAME_SIZE};
use vstd::prelude::*;
use vstd::string::StringExecFns;
use vstd::utf8::{encode_utf8, encode_utf8_decode_utf8};

verus! {

/// Palette colours that fit in one frame after its command byte.
pub const PALETTE_COLORS_PER_FRAME: usize = 7;

/// Command byte of a control-register write.
pub const SETPIXEL_COMMAND: u8 = 0x80;

/// Command byte of a palette write.
pub const PALETTEWRITE_COMMAND: u8 = 0xc0;

/// Control register that selects the bit depth.
pub const BITDEPTH_PIXEL: u8 = 2;

/// Control register that switches the palette on or off.
pub const PALETTECTRL_PIXEL: u8 = 3;

/// Control register that holds the palette write index.
pub const PALETTEWRIDX_PIXEL: u8 = 4;

/// Control register that switches run-length compression on or off.
pub const COMPRESSIONCTRL_PIXEL: u8 = 5;

/// Largest palette that any bit depth can index.
pub const MAX_PALETTE: usize = 256;

/// How pixel indices are shown by the device.
#[derive(Clone, Copy, PartialEq, Eq, Structural, Debug)]
pub enum Color {
    Grayscale,
    Indexed,
}

/// Bit depth of the transmitted pixels (or `Auto`, chosen from the palette
/// size), with the colour mode.
#[derive(Clone, Copy, PartialEq, Eq, Structural, Debug)]
pub enum PixFmt {
    Auto(Color),
    Bpp1(Color),
    Bpp2(Color),
    Bpp4(Color),
    Bpp8(Color),
}

/// One colour of a palette.
#[derive(Clone, Copy, PartialEq, Eq, Structural, Debug)]
pub struct PaletteColor {
    pub r: u8,
    pub g: u8,
    pub b: u8,
    pub a: u8,
}

/// What a transmission is asked to do besides sending the image.
#[derive(Clone, Copy, PartialEq, Eq, Structural, Debug)]
pub struct TransmissionOptions {
    pub pixfmt: PixFmt,
    pub rle_compression: bool,
}

/// Why a transmission cannot start.
#[derive(Clone, Copy, PartialEq, Eq, Structural, Debug)]
pub enum SetupError {
    /// The image has no pixels, or a zero width or height.
    EmptyImage,
    /// The number of indices is not `width * height`.
    SizeMismatch,
    /// The palette has more colours than any bit depth can index.
    PaletteTooLarge,
}

/// A register of the device.
#[derive(Clone, Copy, PartialEq, Eq, Structural, Debug)]
pub enum Register {
    /// The clock line; a frame is latched when it toggles.
    Clk,
    /// The reset line, held while the device is configured.
    Reset,
    /// Byte `n` of the register frame.
    Data(u8),
}

/// One message on the wire: a value written to a register.
#[derive(Clone, Copy, PartialEq, Eq, Structural, Debug)]
pub enum RegisterWrite {
    Bool(Register, bool),
    Int(Register, i32),
}

/// The stages of a transmission, in protocol order.
#[derive(Clone, Copy, PartialEq, Eq, Structural, Debug)]
pub enum Stage {
    ResetClockHigh,
    ResetClockLow,
    ResetPixelPointer,
    SetCompression,
    SetBitDepth,
    ResetPaletteIndex,
    UploadPalette,
    EnablePalette,
    SetGrayscale,
    ClearReset,
    StreamPixels,
    Finished,
}

/// Where a step stands: its stage, and for the palette upload and the pixel
/// stream the index of the chunk it sends and how many chunks there are.
#[derive(Clone, Copy, PartialEq, Eq, Structural, Debug)]
pub struct Progress {
    pub stage: Stage,
    pub chunk: usize,
    pub chunks: usize,
}

/// What to do next.
pub enum Step {
    /// Report `progress`, send `writes` in order, then wait one pacing delay.
    Send { writes: Vec<RegisterWrite>, progress: Progress },
    /// The transmission is over; `cancelled` tells whether the user stopped it.
    Finished { cancelled: bool },
}

/// `Step` in mathematical form.
pub enum StepView {
    Send { writes: Seq<RegisterWrite>, progress: Progress },
    Finished { cancelled: bool },
}

impl View for Step {
    type V = StepView;

    open spec fn view(&self) -> StepView {
        match self {
            Step::Send { writes, progress } => StepView::Send { writes: writes@, progress: *progress },
            Step::Finished { cancelled } => StepView::Finished { cancelled: *cancelled },
        }
    }
}

/// The state of one transmission.
pub struct Transmitter {
    stage: Stage,
    chunk: usize,
    clk: bool,
    cancelled: bool,
    bitdepth: u8,
    color: Color,
    rle_compression: bool,
    palette: Vec<PaletteColor>,
    data: Vec<u8>,
}

/// `Transmitter` in mathematical form.
pub struct TransmitterView {
    pub stage: Stage,
    pub chunk: nat,
    pub clk: bool,
    pub cancelled: bool,
    pub bitdepth: u8,
    pub color: Color,
    pub rle_compression: bool,
    pub palette: Seq<PaletteColor>,
    pub data: Seq<u8>,
}

impl View for Transmitter {
    type V = TransmitterView;

    closed spec fn view(&self) -> TransmitterView {
        TransmitterView {
            stage: self.stage,
            chunk: self.chunk as nat,
            clk: self.clk,
            cancelled: self.cancelled,
            bitdepth: self.bitdepth,
            color: self.color,
            rle_compression: self.rle_compression,
            palette: self.palette@,
            data: self.data@,
        }
    }
}

/// The colour mode of a pixel format.
pub open spec fn color_of(f: PixFmt) -> Color {
    match f {
        PixFmt::Auto(c) => c,
        PixFmt::Bpp1(c) => c,
        PixFmt::Bpp2(c) => c,
        PixFmt::Bpp4(c) => c,
        PixFmt::Bpp8(c) => c,
    }
}

/// The smallest bit depth whose indices reach every colour of a palette of
/// `n` colours (`n <= MAX_PALETTE`).
pub open spec fn auto_depth(n: nat) -> u8 {
    if n <= 2 {
        1
    } else if n <= 4 {
        2
    } else if n <= 16 {
        4
    } else {
        8
    }
}

/// The bit depth that `f` selects for a palette of `n` colours.
pub open spec fn depth_of(f: PixFmt, n: nat) -> u8 {
    match f {
        PixFmt::Auto(_) => auto_depth(n),
        PixFmt::Bpp1(_) => 1,
        PixFmt::Bpp2(_) => 2,
        PixFmt::Bpp4(_) => 4,
        PixFmt::Bpp8(_) => 8,
    }
}

/// Value of the bit-depth control register for depth `d`.
pub open spec fn depth_code(d: u8) -> u8 {
    if d == 1 {
        192
    } else if d == 2 {
        128
    } else if d == 4 {
        64
    } else {
        0
    }
}

/// The command bytes that write `value` to control register `reg`.
pub open spec fn control_command(reg: u8, value: u8) -> Seq<u8> {
    seq![SETPIXEL_COMMAND, reg, 0u8, value, 0u8, 0u8, 0u8]
}

/// The register writes of one frame holding `cmd`, zero-padded to
/// `FRAME_SIZE`.
pub open spec fn frame_writes(cmd: Seq<u8>) -> Seq<RegisterWrite> {
    Seq::new(
        FRAME_SIZE as nat,
        |n: int|
            RegisterWrite::Int(
                Register::Data(n as u8),
                if n < cmd.len() {
                    cmd[n] as i32
                } else {
                    0i32
                },
            ),
    )
}

/// Component `i` (0 red, 1 green, 2 blue) of a colour.
pub open spec fn component(c: PaletteColor, i: int) -> u8 {
    if i == 0 {
        c.r
    } else if i == 1 {
        c.g
    } else {
        c.b
    }
}

/// The frame that uploads palette chunk `k`: the palette-write command, then
/// red, green and blue of each of its colours.
pub open spec fn palette_command(pal: Seq<PaletteColor>, k: nat) -> Seq<u8> {
    Seq::new(
        FRAME_SIZE as nat,
        |i: int|
            if i == 0 {
                PALETTEWRITE_COMMAND
            } else if (i - 1) / 3 < PALETTE_COLORS_PER_FRAME && k * PALETTE_COLORS_PER_FRAME + (i - 1) / 3
                < pal.len() {
                component(pal[k * PALETTE_COLORS_PER_FRAME + (i - 1) / 3], (i - 1) % 3)
            } else {
                0u8
            },
    )
}

/// Number of chunks of `size` needed for `n` items.
pub open spec fn chunk_count(n: nat, size: nat) -> nat {
    if size == 0 {
        0
    } else {
        ((n + size - 1) / (size as int)) as nat
    }
}

/// The bytes of pixel chunk `k`.
pub open spec fn pixel_chunk(data: Seq<u8>, k: nat) -> Seq<u8> {
    let start = k * FRAME_SIZE;
    let end = if start + FRAME_SIZE <= data.len() {
        start + FRAME_SIZE
    } else {
        data.len() as int
    };
    data.subrange(start as int, end)
}

/// The writes of a frame holding `cmd`, then the clock toggle to `clk`.
pub open spec fn framed(cmd: Seq<u8>, clk: bool) -> Seq<RegisterWrite> {
    frame_writes(cmd).push(clock_write(clk))
}

/// A clock toggle after a frame.
pub open spec fn clock_write(clk: bool) -> RegisterWrite {
    RegisterWrite::Bool(Register::Clk, clk)
}

/// The stage after the last configuration frame of colour mode `c`.
pub open spec fn after_bitdepth(c: Color) -> Stage {
    match c {
        Color::Indexed => Stage::ResetPaletteIndex,
        Color::Grayscale => Stage::SetGrayscale,
    }
}

/// The step that `t` takes next, and its state afterwards.
pub open spec fn next_step(t: TransmitterView, cancelled: bool) -> (StepView, TransmitterView) {
    let pal_chunks = chunk_count(t.palette.len(), PALETTE_COLORS_PER_FRAME as nat);
    let px_chunks = chunk_count(t.data.len(), FRAME_SIZE as nat);
    let progress = Progress { stage: t.stage, chunk: 0, chunks: 0 };
    let toggled = TransmitterView { clk: !t.clk, ..t };
    match t.stage {
        Stage::ResetClockHigh => (
            StepView::Send { writes: seq![clock_write(true)], progress },
            TransmitterView { stage: Stage::ResetClockLow, ..t },
        ),
        Stage::ResetClockLow => (
            StepView::Send { writes: seq![clock_write(false)], progress },
            TransmitterView { stage: Stage::ResetPixelPointer, ..t },
        ),
        Stage::ResetPixelPointer => (
            StepView::Send {
                writes: seq![
                    RegisterWrite::Int(Register::Data(0), 0),
                    RegisterWrite::Bool(Register::Reset, true),
                    clock_write(t.clk),
                ],
                progress,
            },
            TransmitterView { stage: Stage::SetCompression, ..toggled },
        ),
        Stage::SetCompression => (
            StepView::Send {
                writes: framed(
                    control_command(
                        COMPRESSIONCTRL_PIXEL,
                        if t.rle_compression {
                            255u8
                        } else {
                            0u8
                        },
                    ),
                    t.clk,
                ),
                progress,
            },
            TransmitterView { stage: Stage::SetBitDepth, ..toggled },
        ),
        Stage::SetBitDepth => (
            StepView::Send {
                writes: framed(control_command(BITDEPTH_PIXEL, depth_code(t.bitdepth)), t.clk),
                progress,
            },
            TransmitterView { stage: after_bitdepth(t.color), ..toggled },
        ),
        Stage::ResetPaletteIndex => (
            StepView::Send { writes: framed(control_command(PALETTEWRIDX_PIXEL, 0), t.clk), progress },
            TransmitterView {
                stage: if pal_chunks > 0 {
                    Stage::UploadPalette
                } else {
                    Stage::EnablePalette
                },
                chunk: 0,
                ..toggled
            },
        ),
        Stage::UploadPalette => if cancelled {
            (
                StepView::Finished { cancelled: true },
                TransmitterView { stage: Stage::Finished, cancelled: true, ..t },
            )
        } else {
            (
                StepView::Send {
                    writes: framed(palette_command(t.palette, t.chunk), t.clk),
                    progress: Progress {
                        stage: Stage::UploadPalette,
                        chunk: t.chunk as usize,
                        chunks: pal_chunks as usize,
                    },
                },
                TransmitterView {
                    stage: if t.chunk + 1 < pal_chunks {
                        Stage::UploadPalette
                    } else {
                        Stage::EnablePalette
                    },
                    chunk: t.chunk + 1,
                    ..toggled
                },
            )
        },
        Stage::EnablePalette => (
            StepView::Send { writes: framed(control_command(PALETTECTRL_PIXEL, 255), t.clk), progress },
            TransmitterView { stage: Stage::ClearReset, ..toggled },
        ),
        Stage::SetGrayscale => (
            StepView::Send { writes: framed(control_command(PALETTECTRL_PIXEL, 0), t.clk), progress },
            TransmitterView { stage: Stage::ClearReset, ..toggled },
        ),
        Stage::ClearReset => (
            StepView::Send { writes: seq![RegisterWrite::Bool(Register::Reset, false)], progress },
            TransmitterView {
                stage: if px_chunks > 0 {
                    Stage::StreamPixels
                } else {
                    Stage::Finished
                },
                chunk: 0,
                ..t
            },
        ),
        Stage::StreamPixels => if cancelled {
            (
                StepView::Finished { cancelled: true },
                TransmitterView { stage: Stage::Finished, cancelled: true, ..t },
            )
        } else {
            (
                StepView::Send {
                    writes: framed(pixel_chunk(t.data, t.chunk), t.clk),
                    progress: Progress {
                        stage: Stage::StreamPixels,
                        chunk: t.chunk as usize,
                        chunks: px_chunks as usize,
                    },
                },
                TransmitterView {
                    stage: if t.chunk + 1 < px_chunks {
                        Stage::StreamPixels
                    } else {
                        Stage::Finished
                    },
                    chunk: t.chunk + 1,
                    ..toggled
                },
            )
        },
        Stage::Finished => (StepView::Finished { cancelled: t.cancelled }, t),
    }
}

/// The state invariant of a transmission.
pub open spec fn transmitter_ok(t: TransmitterView) -> bool {
    &&& valid_depth(t.bitdepth)
    &&& t.palette.len() <= MAX_PALETTE
    &&& t.stage == Stage::UploadPalette ==> t.chunk < chunk_count(
        t.palette.len(),
        PALETTE_COLORS_PER_FRAME as nat,
    )
    &&& t.stage == Stage::StreamPixels ==> t.chunk < chunk_count(t.data.len(), FRAME_SIZE as nat)
}

/// The bytes a transmission streams: the packed pixels, run-length encoded
/// when asked.
pub open spec fn stream_bytes(indices: Seq<u8>, width: nat, d: u8, rle: bool) -> Seq<u8> {
    if rle {
        rle_encoding(packed(indices, width, d))
    } else {
        packed(indices, width, d)
    }
}

/// The outcome of setting up a transmission of a `width` x `height` image.
pub open spec fn setup_error(len: nat, palette_len: nat, width: nat, height: nat) -> Option<SetupError> {
    if len == 0 || width == 0 || height == 0 {
        Some(SetupError::EmptyImage)
    } else if len != width * height {
        Some(SetupError::SizeMismatch)
    } else if palette_len > MAX_PALETTE {
        Some(SetupError::PaletteTooLarge)
    } else {
        None
    }
}

/// Chooses the bit depth and colour mode of `pixfmt` for a palette of
/// `palette_len` colours; a palette that no depth can index is refused.
pub fn resolve_pixfmt(pixfmt: PixFmt, palette_len: usize) -> (r: Result<(u8, Color), SetupError>)
    ensures
        palette_len > MAX_PALETTE ==> r == Err::<(u8, Color), SetupError>(SetupError::PaletteTooLarge),
        palette_len <= MAX_PALETTE ==> r == Ok::<(u8, Color), SetupError>(
            (depth_of(pixfmt, palette_len as nat), color_of(pixfmt)),
        ),
{
    if palette_len > MAX_PALETTE {
        return Err(SetupError::PaletteTooLarge);
    }
    match pixfmt {
        PixFmt::Auto(c) => {
            let d: u8 = if palette_len <= 2 {
                1
            } else if palette_len <= 4 {
                2
            } else if palette_len <= 16 {
                4
            } else {
                8
            };
            Ok((d, c))
        },
        PixFmt::Bpp1(c) => Ok((1, c)),
        PixFmt::Bpp2(c) => Ok((2, c)),
        PixFmt::Bpp4(c) => Ok((4, c)),
        PixFmt::Bpp8(c) => Ok((8, c)),
    }
}

/// The register writes of a frame that holds `src[start..end]`, zero-padded,
/// followed by a clock toggle to `clk`.
fn frame_of(src: &[u8], start: usize, end: usize, clk: bool) -> (r: Vec<RegisterWrite>)
    requires
        start <= end <= src@.len(),
    ensures
        r@ == framed(src@.subrange(start as int, end as int), clk),
{
    let ghost cmd = src@.subrange(start as int, end as int);
    let mut out: Vec<RegisterWrite> = Vec::new();
    let mut n: usize = 0;
    while n < FRAME_SIZE
        invariant
            start <= end <= src@.len(),
            cmd == src@.subrange(start as int, end as int),
            n <= FRAME_SIZE,
            out@ == frame_writes(cmd).take(n as int),
        decreases FRAME_SIZE - n,
    {
        let v: i32 = if n < end - start {
            src[start + n] as i32
        } else {
            0
        };
        out.push(RegisterWrite::Int(Register::Data(n as u8), v));
        proof {
            assert(out@ =~= frame_writes(cmd).take(n + 1));
        }
        n = n + 1;
    }
    proof {
        assert(frame_writes(cmd).take(FRAME_SIZE as int) =~= frame_writes(cmd));
    }
    out.push(RegisterWrite::Bool(Register::Clk, clk));
    out
}

/// The command bytes of a control-register write.
fn control(reg: u8, value: u8) -> (r: Vec<u8>)
    ensures
        r@ == control_command(reg, value),
{
    let r = vec![SETPIXEL_COMMAND, reg, 0u8, value, 0u8, 0u8, 0u8];
    proof {
        assert(r@ =~= control_command(reg, value));
    }
    r
}

/// The frame that uploads palette chunk `k`.
fn palette_frame(pal: &[PaletteColor], k: usize) -> (r: Vec<u8>)
    requires
        pal@.len() <= MAX_PALETTE,
        k < chunk_count(pal@.len(), PALETTE_COLORS_PER_FRAME as nat),
    ensures
        r@ == palette_command(pal@, k as nat),
{
    let mut out: Vec<u8> = Vec::new();
    out.push(PALETTEWRITE_COMMAND);
    let mut i: usize = 1;
    while i < FRAME_SIZE
        invariant
            pal@.len() <= MAX_PALETTE,
            k < chunk_count(pal@.len(), PALETTE_COLORS_PER_FRAME as nat),
            1 <= i <= FRAME_SIZE,
            out@ == palette_command(pal@, k as nat).take(i as int),
        decreases FRAME_SIZE - i,
    {
        let slot = (i - 1) / 3;
        let v: u8 = if slot < PALETTE_COLORS_PER_FRAME && k * PALETTE_COLORS_PER_FRAME + slot < pal.len() {
            let c = pal[k * PALETTE_COLORS_PER_FRAME + slot];
            let part = (i - 1) % 3;
            if part == 0 {
                c.r
            } else if part == 1 {
                c.g
            } else {
                c.b
            }
        } else {
            0
        };
        out.push(v);
        proof {
            assert(out@ =~= palette_command(pal@, k as nat).take(i + 1));
        }
        i = i + 1;
    }
    proof {
        assert(palette_command(pal@, k as nat).take(FRAME_SIZE as int) =~= palette_command(pal@, k as nat));
    }
    out
}

proof fn lemma_pixfmt_depth_valid(pixfmt: PixFmt, n: nat)
    requires
        n <= MAX_PALETTE,
    ensures
        valid_depth(depth_of(pixfmt, n)),
{
}

impl Transmitter {
    /// The state invariant, on the view.
    pub closed spec fn ok(&self) -> bool {
        transmitter_ok(self@)
    }

    /// Checks an image and its palette, packs the pixels at the chosen bit
    /// depth (run-length encoding them when asked) and returns a
    /// transmission that starts with the clock reset.
    pub fn new(
        indices: &[u8],
        palette: &[PaletteColor],
        width: u32,
        height: u32,
        options: TransmissionOptions,
    ) -> (r: Result<Transmitter, SetupError>)
        ensures
            setup_error(indices@.len(), palette@.len(), width as nat, height as nat) matches Some(e) ==> r
                == Err::<Transmitter, SetupError>(e),
            setup_error(indices@.len(), palette@.len(), width as nat, height as nat) is None ==> (r matches Ok(
                t,
            ) && t.ok() && t@ == TransmitterView {
                stage: Stage::ResetClockHigh,
                chunk: 0,
                clk: true,
                cancelled: false,
                bitdepth: depth_of(options.pixfmt, palette@.len()),
                color: color_of(options.pixfmt),
                rle_compression: options.rle_compression,
                palette: palette@,
                data: stream_bytes(
                    indices@,
                    width as nat,
                    depth_of(options.pixfmt, palette@.len()),
                    options.rle_compression,
                ),
            }),
    {
        let len = indices.len();
        if len == 0 || width == 0 || height == 0 {
            return Err(SetupError::EmptyImage);
        }
        assert((width as u64) * (height as u64) <= u64::MAX) by (nonlinear_arith)
            requires
                width <= u32::MAX,
                height <= u32::MAX,
        ;
        if len as u64 != width as u64 * height as u64 {
            return Err(SetupError::SizeMismatch);
        }
        let (bitdepth, color) = match resolve_pixfmt(options.pixfmt, palette.len()) {
            Ok(x) => x,
            Err(e) => return Err(e),
        };
        proof {
            lemma_pixfmt_depth_valid(options.pixfmt, palette@.len());
        }
        let packed_bytes = pack_indices(indices, width as usize, bitdepth);
        let data = if options.rle_compression {
            rle_encode(packed_bytes.as_slice())
        } else {
            packed_bytes
        };
        let mut pal: Vec<PaletteColor> = Vec::new();
        let mut i: usize = 0;
        while i < palette.len()
            invariant
                i <= palette@.len(),
                pal@ == palette@.take(i as int),
            decreases palette@.len() - i,
        {
            pal.push(palette[i]);
            proof {
                assert(pal@ =~= palette@.take(i + 1));
            }
            i = i + 1;
        }
        proof {
            assert(palette@.take(palette@.len() as int) =~= palette@);
        }
        Ok(Transmitter {
            stage: Stage::ResetClockHigh,
            chunk: 0,
            clk: true,
            cancelled: false,
            bitdepth,
            color,
            rle_compression: options.rle_compression,
            palette: pal,
            data,
        })
    }

    /// The current stage.
    pub fn stage(&self) -> (r: Stage)
        ensures
            r == self@.stage,
    {
        self.stage
    }

    /// The bit depth the pixels are sent at.
    pub fn bitdepth(&self) -> (r: u8)
        ensures
            r == self@.bitdepth,
    {
        self.bitdepth
    }

    /// The bytes streamed after configuration.
    pub fn stream(&self) -> (r: &[u8])
        ensures
            r@ == self@.data,
    {
        self.data.as_slice()
    }

    /// Sends the control frame that writes `value` to register `reg`, moves
    /// to `next` and toggles the clock.
    fn control_step(&mut self, reg: u8, value: u8, next: Stage) -> (r: Step)
        ensures
            r@ == (StepView::Send {
                writes: framed(control_command(reg, value), old(self)@.clk),
                progress: Progress { stage: old(self)@.stage, chunk: 0, chunks: 0 },
            }),
            final(self)@ == (TransmitterView { stage: next, clk: !old(self)@.clk, ..old(self)@ }),
    {
        let cmd = control(reg, value);
        let clk = self.clk;
        let writes = frame_of(cmd.as_slice(), 0, cmd.len(), clk);
        proof {
            assert(cmd@.subrange(0, cmd@.len() as int) =~= cmd@);
        }
        let progress = Progress { stage: self.stage, chunk: 0, chunks: 0 };
        self.stage = next;
        self.clk = !clk;
        Step::Send { writes, progress }
    }

    /// Number of palette chunks.
    fn palette_chunks(&self) -> (r: usize)
        ensures
            r == chunk_count(self@.palette.len(), PALETTE_COLORS_PER_FRAME as nat),
    {
        self.palette.len() / PALETTE_COLORS_PER_FRAME + if self.palette.len() % PALETTE_COLORS_PER_FRAME == 0 {
            0
        } else {
            1
        }
    }

    /// Number of pixel chunks.
    fn pixel_chunks(&self) -> (r: usize)
        ensures
            r == chunk_count(self@.data.len(), FRAME_SIZE as nat),
    {
        self.data.len() / FRAME_SIZE + if self.data.len() % FRAME_SIZE == 0 {
            0
        } else {
            1
        }
    }

    /// Ends the transmission at the user's request.
    fn cancel(&mut self) -> (r: Step)
        ensures
            r@ == (StepView::Finished { cancelled: true }),
            final(self)@ == (TransmitterView { stage: Stage::Finished, cancelled: true, ..old(self)@ }),
    {
        self.stage = Stage::Finished;
        self.cancelled = true;
        Step::Finished { cancelled: true }
    }

    /// Sends palette chunk `chunk`.
    fn palette_step(&mut self, cancelled: bool) -> (r: Step)
        requires
            old(self).ok(),
            old(self)@.stage == Stage::UploadPalette,
        ensures
            final(self).ok(),
            (r@, final(self)@) == next_step(old(self)@, cancelled),
    {
        if cancelled {
            return self.cancel();
        }
        let pal_chunks = self.palette_chunks();
        let clk = self.clk;
        let k = self.chunk;
        let cmd = palette_frame(self.palette.as_slice(), k);
        let writes = frame_of(cmd.as_slice(), 0, cmd.len(), clk);
        proof {
            assert(cmd@.subrange(0, cmd@.len() as int) =~= cmd@);
        }
        self.stage = if k + 1 < pal_chunks {
            Stage::UploadPalette
        } else {
            Stage::EnablePalette
        };
        self.chunk = k + 1;
        self.clk = !clk;
        Step::Send { writes, progress: Progress { stage: Stage::UploadPalette, chunk: k, chunks: pal_chunks } }
    }

    /// Sends pixel chunk `chunk`.
    fn pixel_step(&mut self, cancelled: bool) -> (r: Step)
        requires
            old(self).ok(),
            old(self)@.stage == Stage::StreamPixels,
        ensures
            final(self).ok(),
            (r@, final(self)@) == next_step(old(self)@, cancelled),
    {
        if cancelled {
            return self.cancel();
        }
        let px_chunks = self.pixel_chunks();
        let clk = self.clk;
        let k = self.chunk;
        let len = self.data.len();
        proof {
            let n = len as int;
            assert(k * 24 < n) by (nonlinear_arith)
                requires
                    k < (n + 23) / 24,
                    n >= 0,
            ;
        }
        let start = k * FRAME_SIZE;
        let end = if self.data.len() - start >= FRAME_SIZE {
            start + FRAME_SIZE
        } else {
            self.data.len()
        };
        let writes = frame_of(self.data.as_slice(), start, end, clk);
        self.stage = if k + 1 < px_chunks {
            Stage::StreamPixels
        } else {
            Stage::Finished
        };
        self.chunk = k + 1;
        self.clk = !clk;
        Step::Send { writes, progress: Progress { stage: Stage::StreamPixels, chunk: k, chunks: px_chunks } }
    }

    /// Takes a step that sends no chunk.
    fn setup_step(&mut self) -> (r: Step)
        requires
            old(self).ok(),
            old(self)@.stage != Stage::UploadPalette,
            old(self)@.stage != Stage::StreamPixels,
        ensures
            final(self).ok(),
            (r@, final(self)@) == next_step(old(self)@, false),
    {
        let progress = Progress { stage: self.stage, chunk: 0, chunks: 0 };
        let clk = self.clk;
        match self.stage {
            Stage::ResetClockHigh => {
                self.stage = Stage::ResetClockLow;
                let writes = vec![RegisterWrite::Bool(Register::Clk, true)];
                proof {
                    assert(writes@ =~= seq![clock_write(true)]);
                }
                Step::Send { writes, progress }
            },
            Stage::ResetClockLow => {
                self.stage = Stage::ResetPixelPointer;
                let writes = vec![RegisterWrite::Bool(Register::Clk, false)];
                proof {
                    assert(writes@ =~= seq![clock_write(false)]);
                }
                Step::Send { writes, progress }
            },
            Stage::ResetPixelPointer => {
                self.stage = Stage::SetCompression;
                self.clk = !clk;
                let writes = vec![
                    RegisterWrite::Int(Register::Data(0), 0),
                    RegisterWrite::Bool(Register::Reset, true),
                    RegisterWrite::Bool(Register::Clk, clk),
                ];
                proof {
                    assert(writes@ =~= seq![
                        RegisterWrite::Int(Register::Data(0), 0),
                        RegisterWrite::Bool(Register::Reset, true),
                        clock_write(clk),
                    ]);
                }
                Step::Send { writes, progress }
            },
            Stage::SetCompression => {
                let value: u8 = if self.rle_compression {
                    255
                } else {
                    0
                };
                self.control_step(COMPRESSIONCTRL_PIXEL, value, Stage::SetBitDepth)
            },
            Stage::SetBitDepth => {
                let code: u8 = if self.bitdepth == 1 {
                    192
                } else if self.bitdepth == 2 {
                    128
                } else if self.bitdepth == 4 {
                    64
                } else {
                    0
                };
                let next = match self.color {
                    Color::Indexed => Stage::ResetPaletteIndex,
                    Color::Grayscale => Stage::SetGrayscale,
                };
                self.control_step(BITDEPTH_PIXEL, code, next)
            },
            Stage::ResetPaletteIndex => {
                let next = if self.palette_chunks() > 0 {
                    Stage::UploadPalette
                } else {
                    Stage::EnablePalette
                };
                let r = self.control_step(PALETTEWRIDX_PIXEL, 0, next);
                self.chunk = 0;
                r
            },
            Stage::EnablePalette => self.control_step(PALETTECTRL_PIXEL, 255, Stage::ClearReset),
            Stage::SetGrayscale => self.control_step(PALETTECTRL_PIXEL, 0, Stage::ClearReset),
            Stage::ClearReset => {
                self.stage = if self.pixel_chunks() > 0 {
                    Stage::StreamPixels
                } else {
                    Stage::Finished
                };
                self.chunk = 0;
                let writes = vec![RegisterWrite::Bool(Register::Reset, false)];
                proof {
                    assert(writes@ =~= seq![RegisterWrite::Bool(Register::Reset, false)]);
                }
                Step::Send { writes, progress }
            },
            _ => Step::Finished { cancelled: self.cancelled },
        }
    }

    /// Takes the next step of the protocol. Before each palette or pixel
    /// chunk, a set `cancelled` ends the transmission without sending it.
    pub fn next_step(&mut self, cancelled: bool) -> (r: Step)
        requires
            old(self).ok(),
        ensures
            final(self).ok(),
            (r@, final(self)@) == next_step(old(self)@, cancelled),
    {
        match self.stage {
            Stage::UploadPalette => self.palette_step(cancelled),
            Stage::StreamPixels => self.pixel_step(cancelled),
            _ => self.setup_step(),
        }
    }
}

/// Whether two strings are equal.
fn same_text(a: &str, b: &str) -> (r: bool)
    ensures
        r == (a@ == b@),
{
    let x = a.as_bytes();
    let y = b.as_bytes();
    proof {
        encode_utf8_decode_utf8(a@);
        encode_utf8_decode_utf8(b@);
    }
    if x.len() != y.len() {
        return false;
    }
    let mut i: usize = 0;
    while i < x.len()
        invariant
            x@ == encode_utf8(a@),
            y@ == encode_utf8(b@),
            x@.len() == y@.len(),
            i <= x@.len(),
            forall|j: int| 0 <= j < i ==> x@[j] == y@[j],
        decreases x@.len() - i,
    {
        if x[i] != y[i] {
            proof {
                assert(x@[i as int] != y@[i as int]);
                assert(x@ != y@);
                if a@ == b@ {
                    assert(encode_utf8(a@) == encode_utf8(b@));
                }
            }
            return false;
        }
        i = i + 1;
    }
    proof {
        assert(x@ =~= y@);
    }
    true
}

impl Color {
    /// The name of the colour mode.
    pub fn name(&self) -> (r: &'static str)
        ensures
            r@ == color_name(*self),
    {
        match self {
            Color::Grayscale => "Grayscale",
            Color::Indexed => "Indexed",
        }
    }

    /// The name of the colour mode, owned.
    pub fn to_string(&self) -> (r: String)
        ensures
            r@ == color_name(*self),
    {
        self.name().to_owned()
    }

    /// Reads a colour mode from its name; the error names what could not be
    /// read.
    pub fn from_str(s: &str) -> (r: Result<Color, String>)
        ensures
            parse_color(s@) matches Some(c) ==> (r matches Ok(c2) && c2 == c),
            parse_color(s@) is None ==> (r matches Err(m) && m@ == "Couldn't parse as Color: "@ + s@),
    {
        match Color::parse(s) {
            Some(c) => Ok(c),
            None => {
                let mut m = String::from_str("Couldn't parse as Color: ");
                m.append(s);
                Err(m)
            },
        }
    }

    /// The colour mode named `s`.
    pub fn parse(s: &str) -> (r: Option<Color>)
        ensures
            r == parse_color(s@),
    {
        if same_text(s, "Grayscale") {
            Some(Color::Grayscale)
        } else if same_text(s, "Indexed") {
            Some(Color::Indexed)
        } else {
            None
        }
    }
}

impl Default for Color {
    fn default() -> (r: Color)
        ensures
            r == Color::Indexed,
    {
        Color::Indexed
    }
}

impl Default for PixFmt {
    fn default() -> (r: PixFmt)
        ensures
            r == PixFmt::Auto(Color::Indexed),
    {
        PixFmt::Auto(Color::Indexed)
    }
}

impl PixFmt {
    /// Every pixel format, in the order a user is offered them.
    pub fn into_iter() -> (r: Vec<PixFmt>)
        ensures
            r@ == all_pixfmts(),
    {
        let r = vec![
            PixFmt::Auto(Color::Indexed),
            PixFmt::Auto(Color::Grayscale),
            PixFmt::Bpp1(Color::Indexed),
            PixFmt::Bpp2(Color::Indexed),
            PixFmt::Bpp4(Color::Indexed),
            PixFmt::Bpp8(Color::Indexed),
            PixFmt::Bpp1(Color::Grayscale),
            PixFmt::Bpp2(Color::Grayscale),
            PixFmt::Bpp4(Color::Grayscale),
            PixFmt::Bpp8(Color::Grayscale),
        ];
        proof {
            assert(r@ =~= all_pixfmts());
        }
        r
    }

    /// The name of the pixel format, such as `Bpp4(Indexed)`.
    pub fn name(&self) -> (r: &'static str)
        ensures
            r@ == pixfmt_name(*self),
    {
        match self {
            PixFmt::Auto(Color::Indexed) => "Auto(Indexed)",
            PixFmt::Auto(Color::Grayscale) => "Auto(Grayscale)",
            PixFmt::Bpp1(Color::Indexed) => "Bpp1(Indexed)",
            PixFmt::Bpp1(Color::Grayscale) => "Bpp1(Grayscale)",
            PixFmt::Bpp2(Color::Indexed) => "Bpp2(Indexed)",
            PixFmt::Bpp2(Color::Grayscale) => "Bpp2(Grayscale)",
            PixFmt::Bpp4(Color::Indexed) => "Bpp4(Indexed)",
            PixFmt::Bpp4(Color::Grayscale) => "Bpp4(Grayscale)",
            PixFmt::Bpp8(Color::Indexed) => "Bpp8(Indexed)",
            PixFmt::Bpp8(Color::Grayscale) => "Bpp8(Grayscale)",
        }
    }

    /// The name of the pixel format, owned.
    pub fn to_string(&self) -> (r: String)
        ensures
            r@ == pixfmt_name(*self),
    {
        self.name().to_owned()
    }

    /// Reads a pixel format from its name; the error names what could not be
    /// read.
    pub fn from_str(s: &str) -> (r: Result<PixFmt, String>)
        ensures
            parse_pixfmt(s@) matches Some(f) ==> (r matches Ok(f2) && f2 == f),
            parse_pixfmt(s@) is None ==> (r matches Err(m) && m@ == "Couldn't parse as PixFmt: "@ + s@),
    {
        match PixFmt::parse(s) {
            Some(f) => Ok(f),
            None => {
                let mut m = String::from_str("Couldn't parse as PixFmt: ");
                m.append(s);
                Err(m)
            },
        }
    }

    /// The pixel format named `s`; a bare depth (`Bpp4`) means the indexed
    /// colour mode.
    pub fn parse(s: &str) -> (r: Option<PixFmt>)
        ensures
            r == parse_pixfmt(s@),
    {
        let c = Color::Indexed;
        if same_text(s, "Auto") {
            Some(PixFmt::Auto(c))
        } else if same_text(s, "Bpp1") {
            Some(PixFmt::Bpp1(c))
        } else if same_text(s, "Bpp2") {
            Some(PixFmt::Bpp2(c))
        } else if same_text(s, "Bpp4") {
            Some(PixFmt::Bpp4(c))
        } else if same_text(s, "Bpp8") {
            Some(PixFmt::Bpp8(c))
        } else if same_text(s, "Auto(Indexed)") {
            Some(PixFmt::Auto(Color::Indexed))
        } else if same_text(s, "Auto(Grayscale)") {
            Some(PixFmt::Auto(Color::Grayscale))
        } else if same_text(s, "Bpp1(Indexed)") {
            Some(PixFmt::Bpp1(Color::Indexed))
        } else if same_text(s, "Bpp2(Indexed)") {
            Some(PixFmt::Bpp2(Color::Indexed))
        } else if same_text(s, "Bpp4(Indexed)") {
            Some(PixFmt::Bpp4(Color::Indexed))
        } else if same_text(s, "Bpp8(Indexed)") {
            Some(PixFmt::Bpp8(Color::Indexed))
        } else if same_text(s, "Bpp1(Grayscale)") {
            Some(PixFmt::Bpp1(Color::Grayscale))
        } else if same_text(s, "Bpp2(Grayscale)") {
            Some(PixFmt::Bpp2(Color::Grayscale))
        } else if same_text(s, "Bpp4(Grayscale)") {
            Some(PixFmt::Bpp4(Color::Grayscale))
        } else if same_text(s, "Bpp8(Grayscale)") {
            Some(PixFmt::Bpp8(Color::Grayscale))
        } else {
            None
        }
    }
}

/// The name of a colour mode.
pub open spec fn color_name(c: Color) -> Seq<char> {
    match c {
        Color::Grayscale => "Grayscale"@,
        Color::Indexed => "Indexed"@,
    }
}

/// The colour mode named `s`.
pub open spec fn parse_color(s: Seq<char>) -> Option<Color> {
    if s == "Grayscale"@ {
        Some(Color::Grayscale)
    } else if s == "Indexed"@ {
        Some(Color::Indexed)
    } else {
        None
    }
}

/// Every pixel format, in the order a user is offered them.
pub open spec fn all_pixfmts() -> Seq<PixFmt> {
    seq![
        PixFmt::Auto(Color::Indexed),
        PixFmt::Auto(Color::Grayscale),
        PixFmt::Bpp1(Color::Indexed),
        PixFmt::Bpp2(Color::Indexed),
        PixFmt::Bpp4(Color::Indexed),
        PixFmt::Bpp8(Color::Indexed),
        PixFmt::Bpp1(Color::Grayscale),
        PixFmt::Bpp2(Color::Grayscale),
        PixFmt::Bpp4(Color::Grayscale),
        PixFmt::Bpp8(Color::Grayscale),
    ]
}

/// The name of a pixel format.
pub open spec fn pixfmt_name(f: PixFmt) -> Seq<char> {
    match f {
        PixFmt::Auto(Color::Indexed) => "Auto(Indexed)"@,
        PixFmt::Auto(Color::Grayscale) => "Auto(Grayscale)"@,
        PixFmt::Bpp1(Color::Indexed) => "Bpp1(Indexed)"@,
        PixFmt::Bpp1(Color::Grayscale) => "Bpp1(Grayscale)"@,
        PixFmt::Bpp2(Color::Indexed) => "Bpp2(Indexed)"@,
        PixFmt::Bpp2(Color::Grayscale) => "Bpp2(Grayscale)"@,
        PixFmt::Bpp4(Color::Indexed) => "Bpp4(Indexed)"@,
        PixFmt::Bpp4(Color::Grayscale) => "Bpp4(Grayscale)"@,
        PixFmt::Bpp8(Color::Indexed) => "Bpp8(Indexed)"@,
        PixFmt::Bpp8(Color::Grayscale) => "Bpp8(Grayscale)"@,
    }
}

/// The pixel format named `s`: a bare name such as `Bpp4` means the indexed
/// colour mode, a full name is the one `pixfmt_name` gives.
pub open spec fn parse_pixfmt(s: Seq<char>) -> Option<PixFmt> {
    if s == "Auto"@ {
        Some(PixFmt::Auto(Color::Indexed))
    } else if s == "Bpp1"@ {
        Some(PixFmt::Bpp1(Color::Indexed))
    } else if s == "Bpp2"@ {
        Some(PixFmt::Bpp2(Color::Indexed))
    } else if s == "Bpp4"@ {
        Some(PixFmt::Bpp4(Color::Indexed))
    } else if s == "Bpp8"@ {
        Some(PixFmt::Bpp8(Color::Indexed))
    } else if s == "Auto(Indexed)"@ {
        Some(PixFmt::Auto(Color::Indexed))
    } else if s == "Auto(Grayscale)"@ {
        Some(PixFmt::Auto(Color::Grayscale))
    } else if s == "Bpp1(Indexed)"@ {
        Some(PixFmt::Bpp1(Color::Indexed))
    } else if s == "Bpp2(Indexed)"@ {
        Some(PixFmt::Bpp2(Color::Indexed))
    } else if s == "Bpp4(Indexed)"@ {
        Some(PixFmt::Bpp4(Color::Indexed))
    } else if s == "Bpp8(Indexed)"@ {
        Some(PixFmt::Bpp8(Color::Indexed))
    } else if s == "Bpp1(Grayscale)"@ {
        Some(PixFmt::Bpp1(Color::Grayscale))
    } else if s == "Bpp2(Grayscale)"@ {
        Some(PixFmt::Bpp2(Color::Grayscale))
    } else if s == "Bpp4(Grayscale)"@ {
        Some(PixFmt::Bpp4(Color::Grayscale))
    } else if s == "Bpp8(Grayscale)"@ {
        Some(PixFmt::Bpp8(Color::Grayscale))
    } else {
        None
    }
}

} // verus!

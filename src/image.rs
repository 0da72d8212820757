//! Operations on palette-indexed images held as one byte per pixel.
use crate::pack::{pack_indices, packed, valid_depth};
use vstd::prelude::*;

verus! {

/// Pixel `t` of the `nw` x `nh` image that centres a `w` x `h` image `s`
/// and fills the rest with `pad`; an odd margin puts the extra pixel on the
/// right or at the bottom.
pub open spec fn padded_pixel(s: Seq<u8>, pad: u8, w: nat, h: nat, nw: nat, nh: nat, t: int) -> u8 {
    let x = t % (nw as int);
    let y = t / (nw as int);
    let left = (nw - w) / 2;
    let top = (nh - h) / 2;
    if left <= x < left + w && top <= y < top + h {
        s[(y - top) * w + (x - left)]
    } else {
        pad
    }
}

/// The padded image.
pub open spec fn padded(s: Seq<u8>, pad: u8, w: nat, h: nat, nw: nat, nh: nat) -> Seq<u8> {
    Seq::new(nw * nh, |t: int| padded_pixel(s, pad, w, h, nw, nh, t))
}

/// Centres the `width` x `height` image `bytes` in an `nwidth` x `nheight`
/// image, filling the margins with `pad_value`. Returns the new image and
/// its size.
pub fn pad_image(bytes: Vec<u8>, pad_value: u8, width: u32, height: u32, nwidth: u32, nheight: u32) -> (r: (
    Vec<u8>,
    u32,
    u32,
))
    requires
        width * height == bytes@.len(),
        nwidth >= width,
        nheight >= height,
        width > 0 || nwidth == width,
        nwidth * nheight <= usize::MAX,
    ensures
        r.0@ == padded(bytes@, pad_value, width as nat, height as nat, nwidth as nat, nheight as nat),
        r.1 == nwidth,
        r.2 == nheight,
{
    let ghost s = bytes@;
    let w = width as usize;
    let h = height as usize;
    let nw = nwidth as usize;
    let nh = nheight as usize;
    let left = (nw - w) / 2;
    let top = (nh - h) / 2;
    let len = bytes.len();
    let mut out: Vec<u8> = Vec::new();
    let mut y: usize = 0;
    while y < nh
        invariant
            s == bytes@,
            s.len() == len,
            w * h == s.len(),
            w == width,
            h == height,
            nw == nwidth,
            nh == nheight,
            nw >= w,
            nh >= h,
            nw * nh <= usize::MAX,
            left == (nw - w) / 2,
            top == (nh - h) / 2,
            y <= nh,
            out@.len() == y * nw,
            forall|t: int| 0 <= t < out@.len() ==> out@[t] == #[trigger] padded_pixel(s, pad_value, w as nat, h as nat, nw as nat, nh as nat, t),
        decreases nh - y,
    {
        assert(y * nw + nw <= nh * nw) by (nonlinear_arith)
            requires
                y < nh,
        ;
        let mut x: usize = 0;
        while x < nw
            invariant
                s == bytes@,
                s.len() == len,
                w * h == s.len(),
                nw >= w,
                nh >= h,
                y < nh,
                y * nw + nw <= nw * nh,
                nw * nh <= usize::MAX,
                left == (nw - w) / 2,
                top == (nh - h) / 2,
                x <= nw,
                out@.len() == y * nw + x,
                forall|t: int| 0 <= t < out@.len() ==> out@[t] == #[trigger] padded_pixel(s, pad_value, w as nat, h as nat, nw as nat, nh as nat, t),
            decreases nw - x,
        {
            let ghost t = (y * nw + x) as int;
            proof {
                vstd::arithmetic::div_mod::lemma_fundamental_div_mod_converse_div(t, nw as int, y as int, x as int);
                vstd::arithmetic::div_mod::lemma_fundamental_div_mod_converse_mod(t, nw as int, y as int, x as int);
                vstd::arithmetic::mul::lemma_mul_is_commutative(y as int, nw as int);
            }
            let v = if left <= x && x < left + w && top <= y && y < top + h {
                let row = y - top;
                let col = x - left;
                assert(row * w + col < w * h) by (nonlinear_arith)
                    requires
                        row < h,
                        col < w,
                ;
                assert(row * w <= row * w + col);
                assert(row * w + col >= 0) by (nonlinear_arith)
                    requires
                        row >= 0,
                        col >= 0,
                        w >= 0,
                ;
                bytes[row * w + col]
            } else {
                pad_value
            };
            out.push(v);
            x = x + 1;
        }
        assert(y * nw + nw == (y + 1) * nw) by (nonlinear_arith);
        y = y + 1;
    }
    proof {
        vstd::arithmetic::mul::lemma_mul_is_commutative(nh as int, nw as int);
        assert(out@ =~= padded(s, pad_value, w as nat, h as nat, nw as nat, nh as nat));
    }
    (out, nwidth, nheight)
}

/// How a saved image is coloured.
#[derive(Debug, Clone, Copy, PartialEq, Eq, Structural)]
pub enum ColorType {
    Grayscale,
    Indexed,
}

/// Why an image cannot be saved as PNG.
#[derive(Debug, Clone, Copy, PartialEq, Eq, Structural)]
pub enum PngLayoutError {
    /// A palette of more than 256 colours would need 16-bit indices.
    SixteenBitUnsupported,
    /// The palette has more than 65536 colours.
    PaletteTooLarge,
}

/// The PNG bit depth for a palette of `n` colours.
pub open spec fn png_depth(n: nat) -> u8 {
    if n <= 2 {
        1
    } else if n <= 4 {
        2
    } else if n <= 16 {
        4
    } else {
        8
    }
}

/// Chooses the smallest PNG bit depth that indexes a palette of
/// `palette_len` colours.
pub fn png_bit_depth(palette_len: usize) -> (r: Result<u8, PngLayoutError>)
    ensures
        r == png_bit_depth_spec(palette_len as nat),
{
    if palette_len <= 2 {
        Ok(1)
    } else if palette_len <= 4 {
        Ok(2)
    } else if palette_len <= 16 {
        Ok(4)
    } else if palette_len <= 256 {
        Ok(8)
    } else if palette_len <= 65536 {
        Err(PngLayoutError::SixteenBitUnsupported)
    } else {
        Err(PngLayoutError::PaletteTooLarge)
    }
}

/// The bit depth and packed rows of a `width`-wide image with a palette of
/// `palette_len` colours, as a PNG stores them.
pub fn png_image_data(indices: &[u8], width: u32, palette_len: usize) -> (r: Result<(u8, Vec<u8>), PngLayoutError>)
    requires
        width > 0,
    ensures
        palette_len <= 256 ==> (r matches Ok((d, data)) && d == png_depth(palette_len as nat) && data@
            == packed(indices@, width as nat, d)),
        palette_len > 256 ==> (r matches Err(e) && Err::<u8, PngLayoutError>(e) == png_bit_depth_spec(
            palette_len as nat,
        )),
{
    match png_bit_depth(palette_len) {
        Ok(d) => {
            let data = pack_indices(indices, width as usize, d);
            Ok((d, data))
        },
        Err(e) => Err(e),
    }
}

/// The result of `png_bit_depth`.
pub open spec fn png_bit_depth_spec(n: nat) -> Result<u8, PngLayoutError> {
    if n <= 256 {
        Ok(png_depth(n))
    } else if n <= 65536 {
        Err(PngLayoutError::SixteenBitUnsupported)
    } else {
        Err(PngLayoutError::PaletteTooLarge)
    }
}

} // verus!

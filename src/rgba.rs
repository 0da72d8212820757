//! Conversions to RGBA pixel data (four bytes per pixel) for display.
use crate::transmit::PaletteColor;
use ::image::Pixel;
use vstd::prelude::*;

verus! {

/// The sRGB luma of a colour, in the integer arithmetic the image crate uses
/// for 8-bit channels.
pub open spec fn luma(r: u8, g: u8, b: u8) -> int {
    (2126 * r + 7152 * g + 722 * b) / 10000
}

/// Relies on the image crate's `Pixel::to_luma_alpha` for `Rgba<u8>`: the
/// luma is `(2126 r + 7152 g + 722 b) / 10000`, widened to `u32` (it never
/// exceeds 255, so no clamping happens), and the alpha is copied.
#[verifier::external_body]
fn luma_alpha(r: u8, g: u8, b: u8, a: u8) -> (res: (u8, u8))
    ensures
        res.0 as int == luma(r, g, b),
        res.1 == a,
{
    let p = ::image::Rgba([r, g, b, a]).to_luma_alpha();
    (p.0[0], p.0[1])
}

/// Byte `t` of the grayscale version of the RGBA data `s`.
pub open spec fn gray_byte(s: Seq<u8>, t: int) -> u8 {
    let p = t - t % 4;
    if t % 4 == 3 {
        s[t]
    } else {
        luma(s[p], s[p + 1], s[p + 2]) as u8
    }
}

/// Replaces the colour of every RGBA pixel by its luma, keeping its alpha.
pub fn rgba_to_grayscale(bytes: &[u8]) -> (r: Vec<u8>)
    requires
        bytes@.len() % 4 == 0,
    ensures
        r@ == Seq::new(bytes@.len(), |t: int| gray_byte(bytes@, t)),
{
    let ghost s = bytes@;
    let n = bytes.len();
    let mut out: Vec<u8> = Vec::new();
    let mut i: usize = 0;
    while i < n
        invariant
            s == bytes@,
            n == s.len(),
            n % 4 == 0,
            i % 4 == 0,
            i <= n,
            out@.len() == i,
            forall|t: int| 0 <= t < i ==> out@[t] == #[trigger] gray_byte(s, t),
        decreases n - i,
    {
        let (y, a) = luma_alpha(bytes[i], bytes[i + 1], bytes[i + 2], bytes[i + 3]);
        out.push(y);
        out.push(y);
        out.push(y);
        out.push(a);
        proof {
            assert forall|t: int| i <= t < i + 4 implies out@[t] == #[trigger] gray_byte(s, t) by {
                assert(t - t % 4 == i);
            }
        }
        i = i + 4;
    }
    proof {
        assert(out@ =~= Seq::new(s.len(), |t: int| gray_byte(s, t)));
    }
    out
}

/// Channel `k` (red, green, blue, alpha) of a palette colour.
pub open spec fn channel(c: PaletteColor, k: int) -> u8 {
    if k == 0 {
        c.r
    } else if k == 1 {
        c.g
    } else if k == 2 {
        c.b
    } else {
        c.a
    }
}

/// The RGBA data of an indexed image: each index replaced by its colour.
pub fn indexed_to_rgba(indexes: &[u8], palette: &[PaletteColor]) -> (r: Vec<u8>)
    requires
        forall|i: int| 0 <= i < indexes@.len() ==> (#[trigger] indexes@[i] as int) < palette@.len(),
        indexes@.len() * 4 <= usize::MAX,
    ensures
        r@ == Seq::new(indexes@.len() * 4, |t: int| channel(palette@[indexes@[t / 4] as int], t % 4)),
{
    let n = indexes.len();
    let mut out: Vec<u8> = Vec::new();
    let mut i: usize = 0;
    while i < n
        invariant
            n == indexes@.len(),
            n * 4 <= usize::MAX,
            forall|j: int| 0 <= j < indexes@.len() ==> (#[trigger] indexes@[j] as int) < palette@.len(),
            i <= n,
            out@.len() == i * 4,
            forall|t: int| 0 <= t < out@.len() ==> out@[t] == #[trigger] channel(palette@[indexes@[t / 4] as int], t % 4),
        decreases n - i,
    {
        let c = palette[indexes[i] as usize];
        out.push(c.r);
        out.push(c.g);
        out.push(c.b);
        out.push(c.a);
        proof {
            assert forall|t: int| i * 4 <= t < i * 4 + 4 implies out@[t] == #[trigger] channel(palette@[indexes@[t / 4] as int], t % 4) by {
                assert(t / 4 == i);
            }
        }
        i = i + 1;
    }
    proof {
        assert(out@ =~= Seq::new((n * 4) as nat, |t: int| channel(palette@[indexes@[t / 4] as int], t % 4)));
    }
    out
}

/// Byte `t` of the swatch column of `pal`: each colour, fully opaque.
pub open spec fn swatch_byte(pal: Seq<PaletteColor>, t: int) -> u8 {
    if t % 4 == 3 {
        255
    } else {
        channel(pal[t / 4], t % 4)
    }
}

/// The RGBA data of a column of palette swatches, one opaque pixel per
/// colour.
pub fn palette_to_rgba(palette: &[PaletteColor]) -> (r: Vec<u8>)
    requires
        palette@.len() * 4 <= usize::MAX,
    ensures
        r@ == Seq::new(palette@.len() * 4, |t: int| swatch_byte(palette@, t)),
{
    let n = palette.len();
    let mut out: Vec<u8> = Vec::new();
    let mut i: usize = 0;
    while i < n
        invariant
            n == palette@.len(),
            n * 4 <= usize::MAX,
            i <= n,
            out@.len() == i * 4,
            forall|t: int|
                0 <= t < out@.len() ==> out@[t] == #[trigger] swatch_byte(palette@, t),
        decreases n - i,
    {
        let c = palette[i];
        out.push(c.r);
        out.push(c.g);
        out.push(c.b);
        out.push(255);
        proof {
            assert forall|t: int| i * 4 <= t < i * 4 + 4 implies out@[t] == #[trigger] swatch_byte(palette@, t) by {
                assert(t / 4 == i);
            }
        }
        i = i + 1;
    }
    proof {
        assert(out@ =~= Seq::new((n * 4) as nat, |t: int| swatch_byte(palette@, t)));
    }
    out
}

} // verus!

//! Packing of palette indices at 1, 2, 4 or 8 bits per pixel.
//!
//! Each row of `width` indices is packed on its own, most significant bits
//! first; a short last group of a row is padded with zero bits, so rows never
//! share a byte.
use vstd::arithmetic::div_mod::{
    lemma_fundamental_div_mod, lemma_fundamental_div_mod_converse_div,
    lemma_fundamental_div_mod_converse_mod,
};
use vstd::arithmetic::mul::{lemma_mul_inequality, lemma_mul_is_commutative};
use vstd::prelude::*;

verus! {

/// The bit depths that a packed stream can have.
pub open spec fn valid_depth(d: u8) -> bool {
    d == 1 || d == 2 || d == 4 || d == 8
}

/// Number of pixels that share one byte.
pub open spec fn pixels_per_byte(d: u8) -> nat {
    if d == 1 {
        8
    } else if d == 2 {
        4
    } else if d == 4 {
        2
    } else {
        1
    }
}

/// Number of distinct values one pixel can hold, `2^d`.
pub open spec fn levels(d: u8) -> nat {
    if d == 1 {
        2
    } else if d == 2 {
        4
    } else if d == 4 {
        16
    } else {
        256
    }
}

/// Bytes taken by one packed row of `w` pixels: `ceil(w / pixels_per_byte)`.
pub open spec fn row_bytes(w: nat, d: u8) -> nat {
    let n = pixels_per_byte(d);
    w / n + if w % n == 0 {
        0nat
    } else {
        1nat
    }
}

/// The value of the digits `g` read most significant first in base `b`.
pub open spec fn horner(g: Seq<u8>, b: nat) -> nat
    decreases g.len(),
{
    if g.len() == 0 {
        0
    } else {
        horner(g.drop_last(), b) * b + (g.last() as nat)
    }
}

/// The `n` lowest digits of `v` in base `b`, most significant first.
pub open spec fn digits(v: nat, n: nat, b: nat) -> Seq<u8>
    decreases n,
{
    if n == 0 || b == 0 {
        seq![]
    } else {
        digits(v / b, (n - 1) as nat, b).push((v % b) as u8)
    }
}

/// Pixel `k` of the row starting at `base`, reduced to `d` bits; zero past
/// the end of the row.
pub open spec fn cell(s: Seq<u8>, base: int, w: nat, k: int, d: u8) -> u8 {
    if k < w {
        (s[base + k] as nat % levels(d)) as u8
    } else {
        0
    }
}

/// The pixels that go into byte `j` of the row starting at `base`.
pub open spec fn byte_group(s: Seq<u8>, base: int, w: nat, j: int, d: u8) -> Seq<u8> {
    Seq::new(pixels_per_byte(d), |i: int| cell(s, base, w, j * pixels_per_byte(d) + i, d))
}

/// Byte `t` of the packed stream.
pub open spec fn packed_byte(s: Seq<u8>, w: nat, d: u8, t: int) -> u8 {
    let rb = row_bytes(w, d) as int;
    horner(byte_group(s, (t / rb) * w, w, t % rb, d), levels(d)) as u8
}

/// The packed form of the complete rows of `s`.
pub open spec fn packed(s: Seq<u8>, w: nat, d: u8) -> Seq<u8> {
    Seq::new((s.len() / w) * row_bytes(w, d), |t: int| packed_byte(s, w, d, t))
}

/// Pixel `t` of the unpacked stream.
pub open spec fn unpacked_pixel(p: Seq<u8>, w: nat, d: u8, t: int) -> u8 {
    let n = pixels_per_byte(d) as int;
    let k = t % (w as int);
    let byte = p[(t / (w as int)) * (row_bytes(w, d) as int) + k / n];
    digits(byte as nat, n as nat, levels(d))[k % n]
}

/// The pixels of the complete packed rows of `p`.
pub open spec fn unpacked(p: Seq<u8>, w: nat, d: u8) -> Seq<u8> {
    Seq::new((p.len() / row_bytes(w, d)) * w, |t: int| unpacked_pixel(p, w, d, t))
}

proof fn lemma_depth_facts(d: u8)
    requires
        valid_depth(d),
    ensures
        pixels_per_byte(d) >= 1,
        levels(d) >= 2,
        pixels_per_byte(d) * d == 8,
{
}

proof fn lemma_digits_len(v: nat, n: nat, b: nat)
    requires
        b > 0,
    ensures
        digits(v, n, b).len() == n,
    decreases n,
{
    if n > 0 {
        lemma_digits_len(v / b, (n - 1) as nat, b);
    }
}

/// Reading the digits of a number written with the digits `g` gives `g`.
proof fn lemma_digits_horner(g: Seq<u8>, b: nat)
    requires
        b >= 2,
        forall|i: int| 0 <= i < g.len() ==> (#[trigger] g[i]) < b,
    ensures
        digits(horner(g, b), g.len(), b) == g,
    decreases g.len(),
{
    if g.len() > 0 {
        let h = horner(g.drop_last(), b);
        lemma_fundamental_div_mod_converse_div(h * b + g.last(), b as int, h as int, g.last() as int);
        lemma_fundamental_div_mod_converse_mod(h * b + g.last(), b as int, h as int, g.last() as int);
        lemma_digits_horner(g.drop_last(), b);
        assert(g.drop_last().push(g.last()) =~= g);
    }
}

/// Digit `i` of `v` does not change when the lowest digit is dropped.
proof fn lemma_digits_shift(v: nat, n: nat, b: nat, i: int)
    requires
        b > 0,
        0 <= i < n - 1,
    ensures
        digits(v, n, b)[i] == digits(v / b, (n - 1) as nat, b)[i],
{
    lemma_digits_len(v / b, (n - 1) as nat, b);
}

proof fn lemma_horner_step(g: Seq<u8>, i: int, b: nat)
    requires
        0 <= i < g.len(),
    ensures
        horner(g.take(i + 1), b) == horner(g.take(i), b) * b + g[i],
{
    assert(g.take(i + 1).drop_last() =~= g.take(i));
}

/// Position of pixel `k` of a row: byte `k / n`, digit `k % n`.
proof fn lemma_pixel_position(k: int, w: nat, d: u8)
    requires
        valid_depth(d),
        0 <= k < w,
    ensures
        0 <= k / (pixels_per_byte(d) as int) < row_bytes(w, d),
        (k / (pixels_per_byte(d) as int)) * (pixels_per_byte(d) as int) + k % (pixels_per_byte(d) as int)
            == k,
        0 <= k % (pixels_per_byte(d) as int) < pixels_per_byte(d),
{
    let n = pixels_per_byte(d) as int;
    lemma_depth_facts(d);
    lemma_fundamental_div_mod(k, n);
    lemma_fundamental_div_mod(w as int, n);
    assert(0 <= k / n <= (w as int) / n) by {
        vstd::arithmetic::div_mod::lemma_div_is_ordered(k, w as int, n);
        vstd::arithmetic::div_mod::lemma_div_pos_is_pos(k, n);
    }
    if k / n == (w as int) / n && w % (n as nat) == 0 {
        assert(false) by (nonlinear_arith)
            requires
                k < w,
                n > 0,
                k == n * (k / n) + k % n,
                w == n * ((w as int) / n) + (w as int) % n,
                k / n == (w as int) / n,
                (w as int) % n == 0,
                k % n >= 0,
        ;
    }
}

/// Row `r`, place `j` as a flat index into rows of `m` entries.
proof fn lemma_flat_index(r: int, j: int, m: int)
    requires
        0 <= r,
        0 <= j < m,
    ensures
        (r * m + j) / m == r,
        (r * m + j) % m == j,
{
    lemma_mul_is_commutative(r, m);
    lemma_fundamental_div_mod_converse_div(r * m + j, m, r, j);
    lemma_fundamental_div_mod_converse_mod(r * m + j, m, r, j);
}

/// Unpacking a packed stream gives back the pixels, when each pixel fits in
/// the bit depth and the stream holds whole rows; a packed row takes
/// `ceil(width * d / 8)` bytes.
pub proof fn lemma_pack_round_trip(s: Seq<u8>, w: nat, d: u8)
    requires
        valid_depth(d),
        w > 0,
        s.len() % w == 0,
        forall|i: int| 0 <= i < s.len() ==> (#[trigger] s[i] as nat) < levels(d),
    ensures
        unpacked(packed(s, w, d), w, d) == s,
        row_bytes(w, d) == (w * d + 7) / 8,
        packed(s, w, d).len() == (s.len() / w) * ((w * d + 7) / 8),
{
    lemma_depth_facts(d);
    let n = pixels_per_byte(d) as int;
    let b = levels(d);
    let rb = row_bytes(w, d) as int;
    let p = packed(s, w, d);
    let rows = (s.len() / w) as int;
    assert(row_bytes(w, d) == (w * d + 7) / 8);
    assert(rb > 0);
    lemma_fundamental_div_mod(s.len() as int, w as int);
    lemma_mul_is_commutative(rows, w as int);
    assert(p.len() == rows * rb);
    lemma_fundamental_div_mod_converse_div(rows * rb, rb, rows, 0);
    lemma_mul_is_commutative(rows, rb);
    assert(p.len() / (rb as nat) == rows);
    let u = unpacked(p, w, d);
    assert(u.len() == s.len());
    assert forall|t: int| 0 <= t < s.len() implies u[t] == s[t] by {
        let r = t / (w as int);
        let k = t % (w as int);
        lemma_fundamental_div_mod(t, w as int);
        lemma_mul_is_commutative(r, w as int);
        lemma_pixel_position(k, w, d);
        let j = k / n;
        let bi = r * rb + j;
        assert(0 <= r < rows) by {
            vstd::arithmetic::div_mod::lemma_div_is_ordered(t, s.len() as int, w as int);
            vstd::arithmetic::div_mod::lemma_div_pos_is_pos(t, w as int);
            if r == rows {
                assert(t >= r * (w as int));
                assert(s.len() == rows * (w as int));
            }
        }
        lemma_flat_index(r, j, rb);
        assert(bi < p.len()) by (nonlinear_arith)
            requires
                0 <= r < rows,
                0 <= j < rb,
                p.len() == rows * rb,
                bi == r * rb + j,
        ;
        assert(0 <= bi) by (nonlinear_arith)
            requires
                0 <= r,
                0 <= j,
                0 <= rb,
                bi == r * rb + j,
        ;
        let g = byte_group(s, r * (w as int), w, j, d);
        assert(p[bi] == horner(g, b) as u8);
        assert forall|i: int| 0 <= i < g.len() implies (#[trigger] g[i]) < b by {
            if j * n + i < w {
                assert(0 <= r * (w as int) + j * n + i) by (nonlinear_arith)
                    requires
                        0 <= r,
                        0 <= j,
                        0 <= i,
                        0 < w,
                        0 < n,
                ;
            }
        }
        lemma_digits_horner(g, b);
        lemma_horner_fits(g, d);
        assert((horner(g, b) as u8) as nat == horner(g, b));
        assert(g[k % n] == cell(s, r * (w as int), w, k, d));
        assert(r * (w as int) + k == t);
        assert(s[t] as nat % b == s[t] as nat) by {
            vstd::arithmetic::div_mod::lemma_small_mod(s[t] as nat, b);
        }
    }
    assert(u =~= s);
}

/// A packed byte fits in eight bits.
proof fn lemma_horner_fits(g: Seq<u8>, d: u8)
    requires
        valid_depth(d),
        g.len() == pixels_per_byte(d),
        forall|i: int| 0 <= i < g.len() ==> (#[trigger] g[i]) < levels(d),
    ensures
        horner(g, levels(d)) < 256,
{
    lemma_depth_facts(d);
    lemma_horner_bound(g, levels(d));
    reveal_with_fuel(power, 9);
}

/// `b^n`.
pub open spec fn power(b: nat, n: nat) -> nat
    decreases n,
{
    if n == 0 {
        1
    } else {
        power(b, (n - 1) as nat) * b
    }
}

proof fn lemma_power_of_levels(d: u8)
    requires
        valid_depth(d),
    ensures
        power(levels(d), pixels_per_byte(d)) == 256,
{
    reveal_with_fuel(power, 9);
}

proof fn lemma_power_step_bound(b: nat, i: nat, n: nat)
    requires
        b >= 1,
        i < n,
        power(b, n) == 256,
    ensures
        power(b, i) * b <= 256,
        power(b, i + 1) == power(b, i) * b,
    decreases n - i,
{
    lemma_power_monotone(b, i + 1, n);
}

proof fn lemma_power_monotone(b: nat, i: nat, n: nat)
    requires
        b >= 1,
        i <= n,
    ensures
        power(b, i) <= power(b, n),
    decreases n - i,
{
    if i < n {
        lemma_power_monotone(b, i + 1, n);
        assert(power(b, i) * 1 <= power(b, i) * b) by (nonlinear_arith)
            requires
                b >= 1,
        ;
    }
}

proof fn lemma_horner_bound(g: Seq<u8>, b: nat)
    requires
        b >= 1,
        forall|i: int| 0 <= i < g.len() ==> (#[trigger] g[i]) < b,
    ensures
        horner(g, b) < power(b, g.len()),
    decreases g.len(),
{
    if g.len() > 0 {
        let h = horner(g.drop_last(), b);
        let q = power(b, (g.len() - 1) as nat);
        lemma_horner_bound(g.drop_last(), b);
        assert(g.last() < b);
        assert(h * b + g.last() < q * b) by (nonlinear_arith)
            requires
                h < q,
                g.last() < b,
        ;
    }
}

/// `levels(d)`, for a valid depth.
fn depth_levels(d: u8) -> (r: u32)
    requires
        valid_depth(d),
    ensures
        r as nat == levels(d),
{
    if d == 1 {
        2
    } else if d == 2 {
        4
    } else if d == 4 {
        16
    } else {
        256
    }
}

/// `pixels_per_byte(d)`, for a valid depth.
fn depth_pixels_per_byte(d: u8) -> (r: usize)
    requires
        valid_depth(d),
    ensures
        r as nat == pixels_per_byte(d),
{
    if d == 1 {
        8
    } else if d == 2 {
        4
    } else if d == 4 {
        2
    } else {
        1
    }
}

/// Bytes taken by one packed row of `width` pixels at depth `d`.
pub fn packed_row_len(width: usize, d: u8) -> (r: usize)
    requires
        valid_depth(d),
    ensures
        r as nat == row_bytes(width as nat, d),
{
    let n = depth_pixels_per_byte(d);
    proof {
        if n == 1 {
            assert(width % n == 0);
        } else {
            if width > 0 {
                vstd::arithmetic::div_mod::lemma_div_decreases(width as int, n as int);
            }
        }
    }
    width / n + if width % n == 0 {
        0
    } else {
        1
    }
}

/// Packs the complete rows of `indices` (rows of `width` pixels) at
/// `bitdepth` bits per pixel. Each index is reduced to its low `bitdepth`
/// bits.
pub fn pack_indices(indices: &[u8], width: usize, bitdepth: u8) -> (r: Vec<u8>)
    requires
        width > 0,
        valid_depth(bitdepth),
    ensures
        r@ == packed(indices@, width as nat, bitdepth),
{
    let ghost s = indices@;
    let ghost w = width as nat;
    let n = depth_pixels_per_byte(bitdepth);
    let b = depth_levels(bitdepth);
    let rb = packed_row_len(width, bitdepth);
    let len = indices.len();
    let rows = len / width;
    proof {
        lemma_depth_facts(bitdepth);
        lemma_fundamental_div_mod(indices.len() as int, width as int);
        lemma_mul_is_commutative(rows as int, width as int);
        assert(rows * width <= indices.len()) by (nonlinear_arith)
            requires
                indices.len() == width * rows + indices.len() % width,
                indices.len() % width >= 0,
        ;
    }
    proof {
        lemma_power_of_levels(bitdepth);
    }
    let mut out: Vec<u8> = Vec::new();
    let mut r: usize = 0;
    let mut base: usize = 0;
    while r < rows
        invariant
            s == indices@,
            s.len() == len,
            w == width,
            width > 0,
            valid_depth(bitdepth),
            n as nat == pixels_per_byte(bitdepth),
            b as nat == levels(bitdepth),
            rb as nat == row_bytes(w, bitdepth),
            rows == s.len() / w,
            rows * width <= s.len(),
            r <= rows,
            base == r * width,
            power(b as nat, n as nat) == 256,
            out@.len() == r * rb,
            forall|t: int| 0 <= t < out@.len() ==> out@[t] == #[trigger] packed_byte(s, w, bitdepth, t),
        decreases rows - r,
    {
        assert(r * width + width <= rows * width) by (nonlinear_arith)
            requires
                r < rows,
        ;
        let mut j: usize = 0;
        while j < rb
            invariant
                s == indices@,
                s.len() == len,
                w == width,
                width > 0,
                valid_depth(bitdepth),
                n as nat == pixels_per_byte(bitdepth),
                b as nat == levels(bitdepth),
                rb as nat == row_bytes(w, bitdepth),
                rows == s.len() / w,
                rows * width <= s.len(),
                r < rows,
                base == r * width,
                base + width <= s.len(),
                power(b as nat, n as nat) == 256,
                j <= rb,
                out@.len() == r * rb + j,
                forall|t: int| 0 <= t < out@.len() ==> out@[t] == #[trigger] packed_byte(s, w, bitdepth, t),
            decreases rb - j,
        {
            let ghost g = byte_group(s, base as int, w, j as int, bitdepth);
            proof {
                lemma_depth_facts(bitdepth);
                assert(j * n < width) by (nonlinear_arith)
                    requires
                        j < rb,
                        rb == width / n + if width % n == 0 { 0int } else { 1int },
                        n > 0,
                        width == n * (width / n) + width % n,
                        0 <= width % n < n,
                ;
                lemma_fundamental_div_mod(width as int, n as int);
            }
            let start = j * n;
            let mut acc: u32 = 0;
            let mut i: usize = 0;
            while i < n
                invariant
                    s == indices@,
                    s.len() == len,
                    w == width,
                    valid_depth(bitdepth),
                    n as nat == pixels_per_byte(bitdepth),
                    b as nat == levels(bitdepth),
                    base + width <= s.len(),
                    start < width,
                    start == j * n,
                    g == byte_group(s, base as int, w, j as int, bitdepth),
                    i <= n,
                    acc as nat == horner(g.take(i as int), b as nat),
                    acc < power(b as nat, i as nat),
                    power(b as nat, n as nat) == 256,
                decreases n - i,
            {
                let x: u32 = if i < width - start {
                    indices[base + start + i] as u32 % b
                } else {
                    0
                };
                proof {
                    assert(x as u8 == g[i as int]);
                    lemma_horner_step(g, i as int, b as nat);
                    lemma_power_step_bound(b as nat, i as nat, n as nat);
                    assert(acc * b + x < power(b as nat, i as nat) * b) by (nonlinear_arith)
                        requires
                            acc < power(b as nat, i as nat),
                            x < b,
                    ;
                }
                acc = acc * b + x;
                i = i + 1;
            }
            proof {
                assert(g.take(n as int) =~= g);
                lemma_flat_index(r as int, j as int, rb as int);
            }
            out.push(acc as u8);
            j = j + 1;
        }
        assert(r * rb + rb == (r + 1) * rb) by (nonlinear_arith);
        assert(r * width + width == (r + 1) * width) by (nonlinear_arith);
        r = r + 1;
        base = base + width;
    }
    proof {
        assert(out@ =~= packed(s, w, bitdepth));
    }
    out
}


/// Digit `i` (most significant first) of the `n` lowest base-`b` digits of
/// `byte`.
fn byte_digit(byte: u8, n: usize, b: u32, i: usize) -> (r: u8)
    requires
        b >= 2,
        i < n,
    ensures
        r == digits(byte as nat, n as nat, b as nat)[i as int],
{
    let mut v: u32 = byte as u32;
    let mut m: usize = n;
    while m > i + 1
        invariant
            b >= 2,
            i < m <= n,
            digits(byte as nat, n as nat, b as nat)[i as int] == digits(v as nat, m as nat, b as nat)[i as int],
        decreases m,
    {
        proof {
            lemma_digits_shift(v as nat, m as nat, b as nat, i as int);
        }
        v = v / b;
        m = m - 1;
    }
    proof {
        lemma_digits_len((v / b) as nat, (m - 1) as nat, b as nat);
    }
    (v % b) as u8
}

/// Unpacks the complete rows of a packed stream into one index per pixel:
/// the inverse of `pack_indices`.
pub fn unpack_indices(packed_data: &[u8], width: usize, bitdepth: u8) -> (r: Vec<u8>)
    requires
        width > 0,
        valid_depth(bitdepth),
        packed_data@.len() / row_bytes(width as nat, bitdepth) * width <= usize::MAX,
    ensures
        r@ == unpacked(packed_data@, width as nat, bitdepth),
{
    let ghost p = packed_data@;
    let ghost w = width as nat;
    let n = depth_pixels_per_byte(bitdepth);
    let b = depth_levels(bitdepth);
    let rb = packed_row_len(width, bitdepth);
    let len = packed_data.len();
    proof {
        lemma_depth_facts(bitdepth);
        lemma_fundamental_div_mod(width as int, n as int);
        assert(width / n > 0 || width % n != 0) by (nonlinear_arith)
            requires
                width > 0,
                width == n * (width / n) + width % n,
        ;
    }
    let rows = len / rb;
    proof {
        lemma_fundamental_div_mod(len as int, rb as int);
        lemma_mul_is_commutative(rows as int, rb as int);
    }
    let mut out: Vec<u8> = Vec::new();
    let mut r: usize = 0;
    let mut base: usize = 0;
    while r < rows
        invariant
            p == packed_data@,
            p.len() == len,
            w == width,
            width > 0,
            valid_depth(bitdepth),
            n as nat == pixels_per_byte(bitdepth),
            b as nat == levels(bitdepth),
            rb as nat == row_bytes(w, bitdepth),
            rb > 0,
            rows == len / rb,
            rows * rb <= len,
            rows * width <= usize::MAX,
            r <= rows,
            base == r * rb,
            out@.len() == r * width,
            forall|t: int| 0 <= t < out@.len() ==> out@[t] == #[trigger] unpacked_pixel(p, w, bitdepth, t),
        decreases rows - r,
    {
        assert(r * rb + rb <= rows * rb) by (nonlinear_arith)
            requires
                r < rows,
        ;
        assert(r * width + width <= rows * width) by (nonlinear_arith)
            requires
                r < rows,
        ;
        let mut k: usize = 0;
        while k < width
            invariant
                p == packed_data@,
                p.len() == len,
                w == width,
                width > 0,
                valid_depth(bitdepth),
                n as nat == pixels_per_byte(bitdepth),
                b as nat == levels(bitdepth),
                rb as nat == row_bytes(w, bitdepth),
                rb > 0,
                r < rows,
                base == r * rb,
                base + rb <= len,
                r * width + width <= usize::MAX,
                k <= width,
                out@.len() == r * width + k,
                forall|t: int| 0 <= t < out@.len() ==> out@[t] == #[trigger] unpacked_pixel(p, w, bitdepth, t),
            decreases width - k,
        {
            proof {
                lemma_pixel_position(k as int, w, bitdepth);
                lemma_flat_index(r as int, k as int, width as int);
            }
            let byte = packed_data[base + k / n];
            let px = byte_digit(byte, n, b, k % n);
            out.push(px);
            k = k + 1;
        }
        assert(r * width + width == (r + 1) * width) by (nonlinear_arith);
        assert(r * rb + rb == (r + 1) * rb) by (nonlinear_arith);
        r = r + 1;
        base = base + rb;
    }
    proof {
        assert(out@ =~= unpacked(p, w, bitdepth));
    }
    out
}

} // verus!

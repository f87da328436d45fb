//! Image kernels over interleaved RGBA byte buffers: grayscale, inversion,
//! per-channel brightness mapping, and a 3x3 blur.
//!
//! Every kernel walks the whole pixels of the buffer (`len / 4` of them),
//! rewrites the R, G and B bytes, and leaves each alpha byte and any trailing
//! bytes of a non-pixel-aligned buffer untouched.

use vstd::prelude::*;
use vstd::arithmetic::div_mod::lemma_fundamental_div_mod;
use vstd::arithmetic::div_mod::lemma_fundamental_div_mod_converse;

verus! {

/// Luma-weighted grayscale value of an RGB triple, with integer weights
/// 299/587/114 out of 1000 and floor rounding.
pub open spec fn luma(r: u8, g: u8, b: u8) -> u8 {
    (((r as int) * 299 + (g as int) * 587 + (b as int) * 114) / 1000) as u8
}

/// Byte `j` is a colour channel (R, G or B) of a whole pixel: it lies inside
/// the pixel-aligned prefix and is not the fourth (alpha) byte of its pixel.
pub open spec fn is_rgb_byte(len: int, j: int) -> bool {
    0 <= j < 4 * (len / 4) && j % 4 != 3
}

/// The buffer after grayscale conversion: each colour byte is replaced by the
/// luma of its pixel's original R, G and B; everything else is untouched.
pub open spec fn grayscale_spec(s: Seq<u8>) -> Seq<u8> {
    Seq::new(
        s.len(),
        |j: int|
            if is_rgb_byte(s.len() as int, j) {
                luma(s[4 * (j / 4)], s[4 * (j / 4) + 1], s[4 * (j / 4) + 2])
            } else {
                s[j]
            },
    )
}

/// The buffer after inversion: each colour byte `v` becomes `255 - v`.
pub open spec fn invert_spec(s: Seq<u8>) -> Seq<u8> {
    Seq::new(
        s.len(),
        |j: int|
            if is_rgb_byte(s.len() as int, j) {
                (255 - s[j]) as u8
            } else {
                s[j]
            },
    )
}

/// The buffer after passing each colour byte through a 256-entry lookup table.
pub open spec fn map_channels_spec(s: Seq<u8>, lut: Seq<u8>) -> Seq<u8> {
    Seq::new(
        s.len(),
        |j: int|
            if is_rgb_byte(s.len() as int, j) {
                lut[s[j] as int]
            } else {
                s[j]
            },
    )
}

/// For quotient-and-remainder forms the coordinates recompose exactly.
proof fn lemma_coords(q: int, d: int, r: int)
    requires
        0 <= q,
        0 <= r < d,
    ensures
        (q * d + r) / d == q,
        (q * d + r) % d == r,
{
    lemma_fundamental_div_mod_converse(q * d + r, d, q, r);
}

/// A byte buffer holds at least `4 * (len / 4)` bytes of whole pixels.
proof fn lemma_pixel_prefix(len: int)
    requires
        len >= 0,
    ensures
        4 * (len / 4) <= len,
        len / 4 >= 0,
    {
    lemma_fundamental_div_mod(len, 4);
}

/// Converts the buffer to grayscale in place: every pixel's R, G and B are
/// replaced by the same luma-weighted average; alpha bytes are untouched.
pub fn grayscale(data: &mut Vec<u8>)
    ensures
        final(data)@ == grayscale_spec(old(data)@),
{
    let len = data.len();
    let pixel_count = len / 4;
    proof {
        lemma_pixel_prefix(len as int);
    }
    let mut i: usize = 0;
    while i < pixel_count
        invariant
            data@.len() == len == old(data)@.len(),
            pixel_count == len as int / 4,
            0 <= i <= pixel_count,
            forall|j: int| 0 <= j < 4 * i ==> data@[j] == grayscale_spec(old(data)@)[j],
            forall|j: int| 4 * i <= j < len ==> data@[j] == old(data)@[j],
        decreases pixel_count - i,
    {
        proof {
            lemma_pixel_prefix(len as int);
            lemma_coords(i as int, 4, 0);
            lemma_coords(i as int, 4, 1);
            lemma_coords(i as int, 4, 2);
            lemma_coords(i as int, 4, 3);
        }
        let off = i * 4;
        let r = data[off] as u32;
        let g = data[off + 1] as u32;
        let b = data[off + 2] as u32;
        let gray = ((r * 299 + g * 587 + b * 114) / 1000) as u8;
        data.set(off, gray);
        data.set(off + 1, gray);
        data.set(off + 2, gray);
        i += 1;
    }
    proof {
        assert(data@ =~= grayscale_spec(old(data)@));
    }
}

/// Inverts the image in place: each colour byte `v` becomes `255 - v`; alpha
/// bytes are untouched.
pub fn invert(data: &mut Vec<u8>)
    ensures
        final(data)@ == invert_spec(old(data)@),
{
    let len = data.len();
    let pixel_count = len / 4;
    proof {
        lemma_pixel_prefix(len as int);
    }
    let mut i: usize = 0;
    while i < pixel_count
        invariant
            data@.len() == len == old(data)@.len(),
            pixel_count == len as int / 4,
            0 <= i <= pixel_count,
            forall|j: int| 0 <= j < 4 * i ==> data@[j] == invert_spec(old(data)@)[j],
            forall|j: int| 4 * i <= j < len ==> data@[j] == old(data)@[j],
        decreases pixel_count - i,
    {
        proof {
            lemma_pixel_prefix(len as int);
            lemma_coords(i as int, 4, 0);
            lemma_coords(i as int, 4, 1);
            lemma_coords(i as int, 4, 2);
            lemma_coords(i as int, 4, 3);
        }
        let off = i * 4;
        let r = data[off];
        let g = data[off + 1];
        let b = data[off + 2];
        data.set(off, 255 - r);
        data.set(off + 1, 255 - g);
        data.set(off + 2, 255 - b);
        i += 1;
    }
    proof {
        assert(data@ =~= invert_spec(old(data)@));
    }
}

/// Rewrites every colour byte through a 256-entry lookup table, one entry per
/// possible byte value; alpha bytes are untouched. Brightness adjustment by a
/// scale factor is the instance where entry `v` holds the scaled, clamped
/// value of `v`.
pub fn adjust_brightness(data: &mut Vec<u8>, lut: &Vec<u8>)
    requires
        lut@.len() == 256,
    ensures
        final(data)@ == map_channels_spec(old(data)@, lut@),
{
    let len = data.len();
    let pixel_count = len / 4;
    proof {
        lemma_pixel_prefix(len as int);
    }
    let mut i: usize = 0;
    while i < pixel_count
        invariant
            lut@.len() == 256,
            data@.len() == len == old(data)@.len(),
            pixel_count == len as int / 4,
            0 <= i <= pixel_count,
            forall|j: int| 0 <= j < 4 * i ==> data@[j] == map_channels_spec(old(data)@, lut@)[j],
            forall|j: int| 4 * i <= j < len ==> data@[j] == old(data)@[j],
        decreases pixel_count - i,
    {
        proof {
            lemma_pixel_prefix(len as int);
            lemma_coords(i as int, 4, 0);
            lemma_coords(i as int, 4, 1);
            lemma_coords(i as int, 4, 2);
            lemma_coords(i as int, 4, 3);
        }
        let off = i * 4;
        let r = data[off];
        let g = data[off + 1];
        let b = data[off + 2];
        data.set(off, lut[r as usize]);
        data.set(off + 1, lut[g as usize]);
        data.set(off + 2, lut[b as usize]);
        i += 1;
    }
    proof {
        assert(data@ =~= map_channels_spec(old(data)@, lut@));
    }
}

/// Channel `c` of the pixel at column `x`, row `y`, as an integer.
pub open spec fn px(s: Seq<u8>, w: int, x: int, y: int, c: int) -> int {
    s[(y * w + x) * 4 + c] as int
}

/// Pixel (x, y) is interior: not in the first or last row or column.
pub open spec fn interior(w: int, h: int, x: int, y: int) -> bool {
    1 <= x && x < w - 1 && 1 <= y && y < h - 1
}

/// 3x3 convolution of one colour channel with the kernel 1-2-1 / 2-4-2 /
/// 1-2-1, normalised by 16 with floor rounding.
pub open spec fn blur_px(s: Seq<u8>, w: int, x: int, y: int, c: int) -> u8 {
    ((px(s, w, x - 1, y - 1, c) + 2 * px(s, w, x, y - 1, c) + px(s, w, x + 1, y - 1, c) + 2 * px(
        s,
        w,
        x - 1,
        y,
        c,
    ) + 4 * px(s, w, x, y, c) + 2 * px(s, w, x + 1, y, c) + px(s, w, x - 1, y + 1, c) + 2 * px(
        s,
        w,
        x,
        y + 1,
        c,
    ) + px(s, w, x + 1, y + 1, c)) / 16) as u8
}

/// The buffer after the 3x3 blur: every colour channel of every interior
/// pixel is convolved with the kernel, reading only original values; border
/// pixels and alpha bytes keep their original values.
pub open spec fn blur_spec(s: Seq<u8>, w: int, h: int) -> Seq<u8> {
    Seq::new(
        s.len(),
        |j: int|
            if j % 4 != 3 && interior(w, h, (j / 4) % w, (j / 4) / w) {
                blur_px(s, w, (j / 4) % w, (j / 4) / w, j % 4)
            } else {
                s[j]
            },
    )
}

/// Colour bytes of interior pixels left of column `x` in row `y`, or in an
/// earlier row, have already been blurred.
pub open spec fn blur_done(w: int, h: int, y: int, x: int, j: int) -> bool {
    let c = j % 4;
    let xx = (j / 4) % w;
    let yy = (j / 4) / w;
    c != 3 && interior(w, h, xx, yy) && (yy < y || (yy == y && xx < x))
}

/// Every index touched by the 3x3 neighbourhood of interior pixel (x, y)
/// stays inside a `w * h * 4` byte buffer.
proof fn lemma_neighborhood_bounds(w: int, h: int, x: int, y: int)
    requires
        1 <= x <= w - 2,
        1 <= y <= h - 2,
    ensures
        w >= 3,
        h >= 3,
        0 <= (y - 1) * w + (x - 1),
        (y - 1) * w <= y * w,
        y * w <= (y + 1) * w,
        ((y + 1) * w + (x + 1)) * 4 + 2 < w * h * 4,
{
    assert(0 <= (y - 1) * w + (x - 1) && (y - 1) * w <= y * w && y * w <= (y + 1) * w && ((y + 1)
        * w + (x + 1)) * 4 + 2 < w * h * 4) by (nonlinear_arith)
        requires
            1 <= x <= w - 2 && 1 <= y <= h - 2,
    ;
}

/// One blurred colour channel of an interior pixel.
fn blur_channel(data: &Vec<u8>, w: usize, h: usize, x: usize, y: usize, c: usize) -> (r: u8)
    requires
        data@.len() == w as int * h as int * 4,
        1 <= x as int <= w as int - 2,
        1 <= y as int <= h as int - 2,
        c < 3,
    ensures
        r == blur_px(data@, w as int, x as int, y as int, c as int),
{
    let len = data.len();
    proof {
        lemma_neighborhood_bounds(w as int, h as int, x as int, y as int);
    }
    let row0 = (y - 1) * w;
    let row1 = y * w;
    let row2 = (y + 1) * w;
    let a0 = data[(row0 + x - 1) * 4 + c] as u32;
    let a1 = data[(row0 + x) * 4 + c] as u32;
    let a2 = data[(row0 + x + 1) * 4 + c] as u32;
    let b0 = data[(row1 + x - 1) * 4 + c] as u32;
    let b1 = data[(row1 + x) * 4 + c] as u32;
    let b2 = data[(row1 + x + 1) * 4 + c] as u32;
    let c0 = data[(row2 + x - 1) * 4 + c] as u32;
    let c1 = data[(row2 + x) * 4 + c] as u32;
    let c2 = data[(row2 + x + 1) * 4 + c] as u32;
    let sum = a0 + 2 * a1 + a2 + 2 * b0 + 4 * b1 + 2 * b2 + c0 + 2 * c1 + c2;
    (sum / 16) as u8
}

/// Blurs the image in place with the 3x3 kernel: interior colour channels are
/// convolved against a snapshot of the original buffer; border pixels and
/// alpha bytes are untouched. The caller guarantees the buffer geometry.
pub fn blur(data: &mut Vec<u8>, width: u32, height: u32)
    requires
        width >= 1,
        height >= 1,
        old(data)@.len() == width as int * height as int * 4,
    ensures
        final(data)@ == blur_spec(old(data)@, width as int, height as int),
{
    let ghost s = old(data)@;
    let len = data.len();
    let w = width as usize;
    let h = height as usize;
    let ghost wi = w as int;
    let ghost hi = h as int;
    let mut out = data.clone();
    proof {
        assert forall|j: int| 0 <= j < s.len() implies out@[j] == s[j] by {}
        assert(out@ =~= s);
    }
    let mut y: usize = 1;
    while y < h - 1
        invariant
            data@ == s,
            out@.len() == s.len(),
            len == s.len(),
            s.len() == wi * hi * 4,
            wi == w && hi == h && w == width && h == height,
            w >= 1 && h >= 1,
            1 <= y,
            h >= 2 ==> y <= h - 1,
            h < 2 ==> y == 1,
            forall|j: int|
                0 <= j < s.len() ==> out@[j] == (if blur_done(wi, hi, y as int, 1, j) {
                    blur_spec(s, wi, hi)[j]
                } else {
                    s[j]
                }),
        decreases hi - 1 - y,
    {
        let mut x: usize = 1;
        while x < w - 1
            invariant
                data@ == s,
                out@.len() == s.len(),
                len == s.len(),
                s.len() == wi * hi * 4,
                wi == w && hi == h && w == width && h == height,
                w >= 1 && h >= 1,
                1 <= y <= h - 2,
                1 <= x,
                w >= 2 ==> x <= w - 1,
                w < 2 ==> x == 1,
                forall|j: int|
                    0 <= j < s.len() ==> out@[j] == (if blur_done(wi, hi, y as int, x as int, j) {
                        blur_spec(s, wi, hi)[j]
                    } else {
                        s[j]
                    }),
            decreases wi - 1 - x,
        {
            let r = blur_channel(data, w, h, x, y, 0);
            let g = blur_channel(data, w, h, x, y, 1);
            let b = blur_channel(data, w, h, x, y, 2);
            proof {
                lemma_neighborhood_bounds(wi, hi, x as int, y as int);
            }
            let idx = (y * w + x) * 4;
            let ghost before = out@;
            out.set(idx, r);
            out.set(idx + 1, g);
            out.set(idx + 2, b);
            proof {
                let p = (y as int) * wi + x as int;
                lemma_coords(p, 4, 0);
                lemma_coords(p, 4, 1);
                lemma_coords(p, 4, 2);
                lemma_coords(y as int, wi, x as int);
                assert forall|j: int| 0 <= j < s.len() implies out@[j] == (if blur_done(
                    wi,
                    hi,
                    y as int,
                    x as int + 1,
                    j,
                ) {
                    blur_spec(s, wi, hi)[j]
                } else {
                    s[j]
                }) by {
                    lemma_fundamental_div_mod(j, 4);
                    lemma_fundamental_div_mod(j / 4, wi);
                    let c = j % 4;
                    let xx = (j / 4) % wi;
                    let yy = (j / 4) / wi;
                    if 4 * p <= j < 4 * p + 3 {
                        lemma_coords(p, 4, j - 4 * p);
                        assert(j / 4 == p && c == j - 4 * p);
                        assert(xx == x as int && yy == y as int);
                        assert(blur_spec(s, wi, hi)[j] == blur_px(s, wi, x as int, y as int, c));
                        assert(out@[j] == blur_px(s, wi, x as int, y as int, c));
                    } else {
                        assert(out@[j] == before[j]);
                        if yy == y as int && xx == x as int && c != 3 {
                            assert(j / 4 == wi * yy + xx);
                            assert(wi * yy == y as int * wi) by (nonlinear_arith)
                                requires
                                    yy == y as int,
                            ;
                            assert(j / 4 == p);
                            assert(j == 4 * p + c);
                            assert(false);
                        }
                        assert(blur_done(wi, hi, y as int, x as int + 1, j) == blur_done(
                            wi,
                            hi,
                            y as int,
                            x as int,
                            j,
                        ));
                    }
                }
            }
            x += 1;
        }
        proof {
            assert forall|j: int| 0 <= j < s.len() implies (blur_done(wi, hi, y as int, x as int, j)
                == blur_done(wi, hi, y as int + 1, 1, j)) by {}
        }
        y += 1;
    }
    proof {
        assert forall|j: int| 0 <= j < s.len() implies out@[j] == blur_spec(s, wi, hi)[j] by {}
        assert(out@ =~= blur_spec(s, wi, hi));
    }
    *data = out;
}

/// Border pixels and alpha bytes are byte-identical after the blur.
pub proof fn lemma_blur_border(s: Seq<u8>, w: int, h: int, j: int)
    requires
        0 <= j < s.len(),
        j % 4 == 3 || !interior(w, h, (j / 4) % w, (j / 4) / w),
    ensures
        blur_spec(s, w, h)[j] == s[j],
{
}

/// Within every whole pixel of a grayscaled buffer, R, G and B are equal and
/// the alpha byte keeps its original value.
pub proof fn lemma_grayscale_channels(s: Seq<u8>, p: int)
    requires
        0 <= p < s.len() as int / 4,
    ensures
        grayscale_spec(s)[4 * p] == grayscale_spec(s)[4 * p + 1],
        grayscale_spec(s)[4 * p + 1] == grayscale_spec(s)[4 * p + 2],
        grayscale_spec(s)[4 * p + 3] == s[4 * p + 3],
{
    lemma_pixel_prefix(s.len() as int);
    lemma_coords(p, 4, 0);
    lemma_coords(p, 4, 1);
    lemma_coords(p, 4, 2);
    lemma_coords(p, 4, 3);
}

/// Inverting twice restores every byte of the original buffer.
pub proof fn lemma_invert_involution(s: Seq<u8>)
    ensures
        invert_spec(invert_spec(s)) == s,
{
    assert(invert_spec(invert_spec(s)) =~= s);
}

/// An identity lookup table leaves the buffer unchanged.
pub proof fn lemma_identity_map_channels(s: Seq<u8>, lut: Seq<u8>)
    requires
        lut.len() == 256,
        forall|v: int| 0 <= v < 256 ==> lut[v] == v,
    ensures
        map_channels_spec(s, lut) == s,
{
    assert(map_channels_spec(s, lut) =~= s);
}

} // verus!

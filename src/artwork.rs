//! Decoded artwork and its theme-dependent recolouring.
use vstd::prelude::*;

verus! {

/// A decoded RGBA image: `pixels` holds four bytes per pixel, row by row.
#[derive(Clone, Debug, PartialEq, Eq)]
pub struct Bitmap {
    pub width: u32,
    pub height: u32,
    pub pixels: Vec<u8>,
}

impl View for Bitmap {
    type V = (u32, u32, Seq<u8>);

    open spec fn view(&self) -> (u32, u32, Seq<u8>) {
        (self.width, self.height, self.pixels@)
    }
}

impl Bitmap {
    /// The pixel buffer holds exactly `width * height` RGBA pixels.
    pub open spec fn wf(&self) -> bool {
        self.pixels.len() == self.width * self.height * 4
    }

    /// Copies the bitmap.
    pub fn duplicate(&self) -> (r: Bitmap)
        ensures
            r@ == self@,
    {
        Bitmap { width: self.width, height: self.height, pixels: self.pixels.clone() }
    }
}


/// A 24-bit colour.
#[derive(Clone, Copy, Debug, PartialEq, Eq, Structural)]
pub struct Rgb {
    pub r: u8,
    pub g: u8,
    pub b: u8,
}

pub open spec fn channel(c: Rgb, k: int) -> int {
    if k == 0 {
        c.r as int
    } else if k == 1 {
        c.g as int
    } else {
        c.b as int
    }
}

/// Mix of `dark` and `light` by brightness `lum` (0 gives `dark`, 255 gives `light`).
pub open spec fn blend(dark: int, light: int, lum: int) -> int {
    (dark * (255 - lum) + light * lum) / 255
}

/// Brightness of the pixel starting at byte `base`: the mean of its red,
/// green and blue bytes.
pub open spec fn luminance(p: Seq<u8>, base: int) -> int {
    (p[base] + p[base + 1] + p[base + 2]) / 3
}

/// Byte `j` of `p` after recolouring: each colour byte of a complete pixel
/// becomes the blend of the two theme colours by the pixel's brightness;
/// alpha bytes, and the bytes of a trailing partial pixel, are kept.
pub open spec fn recolored_byte(p: Seq<u8>, j: int, dark: Rgb, light: Rgb) -> u8 {
    let k = j % 4;
    let base = j - k;
    if k == 3 || base + 4 > p.len() {
        p[j]
    } else {
        blend(channel(dark, k), channel(light, k), luminance(p, base)) as u8
    }
}

pub open spec fn recolored(p: Seq<u8>, dark: Rgb, light: Rgb) -> Seq<u8> {
    Seq::new(p.len(), |j: int| recolored_byte(p, j, dark, light))
}

fn blend_byte(dark: u8, light: u8, lum: u32) -> (r: u8)
    requires
        lum <= 255,
    ensures
        r as int == blend(dark as int, light as int, lum as int),
{
    let d = dark as u32;
    let l = light as u32;
    assert(d * (255 - lum) <= 255 * (255 - lum)) by (nonlinear_arith)
        requires
            d <= 255,
            lum <= 255,
    ;
    assert(l * lum <= 255 * lum) by (nonlinear_arith)
        requires
            l <= 255,
    ;
    let v = (d * (255 - lum) + l * lum) / 255;
    assert(v <= 255) by (nonlinear_arith)
        requires
            v == (d * (255 - lum) + l * lum) / 255,
            d * (255 - lum) + l * lum <= 255 * 255,
    ;
    v as u8
}

/// `b` with its colours mapped onto the range from `dark` to `light`.
pub fn recolor(b: &Bitmap, dark: Rgb, light: Rgb) -> (r: Bitmap)
    ensures
        r.width == b.width,
        r.height == b.height,
        r.pixels@ == recolored(b.pixels@, dark, light),
{
    let p = &b.pixels;
    let n = p.len();
    let ghost want = recolored(p@, dark, light);
    let mut out: Vec<u8> = Vec::new();
    let mut i: usize = 0;
    while i < n && n - i >= 4
        invariant
            i <= n == p.len(),
            i % 4 == 0,
            want == recolored(p@, dark, light),
            out@ == want.subrange(0, i as int),
        decreases n - i,
    {
        let lum = (p[i] as u32 + p[i + 1] as u32 + p[i + 2] as u32) / 3;
        let ghost q = i as int / 4;
        proof {
            assert((4 * q) % 4 == 0 && (4 * q + 1) % 4 == 1 && (4 * q + 2) % 4 == 2 && (4 * q
                + 3) % 4 == 3) by (nonlinear_arith)
                requires
                    q >= 0,
            ;
            assert(i == 4 * q);
        }
        out.push(blend_byte(dark.r, light.r, lum));
        out.push(blend_byte(dark.g, light.g, lum));
        out.push(blend_byte(dark.b, light.b, lum));
        out.push(p[i + 3]);
        assert(out@ =~= want.subrange(0, i + 4));
        i = i + 4;
    }
    while i < n
        invariant
            i <= n == p.len(),
            n < i + 4 || i == n,
            i % 4 == 0 || n < i - i % 4 + 4,
            want == recolored(p@, dark, light),
            out@ == want.subrange(0, i as int),
        decreases n - i,
    {
        out.push(p[i]);
        assert(out@ =~= want.subrange(0, i + 1));
        i = i + 1;
    }
    assert(out@ =~= want);
    Bitmap { width: b.width, height: b.height, pixels: out }
}

/// Prepares fetched artwork for display under a theme.
pub struct ArtworkManager;

impl ArtworkManager {
    pub fn new() -> (r: ArtworkManager) {
        ArtworkManager
    }

    /// `b` recoloured for a theme with colours `primary` and `dim`: a retro
    /// (dark background) theme maps dark pixels to `dim` and bright ones to
    /// `primary`; other themes the other way round.
    pub fn themed(&self, b: &Bitmap, primary: Rgb, dim: Rgb, is_retro: bool) -> (r: Bitmap)
        ensures
            r.width == b.width,
            r.height == b.height,
            r.pixels@ == if is_retro {
                recolored(b.pixels@, dim, primary)
            } else {
                recolored(b.pixels@, primary, dim)
            },
    {
        if is_retro {
            recolor(b, dim, primary)
        } else {
            recolor(b, primary, dim)
        }
    }
}

} // verus!

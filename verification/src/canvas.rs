//! Canvas / rasterizer: an addressable grid of linear-light RGB pixels
//! supporting alpha-compositing point writes, axis-aligned line fills, a
//! vertical gradient fill, an anti-aliased filled-ellipse fill, and
//! sRGB-encoded byte export.
//!
//! Every fill is specified pointwise: the resulting pixel sequence is a
//! `Seq::new` whose element at flat index `j` is written in terms of the
//! pixel's coordinates `(j % width, j / width)`.

use vstd::arithmetic::div_mod::lemma_fundamental_div_mod;
use vstd::arithmetic::div_mod::lemma_fundamental_div_mod_converse;
use vstd::prelude::*;

use crate::color::ALPHA_ONE;
use crate::color::Color;
use crate::color::LinColor;
use crate::color::SRGB_DECODE;
use crate::color::blend_ch;
use crate::color::blend_ch_spec;
use crate::color::decode_spec;
use crate::color::encode_spec;
use crate::color::lemma_blend_alpha_one;
use crate::color::lemma_blend_alpha_zero;
use crate::color::scale_alpha;
use crate::color::scale_alpha_spec;
use crate::color::srgb_decode;
use crate::color::srgb_encode;

verus! {

/// One stored pixel: linear-light RGB, no alpha is retained between
/// writes.
#[derive(Clone, Copy, Debug, PartialEq, Eq, Structural)]
pub struct Pix {
    pub r: u16,
    pub g: u16,
    pub b: u16,
}

/// Largest accepted canvas side length; keeps every index and every
/// ellipse coverage product comfortably inside the machine integer
/// ranges.
pub const MAX_DIM: usize = 32767;

/// The "over" operator applied to a whole pixel, channel by channel.
pub open spec fn blend_pix_spec(p: Pix, c: LinColor) -> Pix {
    Pix {
        r: blend_ch_spec(p.r as int, c.r as int, c.a as int) as u16,
        g: blend_ch_spec(p.g as int, c.g as int, c.a as int) as u16,
        b: blend_ch_spec(p.b as int, c.b as int, c.a as int) as u16,
    }
}

/// A color with its alpha scaled by the coverage fraction `n`/49.
pub open spec fn scaled_color_spec(c: LinColor, n: int) -> LinColor {
    LinColor { r: c.r, g: c.g, b: c.b, a: scale_alpha_spec(c.a as int, n) as u32 }
}

/// The linear-light pixel of an opaque sRGB byte color.
pub open spec fn lin_pix_of_color(c: Color) -> Pix {
    Pix { r: SRGB_DECODE[c.0 as int], g: SRGB_DECODE[c.1 as int], b: SRGB_DECODE[c.2 as int] }
}

/// Blend a pixel in executable code.
pub fn blend_pix(p: Pix, c: LinColor) -> (r: Pix)
    requires
        c.wf(),
    ensures
        r == blend_pix_spec(p, c),
{
    Pix { r: blend_ch(p.r, c.r, c.a), g: blend_ch(p.g, c.g, c.a), b: blend_ch(p.b, c.b, c.a) }
}

/// A fully transparent write leaves the pixel as it was.
pub proof fn lemma_blend_pix_transparent(p: Pix, c: LinColor)
    requires
        c.a == 0,
    ensures
        blend_pix_spec(p, c) == p,
{
    lemma_blend_alpha_zero(p.r as int, c.r as int);
    lemma_blend_alpha_zero(p.g as int, c.g as int);
    lemma_blend_alpha_zero(p.b as int, c.b as int);
}

/// A fully opaque write replaces the pixel with the new color exactly.
pub proof fn lemma_blend_pix_opaque(p: Pix, c: LinColor)
    requires
        c.a == ALPHA_ONE,
    ensures
        blend_pix_spec(p, c) == (Pix { r: c.r, g: c.g, b: c.b }),
{
    lemma_blend_alpha_one(p.r as int, c.r as int);
    lemma_blend_alpha_one(p.g as int, c.g as int);
    lemma_blend_alpha_one(p.b as int, c.b as int);
}

/// A point write with alpha 0 leaves the whole buffer unchanged: the
/// compositing identity at the level of a stored pixel grid.
pub proof fn lemma_write_transparent_identity(s: Seq<Pix>, i: int, c: LinColor)
    requires
        c.a == 0,
        0 <= i < s.len(),
    ensures
        s.update(i, blend_pix_spec(s[i], c)) == s,
{
    lemma_blend_pix_transparent(s[i], c);
    assert(s.update(i, s[i]) =~= s);
}

/// A point write with full alpha stores exactly the new color.
pub proof fn lemma_write_opaque_replaces(s: Seq<Pix>, i: int, c: LinColor)
    requires
        c.a == ALPHA_ONE,
        0 <= i < s.len(),
    ensures
        s.update(i, blend_pix_spec(s[i], c))[i] == (Pix { r: c.r, g: c.g, b: c.b }),
{
    lemma_blend_pix_opaque(s[i], c);
}

/// A flat pixel index names exactly one coordinate pair.
pub proof fn lemma_flat_unique(w: int, x: int, y: int, j: int)
    requires
        w >= 1,
        0 <= x < w,
        0 <= y,
        0 <= j,
    ensures
        (j == y * w + x) <==> (j / w == y && j % w == x),
{
    if j == y * w + x {
        lemma_fundamental_div_mod_converse(j, w, y, x);
    }
    if j / w == y && j % w == x {
        lemma_fundamental_div_mod(j, w);
    }
}

/// Coordinates recovered from a flat index stay inside the grid.
pub proof fn lemma_flat_coords_range(w: int, h: int, j: int)
    requires
        w >= 1,
        h >= 0,
        0 <= j < w * h,
    ensures
        0 <= j % w < w,
        0 <= j / w < h,
{
    lemma_fundamental_div_mod(j, w);
    vstd::arithmetic::div_mod::lemma_remainder_lower(j, w);
    vstd::arithmetic::div_mod::lemma_remainder_upper(j, w);
    vstd::arithmetic::div_mod::lemma_div_pos_is_pos(j, w);
    assert(j / w < h) by (nonlinear_arith)
        requires
            w >= 1,
            j < w * h,
            j == w * (j / w) + j % w,
            0 <= j % w < w,
            0 <= j / w,
    ;
}

/// A coordinate pair's flat index stays inside the buffer, which itself
/// stays small enough for machine indexing.
pub proof fn lemma_flat_in_bounds(w: int, h: int, x: int, y: int)
    requires
        0 <= x < w <= MAX_DIM,
        0 <= y < h <= MAX_DIM,
    ensures
        0 <= y * w + x < w * h,
        w * h <= 1073676289,
{
    assert(0 <= y * w + x && y * w + x < w * h && w * h <= 1073676289) by (nonlinear_arith)
        requires
            0 <= x < w <= 32767,
            0 <= y < h <= 32767,
    ;
}

/// Pixel value after a horizontal-line fill: row `y`, columns `x0..=x1`
/// blended with `c`, everything else untouched.
pub open spec fn hline_px(s: Seq<Pix>, w: int, x0: int, x1: int, y: int, c: LinColor, j: int) -> Pix {
    if j / w == y && x0 <= j % w <= x1 {
        blend_pix_spec(s[j], c)
    } else {
        s[j]
    }
}

/// Result of a horizontal-line fill.
pub open spec fn hline_spec(s: Seq<Pix>, w: int, x0: int, x1: int, y: int, c: LinColor) -> Seq<
    Pix,
> {
    Seq::new(s.len(), |j: int| hline_px(s, w, x0, x1, y, c, j))
}

/// Pixel value after a vertical-line fill: column `x`, rows `y0..=y1`.
pub open spec fn vline_px(s: Seq<Pix>, w: int, y0: int, y1: int, x: int, c: LinColor, j: int) -> Pix {
    if j % w == x && y0 <= j / w <= y1 {
        blend_pix_spec(s[j], c)
    } else {
        s[j]
    }
}

/// Result of a vertical-line fill.
pub open spec fn vline_spec(s: Seq<Pix>, w: int, y0: int, y1: int, x: int, c: LinColor) -> Seq<
    Pix,
> {
    Seq::new(s.len(), |j: int| vline_px(s, w, y0, y1, x, c, j))
}

/// The interpolated sRGB byte of one gradient channel at row `y`:
/// a linear mix of the top and bottom bytes by the row's fraction of the
/// span, truncating; a zero-height span takes the top color entirely.
pub open spec fn grad_mix_byte(t: int, b: int, y: int, y0: int, y1: int) -> int {
    if y1 == y0 {
        t
    } else {
        (t * (y1 - y) + b * (y - y0)) / (y1 - y0)
    }
}

/// The linear-light pixel a gradient row is filled with: the two sRGB
/// byte colors are mixed in display space first, then the single mixed
/// color is decoded to linear light.
pub open spec fn grad_pix_spec(tc: Color, bc: Color, y: int, y0: int, y1: int) -> Pix {
    Pix {
        r: decode_spec(grad_mix_byte(tc.0 as int, bc.0 as int, y, y0, y1)) as u16,
        g: decode_spec(grad_mix_byte(tc.1 as int, bc.1 as int, y, y0, y1)) as u16,
        b: decode_spec(grad_mix_byte(tc.2 as int, bc.2 as int, y, y0, y1)) as u16,
    }
}

/// Result of a vertical-gradient fill over the rectangle
/// `x0..=x1` x `y0..=y1`: each covered pixel is set to its row's gradient
/// color (the fill is fully opaque).
pub open spec fn vgrad_spec(
    s: Seq<Pix>,
    w: int,
    x0: int,
    x1: int,
    y0: int,
    y1: int,
    tc: Color,
    bc: Color,
) -> Seq<Pix> {
    Seq::new(
        s.len(),
        |j: int|
            if x0 <= j % w <= x1 && y0 <= j / w <= y1 {
                grad_pix_spec(tc, bc, j / w, y0, y1)
            } else {
                s[j]
            },
    )
}

/// A mixed gradient byte stays a byte.
pub proof fn lemma_grad_mix_in_range(t: int, b: int, y: int, y0: int, y1: int)
    requires
        0 <= t <= 255,
        0 <= b <= 255,
        y0 <= y <= y1,
    ensures
        0 <= grad_mix_byte(t, b, y, y0, y1) <= 255,
{
    if y1 != y0 {
        let d = y1 - y0;
        let n = t * (y1 - y) + b * (y - y0);
        assert(0 <= n && n <= 255 * d) by (nonlinear_arith)
            requires
                0 <= t <= 255,
                0 <= b <= 255,
                y0 <= y <= y1,
                d == y1 - y0,
                n == t * (y1 - y) + b * (y - y0),
                d >= 1,
        ;
        vstd::arithmetic::div_mod::lemma_div_pos_is_pos(n, d);
        vstd::arithmetic::div_mod::lemma_div_is_ordered(n, 255 * d, d);
        vstd::arithmetic::div_mod::lemma_div_multiples_vanish(255, d);
    }
}

/// The gradient's first row is exactly the top color and its last row is
/// exactly the bottom color, both decoded to linear light.
pub proof fn lemma_gradient_endpoints(tc: Color, bc: Color, y0: int, y1: int)
    requires
        y0 <= y1,
    ensures
        grad_pix_spec(tc, bc, y0, y0, y1) == lin_pix_of_color(tc),
        y0 < y1 ==> grad_pix_spec(tc, bc, y1, y0, y1) == lin_pix_of_color(bc),
{
    if y0 < y1 {
        let d = y1 - y0;
        assert forall|t: int, b: int| 0 <= t <= 255 && 0 <= b <= 255 implies grad_mix_byte(
            t,
            b,
            y0,
            y0,
            y1,
        ) == t && grad_mix_byte(t, b, y1, y0, y1) == b by {
            assert(t * (y1 - y0) + b * (y0 - y0) == d * t) by (nonlinear_arith)
                requires
                    d == y1 - y0,
            ;
            assert(t * (y1 - y1) + b * (y1 - y0) == d * b) by (nonlinear_arith)
                requires
                    d == y1 - y0,
            ;
            vstd::arithmetic::div_mod::lemma_div_multiples_vanish(t, d);
            vstd::arithmetic::div_mod::lemma_div_multiples_vanish(b, d);
        }
    }
}

/// Whether the sample point `(px/14, py/14)` (measured from the ellipse
/// center) lies inside the ellipse with half-axes `a2/2` and `b2/2`:
/// the inequality x^2/a^2 + y^2/b^2 <= 1 cleared of denominators.
pub open spec fn ell_inside_spec(a2: int, b2: int, px: int, py: int) -> bool {
    px * px * b2 * b2 + py * py * a2 * a2 <= 49 * a2 * a2 * b2 * b2
}

/// 14 times the offset of pixel `x` from the ellipse center `cx2/2`.
pub open spec fn ell_base(c2: int, x: int) -> int {
    7 * (2 * x - c2)
}

/// Whether subsample `(ix, iy)` of a pixel (each 0..6, centered on index
/// 3, spaced 1/7 of a pixel) falls inside the ellipse.
pub open spec fn ell_sample_in(a2: int, b2: int, bx: int, by: int, ix: int, iy: int) -> bool {
    ell_inside_spec(a2, b2, bx + 2 * (ix - 3), by + 2 * (iy - 3))
}

/// How many of the first `m` subsamples of column `ix` are inside.
pub open spec fn ell_col_count(a2: int, b2: int, bx: int, by: int, ix: int, m: int) -> int
    decreases m,
{
    if m <= 0 {
        0
    } else {
        ell_col_count(a2, b2, bx, by, ix, m - 1) + if ell_sample_in(a2, b2, bx, by, ix, m - 1) {
            1int
        } else {
            0int
        }
    }
}

/// How many subsamples of the first `m` columns are inside.
pub open spec fn ell_grid_count(a2: int, b2: int, bx: int, by: int, m: int) -> int
    decreases m,
{
    if m <= 0 {
        0
    } else {
        ell_grid_count(a2, b2, bx, by, m - 1) + ell_col_count(a2, b2, bx, by, m - 1, 7)
    }
}

/// The coverage decision for one pixel, out of 49 subsamples. If the
/// pixel's outer corner (3/7 of a pixel toward the exterior on each axis)
/// is inside, the pixel counts as fully covered; if its inner corner is
/// outside, as uncovered; otherwise the 7 x 7 subsample grid is counted.
pub open spec fn ell_cover_count(cx2: int, cy2: int, a2: int, b2: int, x: int, y: int) -> int {
    let bx = ell_base(cx2, x);
    let by = ell_base(cy2, y);
    let xo = bx + if bx >= 0 { 6int } else { -6int };
    let yo = by + if by >= 0 { 6int } else { -6int };
    if ell_inside_spec(a2, b2, xo, yo) {
        49
    } else {
        let xi = bx + if bx >= 0 { -6int } else { 6int };
        let yi = by + if by >= 0 { -6int } else { 6int };
        if !ell_inside_spec(a2, b2, xi, yi) {
            0
        } else {
            ell_grid_count(a2, b2, bx, by, 7)
        }
    }
}

/// Result of the anti-aliased ellipse fill: every pixel is blended with
/// the requested color at an alpha scaled by its coverage fraction.
pub open spec fn ellipse_spec(
    s: Seq<Pix>,
    w: int,
    cx2: int,
    cy2: int,
    a2: int,
    b2: int,
    c: LinColor,
) -> Seq<Pix> {
    Seq::new(
        s.len(),
        |j: int|
            blend_pix_spec(
                s[j],
                scaled_color_spec(c, ell_cover_count(cx2, cy2, a2, b2, j % w, j / w)),
            ),
    )
}

/// A column count is between 0 and `m`.
pub proof fn lemma_ell_col_count_bound(a2: int, b2: int, bx: int, by: int, ix: int, m: int)
    requires
        m >= 0,
    ensures
        0 <= ell_col_count(a2, b2, bx, by, ix, m) <= m,
    decreases m,
{
    if m > 0 {
        lemma_ell_col_count_bound(a2, b2, bx, by, ix, m - 1);
    }
}

/// A grid count is between 0 and 7 times the column count bound.
pub proof fn lemma_ell_grid_count_bound(a2: int, b2: int, bx: int, by: int, m: int)
    requires
        m >= 0,
    ensures
        0 <= ell_grid_count(a2, b2, bx, by, m) <= 7 * m,
    decreases m,
{
    if m > 0 {
        lemma_ell_grid_count_bound(a2, b2, bx, by, m - 1);
        lemma_ell_col_count_bound(a2, b2, bx, by, m - 1, 7);
    }
}

/// The center pixel of an ellipse with both half-extents at least 2
/// pixels is always fully covered.
pub proof fn lemma_ellipse_center_full(cx2: int, cy2: int, a2: int, b2: int, x: int, y: int)
    requires
        2 * x == cx2,
        2 * y == cy2,
        a2 >= 4,
        b2 >= 4,
    ensures
        ell_cover_count(cx2, cy2, a2, b2, x, y) == 49,
{
    assert(ell_base(cx2, x) == 0);
    assert(ell_base(cy2, y) == 0);
    assert(6 * 6 * b2 * b2 + 6 * 6 * a2 * a2 <= 49 * a2 * a2 * b2 * b2) by (nonlinear_arith)
        requires
            a2 >= 4,
            b2 >= 4,
    ;
}

/// A pixel lying a full extent beyond the ellipse's horizontal reach is
/// never drawn: its coverage is zero.
pub proof fn lemma_ellipse_far_outside(cx2: int, cy2: int, a2: int, b2: int, x: int, y: int)
    requires
        2 * x - cx2 == 2 * a2,
        a2 >= 1,
        b2 >= 1,
    ensures
        ell_cover_count(cx2, cy2, a2, b2, x, y) == 0,
{
    let bx = ell_base(cx2, x);
    assert(bx == 14 * a2);
    let by = ell_base(cy2, y);
    let yo = by + if by >= 0 { 6int } else { -6int };
    let yi = by + if by >= 0 { -6int } else { 6int };
    assert((14 * a2 + 6) * (14 * a2 + 6) * b2 * b2 + yo * yo * a2 * a2 > 49 * a2 * a2 * b2 * b2)
        by (nonlinear_arith)
        requires
            a2 >= 1,
            b2 >= 1,
    ;
    assert((14 * a2 + -6) * (14 * a2 + -6) * b2 * b2 + yi * yi * a2 * a2 > 49 * a2 * a2 * b2 * b2)
        by (nonlinear_arith)
        requires
            a2 >= 1,
            b2 >= 1,
    ;
}

/// Result of exporting a pixel sequence: three sRGB-encoded bytes per
/// pixel, row-major, in R, G, B order.
pub open spec fn pix_ch(p: Pix, c: int) -> int {
    if c == 0 {
        p.r as int
    } else if c == 1 {
        p.g as int
    } else {
        p.b as int
    }
}

/// The exported byte sequence of a pixel buffer.
pub open spec fn export_spec(s: Seq<Pix>) -> Seq<u8> {
    Seq::new(3 * s.len(), |j: int| encode_spec(pix_ch(s[j / 3], j % 3)) as u8)
}

/// The pixel grid. `width * height` pixels, row-major.
pub struct Canvas {
    pub width: usize,
    pub height: usize,
    pub data: Vec<Pix>,
}

impl Canvas {
    /// The buffer always holds exactly one pixel per grid cell, and the
    /// grid stays within the supported dimensions.
    pub open spec fn wf(self) -> bool {
        &&& self.data@.len() == self.width * self.height
        &&& self.width <= MAX_DIM
        &&& self.height <= MAX_DIM
    }

    /// A fresh canvas, all pixels black (linear zero).
    pub fn new(width: usize, height: usize) -> (c: Canvas)
        requires
            width <= MAX_DIM,
            height <= MAX_DIM,
        ensures
            c.wf(),
            c.width == width,
            c.height == height,
            c.data@.len() == width * height,
            forall|j: int| 0 <= j < c.data@.len() ==> c.data@[j] == (Pix { r: 0, g: 0, b: 0 }),
    {
        proof {
            assert(width * height <= MAX_DIM * MAX_DIM) by (nonlinear_arith)
                requires
                    width <= MAX_DIM,
                    height <= MAX_DIM,
            ;
        }
        let n: usize = width * height;
        let mut data: Vec<Pix> = Vec::new();
        let mut i: usize = 0;
        while i < n
            invariant
                i <= n,
                data@.len() == i,
                forall|j: int| 0 <= j < i ==> data@[j] == (Pix { r: 0, g: 0, b: 0 }),
            decreases n - i,
        {
            data.push(Pix { r: 0, g: 0, b: 0 });
            i = i + 1;
        }
        Canvas { width, height, data }
    }

    /// Composite one color onto the pixel at `(x, y)`.
    pub fn draw_px(&mut self, x: usize, y: usize, c: LinColor)
        requires
            old(self).wf(),
            x < old(self).width,
            y < old(self).height,
            c.wf(),
        ensures
            final(self).wf(),
            final(self).width == old(self).width,
            final(self).height == old(self).height,
            final(self).data@ == old(self).data@.update(
                y * old(self).width + x,
                blend_pix_spec(old(self).data@[y * old(self).width + x], c),
            ),
    {
        proof {
            lemma_flat_in_bounds(self.width as int, self.height as int, x as int, y as int);
        }
        let ind: usize = y * self.width + x;
        let p = self.data[ind];
        let np = blend_pix(p, c);
        self.data.set(ind, np);
    }

    /// Composite a color onto every pixel of row `y` between columns
    /// `x0` and `x1` inclusive (no-op when `x0 > x1`).
    pub fn horz_line(&mut self, x0: usize, x1: usize, y: usize, c: LinColor)
        requires
            old(self).wf(),
            x0 <= x1 ==> x1 < old(self).width,
            y < old(self).height,
            c.wf(),
        ensures
            final(self).wf(),
            final(self).width == old(self).width,
            final(self).height == old(self).height,
            final(self).data@ == hline_spec(
                old(self).data@,
                old(self).width as int,
                x0 as int,
                x1 as int,
                y as int,
                c,
            ),
    {
        let ghost orig = self.data@;
        let ghost w = self.width as int;
        let mut x: usize = x0;
        while x <= x1 && x < self.width
            invariant
                self.wf(),
                self.width == old(self).width,
                self.height == old(self).height,
                x0 <= x,
                x0 > x1 ==> x == x0,
                x0 <= x1 ==> x <= x1 + 1 && x1 < self.width,
                y < self.height,
                c.wf(),
                w == self.width as int,
                orig == old(self).data@,
                self.data@.len() == orig.len(),
                forall|j: int|
                    0 <= j < orig.len() ==> self.data@[j] == (if j / w == y as int && x0 <= j % w
                        < x as int {
                        blend_pix_spec(orig[j], c)
                    } else {
                        orig[j]
                    }),
            decreases x1 + 1 - x,
        {
            proof {
                lemma_flat_in_bounds(w, self.height as int, x as int, y as int);
                lemma_flat_unique(w, x as int, y as int, (y * self.width + x) as int);
            }
            let ind: usize = y * self.width + x;
            let p = self.data[ind];
            let np = blend_pix(p, c);
            self.data.set(ind, np);
            proof {
                assert forall|j: int| 0 <= j < orig.len() implies self.data@[j] == (if j / w
                    == y as int && x0 <= j % w < x as int + 1 {
                    blend_pix_spec(orig[j], c)
                } else {
                    orig[j]
                }) by {
                    lemma_flat_coords_range(w, self.height as int, j);
                    lemma_flat_unique(w, j % w, j / w, j);
                    if j != ind {
                        assert(!(j / w == y as int && j % w == x as int));
                    }
                }
            }
            x = x + 1;
        }
        proof {
            assert forall|j: int| 0 <= j < orig.len() implies self.data@[j] == hline_px(
                orig,
                w,
                x0 as int,
                x1 as int,
                y as int,
                c,
                j,
            ) by {
                lemma_flat_coords_range(w, self.height as int, j);
            }
            assert(self.data@ =~= hline_spec(orig, w, x0 as int, x1 as int, y as int, c));
        }
    }

    /// Composite a color onto every pixel of column `x` between rows
    /// `y0` and `y1` inclusive (no-op when `y0 > y1`).
    pub fn vert_line(&mut self, y0: usize, y1: usize, x: usize, c: LinColor)
        requires
            old(self).wf(),
            y0 <= y1 ==> y1 < old(self).height,
            x < old(self).width,
            c.wf(),
        ensures
            final(self).wf(),
            final(self).width == old(self).width,
            final(self).height == old(self).height,
            final(self).data@ == vline_spec(
                old(self).data@,
                old(self).width as int,
                y0 as int,
                y1 as int,
                x as int,
                c,
            ),
    {
        let ghost orig = self.data@;
        let ghost w = self.width as int;
        let mut y: usize = y0;
        while y <= y1 && y < self.height
            invariant
                self.wf(),
                self.width == old(self).width,
                self.height == old(self).height,
                y0 <= y,
                y0 > y1 ==> y == y0,
                y0 <= y1 ==> y <= y1 + 1 && y1 < self.height,
                x < self.width,
                c.wf(),
                w == self.width as int,
                orig == old(self).data@,
                self.data@.len() == orig.len(),
                forall|j: int|
                    0 <= j < orig.len() ==> self.data@[j] == (if j % w == x as int && y0 <= j / w
                        < y as int {
                        blend_pix_spec(orig[j], c)
                    } else {
                        orig[j]
                    }),
            decreases y1 + 1 - y,
        {
            proof {
                lemma_flat_in_bounds(w, self.height as int, x as int, y as int);
                lemma_flat_unique(w, x as int, y as int, (y * self.width + x) as int);
            }
            let ind: usize = y * self.width + x;
            let p = self.data[ind];
            let np = blend_pix(p, c);
            self.data.set(ind, np);
            proof {
                assert forall|j: int| 0 <= j < orig.len() implies self.data@[j] == (if j % w
                    == x as int && y0 <= j / w < y as int + 1 {
                    blend_pix_spec(orig[j], c)
                } else {
                    orig[j]
                }) by {
                    lemma_flat_coords_range(w, self.height as int, j);
                    lemma_flat_unique(w, j % w, j / w, j);
                    if j != ind {
                        assert(!(j / w == y as int && j % w == x as int));
                    }
                }
            }
            y = y + 1;
        }
        proof {
            assert forall|j: int| 0 <= j < orig.len() implies self.data@[j] == vline_px(
                orig,
                w,
                y0 as int,
                y1 as int,
                x as int,
                c,
                j,
            ) by {
                lemma_flat_coords_range(w, self.height as int, j);
            }
            assert(self.data@ =~= vline_spec(orig, w, y0 as int, y1 as int, x as int, c));
        }
    }

    /// Fill the rectangle `x0..=x1` x `y0..=y1` with a vertical gradient:
    /// each row's color is the sRGB-space mix of the top and bottom
    /// colors at that row's fraction of the span, decoded to linear
    /// light, fully opaque.
    pub fn vert_gradient(
        &mut self,
        x0: usize,
        x1: usize,
        y0: usize,
        y1: usize,
        tc: Color,
        bc: Color,
    )
        requires
            old(self).wf(),
            x0 <= x1 < old(self).width,
            y0 <= y1 < old(self).height,
        ensures
            final(self).wf(),
            final(self).width == old(self).width,
            final(self).height == old(self).height,
            final(self).data@ == vgrad_spec(
                old(self).data@,
                old(self).width as int,
                x0 as int,
                x1 as int,
                y0 as int,
                y1 as int,
                tc,
                bc,
            ),
    {
        let ghost orig = self.data@;
        let ghost w = self.width as int;
        let mut y: usize = y0;
        while y <= y1
            invariant
                self.wf(),
                self.width == old(self).width,
                self.height == old(self).height,
                x0 <= x1 < self.width,
                y0 <= y,
                y <= y1 + 1,
                y1 < self.height,
                w == self.width as int,
                orig == old(self).data@,
                self.data@.len() == orig.len(),
                forall|j: int|
                    0 <= j < orig.len() ==> self.data@[j] == (if x0 <= j % w <= x1 as int && y0
                        <= j / w < y as int {
                        grad_pix_spec(tc, bc, j / w, y0 as int, y1 as int)
                    } else {
                        orig[j]
                    }),
            decreases y1 + 1 - y,
        {
            let span: usize = y1 - y0;
            let rise: usize = y - y0;
            let fall: usize = y1 - y;
            let mr = mix_byte(tc.0, bc.0, fall, rise, span);
            let mg = mix_byte(tc.1, bc.1, fall, rise, span);
            let mb = mix_byte(tc.2, bc.2, fall, rise, span);
            let row_color = LinColor {
                r: srgb_decode(mr),
                g: srgb_decode(mg),
                b: srgb_decode(mb),
                a: ALPHA_ONE,
            };
            let ghost before_row = self.data@;
            self.horz_line(x0, x1, y, row_color);
            proof {
                let gp = grad_pix_spec(tc, bc, y as int, y0 as int, y1 as int);
                assert forall|j: int| 0 <= j < orig.len() implies self.data@[j] == (if x0 <= j % w
                    <= x1 as int && y0 <= j / w < y as int + 1 {
                    grad_pix_spec(tc, bc, j / w, y0 as int, y1 as int)
                } else {
                    orig[j]
                }) by {
                    lemma_flat_coords_range(w, self.height as int, j);
                    assert(self.data@[j] == hline_px(
                        before_row,
                        w,
                        x0 as int,
                        x1 as int,
                        y as int,
                        row_color,
                        j,
                    ));
                    if j / w == y as int && x0 <= j % w <= x1 as int {
                        assert(before_row[j] == orig[j]);
                        lemma_blend_pix_opaque(orig[j], row_color);
                        assert(blend_pix_spec(before_row[j], row_color) == gp);
                    }
                }
            }
            y = y + 1;
        }
        proof {
            assert(self.data@ =~= vgrad_spec(
                orig,
                w,
                x0 as int,
                x1 as int,
                y0 as int,
                y1 as int,
                tc,
                bc,
            ));
        }
    }

    /// Rasterize a filled ellipse, anti-aliased at its boundary, over the
    /// whole canvas. The center and the half-axes are given in half-pixel
    /// units: the center is `(cx2/2, cy2/2)` and the semi-axes are
    /// `a2/2` and `b2/2` pixels. Fully covered pixels take the color at
    /// its own alpha; boundary pixels take it at an alpha scaled by the
    /// fraction of a 7 x 7 subsample grid falling inside.
    pub fn ellipse(&mut self, cx2: i64, cy2: i64, a2: i64, b2: i64, col: LinColor)
        requires
            old(self).wf(),
            col.wf(),
            1 <= a2 <= 65536,
            1 <= b2 <= 65536,
            0 <= cx2 <= 65536,
            0 <= cy2 <= 65536,
        ensures
            final(self).wf(),
            final(self).width == old(self).width,
            final(self).height == old(self).height,
            final(self).data@ == ellipse_spec(
                old(self).data@,
                old(self).width as int,
                cx2 as int,
                cy2 as int,
                a2 as int,
                b2 as int,
                col,
            ),
    {
        let ghost orig = self.data@;
        let ghost w = self.width as int;
        let ghost target = ellipse_spec(orig, w, cx2 as int, cy2 as int, a2 as int, b2 as int, col);
        let mut x: usize = 0;
        while x < self.width
            invariant
                self.wf(),
                self.width == old(self).width,
                self.height == old(self).height,
                x <= self.width,
                col.wf(),
                1 <= a2 <= 65536,
                1 <= b2 <= 65536,
                0 <= cx2 <= 65536,
                0 <= cy2 <= 65536,
                w == self.width as int,
                orig == old(self).data@,
                target == ellipse_spec(orig, w, cx2 as int, cy2 as int, a2 as int, b2 as int, col),
                self.data@.len() == orig.len(),
                forall|j: int|
                    0 <= j < orig.len() ==> self.data@[j] == (if j % w < x as int {
                        target[j]
                    } else {
                        orig[j]
                    }),
            decreases self.width - x,
        {
            let mut y: usize = 0;
            while y < self.height
                invariant
                    self.wf(),
                    self.width == old(self).width,
                    self.height == old(self).height,
                    x < self.width,
                    y <= self.height,
                    col.wf(),
                    1 <= a2 <= 65536,
                    1 <= b2 <= 65536,
                    0 <= cx2 <= 65536,
                    0 <= cy2 <= 65536,
                    w == self.width as int,
                    orig == old(self).data@,
                    target == ellipse_spec(
                        orig,
                        w,
                        cx2 as int,
                        cy2 as int,
                        a2 as int,
                        b2 as int,
                        col,
                    ),
                    self.data@.len() == orig.len(),
                    forall|j: int|
                        0 <= j < orig.len() ==> self.data@[j] == (if j % w < x as int || (j % w
                            == x as int && j / w < y as int) {
                            target[j]
                        } else {
                            orig[j]
                        }),
                decreases self.height - y,
            {
                let bx: i64 = 7 * (2 * (x as i64) - cx2);
                let by: i64 = 7 * (2 * (y as i64) - cy2);
                let ghost cover = ell_cover_count(
                    cx2 as int,
                    cy2 as int,
                    a2 as int,
                    b2 as int,
                    x as int,
                    y as int,
                );
                let ghost idx = y as int * w + x as int;
                proof {
                    lemma_flat_in_bounds(w, self.height as int, x as int, y as int);
                    lemma_flat_unique(w, x as int, y as int, idx);
                    assert(target[idx] == blend_pix_spec(
                        orig[idx],
                        scaled_color_spec(col, cover),
                    ));
                }
                let xo: i64 = bx + if bx >= 0 { 6 } else { -6 };
                let yo: i64 = by + if by >= 0 { 6 } else { -6 };
                let ghost pre_px = self.data@;
                if ell_inside(a2, b2, xo, yo) {
                    proof {
                        assert(cover == 49);
                        vstd::arithmetic::div_mod::lemma_div_multiples_vanish(col.a as int, 49);
                        assert((col.a as int * 49) / 49 == col.a as int);
                        assert(scaled_color_spec(col, 49) == col);
                    }
                    self.draw_px(x, y, col);
                    proof {
                        assert(self.data@[idx] == blend_pix_spec(pre_px[idx], col));
                        assert(pre_px[idx] == orig[idx]);
                    }
                } else {
                    let xi: i64 = bx + if bx >= 0 { -6 } else { 6 };
                    let yi: i64 = by + if by >= 0 { -6 } else { 6 };
                    if !ell_inside(a2, b2, xi, yi) {
                        proof {
                            assert(cover == 0);
                            vstd::arithmetic::div_mod::lemma_div_multiples_vanish(0, 49);
                            assert(col.a as int * 0 == 49 * 0);
                            assert(scale_alpha_spec(col.a as int, 0) == 0);
                            lemma_blend_pix_transparent(orig[idx], scaled_color_spec(col, 0));
                            assert(target[idx] == orig[idx]);
                        }
                    } else {
                        let mut cnt: u32 = 0;
                        let mut ix: usize = 0;
                        while ix < 7
                            invariant
                                ix <= 7,
                                1 <= a2 <= 65536,
                                1 <= b2 <= 65536,
                                -1000000 <= bx <= 1000000,
                                -1000000 <= by <= 1000000,
                                cnt as int == ell_grid_count(
                                    a2 as int,
                                    b2 as int,
                                    bx as int,
                                    by as int,
                                    ix as int,
                                ),
                                cnt <= 49,
                            decreases 7 - ix,
                        {
                            proof {
                                lemma_ell_grid_count_bound(
                                    a2 as int,
                                    b2 as int,
                                    bx as int,
                                    by as int,
                                    ix as int,
                                );
                            }
                            let mut iy: usize = 0;
                            while iy < 7
                                invariant
                                    ix < 7,
                                    iy <= 7,
                                    1 <= a2 <= 65536,
                                    1 <= b2 <= 65536,
                                    -1000000 <= bx <= 1000000,
                                    -1000000 <= by <= 1000000,
                                    cnt as int == ell_grid_count(
                                        a2 as int,
                                        b2 as int,
                                        bx as int,
                                        by as int,
                                        ix as int,
                                    ) + ell_col_count(
                                        a2 as int,
                                        b2 as int,
                                        bx as int,
                                        by as int,
                                        ix as int,
                                        iy as int,
                                    ),
                                    cnt <= 49,
                                decreases 7 - iy,
                            {
                                proof {
                                    lemma_ell_grid_count_bound(
                                        a2 as int,
                                        b2 as int,
                                        bx as int,
                                        by as int,
                                        ix as int,
                                    );
                                    lemma_ell_col_count_bound(
                                        a2 as int,
                                        b2 as int,
                                        bx as int,
                                        by as int,
                                        ix as int,
                                        iy as int,
                                    );
                                }
                                let sx: i64 = bx + 2 * (ix as i64) - 6;
                                let sy: i64 = by + 2 * (iy as i64) - 6;
                                if ell_inside(a2, b2, sx, sy) {
                                    cnt = cnt + 1;
                                }
                                proof {
                                    assert(sx as int == bx as int + 2 * (ix as int - 3));
                                    assert(sy as int == by as int + 2 * (iy as int - 3));
                                }
                                iy = iy + 1;
                            }
                            ix = ix + 1;
                        }
                        proof {
                            assert(cover == cnt as int);
                        }
                        let scaled = LinColor {
                            r: col.r,
                            g: col.g,
                            b: col.b,
                            a: scale_alpha(col.a, cnt),
                        };
                        proof {
                            assert(scaled == scaled_color_spec(col, cover));
                        }
                        self.draw_px(x, y, scaled);
                        proof {
                            assert(self.data@[idx] == blend_pix_spec(pre_px[idx], scaled));
                            assert(pre_px[idx] == orig[idx]);
                        }
                    }
                }
                proof {
                    assert forall|j: int| 0 <= j < orig.len() implies self.data@[j] == (if j % w
                        < x as int || (j % w == x as int && j / w < y as int + 1) {
                        target[j]
                    } else {
                        orig[j]
                    }) by {
                        lemma_flat_coords_range(w, self.height as int, j);
                        lemma_flat_unique(w, j % w, j / w, j);
                        if j != idx {
                            assert(!(j / w == y as int && j % w == x as int));
                            assert(self.data@[j] == pre_px[j]);
                        }
                    }
                }
                y = y + 1;
            }
            proof {
                assert forall|j: int| 0 <= j < orig.len() implies self.data@[j] == (if j % w < x
                    as int + 1 {
                    target[j]
                } else {
                    orig[j]
                }) by {
                    lemma_flat_coords_range(w, self.height as int, j);
                }
            }
            x = x + 1;
        }
        proof {
            assert forall|j: int| 0 <= j < orig.len() implies self.data@[j] == target[j] by {
                lemma_flat_coords_range(w, self.height as int, j);
            }
            assert(self.data@ =~= target);
        }
    }

    /// Export the canvas as sRGB bytes, three per pixel, row-major. The
    /// canvas is consumed.
    pub fn get_buf(self) -> (r: Vec<u8>)
        ensures
            r@ == export_spec(self.data@),
            r@.len() == 3 * self.data@.len(),
    {
        let n = self.data.len();
        let mut out: Vec<u8> = Vec::new();
        let mut i: usize = 0;
        while i < n
            invariant
                i <= n,
                n == self.data@.len(),
                out@.len() == 3 * i,
                forall|j: int|
                    0 <= j < 3 * i ==> out@[j] == encode_spec(pix_ch(self.data@[j / 3], j % 3))
                        as u8,
            decreases n - i,
        {
            let p = self.data[i];
            let b0 = srgb_encode(p.r);
            let b1 = srgb_encode(p.g);
            let b2 = srgb_encode(p.b);
            out.push(b0);
            out.push(b1);
            out.push(b2);
            proof {
                assert forall|j: int| 0 <= j < 3 * (i + 1) implies out@[j] == encode_spec(
                    pix_ch(self.data@[j / 3], j % 3),
                ) as u8 by {
                    if j < 3 * i {
                    } else {
                        let cc = j - 3 * i;
                        lemma_flat_unique(3, cc, i as int, j);
                        assert(j / 3 == i as int && j % 3 == cc);
                    }
                }
            }
            i = i + 1;
        }
        proof {
            assert(out@ =~= export_spec(self.data@));
        }
        out
    }
}

/// Whether one sample point lies inside the ellipse, decided exactly in
/// integer arithmetic on the denominator-cleared inequality.
fn ell_inside(a2: i64, b2: i64, px: i64, py: i64) -> (r: bool)
    requires
        1 <= a2 <= 65536,
        1 <= b2 <= 65536,
        -10000000 <= px <= 10000000,
        -10000000 <= py <= 10000000,
    ensures
        r == ell_inside_spec(a2 as int, b2 as int, px as int, py as int),
{
    let pa = px as i128;
    let pb = py as i128;
    let aa = a2 as i128;
    let bb = b2 as i128;
    proof {
        let x = px as int;
        let y = py as int;
        let a = a2 as int;
        let b = b2 as int;
        assert(0 <= x * x <= 100000000000000 && 0 <= x * x * b <= 10000000000000000000 && 0 <= x
            * x * b * b <= 1000000000000000000000000 && 0 <= y * y <= 100000000000000 && 0 <= y * y
            * a <= 10000000000000000000 && 0 <= y * y * a * a <= 1000000000000000000000000 && 0
            <= 49 * a <= 3211264 && 0 <= 49 * a * a <= 210453397504 && 0 <= 49 * a * a * b
            <= 13792273858822144 && 0 <= 49 * a * a * b * b
            <= 903890459611768029184) by (nonlinear_arith)
            requires
                1 <= a <= 65536,
                1 <= b <= 65536,
                -10000000 <= x <= 10000000,
                -10000000 <= y <= 10000000,
        ;
    }
    pa * pa * bb * bb + pb * pb * aa * aa <= 49 * aa * aa * bb * bb
}

/// The interpolated sRGB byte of one gradient channel: `t` weighted by
/// `fall`, `b` weighted by `rise`, divided by the span (all of the top
/// color when the span is empty).
fn mix_byte(t: u8, b: u8, fall: usize, rise: usize, span: usize) -> (m: u8)
    requires
        fall + rise == span,
        span <= MAX_DIM,
    ensures
        m as int == grad_mix_byte(t as int, b as int, (span - fall) as int, 0, span as int),
{
    if span == 0 {
        t
    } else {
        proof {
            lemma_grad_mix_in_range(t as int, b as int, rise as int, 0, span as int);
            assert(t as int * fall as int <= 255 * 32767 && 0 <= t as int * fall as int && b as int
                * rise as int <= 255 * 32767 && 0 <= b as int * rise as int) by (nonlinear_arith)
                requires
                    t as int <= 255,
                    b as int <= 255,
                    0 <= fall as int <= 32767,
                    0 <= rise as int <= 32767,
            ;
            assert(t as int * (span - rise) + b as int * (rise - 0) == t as int * fall as int
                + b as int * rise as int);
        }
        ((t as usize * fall + b as usize * rise) / span) as u8
    }
}

} // verus!

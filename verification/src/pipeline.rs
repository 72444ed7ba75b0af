//! Compositor pipeline: the fixed-order sequence of layers — gradient,
//! diagonal stripes, background image, ellipse, text with outline,
//! border — applied onto one canvas and exported as bytes.

use vstd::arithmetic::div_mod::lemma_fundamental_div_mod;
use vstd::arithmetic::div_mod::lemma_fundamental_div_mod_converse;
use vstd::prelude::*;

use crate::canvas::Canvas;
use crate::canvas::MAX_DIM;
use crate::canvas::Pix;
use crate::canvas::blend_pix_spec;
use crate::canvas::hline_spec;
use crate::canvas::lemma_flat_coords_range;
use crate::canvas::lemma_flat_in_bounds;
use crate::canvas::lemma_flat_unique;
use crate::canvas::vline_spec;
use crate::canvas::ellipse_spec;
use crate::canvas::export_spec;
use crate::canvas::vgrad_spec;
use crate::color::Color;
use crate::color::ColorA;
use crate::color::LinColor;
use crate::color::from_srgb_spec;
use crate::font::GlyphTable;
use crate::font::lemma_render_padded_len;
use crate::font::render;
use crate::font::render_spec;
use crate::layout::AxisAnchor;
use crate::layout::AxisPlacement;
use crate::layout::Placement;
use crate::layout::resolve_axis_spec;

verus! {

/// A diagonal stripe overlay: every pixel whose diagonal coordinate is a
/// multiple of `spacing` takes the stripe color.
#[derive(Clone, Copy, Debug)]
pub struct StripePattern {
    pub color: ColorA,
    pub on_main_diagonal: bool,
    /// Width of the pattern: there are `spacing - 1` blank pixels between
    /// stripes. Must be at least 1.
    pub spacing: usize,
}

impl StripePattern {
    pub fn new(color: ColorA, on_main_diagonal: bool, spacing: usize) -> (p: StripePattern)
        requires
            spacing >= 1,
        ensures
            p == (StripePattern { color, on_main_diagonal, spacing }),
    {
        StripePattern { color, on_main_diagonal, spacing }
    }
}

/// A background image: an RGBA byte buffer, row-major, four bytes per
/// pixel, and a placement of its top-left corner on the canvas.
#[derive(Clone, Debug)]
pub struct BgImage {
    pub width: usize,
    pub height: usize,
    pub data: Vec<u8>,
    pub placement: Placement,
}

impl BgImage {
    /// The byte buffer holds exactly four bytes for each pixel.
    pub open spec fn wf(self) -> bool {
        &&& self.data@.len() == self.width * self.height * 4
        &&& self.width <= MAX_DIM
        &&& self.height <= MAX_DIM
    }

    pub fn new(width: usize, height: usize, data: Vec<u8>, placement: Placement) -> (img: BgImage)
        requires
            data@.len() == width * height * 4,
            width <= MAX_DIM,
            height <= MAX_DIM,
        ensures
            img.width == width,
            img.height == height,
            img.data == data,
            img.placement == placement,
            img.wf(),
    {
        BgImage { width, height, data, placement }
    }
}

/// Whether `(x, y)` lies on a stripe of the pattern: its coordinate along
/// the chosen diagonal is a multiple of the spacing.
pub open spec fn stripe_hit(pat: StripePattern, x: int, y: int) -> bool {
    if pat.on_main_diagonal {
        (x - y) % (pat.spacing as int) == 0
    } else {
        (x + y) % (pat.spacing as int) == 0
    }
}

/// Result of the stripe overlay: stripe pixels are blended with the
/// pattern's color, the rest are untouched.
pub open spec fn stripes_spec(s: Seq<Pix>, w: int, pat: StripePattern) -> Seq<Pix> {
    Seq::new(
        s.len(),
        |j: int|
            if stripe_hit(pat, j % w, j / w) {
                blend_pix_spec(
                    s[j],
                    from_srgb_spec(pat.color.0, pat.color.1, pat.color.2, pat.color.3),
                )
            } else {
                s[j]
            },
    )
}

/// Two nonnegative numbers differ by a multiple of `sp` exactly when they
/// leave the same remainder.
proof fn lemma_mod_diff_zero(sp: int, x: int, y: int)
    requires
        sp >= 1,
        x >= 0,
        y >= 0,
    ensures
        ((x - y) % sp == 0) <==> (x % sp == y % sp),
{
    lemma_fundamental_div_mod(x, sp);
    lemma_fundamental_div_mod(y, sp);
    let qx = x / sp;
    let rx = x % sp;
    let qy = y / sp;
    let ry = y % sp;
    vstd::arithmetic::div_mod::lemma_remainder_lower(x, sp);
    vstd::arithmetic::div_mod::lemma_remainder_upper(x, sp);
    vstd::arithmetic::div_mod::lemma_remainder_lower(y, sp);
    vstd::arithmetic::div_mod::lemma_remainder_upper(y, sp);
    assert(0 <= rx < sp);
    assert(0 <= ry < sp);
    if rx >= ry {
        assert(x - y == (qx - qy) * sp + (rx - ry)) by (nonlinear_arith)
            requires
                x == sp * qx + rx,
                y == sp * qy + ry,
        ;
        lemma_fundamental_div_mod_converse(x - y, sp, qx - qy, rx - ry);
    } else {
        assert(x - y == (qx - qy - 1) * sp + (rx - ry + sp)) by (nonlinear_arith)
            requires
                x == sp * qx + rx,
                y == sp * qy + ry,
        ;
        lemma_fundamental_div_mod_converse(x - y, sp, qx - qy - 1, rx - ry + sp);
    }
}

/// Overlay the stripe pattern on the whole canvas.
pub fn draw_stripes(c: &mut Canvas, pat: &StripePattern)
    requires
        old(c).wf(),
        pat.spacing >= 1,
    ensures
        final(c).wf(),
        final(c).width == old(c).width,
        final(c).height == old(c).height,
        final(c).data@ == stripes_spec(old(c).data@, old(c).width as int, *pat),
{
    let ghost orig = c.data@;
    let ghost w = c.width as int;
    let ghost target = stripes_spec(orig, w, *pat);
    let col = LinColor::from_srgb(pat.color.0, pat.color.1, pat.color.2, pat.color.3);
    let mut x: usize = 0;
    while x < c.width
        invariant
            c.wf(),
            c.width == old(c).width,
            c.height == old(c).height,
            x <= c.width,
            pat.spacing >= 1,
            col == from_srgb_spec(pat.color.0, pat.color.1, pat.color.2, pat.color.3),
            col.wf(),
            w == c.width as int,
            orig == old(c).data@,
            target == stripes_spec(orig, w, *pat),
            c.data@.len() == orig.len(),
            forall|j: int|
                0 <= j < orig.len() ==> c.data@[j] == (if j % w < x as int {
                    target[j]
                } else {
                    orig[j]
                }),
        decreases c.width - x,
    {
        let mut y: usize = 0;
        while y < c.height
            invariant
                c.wf(),
                c.width == old(c).width,
                c.height == old(c).height,
                x < c.width,
                y <= c.height,
                pat.spacing >= 1,
                col == from_srgb_spec(pat.color.0, pat.color.1, pat.color.2, pat.color.3),
                col.wf(),
                w == c.width as int,
                orig == old(c).data@,
                target == stripes_spec(orig, w, *pat),
                c.data@.len() == orig.len(),
                forall|j: int|
                    0 <= j < orig.len() ==> c.data@[j] == (if j % w < x as int || (j % w == x as int
                        && j / w < y as int) {
                        target[j]
                    } else {
                        orig[j]
                    }),
            decreases c.height - y,
        {
            let ghost idx = y as int * w + x as int;
            proof {
                lemma_flat_in_bounds(w, c.height as int, x as int, y as int);
                lemma_flat_unique(w, x as int, y as int, idx);
            }
            let hit = if pat.on_main_diagonal {
                x % pat.spacing == y % pat.spacing
            } else {
                (x + y) % pat.spacing == 0
            };
            proof {
                if pat.on_main_diagonal {
                    lemma_mod_diff_zero(pat.spacing as int, x as int, y as int);
                }
                assert(hit == stripe_hit(*pat, x as int, y as int));
            }
            let ghost pre_px = c.data@;
            if hit {
                c.draw_px(x, y, col);
            }
            proof {
                assert forall|j: int| 0 <= j < orig.len() implies c.data@[j] == (if j % w < x as int
                    || (j % w == x as int && j / w < y as int + 1) {
                    target[j]
                } else {
                    orig[j]
                }) by {
                    lemma_flat_coords_range(w, c.height as int, j);
                    lemma_flat_unique(w, j % w, j / w, j);
                    if j != idx {
                        assert(!(j / w == y as int && j % w == x as int));
                        assert(c.data@[j] == pre_px[j]);
                    } else {
                        assert(pre_px[j] == orig[j]);
                    }
                }
            }
            y = y + 1;
        }
        proof {
            assert forall|j: int| 0 <= j < orig.len() implies c.data@[j] == (if j % w < x as int
                + 1 {
                target[j]
            } else {
                orig[j]
            }) by {
                lemma_flat_coords_range(w, c.height as int, j);
            }
        }
        x = x + 1;
    }
    proof {
        assert forall|j: int| 0 <= j < orig.len() implies c.data@[j] == target[j] by {
            lemma_flat_coords_range(w, c.height as int, j);
        }
        assert(c.data@ =~= target);
    }
}

/// The linear-light color of the background-image pixel at `(ix, iy)`,
/// read from its four RGBA bytes.
pub open spec fn bg_px_color(img: BgImage, ix: int, iy: int) -> LinColor {
    let base = 4 * (iy * img.width + ix);
    from_srgb_spec(img.data@[base], img.data@[base + 1], img.data@[base + 2], img.data@[base + 3])
}

/// Result of the background-image layer: every canvas pixel under the
/// translated image is blended with the corresponding source pixel.
pub open spec fn bgimage_spec(s: Seq<Pix>, w: int, img: BgImage, offx: int, offy: int) -> Seq<
    Pix,
> {
    Seq::new(
        s.len(),
        |j: int|
            {
                let ix = j % w - offx;
                let iy = j / w - offy;
                if 0 <= ix < img.width && 0 <= iy < img.height {
                    blend_pix_spec(s[j], bg_px_color(img, ix, iy))
                } else {
                    s[j]
                }
            },
    )
}

/// Composite the background image onto the canvas, its top-left corner
/// at `(offx, offy)`, clipped to the canvas bounds.
pub fn draw_bg_image(c: &mut Canvas, img: &BgImage, offx: isize, offy: isize)
    requires
        old(c).wf(),
        img.wf(),
        -10000000 <= offx <= 10000000,
        -10000000 <= offy <= 10000000,
    ensures
        final(c).wf(),
        final(c).width == old(c).width,
        final(c).height == old(c).height,
        final(c).data@ == bgimage_spec(
            old(c).data@,
            old(c).width as int,
            *img,
            offx as int,
            offy as int,
        ),
{
    let ghost orig = c.data@;
    let ghost w = c.width as int;
    let ghost target = bgimage_spec(orig, w, *img, offx as int, offy as int);
    let mut x: usize = 0;
    while x < c.width
        invariant
            c.wf(),
            c.width == old(c).width,
            c.height == old(c).height,
            x <= c.width,
            img.wf(),
            -10000000 <= offx <= 10000000,
            -10000000 <= offy <= 10000000,
            w == c.width as int,
            orig == old(c).data@,
            target == bgimage_spec(orig, w, *img, offx as int, offy as int),
            c.data@.len() == orig.len(),
            forall|j: int|
                0 <= j < orig.len() ==> c.data@[j] == (if j % w < x as int {
                    target[j]
                } else {
                    orig[j]
                }),
        decreases c.width - x,
    {
        let mut y: usize = 0;
        while y < c.height
            invariant
                c.wf(),
                c.width == old(c).width,
                c.height == old(c).height,
                x < c.width,
                y <= c.height,
                img.wf(),
                -10000000 <= offx <= 10000000,
                -10000000 <= offy <= 10000000,
                w == c.width as int,
                orig == old(c).data@,
                target == bgimage_spec(orig, w, *img, offx as int, offy as int),
                c.data@.len() == orig.len(),
                forall|j: int|
                    0 <= j < orig.len() ==> c.data@[j] == (if j % w < x as int || (j % w == x as int
                        && j / w < y as int) {
                        target[j]
                    } else {
                        orig[j]
                    }),
            decreases c.height - y,
        {
            let ghost idx = y as int * w + x as int;
            proof {
                lemma_flat_in_bounds(w, c.height as int, x as int, y as int);
                lemma_flat_unique(w, x as int, y as int, idx);
            }
            let ix: isize = x as isize - offx;
            let iy: isize = y as isize - offy;
            let ghost pre_px = c.data@;
            if ix >= 0 && (ix as usize) < img.width && iy >= 0 && (iy as usize) < img.height {
                proof {
                    lemma_flat_in_bounds(
                        img.width as int,
                        img.height as int,
                        ix as int,
                        iy as int,
                    );
                }
                let base: usize = (iy as usize * img.width + ix as usize) * 4;
                let col = LinColor::from_srgb(
                    img.data[base],
                    img.data[base + 1],
                    img.data[base + 2],
                    img.data[base + 3],
                );
                proof {
                    assert(col == bg_px_color(*img, ix as int, iy as int));
                }
                c.draw_px(x, y, col);
                proof {
                    assert(c.data@[idx] == blend_pix_spec(pre_px[idx], col));
                }
            }
            proof {
                assert forall|j: int| 0 <= j < orig.len() implies c.data@[j] == (if j % w < x as int
                    || (j % w == x as int && j / w < y as int + 1) {
                    target[j]
                } else {
                    orig[j]
                }) by {
                    lemma_flat_coords_range(w, c.height as int, j);
                    lemma_flat_unique(w, j % w, j / w, j);
                    if j != idx {
                        assert(!(j / w == y as int && j % w == x as int));
                        assert(c.data@[j] == pre_px[j]);
                    } else {
                        assert(pre_px[j] == orig[j]);
                    }
                }
            }
            y = y + 1;
        }
        proof {
            assert forall|j: int| 0 <= j < orig.len() implies c.data@[j] == (if j % w < x as int
                + 1 {
                target[j]
            } else {
                orig[j]
            }) by {
                lemma_flat_coords_range(w, c.height as int, j);
            }
        }
        x = x + 1;
    }
    proof {
        assert forall|j: int| 0 <= j < orig.len() implies c.data@[j] == target[j] by {
            lemma_flat_coords_range(w, c.height as int, j);
        }
        assert(c.data@ =~= target);
    }
}

/// One compositing point write, clipped to the canvas bounds.
pub open spec fn point_spec(s: Seq<Pix>, w: int, h: int, px: int, py: int, c: LinColor) -> Seq<
    Pix,
> {
    if 0 <= px < w && 0 <= py < h {
        s.update(py * w + px, blend_pix_spec(s[py * w + px], c))
    } else {
        s
    }
}

/// The first `m` of the nine stamps of a 3 x 3 outline block centered on
/// `(px, py)`: stamp `m` lands at offset `(m/3 - 1, m%3 - 1)`.
pub open spec fn stamp_spec(
    s: Seq<Pix>,
    w: int,
    h: int,
    px: int,
    py: int,
    c: LinColor,
    m: int,
) -> Seq<Pix>
    decreases m,
{
    if m <= 0 {
        s
    } else {
        let prev = stamp_spec(s, w, h, px, py, c, m - 1);
        point_spec(prev, w, h, px + (m - 1) / 3 - 1, py + (m - 1) % 3 - 1, c)
    }
}

/// The first `m` rows of one text column's pass: each ink bit either
/// stamps the full 3 x 3 outline block (outline pass) or writes its own
/// pixel (main pass).
pub open spec fn col_pass_spec(
    s: Seq<Pix>,
    w: int,
    h: int,
    bits: Seq<u8>,
    px: int,
    offy: int,
    c: LinColor,
    outline: bool,
    m: int,
) -> Seq<Pix>
    decreases m,
{
    if m <= 0 {
        s
    } else {
        let prev = col_pass_spec(s, w, h, bits, px, offy, c, outline, m - 1);
        if bits[m - 1] == 1 {
            if outline {
                stamp_spec(prev, w, h, px, offy + m - 1, c, 9)
            } else {
                point_spec(prev, w, h, px, offy + m - 1, c)
            }
        } else {
            prev
        }
    }
}

/// The first `n` columns of a text pass, applied left to right.
pub open spec fn text_pass_spec(
    s: Seq<Pix>,
    w: int,
    h: int,
    cols: Seq<Seq<u8>>,
    offx: int,
    offy: int,
    c: LinColor,
    outline: bool,
    n: int,
) -> Seq<Pix>
    decreases n,
{
    if n <= 0 {
        s
    } else {
        col_pass_spec(
            text_pass_spec(s, w, h, cols, offx, offy, c, outline, n - 1),
            w,
            h,
            cols[n - 1],
            offx + n - 1,
            offy,
            c,
            outline,
            9,
        )
    }
}

/// The column sequence a rendered text vector stands for.
pub open spec fn cols_view(v: Vec<Vec<u8>>) -> Seq<Seq<u8>> {
    Seq::new(v@.len(), |i: int| v@[i]@)
}

/// Draw one pass of the rendered text: the outline pass stamps the
/// outline color around every ink bit, the main pass writes the text
/// color at every ink bit; both are clipped to the canvas.
pub fn draw_text_pass(
    c: &mut Canvas,
    cols: &Vec<Vec<u8>>,
    offx: isize,
    offy: isize,
    col: LinColor,
    outline: bool,
)
    requires
        old(c).wf(),
        col.wf(),
        cols@.len() <= 2000000,
        forall|i: int| 0 <= i < cols@.len() ==> (#[trigger] cols@[i])@.len() == 9,
        -10000000 <= offx <= 10000000,
        -10000000 <= offy <= 10000000,
    ensures
        final(c).wf(),
        final(c).width == old(c).width,
        final(c).height == old(c).height,
        final(c).data@ == text_pass_spec(
            old(c).data@,
            old(c).width as int,
            old(c).height as int,
            cols_view(*cols),
            offx as int,
            offy as int,
            col,
            outline,
            cols@.len() as int,
        ),
{
    let ghost orig = c.data@;
    let ghost w = c.width as int;
    let ghost h = c.height as int;
    let ghost gcols = cols_view(*cols);
    let n = cols.len();
    let mut ci: usize = 0;
    while ci < n
        invariant
            c.wf(),
            c.width == old(c).width,
            c.height == old(c).height,
            ci <= n,
            n == cols@.len(),
            n <= 2000000,
            col.wf(),
            forall|i: int| 0 <= i < cols@.len() ==> (#[trigger] cols@[i])@.len() == 9,
            -10000000 <= offx <= 10000000,
            -10000000 <= offy <= 10000000,
            w == c.width as int,
            h == c.height as int,
            orig == old(c).data@,
            gcols == cols_view(*cols),
            c.data@ == text_pass_spec(orig, w, h, gcols, offx as int, offy as int, col, outline, ci as int),
        decreases n - ci,
    {
        let ghost colbase = c.data@;
        let px: isize = offx + ci as isize;
        let mut y: usize = 0;
        while y < 9
            invariant
                c.wf(),
                c.width == old(c).width,
                c.height == old(c).height,
                ci < n,
                n == cols@.len(),
                n <= 2000000,
                y <= 9,
                col.wf(),
                forall|i: int| 0 <= i < cols@.len() ==> (#[trigger] cols@[i])@.len() == 9,
                -10000000 <= offx <= 10000000,
                -10000000 <= offy <= 10000000,
                px as int == offx as int + ci as int,
                w == c.width as int,
                h == c.height as int,
                gcols == cols_view(*cols),
                c.data@ == col_pass_spec(
                    colbase,
                    w,
                    h,
                    gcols[ci as int],
                    px as int,
                    offy as int,
                    col,
                    outline,
                    y as int,
                ),
            decreases 9 - y,
        {
            let bit = cols[ci][y];
            proof {
                assert(gcols[ci as int] == cols@[ci as int]@);
                assert(bit == gcols[ci as int][y as int]);
            }
            if bit == 1 {
                let ghost rowbase = c.data@;
                let py: isize = offy + y as isize;
                if outline {
                    let mut m: usize = 0;
                    while m < 9
                        invariant
                            c.wf(),
                            c.width == old(c).width,
                            c.height == old(c).height,
                            m <= 9,
                            col.wf(),
                            -10000000 <= offx <= 10000000,
                            -10000000 <= offy <= 10000000,
                            px as int == offx as int + ci as int,
                            ci < 2000000,
                            py as int == offy as int + y as int,
                            y < 9,
                            w == c.width as int,
                            h == c.height as int,
                            c.data@ == stamp_spec(rowbase, w, h, px as int, py as int, col, m as int),
                            rowbase.len() == c.data@.len(),
                        decreases 9 - m,
                    {
                        let dx: isize = (m / 3) as isize - 1;
                        let dy: isize = (m % 3) as isize - 1;
                        let sx: isize = px + dx;
                        let sy: isize = py + dy;
                        let ghost prev = c.data@;
                        if sx >= 0 && (sx as usize) < c.width && sy >= 0 && (sy as usize)
                            < c.height {
                            c.draw_px(sx as usize, sy as usize, col);
                            proof {
                                assert(c.data@ == point_spec(prev, w, h, sx as int, sy as int, col));
                            }
                        } else {
                            proof {
                                assert(c.data@ == point_spec(prev, w, h, sx as int, sy as int, col));
                            }
                        }
                        proof {
                            assert(sx as int == px as int + (m as int) / 3 - 1);
                            assert(sy as int == py as int + (m as int) % 3 - 1);
                            assert(c.data@ == stamp_spec(
                                rowbase,
                                w,
                                h,
                                px as int,
                                py as int,
                                col,
                                m as int + 1,
                            ));
                        }
                        m = m + 1;
                    }
                } else {
                    let ghost prev = c.data@;
                    if px >= 0 && (px as usize) < c.width && py >= 0 && (py as usize) < c.height {
                        c.draw_px(px as usize, py as usize, col);
                    }
                    proof {
                        assert(c.data@ == point_spec(prev, w, h, px as int, py as int, col));
                    }
                }
            }
            proof {
                assert(c.data@ == col_pass_spec(
                    colbase,
                    w,
                    h,
                    gcols[ci as int],
                    px as int,
                    offy as int,
                    col,
                    outline,
                    y as int + 1,
                ));
            }
            y = y + 1;
        }
        proof {
            assert(c.data@ == text_pass_spec(
                orig,
                w,
                h,
                gcols,
                offx as int,
                offy as int,
                col,
                outline,
                ci as int + 1,
            ));
        }
        ci = ci + 1;
    }
}

/// Result of the border layer: the four one-pixel edge lines, each inset
/// by one pixel at one end so that no corner is composited twice; the
/// bottom and left lines exist only when the canvas is more than one
/// pixel wide, resp. tall.
pub open spec fn border_spec(s: Seq<Pix>, w: int, h: int, c: LinColor) -> Seq<Pix> {
    let s1 = hline_spec(s, w, 1, w - 1, 0, c);
    let s2 = vline_spec(s1, w, 1, h - 1, w - 1, c);
    let s3 = if w > 1 {
        hline_spec(s2, w, 0, w - 2, h - 1, c)
    } else {
        s2
    };
    if h > 1 {
        vline_spec(s3, w, 0, h - 2, 0, c)
    } else {
        s3
    }
}

/// Draw the border: top edge, right edge, then (for canvases wider or
/// taller than one pixel) bottom and left edges.
pub fn draw_border(c: &mut Canvas, col: LinColor)
    requires
        old(c).wf(),
        old(c).width >= 1,
        old(c).height >= 1,
        col.wf(),
    ensures
        final(c).wf(),
        final(c).width == old(c).width,
        final(c).height == old(c).height,
        final(c).data@ == border_spec(
            old(c).data@,
            old(c).width as int,
            old(c).height as int,
            col,
        ),
{
    let w = c.width;
    let h = c.height;
    c.horz_line(1, w - 1, 0, col);
    c.vert_line(1, h - 1, w - 1, col);
    if w > 1 {
        c.horz_line(0, w - 2, h - 1, col);
    }
    if h > 1 {
        c.vert_line(0, h - 2, 0, col);
    }
}

/// The complete render request. Every optional field being `None` means
/// that layer is skipped entirely.
pub struct Options {
    pub width: usize,
    pub height: usize,
    pub text: String,
    pub text_placement: Placement,
    pub bg_top_color: Color,
    pub bg_bottom_color: Color,
    pub text_color: ColorA,
    pub text_outline_color: ColorA,
    pub ellipse_color: Option<ColorA>,
    pub text_over_ellipse: bool,
    pub border_color: Option<ColorA>,
    pub diag_stripes: Option<StripePattern>,
    pub bg_image: Option<BgImage>,
}

/// A placement offset small enough for all layout arithmetic on any
/// machine.
pub open spec fn axis_offset_ok(p: AxisPlacement) -> bool {
    -1048576 <= p.offset <= 1048576
}

pub open spec fn placement_ok(p: Placement) -> bool {
    axis_offset_ok(p.horz) && axis_offset_ok(p.vert)
}

/// A render request the pipeline accepts: a nonempty canvas within the
/// supported dimensions, a bounded text length and bounded placement
/// offsets (machine limits), a stripe spacing of at least 1, and a
/// well-formed background image.
pub open spec fn opts_wf(o: Options) -> bool {
    &&& 1 <= o.width <= MAX_DIM
    &&& 1 <= o.height <= MAX_DIM
    &&& o.text@.len() <= 65535
    &&& placement_ok(o.text_placement)
    &&& (o.diag_stripes matches Some(p) ==> p.spacing >= 1)
    &&& (o.bg_image matches Some(img) ==> img.wf() && placement_ok(img.placement))
}

impl Options {
    /// The default render request: a 350 x 19 banner, blue-to-cyan
    /// gradient, white text with black outline, glare ellipse, border
    /// and anti-diagonal stripes every 4 pixels, no background image.
    pub fn new() -> (r: Options)
        ensures
            r.width == 350,
            r.height == 19,
            r.text@ == Seq::<char>::empty(),
            r.text_placement.horz == (AxisPlacement { anchor: AxisAnchor::Auto, offset: 0 }),
            r.text_placement.vert == (AxisPlacement { anchor: AxisAnchor::Auto, offset: 0 }),
            r.bg_top_color == Color(0, 0, 255),
            r.bg_bottom_color == Color(128, 255, 255),
            r.text_color == ColorA(255, 255, 255, 255),
            r.text_outline_color == ColorA(0, 0, 0, 255),
            r.ellipse_color == Some(ColorA(255, 255, 255, 40)),
            r.text_over_ellipse == false,
            r.border_color == Some(ColorA(0, 0, 0, 255)),
            r.diag_stripes == Some(
                StripePattern { color: ColorA(0, 0, 0, 180), on_main_diagonal: false, spacing: 4 },
            ),
            r.bg_image is None,
            opts_wf(r),
    {
        Options {
            text: String::new(),
            width: 350,
            height: 19,
            bg_top_color: Color(0, 0, 255),
            bg_bottom_color: Color(128, 255, 255),
            text_color: ColorA(255, 255, 255, 255),
            text_outline_color: ColorA(0, 0, 0, 255),
            ellipse_color: Some(ColorA(255, 255, 255, 40)),
            text_over_ellipse: false,
            border_color: Some(ColorA(0, 0, 0, 255)),
            text_placement: Placement {
                horz: AxisPlacement { anchor: AxisAnchor::Auto, offset: 0 },
                vert: AxisPlacement { anchor: AxisAnchor::Auto, offset: 0 },
            },
            diag_stripes: Some(
                StripePattern { color: ColorA(0, 0, 0, 180), on_main_diagonal: false, spacing: 4 },
            ),
            bg_image: None,
        }
    }
}

/// The linear-light color of an RGBA byte color.
pub open spec fn lin_of_colora_spec(c: ColorA) -> LinColor {
    from_srgb_spec(c.0, c.1, c.2, c.3)
}

/// The all-black canvas the pipeline starts from.
pub open spec fn init_pixels_spec(w: int, h: int) -> Seq<Pix> {
    Seq::new((w * h) as nat, |j: int| Pix { r: 0, g: 0, b: 0 })
}

/// The `Start(0)` fallback used for background-image placement.
pub open spec fn start_axis_spec() -> AxisPlacement {
    AxisPlacement { offset: 0, anchor: AxisAnchor::Start }
}

/// The ellipse layer of a request: centered horizontally, anchored at
/// the canvas top, semi-axes half the canvas width and height; skipped
/// when no ellipse color is set.
pub open spec fn ellipse_layer_spec(s: Seq<Pix>, o: Options) -> Seq<Pix> {
    match o.ellipse_color {
        Some(ec) => ellipse_spec(
            s,
            o.width as int,
            o.width as int,
            0,
            o.width as int,
            o.height as int,
            lin_of_colora_spec(ec),
        ),
        None => s,
    }
}

/// The horizontal pixel offset of the main text: its placement resolved
/// against the rendered width plus the outline margin, falling back to
/// `End(6)`, then moved right one pixel past the outline.
pub open spec fn text_offx_spec(o: Options, t: GlyphTable) -> int {
    resolve_axis_spec(
        o.text_placement.horz,
        AxisPlacement { offset: 6, anchor: AxisAnchor::End },
        render_spec(o.text@, t).len() as int + 2,
        o.width as int,
    ) + 1
}

/// The vertical pixel offset of the main text: its placement resolved
/// against a nominal 7-pixel glyph box, falling back to `Center`, then
/// moved up one pixel.
pub open spec fn text_offy_spec(o: Options) -> int {
    resolve_axis_spec(
        o.text_placement.vert,
        AxisPlacement { offset: 0, anchor: AxisAnchor::Center },
        7,
        o.height as int,
    ) - 1
}

/// The whole rendered image as a pixel sequence: the fixed layer order
/// is gradient, stripes, background image, ellipse (when under the
/// text), text outline pass, text main pass, ellipse (when over the
/// text), border.
pub open spec fn pipeline_spec(o: Options, t: GlyphTable) -> Seq<Pix> {
    let w = o.width as int;
    let h = o.height as int;
    let s1 = vgrad_spec(init_pixels_spec(w, h), w, 0, w - 1, 0, h - 1, o.bg_top_color, o.bg_bottom_color);
    let s2 = match o.diag_stripes {
        Some(p) => stripes_spec(s1, w, p),
        None => s1,
    };
    let s3 = match o.bg_image {
        Some(img) => bgimage_spec(
            s2,
            w,
            img,
            resolve_axis_spec(img.placement.horz, start_axis_spec(), img.width as int, w),
            resolve_axis_spec(img.placement.vert, start_axis_spec(), img.height as int, h),
        ),
        None => s2,
    };
    let s4 = if o.text_over_ellipse {
        ellipse_layer_spec(s3, o)
    } else {
        s3
    };
    let cols = render_spec(o.text@, t);
    let offx = text_offx_spec(o, t);
    let offy = text_offy_spec(o);
    let s5 = text_pass_spec(
        s4,
        w,
        h,
        cols,
        offx,
        offy,
        lin_of_colora_spec(o.text_outline_color),
        true,
        cols.len() as int,
    );
    let s6 = text_pass_spec(
        s5,
        w,
        h,
        cols,
        offx,
        offy,
        lin_of_colora_spec(o.text_color),
        false,
        cols.len() as int,
    );
    let s7 = if !o.text_over_ellipse {
        ellipse_layer_spec(s6, o)
    } else {
        s6
    };
    match o.border_color {
        Some(bc) => border_spec(s7, w, h, lin_of_colora_spec(bc)),
        None => s7,
    }
}

/// A resolved placement offset stays small when its inputs do.
proof fn lemma_resolve_bound(p: AxisPlacement, a: AxisPlacement, inner: int, outer: int)
    requires
        axis_offset_ok(p),
        axis_offset_ok(a),
        0 <= inner <= 2100000,
        0 <= outer <= 32767,
    ensures
        -9999990 <= resolve_axis_spec(p, a, inner, outer) <= 9999990,
{
    let v = outer - inner;
    if v >= 0 {
        lemma_fundamental_div_mod(v, 2);
        vstd::arithmetic::div_mod::lemma_remainder_lower(v, 2);
        vstd::arithmetic::div_mod::lemma_remainder_upper(v, 2);
    } else {
        lemma_fundamental_div_mod(-v, 2);
        vstd::arithmetic::div_mod::lemma_remainder_lower(-v, 2);
        vstd::arithmetic::div_mod::lemma_remainder_upper(-v, 2);
    }
}

/// Draw the ellipse layer of a request (a no-op when disabled).
pub fn draw_ellipse_layer(c: &mut Canvas, opts: &Options)
    requires
        old(c).wf(),
        opts_wf(*opts),
        old(c).width == opts.width,
        old(c).height == opts.height,
    ensures
        final(c).wf(),
        final(c).width == old(c).width,
        final(c).height == old(c).height,
        final(c).data@ == ellipse_layer_spec(old(c).data@, *opts),
{
    if let Some(ec) = opts.ellipse_color {
        let col = LinColor::from_colora(ec);
        c.ellipse(opts.width as i64, 0, opts.width as i64, opts.height as i64, col);
    }
}

/// Render a request against a glyph table into a flat RGB byte buffer of
/// `width * height * 3` bytes.
pub fn generate(opts: &Options, font: &GlyphTable) -> (r: Vec<u8>)
    requires
        opts_wf(*opts),
        font.wf(),
    ensures
        r@ == export_spec(pipeline_spec(*opts, *font)),
        r@.len() == 3 * (opts.width * opts.height),
{
    let width = opts.width;
    let height = opts.height;
    let ghost w = width as int;
    let ghost h = height as int;
    let mut canvas = Canvas::new(width, height);
    proof {
        assert(canvas.data@ =~= init_pixels_spec(w, h));
    }
    canvas.vert_gradient(0, width - 1, 0, height - 1, opts.bg_top_color, opts.bg_bottom_color);
    let ghost s1 = canvas.data@;
    if let Some(pat) = opts.diag_stripes {
        draw_stripes(&mut canvas, &pat);
    }
    let ghost s2 = canvas.data@;
    if let Some(img) = &opts.bg_image {
        let start = AxisPlacement { anchor: AxisAnchor::Start, offset: 0 };
        let im_offx = img.placement.horz.to_offset(start, img.width as isize, width as isize);
        let im_offy = img.placement.vert.to_offset(start, img.height as isize, height as isize);
        proof {
            lemma_resolve_bound(img.placement.horz, start, img.width as int, w);
            lemma_resolve_bound(img.placement.vert, start, img.height as int, h);
        }
        draw_bg_image(&mut canvas, img, im_offx, im_offy);
    }
    let ghost s3 = canvas.data@;
    if opts.text_over_ellipse {
        draw_ellipse_layer(&mut canvas, opts);
    }
    let ghost s4 = canvas.data@;

    let rendered = render(&opts.text, font);
    let ghost cols = render_spec(opts.text@, *font);
    proof {
        lemma_render_padded_len(opts.text@, *font);
        assert(cols_view(rendered) =~= cols);
    }
    let textw: usize = rendered.len() + 2;
    let end6 = AxisPlacement { anchor: AxisAnchor::End, offset: 6 };
    let center0 = AxisPlacement { anchor: AxisAnchor::Center, offset: 0 };
    let text_horz_offset: isize = opts.text_placement.horz.to_offset(
        end6,
        textw as isize,
        width as isize,
    ) + 1;
    let text_vert_offset: isize = opts.text_placement.vert.to_offset(
        center0,
        7,
        height as isize,
    ) - 1;
    proof {
        lemma_resolve_bound(opts.text_placement.horz, end6, textw as int, w);
        lemma_resolve_bound(opts.text_placement.vert, center0, 7, h);
        assert(text_horz_offset as int == text_offx_spec(*opts, *font));
        assert(text_vert_offset as int == text_offy_spec(*opts));
    }
    draw_text_pass(
        &mut canvas,
        &rendered,
        text_horz_offset,
        text_vert_offset,
        LinColor::from_colora(opts.text_outline_color),
        true,
    );
    let ghost s5 = canvas.data@;
    draw_text_pass(
        &mut canvas,
        &rendered,
        text_horz_offset,
        text_vert_offset,
        LinColor::from_colora(opts.text_color),
        false,
    );
    let ghost s6 = canvas.data@;
    if !opts.text_over_ellipse {
        draw_ellipse_layer(&mut canvas, opts);
    }
    let ghost s7 = canvas.data@;
    if let Some(bc) = opts.border_color {
        draw_border(&mut canvas, LinColor::from_colora(bc));
    }
    proof {
        assert(canvas.data@ == pipeline_spec(*opts, *font));
        assert(canvas.data@.len() == width * height);
    }
    canvas.get_buf()
}

/// The RGB buffer re-packed to RGBA with every alpha byte fully opaque.
pub open spec fn rgba_of_rgb_spec(v: Seq<u8>) -> Seq<u8> {
    Seq::new(
        (v.len() / 3) * 4,
        |j: int|
            if j % 4 == 3 {
                255u8
            } else {
                v[(j / 4) * 3 + j % 4]
            },
    )
}

/// Render a request into a flat RGBA byte buffer of
/// `width * height * 4` bytes, alpha forced to fully opaque.
pub fn generate_rgba(opts: &Options, font: &GlyphTable) -> (r: Vec<u8>)
    requires
        opts_wf(*opts),
        font.wf(),
    ensures
        r@ == rgba_of_rgb_spec(export_spec(pipeline_spec(*opts, *font))),
        r@.len() == 4 * (opts.width * opts.height),
{
    let v = generate(opts, font);
    let pixs = v.len() / 3;
    proof {
        assert(3 * (opts.width * opts.height) % 3 == 0) by (nonlinear_arith);
        assert(pixs as int == opts.width * opts.height) by (nonlinear_arith)
            requires
                v@.len() == 3 * (opts.width * opts.height),
                pixs == v@.len() / 3,
        ;
    }
    let mut out: Vec<u8> = Vec::new();
    let mut i: usize = 0;
    while i < pixs
        invariant
            i <= pixs,
            pixs as int == v@.len() / 3,
            3 * (pixs as int) == v@.len(),
            v@.len() <= usize::MAX,
            out@.len() == 4 * i,
            forall|j: int|
                0 <= j < 4 * i ==> out@[j] == (if j % 4 == 3 {
                    255u8
                } else {
                    v@[(j / 4) * 3 + j % 4]
                }),
        decreases pixs - i,
    {
        let b0 = v[3 * i];
        let b1 = v[3 * i + 1];
        let b2 = v[3 * i + 2];
        out.push(b0);
        out.push(b1);
        out.push(b2);
        out.push(255);
        proof {
            assert forall|j: int| 0 <= j < 4 * (i + 1) implies out@[j] == (if j % 4 == 3 {
                255u8
            } else {
                v@[(j / 4) * 3 + j % 4]
            }) by {
                if j >= 4 * i {
                    let cc = j - 4 * i;
                    lemma_flat_unique(4, cc, i as int, j);
                    assert(j / 4 == i as int && j % 4 == cc);
                }
            }
        }
        i = i + 1;
    }
    proof {
        assert(out@ =~= rgba_of_rgb_spec(v@));
    }
    out
}

} // verus!

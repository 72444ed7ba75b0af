use userbar::canvas::Canvas;
use userbar::color::blend_ch;
use userbar::color::srgb_decode;
use userbar::color::srgb_encode;
use userbar::pipeline::draw_bg_image;
use userbar::pipeline::draw_stripes;
use userbar::pipeline::draw_text_pass;
use userbar::render;
use userbar::AxisAnchor;
use userbar::AxisPlacement;
use userbar::BgImage;
use userbar::Color;
use userbar::ColorA;
use userbar::Glyph;
use userbar::GlyphTable;
use userbar::LinColor;
use userbar::Options;
use userbar::Placement;
use userbar::StripePattern;
use userbar::{generate, generate_rgba};

fn buf_px(buf: &[u8], w: usize, x: usize, y: usize) -> (u8, u8, u8) {
    let i = (y * w + x) * 3;
    (buf[i], buf[i + 1], buf[i + 2])
}

fn test_table() -> GlyphTable {
    // 'A' maps to a 3-wide glyph whose rows all carry ink in bit 1;
    // the fallback is a 2-wide glyph with ink in bit 0 of the top row.
    let a = Glyph {
        width: 3,
        rows: [0b10; 9],
    };
    let fallback = Glyph {
        width: 2,
        rows: [1, 0, 0, 0, 0, 0, 0, 0, 0],
    };
    GlyphTable {
        entries: vec![(65, a)],
        fallback,
    }
}

fn auto_placement() -> Placement {
    Placement {
        horz: AxisPlacement {
            anchor: AxisAnchor::Auto,
            offset: 0,
        },
        vert: AxisPlacement {
            anchor: AxisAnchor::Auto,
            offset: 0,
        },
    }
}

fn bare_options(w: usize, h: usize, c: Color) -> Options {
    let mut o = Options::new();
    o.width = w;
    o.height = h;
    o.text = String::new();
    o.text_placement = auto_placement();
    o.bg_top_color = c;
    o.bg_bottom_color = c;
    o.ellipse_color = None;
    o.border_color = None;
    o.diag_stripes = None;
    o.bg_image = None;
    o
}

#[test]
fn render_known_glyph() {
    let t = test_table();
    let cols = render("A", &t);
    // width 3 gives two columns; the trailing spacer is removed
    assert_eq!(cols.len(), 2);
    // column 0 reads bit width-2 = 1 of each row: all ink
    assert_eq!(cols[0], vec![1u8; 9]);
    // column 1 reads bit 0: blank
    assert_eq!(cols[1], vec![0u8; 9]);
}

#[test]
fn render_unknown_char_uses_fallback() {
    let t = test_table();
    let cols = render("z", &t);
    // fallback width 2 gives one column, reading bit 0: top row ink
    assert_eq!(cols.len(), 1);
    assert_eq!(cols[0], vec![1, 0, 0, 0, 0, 0, 0, 0, 0]);
}

#[test]
fn render_two_chars_have_one_spacer() {
    let t = test_table();
    let cols = render("AA", &t);
    // 2 columns + spacer + 2 columns
    assert_eq!(cols.len(), 5);
    assert_eq!(cols[2], vec![0u8; 9]);
    assert_eq!(cols[3], vec![1u8; 9]);
}

#[test]
fn render_empty_text_is_empty() {
    let t = test_table();
    assert_eq!(render("", &t).len(), 0);
}

#[test]
fn stripes_anti_diagonal_spacing_four() {
    let mut c = Canvas::new(5, 5);
    let pat = StripePattern::new(ColorA(255, 255, 255, 255), false, 4);
    draw_stripes(&mut c, &pat);
    let buf = c.get_buf();
    // x + y == 0 is a stripe
    assert_eq!(buf_px(&buf, 5, 0, 0), (255, 255, 255));
    // x + y == 1 is not
    assert_eq!(buf_px(&buf, 5, 1, 0), (0, 0, 0));
    assert_eq!(buf_px(&buf, 5, 0, 1), (0, 0, 0));
    // x + y == 4 is
    assert_eq!(buf_px(&buf, 5, 2, 2), (255, 255, 255));
}

#[test]
fn stripes_main_diagonal() {
    let mut c = Canvas::new(5, 5);
    let pat = StripePattern::new(ColorA(255, 255, 255, 255), true, 3);
    draw_stripes(&mut c, &pat);
    let buf = c.get_buf();
    // x - y multiples of 3 are stripes, others are not
    assert_eq!(buf_px(&buf, 5, 0, 0), (255, 255, 255));
    assert_eq!(buf_px(&buf, 5, 3, 0), (255, 255, 255));
    assert_eq!(buf_px(&buf, 5, 0, 3), (255, 255, 255));
    assert_eq!(buf_px(&buf, 5, 2, 0), (0, 0, 0));
}

#[test]
fn bg_image_composites_at_offset() {
    let mut c = Canvas::new(3, 3);
    let img = BgImage::new(
        1,
        1,
        vec![200, 0, 0, 255],
        auto_placement(),
    );
    draw_bg_image(&mut c, &img, 1, 1);
    let buf = c.get_buf();
    assert_eq!(buf_px(&buf, 3, 1, 1), (200, 0, 0));
    assert_eq!(buf_px(&buf, 3, 0, 0), (0, 0, 0));
    assert_eq!(buf_px(&buf, 3, 2, 2), (0, 0, 0));
}

#[test]
fn text_main_pass_writes_ink_bits() {
    let mut c = Canvas::new(3, 3);
    let cols = vec![vec![0, 1, 0, 0, 0, 0, 0, 0, 0]];
    draw_text_pass(
        &mut c,
        &cols,
        1,
        0,
        LinColor::from_srgb(255, 255, 255, 255),
        false,
    );
    let buf = c.get_buf();
    assert_eq!(buf_px(&buf, 3, 1, 1), (255, 255, 255));
    assert_eq!(buf_px(&buf, 3, 1, 0), (0, 0, 0));
    assert_eq!(buf_px(&buf, 3, 0, 1), (0, 0, 0));
}

#[test]
fn text_outline_pass_stamps_neighbors() {
    let mut c = Canvas::new(3, 3);
    let cols = vec![vec![0, 1, 0, 0, 0, 0, 0, 0, 0]];
    draw_text_pass(
        &mut c,
        &cols,
        1,
        0,
        LinColor::from_srgb(255, 255, 255, 255),
        true,
    );
    let buf = c.get_buf();
    // the whole 3 x 3 block around (1, 1) is stamped
    for y in 0..3 {
        for x in 0..3 {
            assert_eq!(buf_px(&buf, 3, x, y), (255, 255, 255));
        }
    }
}

#[test]
fn generate_uniform_background() {
    let t = test_table();
    let o = bare_options(10, 10, Color(0x33, 0x66, 0x99));
    let buf = generate(&o, &t);
    assert_eq!(buf.len(), 300);
    for p in 0..100 {
        assert_eq!(buf[p * 3], 0x33);
        assert_eq!(buf[p * 3 + 1], 0x66);
        assert_eq!(buf[p * 3 + 2], 0x99);
    }
}

#[test]
fn generate_border_corner_composited_once() {
    let t = test_table();
    let mut o = bare_options(5, 5, Color(0x33, 0x66, 0x99));
    o.border_color = Some(ColorA(0, 0, 0, 128));
    let buf = generate(&o, &t);
    // a single composite of the border color over the background
    let expect = |bg: u8| srgb_encode(blend_ch(srgb_decode(bg), srgb_decode(0), 128 * 49));
    let corner = buf_px(&buf, 5, 0, 0);
    assert_eq!(corner, (expect(0x33), expect(0x66), expect(0x99)));
    // the center is untouched
    assert_eq!(buf_px(&buf, 5, 2, 2), (0x33, 0x66, 0x99));
    // all four corners match
    assert_eq!(buf_px(&buf, 5, 4, 0), corner);
    assert_eq!(buf_px(&buf, 5, 0, 4), corner);
    assert_eq!(buf_px(&buf, 5, 4, 4), corner);
}

#[test]
fn generate_single_pixel_canvas_with_border() {
    let t = test_table();
    let mut o = bare_options(1, 1, Color(10, 10, 10));
    o.border_color = Some(ColorA(255, 0, 0, 255));
    let buf = generate(&o, &t);
    assert_eq!(buf.len(), 3);
}

#[test]
fn generate_rgba_repacks_with_opaque_alpha() {
    let t = test_table();
    let o = bare_options(4, 2, Color(1, 2, 3));
    let rgb = generate(&o, &t);
    let rgba = generate_rgba(&o, &t);
    assert_eq!(rgba.len(), 32);
    for p in 0..8 {
        assert_eq!(rgba[p * 4], rgb[p * 3]);
        assert_eq!(rgba[p * 4 + 1], rgb[p * 3 + 1]);
        assert_eq!(rgba[p * 4 + 2], rgb[p * 3 + 2]);
        assert_eq!(rgba[p * 4 + 3], 255);
    }
}

#[test]
fn generate_with_text_draws_text_color() {
    let t = test_table();
    let mut o = bare_options(10, 11, Color(0, 0, 0));
    o.text = String::from("A");
    o.text_color = ColorA(255, 255, 255, 255);
    o.text_outline_color = ColorA(255, 0, 0, 255);
    let buf = generate(&o, &t);
    // glyph columns: 2, text width 4; horizontal offset resolves to
    // End(6): 10 - 4 - 6 = 0, plus 1 -> 1; vertical to Center: (11-7)/2
    // = 2, minus 1 -> 1. Ink fills rows 0..9 of column 0 at x=1.
    assert_eq!(buf_px(&buf, 10, 1, 1), (255, 255, 255));
    // outline is visible left of the ink column
    assert_eq!(buf_px(&buf, 10, 0, 1), (255, 0, 0));
}

#[test]
fn options_new_defaults() {
    let o = Options::new();
    assert_eq!(o.width, 350);
    assert_eq!(o.height, 19);
    assert_eq!(o.text, "");
    assert_eq!(o.bg_top_color, Color(0, 0, 255));
    assert_eq!(o.bg_bottom_color, Color(128, 255, 255));
    assert_eq!(o.text_color, ColorA(255, 255, 255, 255));
    assert_eq!(o.text_outline_color, ColorA(0, 0, 0, 255));
    assert_eq!(o.ellipse_color, Some(ColorA(255, 255, 255, 40)));
    assert!(!o.text_over_ellipse);
    assert_eq!(o.border_color, Some(ColorA(0, 0, 0, 255)));
    let s = o.diag_stripes.unwrap();
    assert_eq!(s.color, ColorA(0, 0, 0, 180));
    assert!(!s.on_main_diagonal);
    assert_eq!(s.spacing, 4);
    assert!(o.bg_image.is_none());
}

#[test]
fn generate_one_pixel_canvas_all_layers() {
    let t = test_table();
    let mut o = Options::new();
    o.width = 1;
    o.height = 1;
    o.text = String::from("A");
    let buf = generate(&o, &t);
    assert_eq!(buf.len(), 3);
}

#[test]
fn generate_default_options_with_text_runs() {
    let t = test_table();
    let mut o = Options::new();
    o.text = String::from("hi");
    let buf = generate(&o, &t);
    assert_eq!(buf.len(), 350 * 19 * 3);
}

use userbar::canvas::Canvas;
use userbar::color::blend_ch;
use userbar::color::scale_alpha;
use userbar::color::srgb_decode;
use userbar::color::srgb_encode;
use userbar::color::ALPHA_ONE;
use userbar::Color;
use userbar::LinColor;

fn buf_px(buf: &[u8], w: usize, x: usize, y: usize) -> (u8, u8, u8) {
    let i = (y * w + x) * 3;
    (buf[i], buf[i + 1], buf[i + 2])
}

#[test]
fn round_trip_all_bytes() {
    for b in 0..=255u16 {
        let lin = srgb_decode(b as u8);
        assert_eq!(srgb_encode(lin), b as u8);
    }
}

#[test]
fn decode_endpoints() {
    assert_eq!(srgb_decode(0), 0);
    assert_eq!(srgb_decode(255), 65535);
    assert_eq!(srgb_decode(0x33), 2170);
}

#[test]
fn blend_alpha_zero_keeps_channel() {
    for o in [0u16, 1, 1234, 65535] {
        assert_eq!(blend_ch(o, 40000, 0), o);
    }
}

#[test]
fn blend_alpha_full_replaces_channel() {
    for s in [0u16, 7, 2170, 65535] {
        assert_eq!(blend_ch(12345, s, ALPHA_ONE), s);
    }
}

#[test]
fn scale_alpha_is_exact_on_byte_alphas() {
    assert_eq!(scale_alpha(ALPHA_ONE, 49), ALPHA_ONE);
    assert_eq!(scale_alpha(ALPHA_ONE, 0), 0);
    // byte alpha 128 at 7 of 49 samples: (128*49)*7/49 == 128*7
    assert_eq!(scale_alpha(128 * 49, 7), 128 * 7);
}

#[test]
fn from_srgb_known_values() {
    let c = LinColor::from_srgb(255, 0, 0x33, 255);
    assert_eq!(c.r, 65535);
    assert_eq!(c.g, 0);
    assert_eq!(c.b, 2170);
    assert_eq!(c.a, ALPHA_ONE);
}

#[test]
fn draw_px_alpha_zero_leaves_pixel() {
    let mut c = Canvas::new(2, 2);
    c.vert_gradient(0, 1, 0, 1, Color(0x33, 0x66, 0x99), Color(0x33, 0x66, 0x99));
    c.draw_px(0, 0, LinColor::from_srgb(10, 20, 30, 0));
    let buf = c.get_buf();
    assert_eq!(buf_px(&buf, 2, 0, 0), (0x33, 0x66, 0x99));
}

#[test]
fn draw_px_alpha_full_replaces_pixel() {
    let mut c = Canvas::new(2, 2);
    c.vert_gradient(0, 1, 0, 1, Color(0x33, 0x66, 0x99), Color(0x33, 0x66, 0x99));
    c.draw_px(1, 1, LinColor::from_srgb(10, 20, 30, 255));
    let buf = c.get_buf();
    assert_eq!(buf_px(&buf, 2, 1, 1), (10, 20, 30));
    assert_eq!(buf_px(&buf, 2, 0, 1), (0x33, 0x66, 0x99));
}

#[test]
fn gradient_endpoints_exact() {
    let mut c = Canvas::new(1, 3);
    c.vert_gradient(0, 0, 0, 2, Color(10, 20, 30), Color(200, 150, 100));
    let buf = c.get_buf();
    assert_eq!(buf_px(&buf, 1, 0, 0), (10, 20, 30));
    assert_eq!(buf_px(&buf, 1, 0, 2), (200, 150, 100));
}

#[test]
fn gradient_zero_span_takes_top_color() {
    let mut c = Canvas::new(2, 2);
    c.vert_gradient(0, 1, 1, 1, Color(1, 2, 3), Color(200, 200, 200));
    let buf = c.get_buf();
    assert_eq!(buf_px(&buf, 2, 0, 1), (1, 2, 3));
    assert_eq!(buf_px(&buf, 2, 1, 1), (1, 2, 3));
    // row 0 untouched
    assert_eq!(buf_px(&buf, 2, 0, 0), (0, 0, 0));
}

#[test]
fn gradient_midpoint_mixes_in_display_space() {
    let mut c = Canvas::new(1, 3);
    c.vert_gradient(0, 0, 0, 2, Color(0, 0, 0), Color(200, 100, 50));
    let buf = c.get_buf();
    // middle row: byte mix at fraction 1/2, truncating
    assert_eq!(buf_px(&buf, 1, 0, 1), (100, 50, 25));
}

#[test]
fn horz_and_vert_lines_cover_inclusive_ranges() {
    let mut c = Canvas::new(3, 3);
    c.horz_line(0, 2, 0, LinColor::from_srgb(255, 255, 255, 255));
    c.vert_line(1, 2, 2, LinColor::from_srgb(9, 9, 9, 255));
    let buf = c.get_buf();
    assert_eq!(buf_px(&buf, 3, 0, 0), (255, 255, 255));
    assert_eq!(buf_px(&buf, 3, 2, 0), (255, 255, 255));
    assert_eq!(buf_px(&buf, 3, 2, 1), (9, 9, 9));
    assert_eq!(buf_px(&buf, 3, 2, 2), (9, 9, 9));
    assert_eq!(buf_px(&buf, 3, 1, 1), (0, 0, 0));
}

#[test]
fn ellipse_center_pixel_fully_covered() {
    // center (4, 4), semi-axes 2 x 2 on a 9 x 9 canvas
    let mut c = Canvas::new(9, 9);
    c.ellipse(8, 8, 4, 4, LinColor::from_srgb(50, 60, 70, 255));
    let buf = c.get_buf();
    assert_eq!(buf_px(&buf, 9, 4, 4), (50, 60, 70));
}

#[test]
fn ellipse_far_pixel_untouched() {
    let mut c = Canvas::new(9, 9);
    c.ellipse(8, 8, 4, 4, LinColor::from_srgb(50, 60, 70, 255));
    let buf = c.get_buf();
    // dx = 2a: x == 8 with center 4 and a == 2
    assert_eq!(buf_px(&buf, 9, 8, 4), (0, 0, 0));
}

#[test]
fn ellipse_boundary_pixel_partially_covered() {
    let mut c = Canvas::new(9, 9);
    c.ellipse(8, 8, 4, 4, LinColor::from_srgb(255, 255, 255, 255));
    let buf = c.get_buf();
    // the pixel just right of the horizontal extreme straddles the edge
    let (r, g, b) = buf_px(&buf, 9, 6, 4);
    assert_eq!(r, g);
    assert_eq!(g, b);
    assert!(r > 0 && r < 255);
}

use userbar::make_color;
use userbar::make_colora;
use userbar::make_placement;
use userbar::AxisAnchor;
use userbar::AxisPlacement;
use userbar::Color;
use userbar::ColorA;

fn axis(anchor: AxisAnchor, offset: isize) -> AxisPlacement {
    AxisPlacement { anchor, offset }
}

#[test]
fn resolve_center_truncates() {
    let r = axis(AxisAnchor::Center, 0).to_offset(axis(AxisAnchor::Start, 0), 4, 10);
    assert_eq!(r, 3);
}

#[test]
fn resolve_end_measures_from_far_edge() {
    let r = axis(AxisAnchor::End, 2).to_offset(axis(AxisAnchor::Start, 0), 4, 10);
    assert_eq!(r, 4);
}

#[test]
fn resolve_start_is_the_offset() {
    let r = axis(AxisAnchor::Start, 2).to_offset(axis(AxisAnchor::Center, 0), 123, 456);
    assert_eq!(r, 2);
}

#[test]
fn resolve_auto_defers_to_fallback() {
    let r = axis(AxisAnchor::Auto, 99).to_offset(axis(AxisAnchor::End, 6), 4, 20);
    assert_eq!(r, 10);
    let r2 = axis(AxisAnchor::Auto, 99).to_offset(axis(AxisAnchor::Center, 0), 4, 10);
    assert_eq!(r2, 3);
}

#[test]
fn resolve_center_negative_space_truncates_toward_zero() {
    // inner larger than outer: (-5)/2 truncates to -2
    let r = axis(AxisAnchor::Center, 0).to_offset(axis(AxisAnchor::Start, 0), 15, 10);
    assert_eq!(r, -2);
}

#[test]
fn make_helpers_build_values() {
    assert_eq!(make_color(1, 2, 3), Color(1, 2, 3));
    assert_eq!(make_colora(1, 2, 3, 4), ColorA(1, 2, 3, 4));
    let p = make_placement(AxisAnchor::Start, 5, AxisAnchor::End, 7);
    assert!(matches!(p.horz.anchor, AxisAnchor::Start));
    assert_eq!(p.horz.offset, 5);
    assert!(matches!(p.vert.anchor, AxisAnchor::End));
    assert_eq!(p.vert.offset, 7);
}

use userbar::color_from_hex;
use userbar::colora_from_hex;
use userbar::parse_placement;
use userbar::AxisAnchor;
use userbar::Color;
use userbar::ColorA;
use userbar::ParseError;

#[test]
fn color_three_digits_doubles_each() {
    assert_eq!(color_from_hex("#fff"), Ok(Color(255, 255, 255)));
    assert_eq!(color_from_hex("00f"), Ok(Color(0, 0, 255)));
    assert_eq!(color_from_hex("8ff"), Ok(Color(0x88, 0xff, 0xff)));
}

#[test]
fn color_six_digits() {
    assert_eq!(color_from_hex("336699"), Ok(Color(0x33, 0x66, 0x99)));
    assert_eq!(color_from_hex("#AbCdEf"), Ok(Color(0xab, 0xcd, 0xef)));
}

#[test]
fn color_wrong_length_rejected() {
    assert_eq!(color_from_hex(""), Err(ParseError::WrongDigitCount));
    assert_eq!(color_from_hex("#12345"), Err(ParseError::WrongDigitCount));
    assert_eq!(color_from_hex("1234"), Err(ParseError::WrongDigitCount));
    assert_eq!(color_from_hex("#"), Err(ParseError::WrongDigitCount));
}

#[test]
fn color_bad_digit_rejected() {
    assert_eq!(color_from_hex("zzz"), Err(ParseError::InvalidDigit));
    assert_eq!(color_from_hex("#12345g"), Err(ParseError::InvalidDigit));
}

#[test]
fn colora_forms() {
    assert_eq!(colora_from_hex("fff"), Ok(ColorA(255, 255, 255, 255)));
    assert_eq!(colora_from_hex("#1234"), Ok(ColorA(0x11, 0x22, 0x33, 0x44)));
    assert_eq!(
        colora_from_hex("336699b4"),
        Ok(ColorA(0x33, 0x66, 0x99, 0xb4))
    );
    assert_eq!(
        colora_from_hex("#000000b4"),
        Ok(ColorA(0, 0, 0, 0xb4))
    );
    assert_eq!(colora_from_hex("ffffff28"), Ok(ColorA(255, 255, 255, 0x28)));
    assert_eq!(
        colora_from_hex("336699"),
        Ok(ColorA(0x33, 0x66, 0x99, 255))
    );
}

#[test]
fn colora_rejections() {
    assert_eq!(colora_from_hex("12345"), Err(ParseError::WrongDigitCount));
    assert_eq!(colora_from_hex("123g"), Err(ParseError::InvalidDigit));
}

#[test]
fn placement_words() {
    let p = parse_placement("auto,center").unwrap();
    assert!(matches!(p.horz.anchor, AxisAnchor::Auto));
    assert_eq!(p.horz.offset, 0);
    assert!(matches!(p.vert.anchor, AxisAnchor::Center));
    assert_eq!(p.vert.offset, 0);
}

#[test]
fn placement_numbers() {
    let p = parse_placement("12,7").unwrap();
    assert!(matches!(p.horz.anchor, AxisAnchor::Start));
    assert_eq!(p.horz.offset, 12);
    assert!(matches!(p.vert.anchor, AxisAnchor::Start));
    assert_eq!(p.vert.offset, 7);
}

#[test]
fn placement_negative_anchors_at_end() {
    let p = parse_placement("center,-3").unwrap();
    assert!(matches!(p.vert.anchor, AxisAnchor::End));
    assert_eq!(p.vert.offset, 3);
}

#[test]
fn placement_double_sign_like_machine_parse() {
    // a leading '-' selects End; the remainder is itself a signed number
    let p = parse_placement("--3,+4").unwrap();
    assert!(matches!(p.horz.anchor, AxisAnchor::End));
    assert_eq!(p.horz.offset, -3);
    assert!(matches!(p.vert.anchor, AxisAnchor::Start));
    assert_eq!(p.vert.offset, 4);
}

#[test]
fn placement_component_count_errors() {
    assert_eq!(
        parse_placement("5"),
        Err(ParseError::WrongComponentCount)
    );
    assert_eq!(
        parse_placement("1,2,3"),
        Err(ParseError::WrongComponentCount)
    );
    assert_eq!(parse_placement(""), Err(ParseError::WrongComponentCount));
}

#[test]
fn placement_bad_axis_errors() {
    assert_eq!(parse_placement("x,1"), Err(ParseError::BadHorizontal));
    assert_eq!(parse_placement("1,x"), Err(ParseError::BadVertical));
    assert_eq!(parse_placement(",1"), Err(ParseError::BadHorizontal));
    assert_eq!(parse_placement("1,"), Err(ParseError::BadVertical));
    assert_eq!(parse_placement("-,1"), Err(ParseError::BadHorizontal));
}

#[test]
fn placement_overflow_rejected() {
    assert_eq!(
        parse_placement("99999999999999999999999999,1"),
        Err(ParseError::BadHorizontal)
    );
    // large but representable values parse
    let p = parse_placement("2147483647,1").unwrap();
    assert_eq!(p.horz.offset, 2147483647);
}

#[test]
fn placement_leading_zeroes_parse() {
    let p = parse_placement("0007,-0002").unwrap();
    assert_eq!(p.horz.offset, 7);
    assert!(matches!(p.vert.anchor, AxisAnchor::End));
    assert_eq!(p.vert.offset, 2);
}

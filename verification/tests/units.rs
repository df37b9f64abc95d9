//! Tests for lengths, sizes, borders and scales: parsing, conversion,
//! rotation and rendering.

use print_prep::parse::{parse_borders, parse_fix_size, parse_scale_mode, parse_size, parse_unit};
use print_prep::parse::parse_length as length_from_str;
use print_prep::parse::parse_scale as scale_from_str;
use print_prep::rational::Rational;
use print_prep::units::border::Borders;
use print_prep::units::length::{Length, LengthUnit, ToLength};
use print_prep::units::scale::ScaleMode;
use print_prep::units::size::{FixSize, Size};

#[test]
fn parse_length() {
    let len: Length = length_from_str("1024").unwrap();
    assert_eq!(len.value(), Rational { num: 1024, den: 1 });
    assert_eq!(len.unit(), &LengthUnit::Px);

    let len: Length = length_from_str("5cm").unwrap();
    assert_eq!(len.value(), Rational { num: 5, den: 1 });
    assert_eq!(len.unit(), &LengthUnit::Cm);

    let len: Length = length_from_str("10in").unwrap();
    assert_eq!(len.value(), Rational { num: 10, den: 1 });
    assert_eq!(len.unit(), &LengthUnit::Inch);
}

#[test]
fn length_parse_size() {
    let size = parse_size("10cm/5cm").unwrap();

    assert_eq!(size.width().as_ref().unwrap().value(), Rational { num: 10, den: 1 });
    assert_eq!(size.height().as_ref().unwrap().value(), Rational { num: 5, den: 1 });
    assert_eq!(size.width().as_ref().unwrap().unit(), &LengthUnit::Cm);
    assert_eq!(size.height().as_ref().unwrap().unit(), &LengthUnit::Cm);
}

#[test]
fn length_parse_size_opt() {
    let size = parse_size("10in/.").unwrap();

    assert_eq!(size.width().as_ref().unwrap().value(), Rational { num: 10, den: 1 });
    assert_eq!(size.width().as_ref().unwrap().unit(), &LengthUnit::Inch);
    assert!(size.height().is_none());
}

#[test]
fn parse_numbers() {
    let len = 10.cm();

    assert_eq!(len.value(), Rational { num: 10, den: 1 });
    assert_eq!(len.unit(), &LengthUnit::Cm);
}

#[test]
fn unit_conversion() {
    let mm = 2540.mm();
    let cm = 254.cm();
    let inch = 100.inch();
    let px = 30000.px();

    assert_eq!(mm.to(&LengthUnit::Mm, 300), mm);
    assert_eq!(cm.to(&LengthUnit::Cm, 300), cm);
    assert_eq!(inch.to(&LengthUnit::Inch, 300), inch);
    assert_eq!(px.to(&LengthUnit::Px, 300), px);

    assert_eq!(cm.to(&LengthUnit::Mm, 300), mm);
    assert_eq!(cm.to(&LengthUnit::Inch, 300), inch);
    assert_eq!(cm.to(&LengthUnit::Px, 300), px);

    assert_eq!(inch.to(&LengthUnit::Cm, 300), cm);
    assert_eq!(inch.to(&LengthUnit::Mm, 300), mm);
    assert_eq!(inch.to(&LengthUnit::Px, 300), px);

    assert_eq!(px.to(&LengthUnit::Cm, 300), cm);
    assert_eq!(px.to(&LengthUnit::Mm, 300), mm);
    assert_eq!(px.to(&LengthUnit::Inch, 300), inch);
}

#[test]
fn length_display() {
    let cm = 254.cm();
    let inch = 100.inch();
    let px = 30000.px();

    assert_eq!(cm.to_string(), "254cm");
    assert_eq!(inch.to_string(), "100in");
    assert_eq!(px.to_string(), "30000px");
}

#[test]
fn fractional_values() {
    let l = length_from_str("3.5in").unwrap();
    assert_eq!(l.value(), Rational { num: 7, den: 2 });
    assert_eq!(l.to_string(), "3.5in");

    let l = length_from_str("0.25cm").unwrap();
    assert_eq!(l.value(), Rational { num: 1, den: 4 });
    assert_eq!(l.to_string(), "0.25cm");

    // Pixel values are rounded on construction, ties away from zero.
    let l = length_from_str("1.5").unwrap();
    assert_eq!(l.value(), Rational { num: 2, den: 1 });
    assert_eq!(l.unit(), &LengthUnit::Px);
}

#[test]
fn length_parse_errors() {
    assert!(length_from_str("abc").is_err());
    assert!(length_from_str("").is_err());
    assert!(length_from_str("5xy").is_err());
    assert!(length_from_str("1.2.3cm").is_err());
    assert!(length_from_str("5 cm").is_err());
    assert!(length_from_str("12345678901234567890").is_err());
}

#[test]
fn round_trip_conversion() {
    // Converting through an intermediate physical unit is exact.
    let l = length_from_str("3.5in").unwrap();
    let via_cm = l.to(&LengthUnit::Cm, 300).to(&LengthUnit::Px, 300);
    let direct = l.to(&LengthUnit::Px, 300);
    assert_eq!(via_cm, direct);

    let via_mm = l.to(&LengthUnit::Mm, 120).to(&LengthUnit::Cm, 120);
    let direct_cm = l.to(&LengthUnit::Cm, 120);
    assert_eq!(via_mm, direct_cm);
}

#[test]
fn size_parse_size() {
    let size = parse_size("10cm/5cm").unwrap();

    assert_eq!(size.width.as_ref().unwrap().value(), Rational { num: 10, den: 1 });
    assert_eq!(size.height.as_ref().unwrap().value(), Rational { num: 5, den: 1 });
    assert_eq!(size.width.as_ref().unwrap().unit(), &LengthUnit::Cm);
    assert_eq!(size.height.as_ref().unwrap().unit(), &LengthUnit::Cm);
}

#[test]
fn size_parse_size_opt() {
    let size = parse_size("10in/.").unwrap();

    assert_eq!(size.width.as_ref().unwrap().value(), Rational { num: 10, den: 1 });
    assert_eq!(size.width.as_ref().unwrap().unit(), &LengthUnit::Inch);
    assert!(size.height.is_none());
}

#[test]
fn size_rotate() {
    let size = parse_size("10in/.").unwrap();
    let rot = size.rotate_90();
    assert_eq!(rot.to_string(), "./10in");
}

#[test]
fn size_display() {
    let s = "10in/.";
    let size = parse_size(s).unwrap();
    assert_eq!(size.to_string(), s);

    let s = "15cm/10cm";
    let size = parse_size(s).unwrap();
    assert_eq!(size.to_string(), s);
}

#[test]
fn size_parse_errors() {
    assert!(parse_size("10").is_err());
    assert!(parse_size("./.").is_err());
    assert!(parse_size("1/2/3").is_err());
    assert!(parse_fix_size("10cm/.").is_err());
    assert!(parse_fix_size("10cm").is_err());
}

#[test]
fn size_rotate_involution() {
    let size = parse_size("10in/.").unwrap();
    assert_eq!(size.rotate_90().rotate_90().rotate_90().rotate_90(), size);

    let fix = parse_fix_size("15cm/10cm").unwrap();
    assert_eq!(fix.rotate_90().rotate_90().rotate_90().rotate_90(), fix);

    let b = parse_borders("1cm/2cm/3cm/4cm").unwrap();
    assert_eq!(b.rotate_90().rotate_90().rotate_90().rotate_90(), b);
    assert_eq!(b.rotate_90().rotate_270(), b);
}

#[test]
fn parse_1() {
    let borders: Borders = parse_borders("2cm").unwrap();

    assert_eq!(borders.to_string(), "2cm/2cm/2cm/2cm");
}

#[test]
fn parse_2() {
    let borders: Borders = parse_borders("1cm/2cm").unwrap();

    assert_eq!(borders.to_string(), "1cm/2cm/1cm/2cm");
}

#[test]
fn parse_4() {
    let s = "1cm/2cm/3cm/4cm";
    let borders: Borders = parse_borders(s).unwrap();

    assert_eq!(borders.to_string(), s);
}

#[test]
fn border_rotate() {
    let borders: Borders = parse_borders("1cm/2cm/3cm/4cm").unwrap();
    let rot = borders.rotate_90();

    assert_eq!(rot.to_string(), "4cm/1cm/2cm/3cm");
}

#[test]
fn border_parse_errors() {
    assert!(parse_borders("1cm/2cm/3cm").is_err());
    assert!(parse_borders("1cm/2cm/3cm/4cm/5cm").is_err());
    assert!(parse_borders("x").is_err());
}

#[test]
fn border_px_conversion() {
    let b = parse_borders("1in/2in").unwrap();
    let px = b.to_px(300);
    assert_eq!(px.top().value(), Rational { num: 300, den: 1 });
    assert_eq!(px.right().value(), Rational { num: 600, den: 1 });
    assert_eq!(px.bottom().value(), Rational { num: 300, den: 1 });
    assert_eq!(px.left().value(), Rational { num: 600, den: 1 });
}

#[test]
fn parse_scale() {
    let scale = scale_from_str("50%/100%").unwrap();

    assert_eq!(scale.width(), Rational { num: 1, den: 2 });
    assert_eq!(scale.height(), Rational { num: 1, den: 1 });
}

#[test]
fn parse_scale_forms() {
    let scale = scale_from_str("0.5").unwrap();
    assert_eq!(scale.width(), Rational { num: 1, den: 2 });
    assert_eq!(scale.height(), Rational { num: 1, den: 2 });

    let scale = scale_from_str("./20%").unwrap();
    assert_eq!(scale.width(), Rational { num: 1, den: 5 });
    assert_eq!(scale.height(), Rational { num: 1, den: 5 });

    assert!(scale_from_str(".").is_err());
    assert!(scale_from_str("././.").is_err());
    assert!(scale_from_str("%").is_err());
    assert!(scale_from_str("0").is_err());
    assert!(scale_from_str("-0.5").is_err());
}

#[test]
fn fix_size_px() {
    let f = FixSize::px(1800, 1200);
    assert_eq!(f.width().value(), Rational { num: 1800, den: 1 });
    assert_eq!(f.height().value(), Rational { num: 1200, den: 1 });
    assert_eq!(f.to_string(), "1800px/1200px");
}

#[test]
fn unit_names() {
    assert_eq!(parse_unit("px").unwrap(), LengthUnit::Px);
    assert_eq!(parse_unit("cm").unwrap(), LengthUnit::Cm);
    assert_eq!(parse_unit("mm").unwrap(), LengthUnit::Mm);
    assert_eq!(parse_unit("in").unwrap(), LengthUnit::Inch);
    assert!(parse_unit("m").is_err());
    assert!(parse_unit("inch").is_err());
}

#[test]
fn scale_modes() {
    assert_eq!(parse_scale_mode("keep").unwrap(), ScaleMode::Keep);
    assert_eq!(parse_scale_mode("fill").unwrap(), ScaleMode::Fill);
    assert_eq!(parse_scale_mode("crop").unwrap(), ScaleMode::Crop);
    assert_eq!(parse_scale_mode("stretch").unwrap(), ScaleMode::Stretch);
    assert!(parse_scale_mode("zoom").is_err());
}

#[test]
fn size_constructor_needs_a_dimension() {
    assert!(Size::new(None, None).is_err());
    let l = length_from_str("5cm").unwrap();
    assert!(Size::new(Some(l), None).is_ok());
}

#[test]
fn errors_carry_the_offending_input() {
    // Every parse error names the input it choked on, next to the grammar.
    match parse_unit("zz") {
        Err(e) => assert!(e.0.contains("zz") && e.0.contains("px|cm|mm|in")),
        Ok(_) => panic!("expected an error"),
    }
    match length_from_str("5xy") {
        Err(e) => assert!(e.0.contains("5xy")),
        Ok(_) => panic!("expected an error"),
    }
    match parse_size("1/2/3") {
        Err(e) => assert!(e.0.contains("1/2/3")),
        Ok(_) => panic!("expected an error"),
    }
    match parse_borders("1cm/x") {
        Err(e) => assert!(e.0.contains("1cm/x")),
        Ok(_) => panic!("expected an error"),
    }
    match scale_from_str("-5%") {
        Err(e) => assert!(e.0.contains("-5%")),
        Ok(_) => panic!("expected an error"),
    }
    match parse_scale_mode("zoom") {
        Err(e) => assert!(e.0.contains("zoom") && e.0.contains("keep|fill|crop|stretch")),
        Ok(_) => panic!("expected an error"),
    }
}

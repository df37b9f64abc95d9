//! Tests for the box-model layout solver and the named print formats.

use print_prep::layout::{check_constraints, solve_layout, LayoutConstraints};
use print_prep::parse::{parse_borders, parse_fix_size, parse_size};
use print_prep::rational::Rational;
use print_prep::units::format::to_print_format;
use print_prep::units::length::LengthUnit;
use print_prep::units::size::Size;

#[test]
fn print_formats() {
    let size = parse_size("15cm/10cm").unwrap();
    let format = to_print_format(&size).unwrap();

    assert_eq!(format.to_string(), "6in/4in".to_string());
}

#[test]
fn print_formats_portrait() {
    let size = parse_size("10cm/15cm").unwrap();
    let format = to_print_format(&size).unwrap();
    assert_eq!(format.to_string(), "4in/6in");

    let size = parse_size("21cm/15cm").unwrap();
    let format = to_print_format(&size).unwrap();
    assert_eq!(format.to_string(), "8.5in/6in");
}

#[test]
fn print_formats_unknown_unchanged() {
    let size = parse_size("12cm/9cm").unwrap();
    let format = to_print_format(&size).unwrap();
    assert_eq!(format, size);
}

#[test]
fn print_formats_missing_dimension() {
    let size = parse_size("15cm/.").unwrap();
    assert!(to_print_format(&size).is_err());
}

fn constraints(
    image_size: Option<&str>,
    framed_size: Option<&str>,
    padding: Option<&str>,
    margins: Option<&str>,
) -> LayoutConstraints {
    LayoutConstraints {
        image_size: image_size.map(|s| parse_fix_size(s).unwrap()),
        framed_size: framed_size.map(|s| parse_fix_size(s).unwrap()),
        padding: padding.map(|s| parse_borders(s).unwrap()),
        margins: margins.map(|s| parse_borders(s).unwrap()),
    }
}

#[test]
fn arity_image_size_and_padding_ok() {
    let c = constraints(Some("1200px/800px"), None, Some("20px"), None);
    assert!(check_constraints(&c).is_ok());
}

#[test]
fn arity_image_size_and_margins_ok() {
    let c = constraints(Some("1200px/800px"), None, None, Some("30px"));
    assert!(check_constraints(&c).is_ok());
}

#[test]
fn arity_same_bracket_fails() {
    let c = constraints(Some("1200px/800px"), Some("1300px/900px"), None, None);
    assert!(check_constraints(&c).is_err());
}

#[test]
fn arity_framed_size_and_margins_fails() {
    let c = constraints(None, Some("1300px/900px"), None, Some("30px"));
    assert!(check_constraints(&c).is_err());
}

#[test]
fn arity_single_constraint_fails() {
    let c = constraints(Some("1200px/800px"), None, None, None);
    assert!(check_constraints(&c).is_err());
}

/// The full scenario: a 4:3 photo on a nominal 15 cm by 10 cm print at
/// 300 dpi, with a 1200 px by 800 px image box and 20 px of padding.
#[test]
fn solve_standard_format() {
    // Named-format resolution: 15cm/10cm really is 6in/4in.
    let format = parse_size("15cm/10cm").unwrap();
    let exact = to_print_format(&format).unwrap();
    assert_eq!(exact.to_string(), "6in/4in");

    // 6in/4in at 300 dpi is 1800 by 1200 pixels.
    let canvas = Size {
        width: exact.width,
        height: exact.height,
    };
    let w = canvas.width.unwrap().to_px(300);
    let h = canvas.height.unwrap().to_px(300);
    assert_eq!(w.value(), Rational { num: 1800, den: 1 });
    assert_eq!(h.value(), Rational { num: 1200, den: 1 });

    let canvas_px = print_prep::units::size::FixSize::px(1800, 1200);
    let c = constraints(Some("1200px/800px"), None, Some("20px"), None);
    let res = solve_layout(&canvas_px, 4000, 3000, &c, false, 300).unwrap();

    // The photo keeps its 4:3 ratio inside the 1200 by 800 box.
    assert_eq!(res.image.width.value, Rational { num: 1067, den: 1 });
    assert_eq!(res.image.height.value, Rational { num: 800, den: 1 });

    // Framed: photo plus padding.
    assert_eq!(res.framed.width.value, Rational { num: 1107, den: 1 });
    assert_eq!(res.framed.height.value, Rational { num: 840, den: 1 });

    // Padding as given.
    assert_eq!(res.padding.top.value, Rational { num: 20, den: 1 });
    assert_eq!(res.padding.left.value, Rational { num: 20, den: 1 });

    // Margins: (1800 - 1107) / 2 = 346.5, rounded up to 347, and
    // (1200 - 840) / 2 = 180 exactly.
    assert_eq!(res.margins.left.value, Rational { num: 347, den: 1 });
    assert_eq!(res.margins.right.value, Rational { num: 347, den: 1 });
    assert_eq!(res.margins.top.value, Rational { num: 180, den: 1 });
    assert_eq!(res.margins.bottom.value, Rational { num: 180, den: 1 });
}

#[test]
fn solve_framed_size_and_padding() {
    let canvas = print_prep::units::size::FixSize::px(1800, 1200);
    let c = constraints(None, Some("1500px/900px"), Some("50px"), None);
    let res = solve_layout(&canvas, 3000, 1800, &c, false, 300).unwrap();

    // The framed-size constraint doubles as the photo bound; the photo is
    // wider (5:3) than the bound (5:3), so it fills it exactly.
    assert_eq!(res.image.width.value, Rational { num: 1500, den: 1 });
    assert_eq!(res.image.height.value, Rational { num: 900, den: 1 });
    assert_eq!(res.framed.width.value, Rational { num: 1600, den: 1 });
    assert_eq!(res.framed.height.value, Rational { num: 1000, den: 1 });
    assert_eq!(res.margins.left.value, Rational { num: 100, den: 1 });
    assert_eq!(res.margins.top.value, Rational { num: 100, den: 1 });
}

#[test]
fn solve_image_size_and_margins() {
    let canvas = print_prep::units::size::FixSize::px(1000, 800);
    let c = constraints(Some("600px/400px"), None, None, Some("100px"));
    let res = solve_layout(&canvas, 3000, 2000, &c, false, 300).unwrap();

    // The maximal photo box is the image-size constraint; 3:2 photo in a
    // 3:2 box fills it.
    assert_eq!(res.image.width.value, Rational { num: 600, den: 1 });
    assert_eq!(res.image.height.value, Rational { num: 400, den: 1 });

    // Padding is derived: framed box is the canvas less the margins,
    // 800 by 600; the gap to the photo is split evenly per axis.
    assert_eq!(res.padding.left.value, Rational { num: 100, den: 1 });
    assert_eq!(res.padding.top.value, Rational { num: 100, den: 1 });
    assert_eq!(res.framed.width.value, Rational { num: 800, den: 1 });
    assert_eq!(res.framed.height.value, Rational { num: 600, den: 1 });
}

#[test]
fn solve_rotates_portrait_photo() {
    // A portrait photo on a landscape canvas: the canvas is used rotated,
    // so the solved sizes swap axes.
    let canvas = print_prep::units::size::FixSize::px(1800, 1200);
    let c = constraints(Some("1200px/800px"), None, Some("20px"), None);
    let res = solve_layout(&canvas, 3000, 4000, &c, false, 300).unwrap();

    // The constraints rotate with the canvas: the photo box becomes
    // 800 by 1200, and the 3:4 photo fills its width.
    assert_eq!(res.image.width.value, Rational { num: 800, den: 1 });
    assert_eq!(res.image.height.value, Rational { num: 1067, den: 1 });
}

#[test]
fn solve_no_rotation_flag() {
    let canvas = print_prep::units::size::FixSize::px(1800, 1200);
    let c = constraints(Some("1200px/800px"), None, Some("20px"), None);
    let res = solve_layout(&canvas, 3000, 4000, &c, true, 300).unwrap();

    // Rotation suppressed: the photo is fitted as-is, width-limited by its
    // 3:4 ratio: height 800 would need width 600, width 1200 needs height
    // 1600; the height limits: 800, width 600.
    assert_eq!(res.image.width.value, Rational { num: 600, den: 1 });
    assert_eq!(res.image.height.value, Rational { num: 800, den: 1 });
}

#[test]
fn solve_arity_error() {
    let canvas = print_prep::units::size::FixSize::px(1800, 1200);
    let c = constraints(None, Some("1300px/900px"), None, Some("30px"));
    assert!(solve_layout(&canvas, 4000, 3000, &c, false, 300).is_err());
}

#[test]
fn solve_box_model_consistency() {
    let canvas = print_prep::units::size::FixSize::px(1800, 1200);
    let c = constraints(Some("1234px/567px"), None, Some("13px/7px"), None);
    let res = solve_layout(&canvas, 4000, 3000, &c, false, 300).unwrap();

    let iw = res.image.width.value.num;
    let ih = res.image.height.value.num;
    let fw = res.framed.width.value.num;
    let fh = res.framed.height.value.num;
    let pl = res.padding.left.value.num;
    let pr = res.padding.right.value.num;
    let pt = res.padding.top.value.num;
    let pb = res.padding.bottom.value.num;
    let ml = res.margins.left.value.num;
    let mr = res.margins.right.value.num;
    let mt = res.margins.top.value.num;
    let mb = res.margins.bottom.value.num;

    // Exact box-model identities.
    assert_eq!(fw, iw + pl + pr);
    assert_eq!(fh, ih + pt + pb);
    // Canvas reproduced within one pixel of rounding.
    assert!((1800 - (ml + fw + mr)).abs() <= 1);
    assert!((1200 - (mt + fh + mb)).abs() <= 1);
    // The photo touches its box on at least one axis and keeps 4:3.
    assert!(iw <= 1234 && ih <= 567);
    assert!(iw == 1234 || ih == 567);
    assert!((ih * 4000 - iw * 3000).abs() * 2 <= 4000);
}

#[test]
fn unit_aware_constraints() {
    // Constraints in physical units are converted at the given resolution.
    let canvas = print_prep::units::size::FixSize::px(1800, 1200);
    let c = constraints(Some("4in/2in"), None, Some("0.1in"), None);
    let res = solve_layout(&canvas, 3000, 1500, &c, false, 300).unwrap();

    assert_eq!(res.image.width.value, Rational { num: 1200, den: 1 });
    assert_eq!(res.image.height.value, Rational { num: 600, den: 1 });
    assert_eq!(res.padding.top.value, Rational { num: 30, den: 1 });
}

#[test]
fn unit_kept_on_identity_conversion() {
    let l = print_prep::parse::parse_length("5cm").unwrap();
    let same = l.to(&LengthUnit::Cm, 300);
    assert_eq!(same, l);
    // Identity holds for any resolution.
    let same = l.to(&LengthUnit::Cm, 72);
    assert_eq!(same, l);
}

#[test]
fn print_format_error_names_the_size() {
    let size = parse_size("15cm/.").unwrap();
    match to_print_format(&size) {
        Err(e) => assert!(e.0.contains("15cm/.")),
        Ok(_) => panic!("expected an error"),
    }
}

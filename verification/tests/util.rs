//! Tests for the path, color, scale-resolution, EXIF-table and
//! command-line helpers.

use print_prep::cli::{parse_filter_type, split_cli_args, FilterType};
use print_prep::parse::{parse_scale, parse_size};
use print_prep::path::PathUtil;
use print_prep::rational::Rational;
use print_prep::units::color::{parse_color, parse_u8, Color};
use print_prep::units::exif::{create_exif_abbreviations, swap_map};
use print_prep::units::scale::{resolve_scale_size, ScaleMode};

#[test]
fn extension() {
    let ext = PathUtil::extension("C:/a/b/abc.jpg");

    assert_eq!(ext.unwrap(), "jpg")
}

#[test]
fn extension_lowercases() {
    assert_eq!(PathUtil::extension("photo.JPG").unwrap(), "jpg");
    assert_eq!(PathUtil::extension("archive.tar.GZ").unwrap(), "gz");
    assert!(PathUtil::extension("no_extension").is_none());
    assert!(PathUtil::extension(".gitignore").is_none());
    assert!(PathUtil::extension("dir/").is_none());
}

#[test]
fn stem_and_name() {
    assert_eq!(PathUtil::name("a/b/photo.jpg").unwrap(), "photo.jpg");
    assert_eq!(PathUtil::stem("a/b/photo.jpg").unwrap(), "photo");
    assert_eq!(PathUtil::stem("a\\b\\photo.jpg").unwrap(), "photo");
    assert_eq!(PathUtil::stem("noext").unwrap(), "noext");
    assert!(PathUtil::name("").is_none());
}

#[test]
fn out_path_replaces_stem() {
    let out = PathUtil::out_path("in/photo.jpg", "out/*-print.jpg").unwrap();
    assert_eq!(out, "out/photo-print.jpg");
}

#[test]
fn color_new_and_channels() {
    let c = Color::new(1, 2, 3, 4);
    assert_eq!(c.channels(), &[1, 2, 3, 4]);
}

#[test]
fn color_parsing() {
    assert_eq!(parse_color("128").unwrap(), Color::new(128, 128, 128, 255));
    assert_eq!(parse_color("10/20/30").unwrap(), Color::new(10, 20, 30, 255));
    assert_eq!(parse_color("10/20/30/40").unwrap(), Color::new(10, 20, 30, 40));
    assert!(parse_color("10/20").is_err());
    assert!(parse_color("256").is_err());
    assert!(parse_color("red/0/0").is_err());
    assert_eq!(parse_u8("007").unwrap(), 7);
    assert!(parse_u8("-1").is_err());
}

#[test]
fn resolve_scale() {
    let scale = parse_scale("50%").unwrap();
    let r = resolve_scale_size(&None, &Some(scale), 256, 100, ScaleMode::Stretch, 300).unwrap();
    assert_eq!(r, (128, 50, ScaleMode::Stretch));
}

#[test]
fn resolve_size_with_missing_dimension() {
    let size = parse_size("100px/.").unwrap();
    let r = resolve_scale_size(&Some(size), &None, 200, 100, ScaleMode::Stretch, 300).unwrap();
    // The missing height comes from the aspect ratio, and the mode falls
    // back to Keep.
    assert_eq!(r, (100, 50, ScaleMode::Keep));
}

#[test]
fn resolve_size_physical_units() {
    let size = parse_size("2in/1in").unwrap();
    let r = resolve_scale_size(&Some(size), &None, 600, 300, ScaleMode::Crop, 300).unwrap();
    assert_eq!(r, (600, 300, ScaleMode::Crop));
}

#[test]
fn resolve_requires_exactly_one() {
    let size = parse_size("100px/.").unwrap();
    let scale = parse_scale("50%").unwrap();
    assert!(resolve_scale_size(&Some(size), &Some(scale), 10, 10, ScaleMode::Keep, 300).is_err());
    assert!(resolve_scale_size(&None, &None, 10, 10, ScaleMode::Keep, 300).is_err());
}

#[test]
fn scale_accessors() {
    let scale = parse_scale("0.25/0.75").unwrap();
    assert_eq!(scale.width(), Rational { num: 1, den: 4 });
    assert_eq!(scale.height(), Rational { num: 3, den: 4 });
}

#[test]
fn exif_abbreviations() {
    let table = create_exif_abbreviations();
    assert_eq!(table.len(), 16);
    assert_eq!(table[0].0, "Mod");
    assert_eq!(table[0].1, "Model");

    let swapped = swap_map(table);
    assert_eq!(swapped.len(), 16);
    assert_eq!(swapped[0].0, "Model");
    assert_eq!(swapped[0].1, "Mod");
}

#[test]
fn filter_types() {
    assert_eq!(parse_filter_type("nearest").unwrap(), FilterType::Nearest);
    assert_eq!(parse_filter_type("linear").unwrap(), FilterType::Triangle);
    assert_eq!(parse_filter_type("cubic").unwrap(), FilterType::CatmullRom);
    assert_eq!(parse_filter_type("gauss").unwrap(), FilterType::CatmullRom);
    assert_eq!(parse_filter_type("lanczos").unwrap(), FilterType::Lanczos3);
    assert!(parse_filter_type("box").is_err());
}

#[test]
fn cli_splitting() {
    let args = split_cli_args("scale --size \"10cm/5cm\"  --dpi 300");
    let texts: Vec<&str> = args.iter().map(|s| s.as_str()).collect();
    assert_eq!(texts, vec!["scale", "--size", "10cm/5cm", "--dpi", "300"]);
}

#[test]
fn filter_and_color_errors_carry_the_input() {
    match parse_filter_type("box") {
        Err(e) => assert!(e.0.contains("box") && e.0.contains("nearest|linear|cubic|gauss|lanczos")),
        Ok(_) => panic!("expected an error"),
    }
    match parse_color("10/999/10") {
        Err(e) => assert!(e.0.contains("10/999/10")),
        Ok(_) => panic!("expected an error"),
    }
    match parse_u8("300") {
        Err(e) => assert!(e.0.contains("300")),
        Ok(_) => panic!("expected an error"),
    }
}

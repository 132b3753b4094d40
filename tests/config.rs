use vtracer::config::{Config, ConverterConfig, RawArgs};
use vtracer::numeral::{scan_decimal_segment, scan_integer};
use vtracer::params::{
    check_integer, check_segment_length, ColorMode, SEGMENT_MAX_TENTHS, SEGMENT_MIN_TENTHS, ErrorKind, Field, Hierarchical, Preset,
    SimplifyMode,
};

fn some(s: &str) -> Option<String> {
    Some(s.to_string())
}

fn paths() -> RawArgs {
    RawArgs { input: some("in.png"), output: some("out.svg"), ..RawArgs::default() }
}

fn build(a: &RawArgs) -> ConverterConfig {
    Config::from_args(a).unwrap().into_converter_config()
}

fn kind_of(a: &RawArgs) -> (ErrorKind, Field, String) {
    let e = Config::from_args(a).unwrap_err();
    (e.kind, e.field, e.value)
}

#[test]
fn integer_bounds_of_each_field() {
    let cases: [(Field, &str, &str, &str, &str); 5] = [
        (Field::FilterSpeckle, "1", "16", "0", "17"),
        (Field::ColorPrecision, "1", "8", "0", "9"),
        (Field::GradientStep, "0", "255", "-1", "256"),
        (Field::CornerThreshold, "0", "180", "-1", "181"),
        (Field::SpliceThreshold, "0", "180", "-1", "181"),
    ];
    for (f, lo, hi, below, above) in cases {
        assert!(check_integer(f, lo).is_ok());
        assert!(check_integer(f, hi).is_ok());
        assert_eq!(check_integer(f, below).unwrap_err().kind, ErrorKind::OutOfRange);
        assert_eq!(check_integer(f, above).unwrap_err().kind, ErrorKind::OutOfRange);
    }
    assert_eq!(check_integer(Field::FilterSpeckle, "16").unwrap(), 16);
    assert_eq!(check_integer(Field::GradientStep, "0").unwrap(), 0);
}

#[test]
fn unsigned_fields_reject_a_minus_sign() {
    assert_eq!(check_integer(Field::FilterSpeckle, "-1").unwrap_err().kind, ErrorKind::NonNumericValue);
    assert_eq!(check_integer(Field::PathPrecision, "-0").unwrap_err().kind, ErrorKind::NonNumericValue);
    assert_eq!(check_integer(Field::PathPrecision, "4294967295").unwrap(), 4294967295);
    assert_eq!(
        check_integer(Field::PathPrecision, "4294967296").unwrap_err().kind,
        ErrorKind::NonNumericValue
    );
    assert_eq!(check_integer(Field::CornerThreshold, "-0").unwrap(), 0);
    assert_eq!(check_integer(Field::CornerThreshold, "+90").unwrap(), 90);
}

#[test]
fn values_beyond_the_type_are_not_numeric() {
    assert_eq!(
        check_integer(Field::CornerThreshold, "2147483648").unwrap_err().kind,
        ErrorKind::NonNumericValue
    );
    assert_eq!(
        check_integer(Field::CornerThreshold, "2147483647").unwrap_err().kind,
        ErrorKind::OutOfRange
    );
    assert_eq!(
        check_integer(Field::SpliceThreshold, "-2147483648").unwrap_err().kind,
        ErrorKind::OutOfRange
    );
    assert_eq!(
        check_integer(Field::SpliceThreshold, "-2147483649").unwrap_err().kind,
        ErrorKind::NonNumericValue
    );
    assert_eq!(
        check_integer(Field::FilterSpeckle, "99999999999999999999999999").unwrap_err().kind,
        ErrorKind::NonNumericValue
    );
    assert_eq!(
        check_integer(Field::FilterSpeckle, "18446744073709551615").unwrap_err().kind,
        ErrorKind::OutOfRange
    );
}

#[test]
fn segment_length_bounds() {
    assert!(check_segment_length("3.5").is_ok());
    assert!(check_segment_length("10.0").is_ok());
    assert!(check_segment_length("10").is_ok());
    assert!(check_segment_length("4").is_ok());
    assert!(check_segment_length("+7.25").is_ok());
    assert!(check_segment_length(".5e").is_err());
    assert_eq!(check_segment_length(" 4.5 ").unwrap(), "4.5");
    assert_eq!(check_segment_length("3.4999").unwrap_err().kind, ErrorKind::OutOfRange);
    assert_eq!(check_segment_length("10.0001").unwrap_err().kind, ErrorKind::OutOfRange);
    assert_eq!(check_segment_length("-5").unwrap_err().kind, ErrorKind::OutOfRange);
    assert_eq!(check_segment_length("abc").unwrap_err().kind, ErrorKind::NonNumericValue);
    assert_eq!(check_segment_length(".").unwrap_err().kind, ErrorKind::NonNumericValue);
    assert_eq!(check_segment_length("").unwrap_err().kind, ErrorKind::NonNumericValue);
    assert_eq!(check_segment_length("4.0.0").unwrap_err().kind, ErrorKind::NonNumericValue);
}

#[test]
fn scanners_on_plain_values() {
    assert_eq!(scan_integer("42", true), Some((false, 42)));
    assert_eq!(scan_integer("-7", true), Some((true, 7)));
    assert_eq!(scan_integer("-7", false), None);
    assert_eq!(scan_integer("+", true), None);
    assert_eq!(scan_integer("", true), None);
    assert_eq!(scan_integer("1 2", true), None);
    assert_eq!(scan_decimal_segment("3.50"), Some(true));
    assert_eq!(scan_decimal_segment("3.49"), Some(false));
    assert_eq!(scan_decimal_segment("0010.000"), Some(true));
    assert_eq!(scan_decimal_segment("x"), None);
}

#[test]
fn derive_is_deterministic() {
    let a = build(&paths());
    let b = build(&paths());
    assert_eq!(a.filter_speckle_area, b.filter_speckle_area);
    assert_eq!(a.color_precision_loss, b.color_precision_loss);
    assert_eq!(a.corner_threshold_deg, b.corner_threshold_deg);
    assert_eq!(a.splice_threshold_deg, b.splice_threshold_deg);
    assert_eq!(a.length_threshold, b.length_threshold);
    assert_eq!(a.path_precision, b.path_precision);
}

#[test]
fn speckle_area_is_the_square() {
    assert_eq!(build(&paths()).filter_speckle_area, 16);
    for (text, area) in [("1", 1usize), ("7", 49), ("16", 256)] {
        let a = RawArgs { filter_speckle: some(text), ..paths() };
        assert_eq!(build(&a).filter_speckle_area, area);
    }
}

#[test]
fn precision_loss_is_eight_minus_precision() {
    for p in 1..=8i32 {
        let a = RawArgs { color_precision: Some(p.to_string()), ..paths() };
        let c = build(&a);
        assert_eq!(c.color_precision_loss, 8 - p);
        assert!((0..=7).contains(&c.color_precision_loss));
    }
}

#[test]
fn override_wins_over_photo_preset() {
    let a = RawArgs { preset: some("photo"), color_precision: some("3"), ..paths() };
    let c = build(&a);
    assert_eq!(c.color_precision_loss, 5);
    assert_eq!(c.filter_speckle_area, 100);
    assert_eq!(c.layer_difference, 48);
    assert_eq!(c.corner_threshold_deg, 180);
}

#[test]
fn bw_preset_end_to_end() {
    let a = RawArgs { preset: some("bw"), ..paths() };
    let c = build(&a);
    assert_eq!(c.color_mode, ColorMode::Binary);
    assert_eq!(c.filter_speckle_area, 16);
    assert_eq!(c.color_precision_loss, 2);
    assert_eq!(c.corner_threshold_deg, 60);
    assert_eq!(c.splice_threshold_deg, 45);
    assert_eq!(c.layer_difference, 16);
    assert_eq!(c.length_threshold, "4.0");
    assert_eq!(c.input_path, "in.png");
    assert_eq!(c.output_path, "out.svg");
}

#[test]
fn poster_preset_replaces_defaults() {
    let c = Config::from_preset(Preset::Poster, "a", "b");
    assert_eq!(c.color_mode, ColorMode::Color);
    assert_eq!(c.color_precision, 8);
    assert_eq!(c.filter_speckle, 4);
    assert_eq!(c.input_path, "a");
    let d = Config::default();
    assert_eq!(d.color_precision, 6);
    assert_eq!(d.mode, SimplifyMode::Spline);
    assert_eq!(d.path_precision, Some(8));
}

#[test]
fn missing_paths_come_first() {
    let a = RawArgs { filter_speckle: some("foo"), preset: some("nope"), ..RawArgs::default() };
    assert_eq!(kind_of(&a), (ErrorKind::MissingRequiredField, Field::Input, String::new()));
    let b = RawArgs { input: some("x"), ..RawArgs::default() };
    assert_eq!(kind_of(&b), (ErrorKind::MissingRequiredField, Field::Output, String::new()));
}

#[test]
fn non_numeric_speckle() {
    let a = RawArgs { filter_speckle: some("foo"), ..paths() };
    assert_eq!(kind_of(&a), (ErrorKind::NonNumericValue, Field::FilterSpeckle, "foo".to_string()));
}

#[test]
fn out_of_range_and_unknown_tokens() {
    let a = RawArgs { corner_threshold: some("200"), ..paths() };
    assert_eq!(kind_of(&a), (ErrorKind::OutOfRange, Field::CornerThreshold, "200".to_string()));
    let b = RawArgs { preset: some("Photo"), ..paths() };
    assert_eq!(kind_of(&b), (ErrorKind::UnrecognizedEnumToken, Field::Preset, "Photo".to_string()));
    let c = RawArgs { hierarchical: some("layered"), ..paths() };
    assert_eq!(kind_of(&c).0, ErrorKind::UnrecognizedEnumToken);
    let d = RawArgs { mode: some("bezier"), ..paths() };
    assert_eq!(kind_of(&d), (ErrorKind::UnrecognizedEnumToken, Field::Mode, "bezier".to_string()));
    let e = RawArgs { segment_length: some("11"), ..paths() };
    assert_eq!(kind_of(&e), (ErrorKind::OutOfRange, Field::SegmentLength, "11".to_string()));
}

#[test]
fn first_rejected_key_is_reported() {
    let a = RawArgs { color_precision: some("0"), filter_speckle: some("x"), ..paths() };
    assert_eq!(kind_of(&a).1, Field::FilterSpeckle);
}

#[test]
fn values_are_trimmed() {
    let a = RawArgs {
        filter_speckle: some(" 8 "),
        segment_length: some("\t5.5\n"),
        mode: some("  pixel "),
        color_mode: some(" bw "),
        ..paths()
    };
    let c = build(&a);
    assert_eq!(c.filter_speckle_area, 64);
    assert_eq!(c.length_threshold, "5.5");
    assert_eq!(c.mode, SimplifyMode::Pixel);
    assert_eq!(c.color_mode, ColorMode::Binary);
}

#[test]
fn enum_tokens() {
    assert_eq!(ColorMode::parse("BW"), ColorMode::Binary);
    assert_eq!(ColorMode::parse("Bw"), ColorMode::Color);
    assert_eq!(ColorMode::parse("color"), ColorMode::Color);
    assert_eq!(Hierarchical::parse("CutOut").unwrap(), Hierarchical::Cutout);
    assert_eq!(Hierarchical::parse("stacked").unwrap(), Hierarchical::Stacked);
    assert_eq!(SimplifyMode::parse("POLYGON").unwrap(), SimplifyMode::Polygon);
    assert_eq!(SimplifyMode::parse("none").unwrap(), SimplifyMode::Pixel);
    assert_eq!(SimplifyMode::parse("NONE").unwrap(), SimplifyMode::Pixel);
    let e = SimplifyMode::parse(" polygon ").unwrap_err();
    assert_eq!((e.kind, e.field, e.value), (ErrorKind::UnrecognizedEnumToken, Field::Mode, " polygon ".to_string()));
    assert!(SimplifyMode::parse("curvy").is_err());
    assert_eq!(ColorMode::from_name("Binary").unwrap(), ColorMode::Binary);
    assert_eq!(ColorMode::from_name("COLOR").unwrap(), ColorMode::Color);
    let e = ColorMode::from_name("bw").unwrap_err();
    assert_eq!((e.kind, e.field, e.value), (ErrorKind::UnrecognizedEnumToken, Field::ColorMode, "bw".to_string()));
    assert_eq!(Preset::parse("poster").unwrap(), Preset::Poster);
}

#[test]
fn path_precision_override() {
    let a = RawArgs { path_precision: some("0"), hierarchical: some("cutout"), ..paths() };
    let c = build(&a);
    assert_eq!(c.path_precision, Some(0));
    assert_eq!(c.hierarchical, Hierarchical::Cutout);
    let b = RawArgs { path_precision: some("3.5"), ..paths() };
    assert_eq!(kind_of(&b).0, ErrorKind::NonNumericValue);
}

#[test]
fn segment_length_with_exponent() {
    for ok in ["5e0", "1E1", "35e-1", "0.01e3", "100e-1", "+4.0E+0", "0.0000035e6"] {
        assert!(check_segment_length(ok).is_ok(), "{}", ok);
    }
    for out in ["3.4e0", "1e2", "1.1e1", "9e-1", "0e5", "1e99999999999999999999999", "1e-99999999999999999999", "-5e0", "inf", "-Infinity", "+INF"] {
        assert_eq!(check_segment_length(out).unwrap_err().kind, ErrorKind::OutOfRange, "{}", out);
    }
    for bad in ["5e", "e5", "5e+", "5e1.0", "5ee1", ".e1", "NaN", "infinit", "++inf"] {
        assert_eq!(check_segment_length(bad).unwrap_err().kind, ErrorKind::NonNumericValue, "{}", bad);
    }
    let m = RawArgs { mode: some(" polygon "), ..paths() };
    assert_eq!(build(&m).mode, SimplifyMode::Polygon);
    let a = RawArgs { segment_length: some("5e0"), ..paths() };
    assert_eq!(build(&a).length_threshold, "5e0");
}

#[test]
fn errors_carry_the_raw_text() {
    let a = RawArgs { mode: some(" bezier "), ..paths() };
    assert_eq!(kind_of(&a), (ErrorKind::UnrecognizedEnumToken, Field::Mode, " bezier ".to_string()));
    let b = RawArgs { filter_speckle: some(" 40 "), ..paths() };
    assert_eq!(kind_of(&b), (ErrorKind::OutOfRange, Field::FilterSpeckle, " 40 ".to_string()));
    assert_eq!(Field::FilterSpeckle.bounds(), (1, 16));
    assert_eq!(Config::from_args(&b).unwrap_err().accepted_range_tenths(), Some((10, 160)));
    let c = RawArgs { segment_length: some("12"), ..paths() };
    assert_eq!(Config::from_args(&c).unwrap_err().accepted_range_tenths(), Some((35, 100)));
    let d = RawArgs { segment_length: some("x"), ..paths() };
    assert_eq!(Config::from_args(&d).unwrap_err().accepted_range_tenths(), None);
    assert_eq!((SEGMENT_MIN_TENTHS, SEGMENT_MAX_TENTHS), (35, 100));
}

#[test]
fn unicode_white_space_is_trimmed() {
    assert_eq!(check_integer(Field::ColorPrecision, "\u{3000}7\u{a0}").unwrap(), 7);
    assert_eq!(check_integer(Field::ColorPrecision, "\u{2003}\u{85}3\n").unwrap(), 3);
    assert_eq!(check_integer(Field::ColorPrecision, "\u{200b}3").unwrap_err().kind, ErrorKind::NonNumericValue);
}

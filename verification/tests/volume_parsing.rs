use soda_cooling::volume::{
    initial_volume, parse_volume_micro_ml, volume_m3_for_model, DEFAULT_VOLUME_MICRO_ML,
};

#[test]
fn empty_reply_defaults() {
    assert_eq!(parse_volume_micro_ml(b""), DEFAULT_VOLUME_MICRO_ML);
}

#[test]
fn non_numeric_reply_defaults() {
    assert_eq!(parse_volume_micro_ml(b"abc"), DEFAULT_VOLUME_MICRO_ML);
    assert_eq!(parse_volume_micro_ml(b"12x"), DEFAULT_VOLUME_MICRO_ML);
    assert_eq!(parse_volume_micro_ml(b"--5"), DEFAULT_VOLUME_MICRO_ML);
    assert_eq!(parse_volume_micro_ml(b"+5"), DEFAULT_VOLUME_MICRO_ML);
}

#[test]
fn whole_number_is_parsed() {
    assert_eq!(parse_volume_micro_ml(b"500"), 500_000_000);
}

#[test]
fn fractional_number_is_parsed() {
    assert_eq!(parse_volume_micro_ml(b"500.5"), 500_500_000);
}

#[test]
fn surrounding_whitespace_is_ignored() {
    assert_eq!(parse_volume_micro_ml(b" 500 \n"), 500_000_000);
    assert_eq!(parse_volume_micro_ml(b"\t330.0\r\n"), 330_000_000);
    assert_eq!(parse_volume_micro_ml(b"   "), DEFAULT_VOLUME_MICRO_ML);
}

#[test]
fn small_fractions_keep_micro_precision() {
    assert_eq!(parse_volume_micro_ml(b"0.5"), 500_000);
    assert_eq!(parse_volume_micro_ml(b"0.000001"), 1);
    assert_eq!(parse_volume_micro_ml(b"0.0000001"), 0);
}

#[test]
fn negative_numbers_are_taken_verbatim() {
    assert_eq!(parse_volume_micro_ml(b"-2"), -2_000_000);
    assert_eq!(parse_volume_micro_ml(b"-0.5"), -500_000);
    assert_eq!(parse_volume_micro_ml(b"-0"), 0);
}

#[test]
fn leading_zeros_are_rejected() {
    assert_eq!(parse_volume_micro_ml(b"007"), DEFAULT_VOLUME_MICRO_ML);
    assert_eq!(parse_volume_micro_ml(b"00"), DEFAULT_VOLUME_MICRO_ML);
    assert_eq!(parse_volume_micro_ml(b"0"), 0);
}

#[test]
fn incomplete_parts_are_rejected() {
    assert_eq!(parse_volume_micro_ml(b"1."), DEFAULT_VOLUME_MICRO_ML);
    assert_eq!(parse_volume_micro_ml(b".5"), DEFAULT_VOLUME_MICRO_ML);
    assert_eq!(parse_volume_micro_ml(b"1e"), DEFAULT_VOLUME_MICRO_ML);
    assert_eq!(parse_volume_micro_ml(b"1e+"), DEFAULT_VOLUME_MICRO_ML);
    assert_eq!(parse_volume_micro_ml(b"-"), DEFAULT_VOLUME_MICRO_ML);
}

#[test]
fn exponents_scale_the_value() {
    assert_eq!(parse_volume_micro_ml(b"5e2"), 500_000_000);
    assert_eq!(parse_volume_micro_ml(b"5E-1"), 500_000);
    assert_eq!(parse_volume_micro_ml(b"1.5e1"), 15_000_000);
}

#[test]
fn huge_values_clamp() {
    assert_eq!(parse_volume_micro_ml(b"1e30"), i64::MAX);
    assert_eq!(
        parse_volume_micro_ml(b"123456789012345678901234567890123456789"),
        i64::MAX
    );
    assert_eq!(parse_volume_micro_ml(b"-1e30"), -i64::MAX);
}

#[test]
fn tiny_values_vanish() {
    assert_eq!(parse_volume_micro_ml(b"1e-30"), 0);
    assert_eq!(parse_volume_micro_ml(b"0.0000000000000000000000000000001"), 0);
}

#[test]
fn no_prompt_means_default_volume() {
    assert_eq!(initial_volume(false, None), DEFAULT_VOLUME_MICRO_ML);
    assert_eq!(initial_volume(false, Some(b"999")), DEFAULT_VOLUME_MICRO_ML);
}

#[test]
fn prompted_volume_is_parsed() {
    assert_eq!(initial_volume(true, Some(b"500")), 500_000_000);
    assert_eq!(initial_volume(true, Some(b"")), DEFAULT_VOLUME_MICRO_ML);
    assert_eq!(initial_volume(true, None), DEFAULT_VOLUME_MICRO_ML);
}

#[test]
fn millilitres_convert_to_model_volume() {
    assert_eq!(volume_m3_for_model(330_000_000), Some(330));
    assert_eq!(volume_m3_for_model(1_000_000), Some(1));
    assert_eq!(volume_m3_for_model(999_999), None);
    assert_eq!(volume_m3_for_model(0), None);
    assert_eq!(volume_m3_for_model(-2_000_000), None);
    assert_eq!(volume_m3_for_model(i64::MAX), None);
}

use fbe::bits::render_binary32;
use fbe::bits::render_binary64;
use fbe::bits::render_hex32;
use fbe::bits::render_hex64;
use fbe::encode::enc_floats;
use fbe::encode::encode_one;
use fbe::encode::Width;

#[test]
fn test_fbe() {
    assert_eq!(
        "0 00000000 00000000000000000000000",
        enc_floats(["0f32"].to_vec(), false, false).unwrap()
    );
    assert_eq!(
        "0 01111111 00000000000000000000000",
        enc_floats(["1f32"].to_vec(), false, false).unwrap()
    );
    assert_eq!(
        "1 01111111 00000000000000000000000",
        enc_floats(["-1f32"].to_vec(), false, false).unwrap()
    );
    assert_eq!(
        "0 10000000 01000000000000000000000",
        enc_floats(["2.5f32"].to_vec(), false, false).unwrap()
    );
    assert_eq!(
        "0 11111111 00000000000000000000000",
        enc_floats(["inff32"].to_vec(), false, false).unwrap()
    );
    assert_eq!(
        "0 11111111 10000000000000000000000",
        enc_floats(["nanf32"].to_vec(), false, false).unwrap()
    );
}

#[test]
fn suffix_f64_and_no_suffix_select_64_bits() {
    let one = "0 01111111111 0000000000000000000000000000000000000000000000000000";
    assert_eq!(one, enc_floats(vec!["1f64"], false, false).unwrap());
    assert_eq!(one, enc_floats(vec!["1"], false, false).unwrap());
    assert_eq!(
        "1 10000000000 0100000000000000000000000000000000000000000000000000",
        enc_floats(vec!["-2.5"], false, false).unwrap()
    );
}

#[test]
fn hex_groups_of_eight_digits() {
    assert_eq!("40200000", enc_floats(vec!["2.5f32"], true, false).unwrap());
    assert_eq!("3ff00000 00000000", enc_floats(vec!["1f64"], true, false).unwrap());
    assert_eq!("40040000 00000000", enc_floats(vec!["2.5"], true, false).unwrap());
}

#[test]
fn prefix_echoes_the_parsed_value() {
    assert_eq!(
        "2.5: 0 10000000 01000000000000000000000",
        enc_floats(vec!["2.5f32"], false, true).unwrap()
    );
    assert_eq!("2.5: 40200000", enc_floats(vec!["2.5f32"], true, true).unwrap());
}

#[test]
fn batch_joins_lines_in_input_order() {
    assert_eq!(
        "0 01111111 00000000000000000000000\n0 10000000 01000000000000000000000",
        enc_floats(vec!["1f32", "2.5f32"], false, false).unwrap()
    );
}

#[test]
fn zero_and_negative_zero_differ_only_in_the_sign_bit() {
    let plus = enc_floats(vec!["0f32"], false, false).unwrap();
    let minus = enc_floats(vec!["-0f32"], false, false).unwrap();
    assert_eq!("0 00000000 00000000000000000000000", plus);
    assert_eq!("1 00000000 00000000000000000000000", minus);
    assert_eq!(&plus[1..], &minus[1..]);
    let plus64 = enc_floats(vec!["0"], false, false).unwrap();
    let minus64 = enc_floats(vec!["-0"], false, false).unwrap();
    assert_eq!(
        "0 00000000000 0000000000000000000000000000000000000000000000000000",
        plus64
    );
    assert_eq!(
        "1 00000000000 0000000000000000000000000000000000000000000000000000",
        minus64
    );
}

#[test]
fn infinities_have_all_one_exponent_and_zero_mantissa() {
    assert_eq!(
        "0 11111111 00000000000000000000000",
        enc_floats(vec!["inff32"], false, false).unwrap()
    );
    assert_eq!(
        "1 11111111 00000000000000000000000",
        enc_floats(vec!["-inff32"], false, false).unwrap()
    );
    assert_eq!(
        "0 11111111111 0000000000000000000000000000000000000000000000000000",
        enc_floats(vec!["inf"], false, false).unwrap()
    );
    assert_eq!(
        "1 11111111111 0000000000000000000000000000000000000000000000000000",
        enc_floats(vec!["-inff64"], false, false).unwrap()
    );
}

#[test]
fn nan_is_quiet_with_zero_sign() {
    assert_eq!(
        "0 11111111 10000000000000000000000",
        enc_floats(vec!["nanf32"], false, false).unwrap()
    );
    assert_eq!(
        "0 11111111111 1000000000000000000000000000000000000000000000000000",
        enc_floats(vec!["nan"], false, false).unwrap()
    );
}

#[test]
fn separators_are_ignored() {
    assert_eq!(
        enc_floats(vec!["1000f32"], false, false).unwrap(),
        enc_floats(vec!["1_000f32"], false, false).unwrap()
    );
    assert_eq!(
        enc_floats(vec!["1000.25"], true, false).unwrap(),
        enc_floats(vec!["1_0_0_0.2_5"], true, false).unwrap()
    );
}

#[test]
fn invalid_literal_names_the_literal_and_width() {
    let e = enc_floats(vec!["abcf32"], false, false).unwrap_err();
    assert_eq!("abcf32", e.literal);
    assert!(e.width == Width::W32);
    assert_eq!("expecting f32, but was abcf32", e.message());

    let e = enc_floats(vec!["abc"], false, false).unwrap_err();
    assert_eq!("abc", e.literal);
    assert!(e.width == Width::W64);
    assert_eq!("expecting f64, but was abc", e.message());

    let e = enc_floats(vec!["zf64"], false, false).unwrap_err();
    assert_eq!("zf64", e.literal);
    assert!(e.width == Width::W64);
    assert_eq!("expecting f64, but was zf64", e.message());
}

#[test]
fn batch_aborts_at_the_first_failing_literal() {
    let e = enc_floats(vec!["1f32", "abcf32", "2f32"], false, false).unwrap_err();
    assert_eq!("abcf32", e.literal);
    assert!(e.width == Width::W32);
}

#[test]
fn encode_one_matches_the_batch_of_one() {
    assert_eq!(
        enc_floats(vec!["2.5f32"], false, true).unwrap(),
        encode_one("2.5f32", false, true).unwrap()
    );
    let e = encode_one("nopef32", true, true).unwrap_err();
    assert_eq!("expecting f32, but was nopef32", e.message());
}

#[test]
fn rendered_layout_reverses_to_the_pattern() {
    let line = enc_floats(vec!["2.5f32"], false, false).unwrap();
    let digits: String = line.chars().filter(|c| *c != ' ').collect();
    assert_eq!(0x4020_0000, u32::from_str_radix(&digits, 2).unwrap());

    let line = enc_floats(vec!["2.5"], true, false).unwrap();
    let digits: String = line.chars().filter(|c| *c != ' ').collect();
    assert_eq!(0x4004_0000_0000_0000_u64, u64::from_str_radix(&digits, 16).unwrap());
}

#[test]
fn renderers_split_at_the_field_boundaries() {
    assert_eq!("0 10000000 01000000000000000000000", render_binary32(0x4020_0000));
    assert_eq!(
        "0 10000000000 0100000000000000000000000000000000000000000000000000",
        render_binary64(0x4004_0000_0000_0000)
    );
    assert_eq!("40200000", render_hex32(0x4020_0000));
    assert_eq!("40040000 00000000", render_hex64(0x4004_0000_0000_0000));
    assert_eq!("ffffffff ffffffff", render_hex64(u64::MAX));
    assert_eq!("00000000", render_hex32(0));
}

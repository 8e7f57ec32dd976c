use signature_gen::notation::{
    format_hash, format_limbs_as_hex, format_limbs_as_toml_value, parse_hash, parse_limbs,
};
use signature_gen::limbs::LIMB_BOUND;

#[test]
fn limbs_are_written_in_lower_case_hex() {
    assert_eq!(format_limbs_as_hex(&vec![0]), "0x0");
    assert_eq!(format_limbs_as_hex(&vec![255, 0, 4096]), "0xff, 0x0, 0x1000");
    assert_eq!(
        format_limbs_as_hex(&vec![0xabcdef0123456789abcdef01234567u128]),
        "0xabcdef0123456789abcdef01234567"
    );
    assert_eq!(format_limbs_as_hex(&vec![]), "");
    assert_eq!(format_limbs_as_hex(&vec![u128::MAX]), "0xffffffffffffffffffffffffffffffff");
}

#[test]
fn limbs_are_written_as_the_standard_formatter_writes_them() {
    let limbs = vec![0u128, 1, 15, 16, 0xdead_beef, LIMB_BOUND - 1, LIMB_BOUND];
    let mut expected = Vec::new();
    for limb in limbs.iter() {
        expected.push(format!("0x{:x}", limb));
    }
    assert_eq!(format_limbs_as_hex(&limbs), expected.join(", "));
    assert_eq!(format_limbs_as_toml_value(&limbs), expected);
}

#[test]
fn a_hash_is_written_as_decimal_bytes() {
    assert_eq!(format_hash(&[12, 34, 0, 255]), "12, 34, 0, 255");
    assert_eq!(format_hash(&[7]), "7");
    assert_eq!(format_hash(&[]), "");
}

#[test]
fn a_written_hash_is_read_back() {
    let mut hash = Vec::new();
    for i in 0..=255u8 {
        hash.push(i);
    }
    assert_eq!(parse_hash(&format_hash(&hash)), Some(hash));
}

#[test]
fn written_limbs_are_read_back() {
    let limbs = vec![0u128, 1, 0xffee, LIMB_BOUND - 1, 1 << 119, 10];
    assert_eq!(parse_limbs(&format_limbs_as_hex(&limbs)), Some(limbs));
}

#[test]
fn a_hash_is_read_from_decimal_bytes() {
    assert_eq!(parse_hash("12, 34, 0, 255"), Some(vec![12, 34, 0, 255]));
    assert_eq!(parse_hash("007"), Some(vec![7]));
    assert_eq!(parse_hash("0"), Some(vec![0]));
}

#[test]
fn a_hash_that_is_no_list_of_bytes_is_not_read() {
    assert_eq!(parse_hash(""), None);
    assert_eq!(parse_hash("256"), None);
    assert_eq!(parse_hash("1,2"), None);
    assert_eq!(parse_hash("1, "), None);
    assert_eq!(parse_hash(", 1"), None);
    assert_eq!(parse_hash("1,  2"), None);
    assert_eq!(parse_hash("1, 2, x"), None);
    assert_eq!(parse_hash("-1"), None);
    assert_eq!(parse_hash("0x10"), None);
    assert_eq!(parse_hash("1, é"), None);
    assert_eq!(parse_hash("99999999999999999999999999999999999999999999"), None);
}

#[test]
fn limbs_are_read_from_hex_and_from_decimal() {
    assert_eq!(parse_limbs("0x0"), Some(vec![0]));
    assert_eq!(parse_limbs("0xff, 0x0, 0x1000"), Some(vec![255, 0, 4096]));
    assert_eq!(parse_limbs("0xFF, 0xAb"), Some(vec![255, 171]));
    assert_eq!(parse_limbs("255, 0x10, 16"), Some(vec![255, 16, 16]));
    assert_eq!(parse_limbs("0x000000000000000000000000000000000000001"), Some(vec![1]));
    assert_eq!(
        parse_limbs("0xffffffffffffffffffffffffffffff"),
        Some(vec![LIMB_BOUND - 1])
    );
    assert_eq!(
        parse_limbs("1329227995784915872903807060280344575"),
        Some(vec![LIMB_BOUND - 1])
    );
}

#[test]
fn limbs_that_are_no_list_of_limbs_are_not_read() {
    assert_eq!(parse_limbs(""), None);
    assert_eq!(parse_limbs("0x"), None);
    assert_eq!(parse_limbs("0xg"), None);
    assert_eq!(parse_limbs("x10"), None);
    assert_eq!(parse_limbs("0X10"), None);
    assert_eq!(parse_limbs("ff"), None);
    assert_eq!(parse_limbs("0x1,0x2"), None);
    assert_eq!(parse_limbs("0x1, "), None);
    assert_eq!(parse_limbs("0x1, 0x2 "), None);
    assert_eq!(parse_limbs(" 0x1"), None);
    // two to the 120 is one too many for a limb
    assert_eq!(parse_limbs("0x1000000000000000000000000000000"), None);
    assert_eq!(parse_limbs("1329227995784915872903807060280344576"), None);
    assert_eq!(parse_limbs("0xffffffffffffffffffffffffffffffffffffffffffffffffffff"), None);
}

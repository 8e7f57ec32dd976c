use signature_gen::report::render_report;
use signature_gen::{
    generate_1024_bit_signature_parameters, generate_2048_bit_signature_parameters, RsaError,
    SignatureResult,
};

fn sample() -> SignatureResult {
    SignatureResult::new(
        String::from("12, 34"),
        String::from("0x1, 0x2"),
        String::from("0x3"),
        String::from("0x4, 0x5"),
    )
}

#[test]
fn an_artifact_is_reported_in_plain_lines() {
    assert_eq!(
        render_report(&Ok(sample()), false),
        Ok(String::from("Hash: 12, 34\nModulus: 0x1, 0x2\nREDC parameter: 0x3\nSignature: 0x4, 0x5\n"))
    );
}

#[test]
fn an_artifact_is_reported_in_toml_lines() {
    assert_eq!(
        render_report(&Ok(sample()), true),
        Ok(String::from(
            "hash = [12, 34]\nmodulus = [0x1, 0x2]\nredc = [0x3]\nsignature = [0x4, 0x5]\n"
        ))
    );
}

#[test]
fn a_failure_is_reported_for_the_standard_error() {
    assert_eq!(
        render_report(&Err(RsaError::InvalidBitLength), false),
        Err(String::from("Error: Bits must be either 1024 or 2048\n"))
    );
    assert_eq!(
        render_report(&Err(RsaError::KeyGenerationFailed), true),
        Err(String::from("Error: Failed to generate key\n"))
    );
}

#[test]
fn the_parameters_of_a_1024_bit_signature() {
    let text = generate_1024_bit_signature_parameters("Hello, world!", false, 65537).unwrap();
    let lines: Vec<&str> = text.lines().collect();
    assert_eq!(lines.len(), 4);
    assert_eq!(
        lines[0],
        "Hash: 49, 95, 91, 219, 118, 208, 120, 196, 59, 138, 192, 6, 78, 74, 1, 100, 97, 43, 31, 206, 119, 200, 105, 52, 91, 252, 148, 199, 88, 148, 237, 211"
    );
    assert!(lines[1].starts_with("Modulus: 0x"));
    assert!(lines[2].starts_with("REDC parameter: 0x"));
    assert!(lines[3].starts_with("Signature: 0x"));
    assert_eq!(lines[1].split(", ").count(), 9);
    assert_eq!(lines[2].split(", ").count(), 9);
    assert_eq!(lines[3].split(", ").count(), 9);
}

#[test]
fn the_parameters_of_a_2048_bit_signature() {
    let text = generate_2048_bit_signature_parameters("Hello, world!", true, 65537).unwrap();
    let lines: Vec<&str> = text.lines().collect();
    assert_eq!(lines.len(), 4);
    assert!(lines[0].starts_with("hash = [49, 95, "));
    assert!(lines[1].starts_with("modulus = [0x") && lines[1].ends_with("]"));
    assert!(lines[2].starts_with("redc = [0x") && lines[2].ends_with("]"));
    assert!(lines[3].starts_with("signature = [0x") && lines[3].ends_with("]"));
    assert_eq!(lines[1].split(", ").count(), 18);
    assert_eq!(lines[2].split(", ").count(), 18);
    assert_eq!(lines[3].split(", ").count(), 18);
}

#[test]
fn the_parameters_of_an_even_exponent_are_a_failure() {
    assert_eq!(
        generate_1024_bit_signature_parameters("m", false, 4),
        Err(String::from("Error: Failed to generate key\n"))
    );
    assert_eq!(
        generate_2048_bit_signature_parameters("m", true, 0),
        Err(String::from("Error: Failed to generate key\n"))
    );
}

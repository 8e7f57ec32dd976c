use signature_gen::{create_key_pair, KeyPair, KeyPart, RsaError};

#[test]
fn a_pair_of_valid_keys_is_taken() {
    let keys = create_key_pair("new pair", 1024, 65537).unwrap();
    let pair = KeyPair::new(keys.private_key(), keys.public_key());
    assert!(pair.is_ok());
    let pair = pair.ok().unwrap();
    assert_eq!(pair.private_key(), keys.private_key());
    assert_eq!(pair.public_key(), keys.public_key());
}

#[test]
fn a_pair_with_a_bad_key_is_refused() {
    let keys = create_key_pair("bad pair", 1024, 65537).unwrap();
    assert_eq!(
        KeyPair::new(vec![1, 2, 3], keys.public_key()).err(),
        Some(RsaError::KeyParseError(KeyPart::Private))
    );
    assert_eq!(
        KeyPair::new(keys.private_key(), vec![]).err(),
        Some(RsaError::KeyParseError(KeyPart::Public))
    );
    // the private key is looked at first
    assert_eq!(
        KeyPair::new(vec![], vec![]).err(),
        Some(RsaError::KeyParseError(KeyPart::Private))
    );
    // the halves may not be swapped
    assert_eq!(
        KeyPair::new(keys.public_key(), keys.private_key()).err(),
        Some(RsaError::KeyParseError(KeyPart::Private))
    );
}

#[test]
fn the_same_secret_gives_the_same_keys() {
    let first = create_key_pair("s", 1024, 65537).unwrap();
    let second = create_key_pair("s", 1024, 65537).unwrap();
    assert_eq!(first.private_key(), second.private_key());
    assert_eq!(first.public_key(), second.public_key());
}

#[test]
fn another_secret_gives_other_keys() {
    let first = create_key_pair("s1", 1024, 65537).unwrap();
    let second = create_key_pair("s2", 1024, 65537).unwrap();
    assert_ne!(first.private_key(), second.private_key());
    assert_ne!(first.public_key(), second.public_key());
}

#[test]
fn the_bit_length_and_the_exponent_change_the_keys() {
    let first = create_key_pair("s", 1024, 65537).unwrap();
    let wider = create_key_pair("s", 2048, 65537).unwrap();
    let other = create_key_pair("s", 1024, 17).unwrap();
    assert_ne!(first.public_key(), wider.public_key());
    assert_ne!(first.public_key(), other.public_key());
}

#[test]
fn the_seed_of_a_secret_is_its_sha256() {
    // SHA-256 of "abc"
    let seed = [
        186u8, 120, 22, 191, 143, 1, 207, 234, 65, 65, 64, 222, 93, 174, 34, 35, 176, 3, 97, 163,
        150, 23, 122, 156, 180, 16, 255, 97, 242, 0, 21, 173,
    ];
    let from_secret = create_key_pair("abc", 1024, 65537).unwrap();
    let from_seed = signature_gen::key_pair_from_seed(&seed, 1024, 65537).unwrap();
    assert_eq!(from_secret.private_key(), from_seed.private_key());
    assert_eq!(from_secret.public_key(), from_seed.public_key());
}

#[test]
fn each_failure_has_its_words() {
    assert_eq!(RsaError::InvalidBitLength.message(), "Bits must be either 1024 or 2048");
    assert_eq!(RsaError::KeyGenerationFailed.message(), "Failed to generate key");
    assert_eq!(RsaError::SigningFailed.message(), "Failed to create signature");
    assert_eq!(RsaError::ValueTooLarge.message(), "Value does not fit the declared bit width");
    assert_eq!(RsaError::MalformedSignature.message(), "Failed to parse signature");
    assert_eq!(RsaError::VerificationParseError.message(), "Failed to parse hash");
    assert_eq!(
        RsaError::KeyParseError(KeyPart::Private).message(),
        "Failed to parse private key"
    );
    assert_eq!(RsaError::KeyParseError(KeyPart::Public).message(), "Failed to parse public key");
    assert_eq!(RsaError::EncryptionFailed.message(), "Encryption failed");
    assert_eq!(RsaError::DecryptionFailed.message(), "Decryption failed");
    assert_eq!(RsaError::InvalidUtf8.message(), "Invalid UTF-8 in decrypted message");
}

use signature_gen::encryption::plaintext_text;
use signature_gen::{
    create_key_pair, decrypt, encrypt, encrypt_with_seed, EncryptedMessage, KeyPart, RsaError,
};

#[test]
fn a_message_is_decrypted_by_the_private_key() {
    let keys = create_key_pair("round", 1024, 65537).unwrap();
    let encrypted = encrypt("Meet me at the park at 5pm", &keys.public_key()).unwrap();
    assert_eq!(encrypted.data().len(), 128);
    assert_eq!(decrypt(&encrypted, &keys.private_key()), Ok(String::from("Meet me at the park at 5pm")));
}

#[test]
fn a_message_beyond_ascii_is_decrypted() {
    let keys = create_key_pair("utf8", 1024, 65537).unwrap();
    let encrypted = encrypt("grüße – 你好", &keys.public_key()).unwrap();
    assert_eq!(decrypt(&encrypted, &keys.private_key()), Ok(String::from("grüße – 你好")));
    let encrypted = encrypt("", &keys.public_key()).unwrap();
    assert_eq!(decrypt(&encrypted, &keys.private_key()), Ok(String::new()));
}

#[test]
fn encryption_with_a_seed_is_reproducible() {
    let keys = create_key_pair("seeded", 1024, 65537).unwrap();
    let first = encrypt_with_seed("m", &keys.public_key(), &[1; 32]).unwrap();
    let second = encrypt_with_seed("m", &keys.public_key(), &[1; 32]).unwrap();
    let other = encrypt_with_seed("m", &keys.public_key(), &[2; 32]).unwrap();
    assert_eq!(first.data(), second.data());
    assert_ne!(first.data(), other.data());
    assert_eq!(decrypt(&first, &keys.private_key()), Ok(String::from("m")));
    assert_eq!(decrypt(&other, &keys.private_key()), Ok(String::from("m")));
}

#[test]
fn encryption_draws_new_padding_each_time() {
    let keys = create_key_pair("padding", 1024, 65537).unwrap();
    let first = encrypt("m", &keys.public_key()).unwrap();
    let second = encrypt("m", &keys.public_key()).unwrap();
    assert_ne!(first.data(), second.data());
}

#[test]
fn a_message_that_is_too_long_is_not_encrypted() {
    let keys = create_key_pair("long", 1024, 65537).unwrap();
    // 128 bytes of modulus leave room for 117 bytes of message
    let fits = "a".repeat(117);
    let too_long = "a".repeat(118);
    assert!(encrypt(&fits, &keys.public_key()).is_ok());
    assert_eq!(encrypt(&too_long, &keys.public_key()).err(), Some(RsaError::EncryptionFailed));
    assert_eq!(
        encrypt_with_seed(&too_long, &keys.public_key(), &[0; 32]).err(),
        Some(RsaError::EncryptionFailed)
    );
}

#[test]
fn encryption_needs_a_public_key() {
    let keys = create_key_pair("halves", 1024, 65537).unwrap();
    assert_eq!(encrypt("m", &[]).err(), Some(RsaError::KeyParseError(KeyPart::Public)));
    assert_eq!(
        encrypt("m", &keys.private_key()).err(),
        Some(RsaError::KeyParseError(KeyPart::Public))
    );
}

#[test]
fn decryption_needs_the_private_key_of_the_message() {
    let keys = create_key_pair("mine", 1024, 65537).unwrap();
    let eve = create_key_pair("eve", 1024, 65537).unwrap();
    let encrypted = encrypt("m", &keys.public_key()).unwrap();
    assert_eq!(decrypt(&encrypted, &eve.private_key()), Err(RsaError::DecryptionFailed));
    assert_eq!(
        decrypt(&encrypted, &keys.public_key()),
        Err(RsaError::KeyParseError(KeyPart::Private))
    );
    assert_eq!(decrypt(&encrypted, &[9]), Err(RsaError::KeyParseError(KeyPart::Private)));
}

#[test]
fn what_is_no_ciphertext_is_not_decrypted() {
    let keys = create_key_pair("garbage", 1024, 65537).unwrap();
    assert_eq!(
        decrypt(&EncryptedMessage::new(vec![1, 2, 3]), &keys.private_key()),
        Err(RsaError::DecryptionFailed)
    );
    assert_eq!(
        decrypt(&EncryptedMessage::new(vec![]), &keys.private_key()),
        Err(RsaError::DecryptionFailed)
    );
    assert_eq!(
        decrypt(&EncryptedMessage::from_string("plain text"), &keys.private_key()),
        Err(RsaError::DecryptionFailed)
    );
}

#[test]
fn an_encrypted_message_holds_its_bytes() {
    assert_eq!(EncryptedMessage::new(vec![1, 2, 3]).data(), vec![1, 2, 3]);
    assert_eq!(EncryptedMessage::from_string("abc").data(), vec![97, 98, 99]);
    assert_eq!(EncryptedMessage::from_string("é").data(), vec![0xc3, 0xa9]);
    assert_eq!(EncryptedMessage::from_string("").data(), Vec::<u8>::new());
}

#[test]
fn decrypted_bytes_are_read_as_utf8() {
    assert_eq!(plaintext_text(vec![104, 105]), Ok(String::from("hi")));
    assert_eq!(plaintext_text(vec![0xc3, 0xa9]), Ok(String::from("é")));
    assert_eq!(plaintext_text(vec![]), Ok(String::new()));
    assert_eq!(plaintext_text(vec![0xff]), Err(RsaError::InvalidUtf8));
    assert_eq!(plaintext_text(vec![0xc3]), Err(RsaError::InvalidUtf8));
    assert_eq!(plaintext_text(vec![0xed, 0xa0, 0x80]), Err(RsaError::InvalidUtf8));
}

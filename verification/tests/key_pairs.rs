use signature_gen::{
    create_key_pair, decrypt, encrypt, generate_signature_from_key, verify_signature,
};

#[test]
fn lib_test_create_key_pair_and_sign() {
    let key_pair = create_key_pair("test secret", 1024, 65537).unwrap();
    let signature = generate_signature_from_key("Hello, world!", &key_pair.private_key()).unwrap();
    assert!(verify_signature(&signature, &key_pair.public_key()).unwrap());
}

#[test]
fn test_alice_and_bob_communication() {
    // Alice and Bob each create their key pairs
    let alice_keys = create_key_pair("alice secret", 2048, 65537).unwrap();
    let bob_keys = create_key_pair("bob secret", 2048, 65537).unwrap();

    // Alice signs a message
    let message = "Hello Bob, this is Alice!";
    let signature = generate_signature_from_key(message, &alice_keys.private_key()).unwrap();

    // Bob verifies Alice's signature
    let is_valid = verify_signature(&signature, &alice_keys.public_key()).unwrap();
    assert!(is_valid, "Bob should be able to verify Alice's signature");

    // Bob tries to verify with wrong key (should fail)
    let is_valid_wrong_key = verify_signature(&signature, &bob_keys.public_key()).unwrap();
    assert!(
        !is_valid_wrong_key,
        "Verification with wrong key should fail"
    );

    // Alice encrypts a secret message for Bob
    let secret_message = "Meet me at the park at 5pm";
    let encrypted = encrypt(secret_message, &bob_keys.public_key()).unwrap();

    // Bob decrypts Alice's message
    let decrypted = decrypt(&encrypted, &bob_keys.private_key()).unwrap();
    assert_eq!(
        secret_message, decrypted,
        "Bob should be able to decrypt Alice's message"
    );

    // Bob encrypts a response for Alice
    let response = "I'll be there!";
    let encrypted_response = encrypt(response, &alice_keys.public_key()).unwrap();

    // Alice decrypts Bob's response
    let decrypted_response = decrypt(&encrypted_response, &alice_keys.private_key()).unwrap();
    assert_eq!(
        response, decrypted_response,
        "Alice should be able to decrypt Bob's message"
    );

    // Someone else (Eve) should not be able to decrypt
    let eve_keys = create_key_pair("eve secret", 2048, 65537).unwrap();
    let result = decrypt(&encrypted, &eve_keys.private_key());
    assert!(
        result.is_err(),
        "Eve should not be able to decrypt the message"
    );
}

#[test]
fn test_test_create_key_pair_and_sign() {
    // Create a key pair
    let key_pair = create_key_pair("test secret", 1024, 65537).unwrap();

    // Verify we can access the keys
    assert!(!key_pair.private_key().is_empty());
    assert!(!key_pair.public_key().is_empty());

    // Sign a message using the generated private key
    let message = "Hello, world!";
    let signature_result =
        generate_signature_from_key(message, &key_pair.private_key()).unwrap();

    // Verify the signature result contains expected data
    assert!(!signature_result.hash().is_empty());
    assert!(!signature_result.modulus_limbs().is_empty());
    assert!(!signature_result.redc_limbs().is_empty());
    assert!(!signature_result.signature_limbs().is_empty());

    // Create a second signature with the same key and message - should be identical
    let signature_result2 =
        generate_signature_from_key(message, &key_pair.private_key()).unwrap();
    assert_eq!(
        signature_result.signature_limbs(),
        signature_result2.signature_limbs()
    );

    // Different message should produce different signature
    let message2 = "Different message";
    let signature_result3 =
        generate_signature_from_key(message2, &key_pair.private_key()).unwrap();
    assert_ne!(
        signature_result.signature_limbs(),
        signature_result3.signature_limbs()
    );

    // Different secret should produce different key pair
    let key_pair2 = create_key_pair("different secret", 1024, 65537).unwrap();
    assert_ne!(key_pair.private_key(), key_pair2.private_key());
    assert_ne!(key_pair.public_key(), key_pair2.public_key());

    // Same secret should produce identical key pair
    let key_pair3 = create_key_pair("test secret", 1024, 65537).unwrap();
    assert_eq!(key_pair.private_key(), key_pair3.private_key());
    assert_eq!(key_pair.public_key(), key_pair3.public_key());
}

//! Encrypting a message for a public key and decrypting it with the private key.
//!
//! The padding of an encryption is drawn from a seed, so that the seed, the
//! key and the message decide the ciphertext; `encrypt` draws the seed at random.

use crate::error::{KeyPart, RsaError};
use crate::primitives::{
    decrypt_pkcs1v15, encrypt_pkcs1v15, fresh_seed, pkcs1v15_decryption, pkcs1v15_encryption,
    private_key_parses, private_key_valid, public_key_parses, public_key_valid, string_from_utf8,
};
use vstd::prelude::*;
use vstd::string::*;
use vstd::utf8::{decode_utf8, valid_utf8};

verus! {

/// An encrypted message: the bytes of the ciphertext.
pub struct EncryptedMessage {
    data: Vec<u8>,
}

impl View for EncryptedMessage {
    type V = Seq<u8>;

    closed spec fn view(&self) -> Seq<u8> {
        self.data@
    }
}

/// What encrypting a message for a public key with the padding of a seed gives.
pub open spec fn encryption_outcome(message: Seq<u8>, public_key: Seq<u8>, seed: Seq<u8>) -> Result<
    Seq<u8>,
    RsaError,
> {
    if !public_key_valid(public_key) {
        Err(RsaError::KeyParseError(KeyPart::Public))
    } else {
        match pkcs1v15_encryption(public_key, message, seed) {
            Some(ciphertext) => Ok(ciphertext),
            None => Err(RsaError::EncryptionFailed),
        }
    }
}

/// The text that decrypted bytes are, where they are UTF-8.
pub open spec fn text_of_plaintext(plaintext: Seq<u8>) -> Result<Seq<char>, RsaError> {
    if valid_utf8(plaintext) {
        Ok(decode_utf8(plaintext))
    } else {
        Err(RsaError::InvalidUtf8)
    }
}

/// What decrypting a ciphertext with a private key gives.
pub open spec fn decryption_outcome(ciphertext: Seq<u8>, private_key: Seq<u8>) -> Result<
    Seq<char>,
    RsaError,
> {
    if !private_key_valid(private_key) {
        Err(RsaError::KeyParseError(KeyPart::Private))
    } else {
        match pkcs1v15_decryption(private_key, ciphertext) {
            Some(plaintext) => text_of_plaintext(plaintext),
            None => Err(RsaError::DecryptionFailed),
        }
    }
}

/// What an encryption gave, by the bytes of the ciphertext.
pub open spec fn ciphertext_view(outcome: Result<EncryptedMessage, RsaError>) -> Result<
    Seq<u8>,
    RsaError,
> {
    match outcome {
        Ok(encrypted) => Ok(encrypted@),
        Err(error) => Err(error),
    }
}

/// What a decryption gave, by the characters of the text.
pub open spec fn text_view(outcome: Result<String, RsaError>) -> Result<Seq<char>, RsaError> {
    match outcome {
        Ok(text) => Ok(text@),
        Err(error) => Err(error),
    }
}

impl EncryptedMessage {
    /// The bytes of the ciphertext.
    pub fn data(&self) -> (bytes: Vec<u8>)
        ensures
            bytes@ == self@,
    {
        self.data.clone()
    }

    /// An encrypted message of the given bytes.
    pub fn new(data: Vec<u8>) -> (encrypted: EncryptedMessage)
        ensures
            encrypted@ == data@,
    {
        EncryptedMessage { data }
    }

    /// An encrypted message whose bytes are the UTF-8 bytes of a text.
    pub fn from_string(text: &str) -> (encrypted: EncryptedMessage)
        ensures
            encrypted@ == text.spec_bytes(),
    {
        EncryptedMessage { data: text.as_bytes_vec() }
    }
}

/// Encrypts a message for a public key in SPKI DER, with the padding of a seed.
pub fn encrypt_with_seed(message: &str, public_key: &[u8], seed: &[u8; 32]) -> (encrypted: Result<
    EncryptedMessage,
    RsaError,
>)
    ensures
        ciphertext_view(encrypted) == encryption_outcome(message.spec_bytes(), public_key@, seed@),
{
    if !public_key_parses(public_key) {
        return Err(RsaError::KeyParseError(KeyPart::Public));
    }
    match encrypt_pkcs1v15(public_key, message.as_bytes(), seed) {
        Ok(data) => Ok(EncryptedMessage { data }),
        Err(_) => Err(RsaError::EncryptionFailed),
    }
}

/// Encrypts a message for a public key in SPKI DER, with padding drawn at random.
pub fn encrypt(message: &str, public_key: &[u8]) -> (encrypted: Result<EncryptedMessage, RsaError>)
    ensures
        exists|seed: Seq<u8>|
            seed.len() == 32 && ciphertext_view(encrypted) == #[trigger] encryption_outcome(
                message.spec_bytes(),
                public_key@,
                seed,
            ),
        !public_key_valid(public_key@) ==> ciphertext_view(encrypted) == Err::<Seq<u8>, RsaError>(
            RsaError::KeyParseError(KeyPart::Public),
        ),
{
    let seed = fresh_seed();
    encrypt_with_seed(message, public_key, &seed)
}

/// Reads decrypted bytes as text.
pub fn plaintext_text(plaintext: Vec<u8>) -> (text: Result<String, RsaError>)
    ensures
        text_view(text) == text_of_plaintext(plaintext@),
{
    match string_from_utf8(plaintext) {
        Ok(text) => Ok(text),
        Err(_) => Err(RsaError::InvalidUtf8),
    }
}

/// Decrypts a message with a private key in PKCS#8 DER and reads it as text.
pub fn decrypt(encrypted: &EncryptedMessage, private_key: &[u8]) -> (text: Result<String, RsaError>)
    ensures
        text_view(text) == decryption_outcome(encrypted@, private_key@),
{
    if !private_key_parses(private_key) {
        return Err(RsaError::KeyParseError(KeyPart::Private));
    }
    match decrypt_pkcs1v15(private_key, encrypted.data.as_slice()) {
        Ok(plaintext) => plaintext_text(plaintext),
        Err(_) => Err(RsaError::DecryptionFailed),
    }
}

} // verus!

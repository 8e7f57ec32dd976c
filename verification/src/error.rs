//! The failures that the library reports.

use vstd::prelude::*;
use vstd::string::*;

verus! {

/// Which half of a key pair a failure is about.
#[derive(Clone, Copy, Debug, PartialEq, Eq, Structural)]
pub enum KeyPart {
    /// The private key.
    Private,
    /// The public key.
    Public,
}

/// Why an operation failed.
#[derive(Clone, Copy, Debug, PartialEq, Eq, Structural)]
pub enum RsaError {
    /// The bit length is neither 1024 nor 2048.
    InvalidBitLength,
    /// No key could be generated.
    KeyGenerationFailed,
    /// The signing primitive refused the key or the message.
    SigningFailed,
    /// A number is not below two to the declared width.
    ValueTooLarge,
    /// The text of the signature limbs does not denote a row of limbs.
    MalformedSignature,
    /// The text of the hash does not denote bytes.
    VerificationParseError,
    /// Key bytes are not a valid key encoding.
    KeyParseError(KeyPart),
    /// The encryption primitive refused the message.
    EncryptionFailed,
    /// The decryption primitive refused the ciphertext.
    DecryptionFailed,
    /// The decrypted bytes are not UTF-8.
    InvalidUtf8,
}

impl RsaError {
    /// What the failure is, in words.
    pub open spec fn message_text(self) -> Seq<char> {
        match self {
            RsaError::InvalidBitLength => "Bits must be either 1024 or 2048"@,
            RsaError::KeyGenerationFailed => "Failed to generate key"@,
            RsaError::SigningFailed => "Failed to create signature"@,
            RsaError::ValueTooLarge => "Value does not fit the declared bit width"@,
            RsaError::MalformedSignature => "Failed to parse signature"@,
            RsaError::VerificationParseError => "Failed to parse hash"@,
            RsaError::KeyParseError(KeyPart::Private) => "Failed to parse private key"@,
            RsaError::KeyParseError(KeyPart::Public) => "Failed to parse public key"@,
            RsaError::EncryptionFailed => "Encryption failed"@,
            RsaError::DecryptionFailed => "Decryption failed"@,
            RsaError::InvalidUtf8 => "Invalid UTF-8 in decrypted message"@,
        }
    }

    /// What the failure is, in words.
    pub fn message(&self) -> (text: String)
        ensures
            text@ == self.message_text(),
    {
        let words = match self {
            RsaError::InvalidBitLength => "Bits must be either 1024 or 2048",
            RsaError::KeyGenerationFailed => "Failed to generate key",
            RsaError::SigningFailed => "Failed to create signature",
            RsaError::ValueTooLarge => "Value does not fit the declared bit width",
            RsaError::MalformedSignature => "Failed to parse signature",
            RsaError::VerificationParseError => "Failed to parse hash",
            RsaError::KeyParseError(KeyPart::Private) => "Failed to parse private key",
            RsaError::KeyParseError(KeyPart::Public) => "Failed to parse public key",
            RsaError::EncryptionFailed => "Encryption failed",
            RsaError::DecryptionFailed => "Decryption failed",
            RsaError::InvalidUtf8 => "Invalid UTF-8 in decrypted message",
        };
        words.to_owned()
    }
}

} // verus!

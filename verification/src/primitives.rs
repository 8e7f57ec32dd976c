//! The calls into the RSA, SHA-256, random-number and parameter crates, and
//! into the standard library where it has no specification.
//!
//! Every function here is believed, not proved: its body makes the call, and
//! its contract says of the result what the called crate documents. Where a
//! result is a function of the arguments alone it has a name, a specification
//! function without a body, which the contracts of the library speak of.

use crate::natural::{be_value, bit_length};
use noir_bignum_paramgen::compute_barrett_reduction_parameter;
use rand::rngs::StdRng;
use rand::SeedableRng;
use rsa::pkcs1v15::{Signature, SigningKey, VerifyingKey};
use rsa::pkcs8::{DecodePrivateKey, DecodePublicKey, EncodePrivateKey, EncodePublicKey};
use rsa::signature::hazmat::PrehashVerifier;
use rsa::signature::{SignatureEncoding, Signer};
use rsa::traits::PublicKeyParts;
use num_bigint_dig::BigUint;
use rsa::{Pkcs1v15Encrypt, RsaPrivateKey, RsaPublicKey};
use sha2::{Digest, Sha256};
use vstd::arithmetic::power2::pow2;
use vstd::prelude::*;
use vstd::utf8::{decode_utf8, valid_utf8};

verus! {

/// The error type of the `rsa` crate.
#[verifier::external_type_specification]
#[verifier::external_body]
pub struct ExRsaError(rsa::errors::Error);

/// The error type of the `signature` crate.
#[verifier::external_type_specification]
#[verifier::external_body]
pub struct ExSignatureError(rsa::signature::Error);

/// The error type of the standard library's reading of UTF-8.
#[verifier::external_type_specification]
#[verifier::external_body]
pub struct ExFromUtf8Error(std::string::FromUtf8Error);

/// The SHA-256 digest of a byte string.
pub uninterp spec fn sha256(data: Seq<u8>) -> Seq<u8>;

/// The key pair that the RSA crate generates from a seeded generator: the
/// private key in PKCS#8 DER and the public key in SPKI DER, or nothing where
/// generation or encoding fails.
pub uninterp spec fn seeded_key_pair(seed: Seq<u8>, bits: nat, exponent: nat) -> Option<
    (Seq<u8>, Seq<u8>),
>;

/// Whether the RSA crate accepts the bytes as a private key in PKCS#8 DER.
pub uninterp spec fn private_key_valid(der: Seq<u8>) -> bool;

/// Whether the RSA crate accepts the bytes as a public key in SPKI DER.
pub uninterp spec fn public_key_valid(der: Seq<u8>) -> bool;

/// The modulus of a private key, big-endian.
pub uninterp spec fn private_key_modulus(der: Seq<u8>) -> Seq<u8>;

/// The PKCS#1 v1.5 signature of a message under a private key, with SHA-256
/// as the digest, or nothing where the primitive refuses.
pub uninterp spec fn pkcs1v15_sha256_signature(private_der: Seq<u8>, message: Seq<u8>) -> Option<
    Seq<u8>,
>;

/// Whether PKCS#1 v1.5 verification with SHA-256 accepts the signature for the
/// digest under the public key.
pub uninterp spec fn pkcs1v15_sha256_accepts(
    public_der: Seq<u8>,
    digest: Seq<u8>,
    signature: Seq<u8>,
) -> bool;

/// The PKCS#1 v1.5 encryption of a message under a public key, padded from a
/// seeded generator, or nothing where the primitive refuses.
pub uninterp spec fn pkcs1v15_encryption(
    public_der: Seq<u8>,
    message: Seq<u8>,
    seed: Seq<u8>,
) -> Option<Seq<u8>>;

/// The PKCS#1 v1.5 decryption of a ciphertext under a private key, or nothing
/// where the primitive refuses.
pub uninterp spec fn pkcs1v15_decryption(private_der: Seq<u8>, ciphertext: Seq<u8>) -> Option<
    Seq<u8>,
>;

/// The Barrett reduction parameter of a modulus: two to twice the modulus's
/// bit length plus four, divided by the modulus and rounded down.
pub open spec fn barrett_parameter(modulus: nat) -> nat {
    pow2(2 * bit_length(modulus) + 4) / modulus
}

/// `Sha256::digest` of the `sha2` crate: the digest is a function of the
/// data, and is 32 bytes long.
#[verifier::external_body]
pub(crate) fn sha256_digest(data: &[u8]) -> (digest: Vec<u8>)
    ensures
        digest@ == sha256(data@),
        digest@.len() == 32,
{
    Sha256::digest(data).to_vec()
}

/// `rand::random`: 32 bytes from the thread's generator. Nothing is claimed of them.
#[verifier::external_body]
pub(crate) fn fresh_seed() -> (seed: [u8; 32]) {
    rand::random()
}

/// `RsaPrivateKey::new_with_exp` of the `rsa` crate on a `StdRng` made from
/// the seed, with both keys encoded in DER. The claim is that the outcome is
/// a function of the seed, the bit length and the exponent. An even exponent
/// is left out: the crate's search for primes does not end on one.
#[verifier::external_body]
pub(crate) fn generate_key_pair_der(seed: &[u8; 32], bits: usize, exponent: u32) -> (pair: Result<
    (Vec<u8>, Vec<u8>),
    rsa::errors::Error,
>)
    requires
        bits == 1024 || bits == 2048,
        exponent % 2 == 1,
    ensures
        pair matches Ok(keys) ==> seeded_key_pair(seed@, bits as nat, exponent as nat) == Some(
            (keys.0@, keys.1@),
        ),
        pair is Err ==> seeded_key_pair(seed@, bits as nat, exponent as nat) is None,
{
    let mut rng = StdRng::from_seed(*seed);
    let key = RsaPrivateKey::new_with_exp(&mut rng, bits, &BigUint::from(exponent))?;
    let private = key.to_pkcs8_der()?;
    let public = key.to_public_key().to_public_key_der().map_err(rsa::pkcs8::Error::from)?;
    Ok((private.as_bytes().to_vec(), public.as_bytes().to_vec()))
}

/// `DecodePrivateKey::from_pkcs8_der` for `RsaPrivateKey`: whether the bytes parse.
#[verifier::external_body]
pub(crate) fn private_key_parses(der: &[u8]) -> (valid: bool)
    ensures
        valid == private_key_valid(der@),
{
    RsaPrivateKey::from_pkcs8_der(der).is_ok()
}

/// `DecodePublicKey::from_public_key_der` for `RsaPublicKey`: whether the bytes parse.
#[verifier::external_body]
pub(crate) fn public_key_parses(der: &[u8]) -> (valid: bool)
    ensures
        valid == public_key_valid(der@),
{
    RsaPublicKey::from_public_key_der(der).is_ok()
}

/// `PublicKeyParts::n` of a parsed private key, as big-endian bytes. The
/// crate accepts no key with an even modulus, so the modulus is not zero.
#[verifier::external_body]
pub(crate) fn modulus_of_private_key(der: &[u8]) -> (modulus: Vec<u8>)
    requires
        private_key_valid(der@),
    ensures
        modulus@ == private_key_modulus(der@),
        be_value(modulus@) > 0,
{
    RsaPrivateKey::from_pkcs8_der(der).unwrap().n().to_bytes_be()
}

/// `Signer::try_sign` of `SigningKey<Sha256>`: the signature is a function of
/// the key and the message, as the crate signs without blinding here.
#[verifier::external_body]
pub(crate) fn sign_pkcs1v15_sha256(private_der: &[u8], message: &[u8]) -> (signature: Result<
    Vec<u8>,
    rsa::signature::Error,
>)
    requires
        private_key_valid(private_der@),
    ensures
        signature matches Ok(bytes) ==> pkcs1v15_sha256_signature(private_der@, message@) == Some(
            bytes@,
        ),
        signature is Err ==> pkcs1v15_sha256_signature(private_der@, message@) is None,
{
    let key = RsaPrivateKey::from_pkcs8_der(private_der).unwrap();
    let signature = SigningKey::<Sha256>::new(key).try_sign(message)?;
    Ok(signature.to_vec())
}

/// `PrehashVerifier::verify_prehash` of `VerifyingKey<Sha256>`: whether the
/// signature is accepted for the digest. Bytes that make no signature are not accepted.
#[verifier::external_body]
pub(crate) fn verify_pkcs1v15_sha256(public_der: &[u8], digest: &[u8], signature: &[u8]) -> (accepted:
    bool)
    requires
        public_key_valid(public_der@),
    ensures
        accepted == pkcs1v15_sha256_accepts(public_der@, digest@, signature@),
{
    let key = RsaPublicKey::from_public_key_der(public_der).unwrap();
    match Signature::try_from(signature) {
        Ok(signature) => VerifyingKey::<Sha256>::new(key).verify_prehash(digest, &signature).is_ok(),
        Err(_) => false,
    }
}

/// `RsaPublicKey::encrypt` with `Pkcs1v15Encrypt` on a `StdRng` made from the
/// seed: the ciphertext is a function of the key, the message and the seed.
#[verifier::external_body]
pub(crate) fn encrypt_pkcs1v15(public_der: &[u8], message: &[u8], seed: &[u8; 32]) -> (ciphertext:
    Result<Vec<u8>, rsa::errors::Error>)
    requires
        public_key_valid(public_der@),
    ensures
        ciphertext matches Ok(bytes) ==> pkcs1v15_encryption(public_der@, message@, seed@) == Some(
            bytes@,
        ),
        ciphertext is Err ==> pkcs1v15_encryption(public_der@, message@, seed@) is None,
{
    let key = RsaPublicKey::from_public_key_der(public_der).unwrap();
    let mut rng = StdRng::from_seed(*seed);
    key.encrypt(&mut rng, Pkcs1v15Encrypt, message)
}

/// `RsaPrivateKey::decrypt` with `Pkcs1v15Encrypt`: the plaintext is a
/// function of the key and the ciphertext, as the crate decrypts without blinding here.
#[verifier::external_body]
pub(crate) fn decrypt_pkcs1v15(private_der: &[u8], ciphertext: &[u8]) -> (plaintext: Result<
    Vec<u8>,
    rsa::errors::Error,
>)
    requires
        private_key_valid(private_der@),
    ensures
        plaintext matches Ok(bytes) ==> pkcs1v15_decryption(private_der@, ciphertext@) == Some(
            bytes@,
        ),
        plaintext is Err ==> pkcs1v15_decryption(private_der@, ciphertext@) is None,
{
    RsaPrivateKey::from_pkcs8_der(private_der).unwrap().decrypt(Pkcs1v15Encrypt, ciphertext)
}

/// `compute_barrett_reduction_parameter` of the `noir-bignum-paramgen` crate:
/// one shifted left by twice the modulus's bit length plus four, divided by
/// the modulus. The crate divides by zero on a zero modulus, which is left out.
#[verifier::external_body]
pub(crate) fn barrett_reduction_parameter(modulus: &[u8]) -> (parameter: Vec<u8>)
    requires
        be_value(modulus@) > 0,
    ensures
        be_value(parameter@) == barrett_parameter(be_value(modulus@)),
{
    compute_barrett_reduction_parameter(&BigUint::from_bytes_be(modulus)).to_bytes_be()
}

/// `String::from_utf8` of the standard library: the text of the bytes where
/// they are valid UTF-8, else an error.
#[verifier::external_body]
pub(crate) fn string_from_utf8(bytes: Vec<u8>) -> (text: Result<String, std::string::FromUtf8Error>)
    ensures
        text is Ok <==> valid_utf8(bytes@),
        text matches Ok(s) ==> s@ == decode_utf8(bytes@),
{
    String::from_utf8(bytes)
}

/// `String::push` of the standard library: the character is appended to the text.
#[verifier::external_body]
pub(crate) fn push_char(text: &mut String, c: char)
    ensures
        final(text)@ == old(text)@.push(c),
{
    text.push(c)
}

} // verus!

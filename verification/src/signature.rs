//! Signing a message and verifying a signature, by way of the written artifact.
//!
//! Signing hashes the message once, has the primitive sign it, and writes
//! down four texts: the hash, and the modulus, its Barrett parameter and the
//! signature as rows of limbs of one width. Verifying reads the hash and the
//! signature back and asks the primitive about exactly what was read. The
//! answer is about the hash that the artifact holds: that this hash belongs
//! to the message in question is for the caller to see to.

use crate::barrett::{compute_barrett, lemma_barrett_bounds};
use crate::error::{KeyPart, RsaError};
use crate::keys::{key_pair_from_seed, key_pair_of_seed};
use crate::limbs::{
    decode, lemma_low_limbs_injective, lemma_low_limbs_value, lemma_round_trip, limb_count,
    limb_count_for, limbs_value, low_limbs, split_into_120_bit_limbs,
};
use crate::natural::{
    be_bytes, be_value, bit_length, fits_in_bits, lemma_be_bytes_value, lemma_bit_length_fits,
};
use crate::notation::{
    format_hash, format_limbs_as_hex, hash_in_text, hash_text, lemma_hash_text_round_trip,
    lemma_limbs_text_injective, lemma_limbs_text_round_trip, limbs_in_text, limbs_text,
    parse_hash, parse_limbs,
};
use crate::primitives::{
    barrett_parameter, fresh_seed, modulus_of_private_key, pkcs1v15_sha256_accepts,
    pkcs1v15_sha256_signature, private_key_modulus, private_key_parses, private_key_valid,
    public_key_parses, public_key_valid, sha256, sha256_digest, sign_pkcs1v15_sha256,
    verify_pkcs1v15_sha256,
};
use vstd::arithmetic::power2::*;
use vstd::prelude::*;
use vstd::string::*;

verus! {

/// A written signature artifact: four texts.
pub struct SignatureResult {
    hash: String,
    modulus_limbs: String,
    redc_limbs: String,
    signature_limbs: String,
}

/// What a signature artifact holds.
pub struct SignatureView {
    /// The message hash: its bytes in decimal.
    pub hash: Seq<char>,
    /// The limbs of the modulus.
    pub modulus_limbs: Seq<char>,
    /// The limbs of the modulus's Barrett parameter.
    pub redc_limbs: Seq<char>,
    /// The limbs of the signature.
    pub signature_limbs: Seq<char>,
}

impl View for SignatureResult {
    type V = SignatureView;

    closed spec fn view(&self) -> SignatureView {
        SignatureView {
            hash: self.hash@,
            modulus_limbs: self.modulus_limbs@,
            redc_limbs: self.redc_limbs@,
            signature_limbs: self.signature_limbs@,
        }
    }
}

/// The width at which a modulus and what belongs to it are written: 1024
/// bits where the modulus has at most 1024 bits, else 2048 bits.
pub open spec fn total_bits_for(modulus: nat) -> nat {
    if modulus < pow2(1024) {
        1024
    } else {
        2048
    }
}

/// The four texts of a hash, a modulus, a Barrett parameter and a signature,
/// the three numbers as rows of limbs of the modulus's width.
pub open spec fn written_artifact(
    hash: Seq<u8>,
    modulus: nat,
    redc: nat,
    signature: nat,
) -> SignatureView {
    let count = limb_count(total_bits_for(modulus));
    SignatureView {
        hash: hash_text(hash),
        modulus_limbs: limbs_text(low_limbs(modulus, count)),
        redc_limbs: limbs_text(low_limbs(redc, count)),
        signature_limbs: limbs_text(low_limbs(signature, count)),
    }
}

/// The artifact of a hash and three numbers, or the failure where a number
/// does not fit: the modulus and the signature are to be below two to the
/// width, the Barrett parameter is to fit the row of limbs.
pub open spec fn encoded_artifact(
    hash: Seq<u8>,
    modulus: nat,
    redc: nat,
    signature: nat,
) -> Result<SignatureView, RsaError> {
    let bits = total_bits_for(modulus);
    if modulus >= pow2(bits) || signature >= pow2(bits) || redc >= pow2(120 * limb_count(bits)) {
        Err(RsaError::ValueTooLarge)
    } else {
        Ok(written_artifact(hash, modulus, redc, signature))
    }
}

/// What signing a message with a private key gives.
pub open spec fn signing_outcome(private_key: Seq<u8>, message: Seq<u8>) -> Result<
    SignatureView,
    RsaError,
> {
    if !private_key_valid(private_key) {
        Err(RsaError::KeyParseError(KeyPart::Private))
    } else {
        match pkcs1v15_sha256_signature(private_key, message) {
            None => Err(RsaError::SigningFailed),
            Some(signature) => {
                let modulus = be_value(private_key_modulus(private_key));
                encoded_artifact(
                    sha256(message),
                    modulus,
                    barrett_parameter(modulus),
                    be_value(signature),
                )
            },
        }
    }
}

/// What signing a message with the key of a seed gives.
pub open spec fn seeded_signing_outcome(
    message: Seq<u8>,
    bits: u32,
    exponent: u32,
    seed: Seq<u8>,
) -> Result<SignatureView, RsaError> {
    match key_pair_of_seed(seed, bits, exponent) {
        Err(error) => Err(error),
        Ok(pair) => signing_outcome(pair.private_key, message),
    }
}

/// What verifying a written hash and written signature limbs under a public key gives.
pub open spec fn verification_outcome(
    hash_field: Seq<char>,
    signature_limbs: Seq<char>,
    public_key: Seq<u8>,
) -> Result<bool, RsaError> {
    if !public_key_valid(public_key) {
        Err(RsaError::KeyParseError(KeyPart::Public))
    } else {
        match hash_in_text(hash_field) {
            None => Err(RsaError::VerificationParseError),
            Some(hash) => match limbs_in_text(signature_limbs) {
                None => Err(RsaError::MalformedSignature),
                Some(limbs) => Ok(
                    pkcs1v15_sha256_accepts(public_key, hash, be_bytes(limbs_value(limbs))),
                ),
            },
        }
    }
}

/// What an operation gave, by the texts of the artifact.
pub open spec fn artifact_view(outcome: Result<SignatureResult, RsaError>) -> Result<
    SignatureView,
    RsaError,
> {
    match outcome {
        Ok(artifact) => Ok(artifact@),
        Err(error) => Err(error),
    }
}

/// The Barrett parameter of a modulus that fits a width of 1024 or 2048 bits
/// fits the row of limbs of that width.
pub proof fn lemma_barrett_fits(modulus: nat)
    requires
        0 < modulus < pow2(2048),
    ensures
        barrett_parameter(modulus) < pow2(120 * limb_count(total_bits_for(modulus))),
{
    let bits = total_bits_for(modulus);
    let k = bit_length(modulus);
    lemma_barrett_bounds(modulus);
    lemma_bit_length_fits(modulus, bits);
    assert(k <= bits);
    assert(k + 5 < 120 * limb_count(bits));
    lemma_pow2_strictly_increases(k + 5, 120 * limb_count(bits));
}

/// What was written is what is verified: for a hash of one or more bytes and
/// a signature below two to the modulus's width, verifying the artifact's hash
/// and signature limbs asks the primitive about that hash and the shortest
/// byte string of that signature.
pub proof fn lemma_written_is_verified(
    hash: Seq<u8>,
    modulus: nat,
    redc: nat,
    signature: nat,
    public_key: Seq<u8>,
)
    requires
        hash.len() >= 1,
        signature < pow2(total_bits_for(modulus)),
        public_key_valid(public_key),
    ensures
        ({
            let artifact = written_artifact(hash, modulus, redc, signature);
            verification_outcome(artifact.hash, artifact.signature_limbs, public_key) == Ok::<
                bool,
                RsaError,
            >(pkcs1v15_sha256_accepts(public_key, hash, be_bytes(signature)))
        }),
{
    let bits = total_bits_for(modulus);
    let count = limb_count(bits);
    let row = low_limbs(signature, count);
    lemma_hash_text_round_trip(hash);
    lemma_low_limbs_value(signature, count);
    lemma_limbs_text_round_trip(row);
    lemma_pow2_strictly_increases(bits, 120 * count);
    lemma_round_trip(signature, count);
}

/// Different signatures are written differently: two signatures below two to
/// the modulus's width that differ have different signature limbs.
pub proof fn lemma_signature_limbs_distinct(
    hash: Seq<u8>,
    modulus: nat,
    redc: nat,
    first: nat,
    second: nat,
)
    requires
        first < pow2(total_bits_for(modulus)),
        second < pow2(total_bits_for(modulus)),
        first != second,
    ensures
        written_artifact(hash, modulus, redc, first).signature_limbs != written_artifact(
            hash,
            modulus,
            redc,
            second,
        ).signature_limbs,
{
    let bits = total_bits_for(modulus);
    let count = limb_count(bits);
    lemma_pow2_strictly_increases(bits, 120 * count);
    lemma_low_limbs_value(first, count);
    lemma_low_limbs_value(second, count);
    if limbs_text(low_limbs(first, count)) == limbs_text(low_limbs(second, count)) {
        lemma_limbs_text_injective(low_limbs(first, count), low_limbs(second, count));
        lemma_low_limbs_injective(first, second, count);
    }
}

impl SignatureResult {
    /// An artifact of four given texts.
    pub fn new(hash: String, modulus_limbs: String, redc_limbs: String, signature_limbs: String) -> (artifact:
        SignatureResult)
        ensures
            artifact@ == (SignatureView {
                hash: hash@,
                modulus_limbs: modulus_limbs@,
                redc_limbs: redc_limbs@,
                signature_limbs: signature_limbs@,
            }),
    {
        SignatureResult { hash, modulus_limbs, redc_limbs, signature_limbs }
    }

    /// The message hash: its bytes in decimal.
    pub fn hash(&self) -> (text: String)
        ensures
            text@ == self@.hash,
    {
        self.hash.clone()
    }

    /// The limbs of the modulus.
    pub fn modulus_limbs(&self) -> (text: String)
        ensures
            text@ == self@.modulus_limbs,
    {
        self.modulus_limbs.clone()
    }

    /// The limbs of the modulus's Barrett parameter.
    pub fn redc_limbs(&self) -> (text: String)
        ensures
            text@ == self@.redc_limbs,
    {
        self.redc_limbs.clone()
    }

    /// The limbs of the signature.
    pub fn signature_limbs(&self) -> (text: String)
        ensures
            text@ == self@.signature_limbs,
    {
        self.signature_limbs.clone()
    }
}

/// Writes the artifact of a hash, a modulus, a Barrett parameter and a
/// signature, the three numbers given as big-endian bytes.
pub fn signature_artifact(hash: &[u8], modulus: &[u8], redc: &[u8], signature: &[u8]) -> (artifact:
    Result<SignatureResult, RsaError>)
    ensures
        artifact_view(artifact) == encoded_artifact(
            hash@,
            be_value(modulus@),
            be_value(redc@),
            be_value(signature@),
        ),
{
    let bits: usize = if fits_in_bits(modulus, 1024) {
        1024
    } else {
        2048
    };
    let count = limb_count_for(bits);
    if !fits_in_bits(modulus, bits) || !fits_in_bits(signature, bits) || !fits_in_bits(
        redc,
        120 * count,
    ) {
        return Err(RsaError::ValueTooLarge);
    }
    let modulus_limbs = split_into_120_bit_limbs(modulus, bits);
    let redc_limbs = split_into_120_bit_limbs(redc, bits);
    let signature_limbs = split_into_120_bit_limbs(signature, bits);
    Ok(
        SignatureResult {
            hash: format_hash(hash),
            modulus_limbs: format_limbs_as_hex(&modulus_limbs),
            redc_limbs: format_limbs_as_hex(&redc_limbs),
            signature_limbs: format_limbs_as_hex(&signature_limbs),
        },
    )
}

/// Signs a message with a private key in PKCS#8 DER and writes the artifact.
pub fn generate_signature_from_key(msg: &str, private_key: &[u8]) -> (artifact: Result<
    SignatureResult,
    RsaError,
>)
    ensures
        artifact_view(artifact) == signing_outcome(private_key@, msg.spec_bytes()),
        artifact is Ok ==> sha256(msg.spec_bytes()).len() == 32,
{
    let message = msg.as_bytes();
    if !private_key_parses(private_key) {
        return Err(RsaError::KeyParseError(KeyPart::Private));
    }
    let signature = match sign_pkcs1v15_sha256(private_key, message) {
        Ok(bytes) => bytes,
        Err(_) => {
            return Err(RsaError::SigningFailed);
        },
    };
    let digest = sha256_digest(message);
    let modulus = modulus_of_private_key(private_key);
    let redc = match compute_barrett(modulus.as_slice()) {
        Some(bytes) => bytes,
        None => {
            return Err(RsaError::ValueTooLarge);
        },
    };
    proof {
        lemma_be_bytes_value(barrett_parameter(be_value(modulus@)));
    }
    signature_artifact(
        digest.as_slice(),
        modulus.as_slice(),
        redc.as_slice(),
        signature.as_slice(),
    )
}

/// Signs a message with the key of a seed, a bit length and a public exponent.
pub fn generate_signature_with_seed(msg: &str, bits: u32, exponent: u32, seed: &[u8; 32]) -> (artifact:
    Result<SignatureResult, RsaError>)
    ensures
        artifact_view(artifact) == seeded_signing_outcome(
            msg.spec_bytes(),
            bits,
            exponent,
            seed@,
        ),
{
    match key_pair_from_seed(seed, bits, exponent) {
        Err(error) => Err(error),
        Ok(pair) => {
            let private_key = pair.private_key();
            generate_signature_from_key(msg, private_key.as_slice())
        },
    }
}

/// Signs a message with a fresh key of the given bit length and public
/// exponent: the key of a seed that is drawn at random.
pub fn generate_signature(msg: &str, bits: u32, exponent: u32) -> (artifact: Result<
    SignatureResult,
    RsaError,
>)
    ensures
        exists|seed: Seq<u8>|
            seed.len() == 32 && artifact_view(artifact) == #[trigger] seeded_signing_outcome(
                msg.spec_bytes(),
                bits,
                exponent,
                seed,
            ),
        bits != 1024 && bits != 2048 ==> artifact_view(artifact) == Err::<SignatureView, RsaError>(
            RsaError::InvalidBitLength,
        ),
{
    let seed = fresh_seed();
    generate_signature_with_seed(msg, bits, exponent, &seed)
}

/// Verifies a written hash and written signature limbs under a public key in SPKI DER.
pub fn verify(hash_field: &str, signature_limbs: &str, public_key: &[u8]) -> (accepted: Result<
    bool,
    RsaError,
>)
    ensures
        accepted == verification_outcome(hash_field@, signature_limbs@, public_key@),
{
    if !public_key_parses(public_key) {
        return Err(RsaError::KeyParseError(KeyPart::Public));
    }
    let hash = match parse_hash(hash_field) {
        Some(bytes) => bytes,
        None => {
            return Err(RsaError::VerificationParseError);
        },
    };
    let limbs = match parse_limbs(signature_limbs) {
        Some(row) => row,
        None => {
            return Err(RsaError::MalformedSignature);
        },
    };
    let signature = decode(limbs.as_slice());
    Ok(verify_pkcs1v15_sha256(public_key, hash.as_slice(), signature.as_slice()))
}

/// Verifies the signature of an artifact under a public key in SPKI DER.
pub fn verify_signature(signature_result: &SignatureResult, public_key: &[u8]) -> (accepted:
    Result<bool, RsaError>)
    ensures
        accepted == verification_outcome(
            signature_result@.hash,
            signature_result@.signature_limbs,
            public_key@,
        ),
{
    verify(
        signature_result.hash.as_str(),
        signature_result.signature_limbs.as_str(),
        public_key,
    )
}

} // verus!

//! Key pairs: a private key in PKCS#8 DER and a public key in SPKI DER, and
//! their derivation from a secret.
//!
//! A secret is hashed to a seed, and the seed, the bit length and the public
//! exponent decide the key pair: the same three give the same keys, byte for
//! byte.

use crate::error::{KeyPart, RsaError};
use crate::primitives::{
    fresh_seed, generate_key_pair_der, private_key_parses, private_key_valid, public_key_parses,
    public_key_valid, seeded_key_pair, sha256, sha256_digest,
};
use vstd::prelude::*;
use vstd::string::*;

verus! {

/// A private key and a public key, each as encoded bytes.
pub struct KeyPair {
    private_key: Vec<u8>,
    public_key: Vec<u8>,
}

/// What a key pair holds.
pub struct KeyPairView {
    /// The private key in PKCS#8 DER.
    pub private_key: Seq<u8>,
    /// The public key in SPKI DER.
    pub public_key: Seq<u8>,
}

impl View for KeyPair {
    type V = KeyPairView;

    closed spec fn view(&self) -> KeyPairView {
        KeyPairView { private_key: self.private_key@, public_key: self.public_key@ }
    }
}

/// The key pair of a seed, a bit length and a public exponent. A bit length
/// other than 1024 and 2048 is refused; an even exponent has no key.
pub open spec fn key_pair_of_seed(seed: Seq<u8>, bits: u32, exponent: u32) -> Result<
    KeyPairView,
    RsaError,
> {
    if bits != 1024 && bits != 2048 {
        Err(RsaError::InvalidBitLength)
    } else if exponent % 2 == 0 {
        Err(RsaError::KeyGenerationFailed)
    } else {
        match seeded_key_pair(seed, bits as nat, exponent as nat) {
            Some(keys) => Ok(KeyPairView { private_key: keys.0, public_key: keys.1 }),
            None => Err(RsaError::KeyGenerationFailed),
        }
    }
}

/// The key pair of a secret: the key pair of the seed that is the secret's SHA-256 digest.
pub open spec fn key_pair_of_secret(secret: Seq<u8>, bits: u32, exponent: u32) -> Result<
    KeyPairView,
    RsaError,
> {
    key_pair_of_seed(sha256(secret), bits, exponent)
}

/// What a derivation gave, by the bytes of the keys.
pub open spec fn outcome_view(outcome: Result<KeyPair, RsaError>) -> Result<KeyPairView, RsaError> {
    match outcome {
        Ok(pair) => Ok(pair@),
        Err(error) => Err(error),
    }
}

/// What two byte strings are as a key pair: the private key is looked at first.
pub open spec fn validated_key_pair(private_key: Seq<u8>, public_key: Seq<u8>) -> Result<
    KeyPairView,
    RsaError,
> {
    if !private_key_valid(private_key) {
        Err(RsaError::KeyParseError(KeyPart::Private))
    } else if !public_key_valid(public_key) {
        Err(RsaError::KeyParseError(KeyPart::Public))
    } else {
        Ok(KeyPairView { private_key, public_key })
    }
}

/// Derivation is deterministic: two derivations from the same secret, bit
/// length and exponent end alike, with the same key bytes or the same failure.
pub proof fn lemma_derivation_deterministic(
    first: Result<KeyPair, RsaError>,
    second: Result<KeyPair, RsaError>,
    secret: Seq<u8>,
    bits: u32,
    exponent: u32,
)
    requires
        outcome_view(first) == key_pair_of_secret(secret, bits, exponent),
        outcome_view(second) == key_pair_of_secret(secret, bits, exponent),
    ensures
        outcome_view(first) == outcome_view(second),
        first is Ok ==> second is Ok && first->Ok_0@ == second->Ok_0@,
{
}

/// The seed of 32 bytes that a digest is.
pub fn seed_of(digest: &[u8]) -> (seed: [u8; 32])
    requires
        digest@.len() == 32,
    ensures
        seed@ == digest@,
{
    let mut seed: [u8; 32] = [0u8; 32];
    let mut at: usize = 0;
    while at < 32
        invariant
            at <= 32,
            digest@.len() == 32,
            forall|i: int| 0 <= i < at ==> seed@[i] == digest@[i],
        decreases 32 - at,
    {
        seed[at] = digest[at];
        at = at + 1;
    }
    proof {
        assert(seed@ =~= digest@);
    }
    seed
}

impl KeyPair {
    /// The private key in PKCS#8 DER.
    pub fn private_key(&self) -> (bytes: Vec<u8>)
        ensures
            bytes@ == self@.private_key,
    {
        self.private_key.clone()
    }

    /// The public key in SPKI DER.
    pub fn public_key(&self) -> (bytes: Vec<u8>)
        ensures
            bytes@ == self@.public_key,
    {
        self.public_key.clone()
    }

    /// A key pair of the given bytes, where both parse as keys.
    pub fn new(private_key: Vec<u8>, public_key: Vec<u8>) -> (pair: Result<KeyPair, RsaError>)
        ensures
            outcome_view(pair) == validated_key_pair(private_key@, public_key@),
    {
        if !private_key_parses(private_key.as_slice()) {
            return Err(RsaError::KeyParseError(KeyPart::Private));
        }
        if !public_key_parses(public_key.as_slice()) {
            return Err(RsaError::KeyParseError(KeyPart::Public));
        }
        Ok(KeyPair { private_key, public_key })
    }
}

/// Derives the key pair of a seed, a bit length and a public exponent.
pub fn key_pair_from_seed(seed: &[u8; 32], bits: u32, exponent: u32) -> (pair: Result<
    KeyPair,
    RsaError,
>)
    ensures
        outcome_view(pair) == key_pair_of_seed(seed@, bits, exponent),
{
    if bits != 1024 && bits != 2048 {
        return Err(RsaError::InvalidBitLength);
    }
    if exponent % 2 == 0 {
        return Err(RsaError::KeyGenerationFailed);
    }
    match generate_key_pair_der(seed, bits as usize, exponent) {
        Ok(keys) => Ok(KeyPair { private_key: keys.0, public_key: keys.1 }),
        Err(_) => Err(RsaError::KeyGenerationFailed),
    }
}

/// Generates a key pair that nothing reproduces: the key pair of a seed that
/// is drawn at random.
pub fn generate_key_pair(bits: u32, exponent: u32) -> (pair: Result<KeyPair, RsaError>)
    ensures
        exists|seed: Seq<u8>|
            seed.len() == 32 && outcome_view(pair) == #[trigger] key_pair_of_seed(
                seed,
                bits,
                exponent,
            ),
{
    let seed = fresh_seed();
    key_pair_from_seed(&seed, bits, exponent)
}

/// Derives the key pair of a secret, a bit length and a public exponent.
pub fn create_key_pair(secret: &str, bits: u32, exponent: u32) -> (pair: Result<KeyPair, RsaError>)
    ensures
        outcome_view(pair) == key_pair_of_secret(secret.spec_bytes(), bits, exponent),
{
    let digest = sha256_digest(secret.as_bytes());
    let seed = seed_of(digest.as_slice());
    key_pair_from_seed(&seed, bits, exponent)
}

} // verus!

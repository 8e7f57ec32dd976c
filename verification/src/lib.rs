//! Deterministic RSA keys and PKCS#1 v1.5 signatures, written down as rows of
//! 120-bit limbs for a verifier that reckons in limbs.
//!
//! The codec between big integers and limbs stands in `natural`, `limbs`,
//! `text` and `notation`; `barrett` has the reduction parameter of a modulus;
//! `keys`, `signature` and `encryption` are the operations on keys;
//! `report` and `relay` make what the command line prints and what the proof
//! relay answers. All calls into other crates stand in `primitives`.

pub mod barrett;
pub mod encryption;
pub mod error;
pub mod keys;
pub mod limbs;
pub mod natural;
pub mod notation;
pub mod primitives;
pub mod relay;
pub mod report;
pub mod signature;
pub mod text;

pub use crate::encryption::{decrypt, encrypt, encrypt_with_seed, EncryptedMessage};
pub use crate::error::{KeyPart, RsaError};
pub use crate::keys::{create_key_pair, generate_key_pair, key_pair_from_seed, KeyPair};
pub use crate::signature::{
    generate_signature, generate_signature_from_key, generate_signature_with_seed,
    signature_artifact, verify, verify_signature, SignatureResult,
};
pub use crate::relay::{
    is_valid_hex, respond_to_invalid_json, respond_to_submission, respond_without_body, route,
    ProofData, ProofPayload, RelayResponse, Route,
};
pub use crate::report::{
    generate_1024_bit_signature_parameters, generate_2048_bit_signature_parameters, render_report,
};

//! What the command line prints for a message signed with a fresh key.
//!
//! The functions here make the text; printing it is the caller's part. A
//! success is text for the standard output, a failure is text for the
//! standard error.

use crate::error::RsaError;
use crate::signature::{
    artifact_view, generate_signature, seeded_signing_outcome, SignatureResult, SignatureView,
};
use crate::text::{push_text, string_of};
use vstd::prelude::*;
use vstd::string::*;

verus! {

/// The four lines of an artifact: as `name = [values]` where `as_toml` is
/// set, else as `Name: values`.
pub open spec fn artifact_lines(artifact: SignatureView, as_toml: bool) -> Seq<char> {
    if as_toml {
        "hash = ["@ + artifact.hash + "]\nmodulus = ["@ + artifact.modulus_limbs + "]\nredc = ["@
            + artifact.redc_limbs + "]\nsignature = ["@ + artifact.signature_limbs + "]\n"@
    } else {
        "Hash: "@ + artifact.hash + "\nModulus: "@ + artifact.modulus_limbs
            + "\nREDC parameter: "@ + artifact.redc_limbs + "\nSignature: "@
            + artifact.signature_limbs + "\n"@
    }
}

/// The line of a failure.
pub open spec fn failure_line(error: RsaError) -> Seq<char> {
    "Error: "@ + error.message_text() + "\n"@
}

/// The text of an outcome: the lines of the artifact, or the line of the failure.
pub open spec fn report_of(outcome: Result<SignatureView, RsaError>, as_toml: bool) -> Result<
    Seq<char>,
    Seq<char>,
> {
    match outcome {
        Ok(artifact) => Ok(artifact_lines(artifact, as_toml)),
        Err(error) => Err(failure_line(error)),
    }
}

/// A report, by the characters of its text.
pub open spec fn report_view(report: Result<String, String>) -> Result<Seq<char>, Seq<char>> {
    match report {
        Ok(text) => Ok(text@),
        Err(text) => Err(text@),
    }
}

/// Makes the text of an outcome of signing.
pub fn render_report(outcome: &Result<SignatureResult, RsaError>, as_toml: bool) -> (report: Result<
    String,
    String,
>)
    ensures
        report_view(report) == report_of(artifact_view(*outcome), as_toml),
{
    let mut out: Vec<char> = Vec::new();
    match outcome {
        Ok(artifact) => {
            let hash = artifact.hash();
            let modulus = artifact.modulus_limbs();
            let redc = artifact.redc_limbs();
            let signature = artifact.signature_limbs();
            if as_toml {
                push_text(&mut out, "hash = [");
                push_text(&mut out, hash.as_str());
                push_text(&mut out, "]\nmodulus = [");
                push_text(&mut out, modulus.as_str());
                push_text(&mut out, "]\nredc = [");
                push_text(&mut out, redc.as_str());
                push_text(&mut out, "]\nsignature = [");
                push_text(&mut out, signature.as_str());
                push_text(&mut out, "]\n");
            } else {
                push_text(&mut out, "Hash: ");
                push_text(&mut out, hash.as_str());
                push_text(&mut out, "\nModulus: ");
                push_text(&mut out, modulus.as_str());
                push_text(&mut out, "\nREDC parameter: ");
                push_text(&mut out, redc.as_str());
                push_text(&mut out, "\nSignature: ");
                push_text(&mut out, signature.as_str());
                push_text(&mut out, "\n");
            }
            proof {
                assert(out@ =~= artifact_lines(artifact@, as_toml));
            }
            Ok(string_of(out.as_slice()))
        },
        Err(error) => {
            let message = error.message();
            push_text(&mut out, "Error: ");
            push_text(&mut out, message.as_str());
            push_text(&mut out, "\n");
            proof {
                assert(out@ =~= failure_line(*error));
            }
            Err(string_of(out.as_slice()))
        },
    }
}

/// Signs a message with a fresh key of the given bit length and makes the text to print.
fn signature_parameters(msg: &str, bits: u32, as_toml: bool, e: u32) -> (report: Result<
    String,
    String,
>)
    ensures
        exists|seed: Seq<u8>|
            seed.len() == 32 && report_view(report) == report_of(
                #[trigger] seeded_signing_outcome(msg.spec_bytes(), bits, e, seed),
                as_toml,
            ),
{
    let outcome = generate_signature(msg, bits, e);
    render_report(&outcome, as_toml)
}

/// Signs a message with a fresh key of 1024 bits and the public exponent `e`,
/// and makes the text to print.
pub fn generate_1024_bit_signature_parameters(msg: &str, as_toml: bool, e: u32) -> (report: Result<
    String,
    String,
>)
    ensures
        exists|seed: Seq<u8>|
            seed.len() == 32 && report_view(report) == report_of(
                #[trigger] seeded_signing_outcome(msg.spec_bytes(), 1024, e, seed),
                as_toml,
            ),
{
    signature_parameters(msg, 1024, as_toml, e)
}

/// Signs a message with a fresh key of 2048 bits and the public exponent `e`,
/// and makes the text to print.
pub fn generate_2048_bit_signature_parameters(msg: &str, as_toml: bool, e: u32) -> (report: Result<
    String,
    String,
>)
    ensures
        exists|seed: Seq<u8>|
            seed.len() == 32 && report_view(report) == report_of(
                #[trigger] seeded_signing_outcome(msg.spec_bytes(), 2048, e, seed),
                as_toml,
            ),
{
    signature_parameters(msg, 2048, as_toml, e)
}

} // verus!

//! The rules of the proof relay: which request gets which answer.
//!
//! The relay answers `POST /tx` after making sure that every string of the
//! submitted payload is empty or is `0x` and hexadecimal digits, `GET /` with
//! a sign of life, and everything else with "not found". Reading a request
//! and sending the answer are the caller's part.

use crate::text::{
    chars_of, digit_of, digit_value, digits_text, push_digits, push_text, string_of,
};
use vstd::prelude::*;
use vstd::string::*;

verus! {

/// The proof of a submission.
pub struct ProofData {
    /// The proof itself, a hexadecimal string.
    pub proof: String,
    /// The public inputs of the proof, hexadecimal strings.
    pub public_inputs: Vec<String>,
}

/// A submission to the relay.
pub struct ProofPayload {
    /// The proof and its public inputs.
    pub proof: ProofData,
    /// The payload that goes with the proof, hexadecimal strings.
    pub payload: Vec<String>,
}

/// The answer to a request: a status code and a body.
pub struct RelayResponse {
    /// The HTTP status code.
    pub status: u16,
    /// The text of the body.
    pub body: String,
}

/// What a request asks for.
#[derive(Clone, Copy, Debug, PartialEq, Eq, Structural)]
pub enum Route {
    /// `POST /tx`: a submission, whose body is to be read.
    SubmitProof,
    /// `GET /`: a sign of life.
    Liveness,
    /// Anything else.
    NotFound,
}

/// An answer, by its status and the characters of its body.
pub struct ResponseView {
    /// The HTTP status code.
    pub status: u16,
    /// The text of the body.
    pub body: Seq<char>,
}

impl View for RelayResponse {
    type V = ResponseView;

    open spec fn view(&self) -> ResponseView {
        ResponseView { status: self.status, body: self.body@ }
    }
}

/// Whether a text is a hexadecimal string: empty, or `0x` and then nothing but hexadecimal digits.
pub open spec fn hex_string(text: Seq<char>) -> bool {
    text.len() == 0 || (text.len() >= 2 && text[0] == '0' && text[1] == 'x' && forall|i: int|
        2 <= i < text.len() ==> digit_value(#[trigger] text[i]) < 16)
}

/// The texts of a list of strings.
pub open spec fn texts(items: Seq<String>) -> Seq<Seq<char>> {
    Seq::new(items.len(), |i: int| items[i]@)
}

/// The place of the first text of a list that is no hexadecimal string; the
/// list's length where all are.
pub open spec fn first_not_hex(items: Seq<Seq<char>>) -> int
    decreases items.len(),
{
    if items.len() == 0 {
        0
    } else if !hex_string(items[0]) {
        0
    } else {
        1 + first_not_hex(items.drop_first())
    }
}

/// What a request asks for, by its method and path.
pub open spec fn route_of(method: Seq<char>, path: Seq<char>) -> Route {
    if method == "POST"@ && path == "/tx"@ {
        Route::SubmitProof
    } else if method == "GET"@ && path == "/"@ {
        Route::Liveness
    } else {
        Route::NotFound
    }
}

/// The answer to a submission: the first string that is not hexadecimal is
/// named, the proof before the public inputs and those before the payload.
pub open spec fn submission_response(
    proof: Seq<char>,
    public_inputs: Seq<Seq<char>>,
    payload: Seq<Seq<char>>,
) -> ResponseView {
    if !hex_string(proof) {
        ResponseView { status: 400, body: "Invalid hex format in proof.proof"@ }
    } else if first_not_hex(public_inputs) < public_inputs.len() {
        ResponseView {
            status: 400,
            body: "Invalid hex format in publicInputs["@ + digits_text(
                first_not_hex(public_inputs) as nat,
                10,
            ) + "]"@,
        }
    } else if first_not_hex(payload) < payload.len() {
        ResponseView {
            status: 400,
            body: "Invalid hex format in payload["@ + digits_text(first_not_hex(payload) as nat, 10)
                + "]"@,
        }
    } else {
        ResponseView { status: 200, body: "okay"@ }
    }
}

/// The answer to a request that needs no body; none for a submission.
pub open spec fn plain_response(route: Route) -> Option<ResponseView> {
    match route {
        Route::SubmitProof => None,
        Route::Liveness => Some(ResponseView { status: 200, body: "Relayer is running"@ }),
        Route::NotFound => Some(ResponseView { status: 404, body: "Not Found"@ }),
    }
}

/// What the place of the first text that is no hexadecimal string is.
pub proof fn lemma_first_not_hex(items: Seq<Seq<char>>)
    ensures
        0 <= first_not_hex(items) <= items.len(),
        first_not_hex(items) < items.len() ==> !hex_string(items[first_not_hex(items)]),
        forall|i: int| 0 <= i < first_not_hex(items) ==> hex_string(#[trigger] items[i]),
    decreases items.len(),
{
    if items.len() > 0 && hex_string(items[0]) {
        let rest = items.drop_first();
        lemma_first_not_hex(rest);
        assert forall|i: int| 0 <= i < first_not_hex(items) implies hex_string(
            #[trigger] items[i],
        ) by {
            if i > 0 {
                assert(items[i] == rest[i - 1]);
            }
        }
        if first_not_hex(rest) < rest.len() {
            assert(rest[first_not_hex(rest)] == items[first_not_hex(rest) + 1]);
        }
    }
}

/// A submission whose strings are all hexadecimal is answered with 200 and
/// `okay`; any other is answered with 400.
pub proof fn lemma_submission_status(
    proof: Seq<char>,
    public_inputs: Seq<Seq<char>>,
    payload: Seq<Seq<char>>,
)
    ensures
        ({
            let all_hex = hex_string(proof) && (forall|i: int|
                0 <= i < public_inputs.len() ==> hex_string(#[trigger] public_inputs[i]))
                && (forall|i: int| 0 <= i < payload.len() ==> hex_string(#[trigger] payload[i]));
            let response = submission_response(proof, public_inputs, payload);
            &&& all_hex ==> response.status == 200 && response.body == "okay"@
            &&& !all_hex ==> response.status == 400
        }),
{
    lemma_first_not_hex(public_inputs);
    lemma_first_not_hex(payload);
}

/// Whether a text is a hexadecimal string: empty, or `0x` and then nothing but hexadecimal digits.
pub fn is_valid_hex(s: &str) -> (valid: bool)
    ensures
        valid == hex_string(s@),
{
    let chars = chars_of(s);
    if chars.len() == 0 {
        return true;
    }
    if chars.len() < 2 || chars[0] != '0' || chars[1] != 'x' {
        return false;
    }
    let mut at: usize = 2;
    while at < chars.len()
        invariant
            2 <= at <= chars.len(),
            chars@ == s@,
            forall|i: int| 2 <= i < at ==> digit_value(#[trigger] chars@[i]) < 16,
        decreases chars.len() - at,
    {
        if digit_of(chars[at]) >= 16 {
            return false;
        }
        at = at + 1;
    }
    true
}

/// The place of the first string of a list that is not hexadecimal; the list's length where all are.
pub fn find_not_hex(items: &Vec<String>) -> (place: usize)
    ensures
        place == first_not_hex(texts(items@)),
        place <= items@.len(),
{
    let mut at: usize = 0;
    proof {
        assert(texts(items@).skip(0) =~= texts(items@));
    }
    while at < items.len()
        invariant
            at <= items@.len(),
            first_not_hex(texts(items@)) == at + first_not_hex(texts(items@).skip(at as int)),
        decreases items@.len() - at,
    {
        proof {
            let rest = texts(items@).skip(at as int);
            assert(rest[0] == items@[at as int]@);
            assert(rest.drop_first() =~= texts(items@).skip(at + 1));
        }
        if !is_valid_hex(items[at].as_str()) {
            return at;
        }
        at = at + 1;
    }
    at
}

/// Whether the characters are those of the given text.
fn same_text(chars: &[char], text: &str) -> (same: bool)
    ensures
        same == (chars@ == text@),
{
    let other = chars_of(text);
    if chars.len() != other.len() {
        return false;
    }
    let mut at: usize = 0;
    while at < chars.len()
        invariant
            at <= chars.len(),
            chars.len() == other.len(),
            other@ == text@,
            forall|i: int| 0 <= i < at ==> chars@[i] == other@[i],
        decreases chars.len() - at,
    {
        if chars[at] != other[at] {
            return false;
        }
        at = at + 1;
    }
    proof {
        assert(chars@ =~= other@);
    }
    true
}

/// What a request asks for, by its method and path.
pub fn route(method: &str, path: &str) -> (asked: Route)
    ensures
        asked == route_of(method@, path@),
{
    let method_chars = chars_of(method);
    let path_chars = chars_of(path);
    if same_text(method_chars.as_slice(), "POST") && same_text(path_chars.as_slice(), "/tx") {
        Route::SubmitProof
    } else if same_text(method_chars.as_slice(), "GET") && same_text(path_chars.as_slice(), "/") {
        Route::Liveness
    } else {
        Route::NotFound
    }
}

/// The answer to a request that needs no body; none for a submission, whose body is to be read first.
pub fn respond_without_body(asked: Route) -> (response: Option<RelayResponse>)
    ensures
        response matches Some(answer) ==> plain_response(asked) == Some(answer@),
        response is None ==> plain_response(asked) is None,
{
    match asked {
        Route::SubmitProof => None,
        Route::Liveness => Some(RelayResponse { status: 200, body: "Relayer is running".to_owned() }),
        Route::NotFound => Some(RelayResponse { status: 404, body: "Not Found".to_owned() }),
    }
}

/// The answer that names a string of a list that is not hexadecimal.
fn invalid_item_response(list: &str, place: usize) -> (response: RelayResponse)
    ensures
        response@ == (ResponseView {
            status: 400,
            body: "Invalid hex format in "@ + list@ + "["@ + digits_text(place as nat, 10) + "]"@,
        }),
{
    let mut body: Vec<char> = Vec::new();
    push_text(&mut body, "Invalid hex format in ");
    push_text(&mut body, list);
    push_text(&mut body, "[");
    push_digits(&mut body, place as u128, 10);
    push_text(&mut body, "]");
    proof {
        assert(body@ =~= "Invalid hex format in "@ + list@ + "["@ + digits_text(place as nat, 10)
            + "]"@);
    }
    RelayResponse { status: 400, body: string_of(body.as_slice()) }
}

/// The answer to a submission.
pub fn respond_to_submission(submission: &ProofPayload) -> (response: RelayResponse)
    ensures
        response@ == submission_response(
            submission.proof.proof@,
            texts(submission.proof.public_inputs@),
            texts(submission.payload@),
        ),
{
    if !is_valid_hex(submission.proof.proof.as_str()) {
        return RelayResponse { status: 400, body: "Invalid hex format in proof.proof".to_owned() };
    }
    let input = find_not_hex(&submission.proof.public_inputs);
    if input < submission.proof.public_inputs.len() {
        proof {
            reveal_strlit("Invalid hex format in ");
            reveal_strlit("publicInputs");
            reveal_strlit("[");
            reveal_strlit("Invalid hex format in publicInputs[");
            assert("Invalid hex format in "@ + "publicInputs"@ + "["@
                =~= "Invalid hex format in publicInputs["@);
        }
        return invalid_item_response("publicInputs", input);
    }
    let item = find_not_hex(&submission.payload);
    if item < submission.payload.len() {
        proof {
            reveal_strlit("Invalid hex format in ");
            reveal_strlit("payload");
            reveal_strlit("[");
            reveal_strlit("Invalid hex format in payload[");
            assert("Invalid hex format in "@ + "payload"@ + "["@
                =~= "Invalid hex format in payload["@);
        }
        return invalid_item_response("payload", item);
    }
    RelayResponse { status: 200, body: "okay".to_owned() }
}

/// The answer to a submission whose body is no valid JSON, with what the reader said of it.
pub fn respond_to_invalid_json(detail: &str) -> (response: RelayResponse)
    ensures
        response@ == (ResponseView { status: 400, body: "Invalid JSON: "@ + detail@ }),
{
    let mut body: Vec<char> = Vec::new();
    push_text(&mut body, "Invalid JSON: ");
    push_text(&mut body, detail);
    proof {
        assert(body@ =~= "Invalid JSON: "@ + detail@);
    }
    RelayResponse { status: 400, body: string_of(body.as_slice()) }
}

} // verus!

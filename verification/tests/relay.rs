use signature_gen::relay::find_not_hex;
use signature_gen::{
    is_valid_hex, respond_to_invalid_json, respond_to_submission, respond_without_body, route,
    ProofData, ProofPayload, Route,
};

fn strings(items: &[&str]) -> Vec<String> {
    let mut out = Vec::new();
    for item in items {
        out.push(String::from(*item));
    }
    out
}

fn submission(proof: &str, public_inputs: &[&str], payload: &[&str]) -> ProofPayload {
    ProofPayload {
        proof: ProofData { proof: String::from(proof), public_inputs: strings(public_inputs) },
        payload: strings(payload),
    }
}

#[test]
fn a_hexadecimal_submission_is_okay() {
    let response = respond_to_submission(&submission("0xAB", &["0x01"], &["0xFF"]));
    assert_eq!(response.status, 200);
    assert_eq!(response.body, "okay");
}

#[test]
fn a_public_input_that_is_not_hex_is_named() {
    let response = respond_to_submission(&submission("0xAB", &["not-hex"], &["0xFF"]));
    assert_eq!(response.status, 400);
    assert_eq!(response.body, "Invalid hex format in publicInputs[0]");
    assert!(response.body.contains("publicInputs[0]"));
}

#[test]
fn the_first_string_that_is_not_hex_is_named() {
    let response = respond_to_submission(&submission("AB", &["zz"], &["zz"]));
    assert_eq!(response.status, 400);
    assert_eq!(response.body, "Invalid hex format in proof.proof");

    let response = respond_to_submission(&submission("", &["0x1", "", "0x", "1", "2"], &["zz"]));
    assert_eq!(response.status, 400);
    assert_eq!(response.body, "Invalid hex format in publicInputs[3]");

    let response = respond_to_submission(&submission("0x", &["0x1"], &["0x1", "0x2", "0xg"]));
    assert_eq!(response.status, 400);
    assert_eq!(response.body, "Invalid hex format in payload[2]");

    let mut many = vec!["0x0"; 12];
    many.push("x");
    let response = respond_to_submission(&submission("0x", &[], &many));
    assert_eq!(response.body, "Invalid hex format in payload[12]");
}

#[test]
fn an_empty_submission_is_okay() {
    let response = respond_to_submission(&submission("", &[], &[]));
    assert_eq!(response.status, 200);
    assert_eq!(response.body, "okay");
}

#[test]
fn a_hexadecimal_string_is_empty_or_marked() {
    assert!(is_valid_hex(""));
    assert!(is_valid_hex("0x"));
    assert!(is_valid_hex("0x0"));
    assert!(is_valid_hex("0xAB"));
    assert!(is_valid_hex("0xabcdefABCDEF0123456789"));
    assert!(!is_valid_hex("0"));
    assert!(!is_valid_hex("x"));
    assert!(!is_valid_hex("AB"));
    assert!(!is_valid_hex("0X12"));
    assert!(!is_valid_hex("1x12"));
    assert!(!is_valid_hex("0xg"));
    assert!(!is_valid_hex("0x12 "));
    assert!(!is_valid_hex(" 0x12"));
    assert!(!is_valid_hex("0x-1"));
    assert!(!is_valid_hex("not-hex"));
    assert!(!is_valid_hex("0xé"));
    assert!(!is_valid_hex("é"));
}

#[test]
fn the_first_bad_string_of_a_list_is_found() {
    assert_eq!(find_not_hex(&strings(&[])), 0);
    assert_eq!(find_not_hex(&strings(&["0x1", "0x2"])), 2);
    assert_eq!(find_not_hex(&strings(&["?", "0x2"])), 0);
    assert_eq!(find_not_hex(&strings(&["0x1", "?", "?"])), 1);
}

#[test]
fn a_request_is_routed_by_method_and_path() {
    assert_eq!(route("POST", "/tx"), Route::SubmitProof);
    assert_eq!(route("GET", "/"), Route::Liveness);
    assert_eq!(route("GET", "/tx"), Route::NotFound);
    assert_eq!(route("POST", "/"), Route::NotFound);
    assert_eq!(route("PUT", "/tx"), Route::NotFound);
    assert_eq!(route("post", "/tx"), Route::NotFound);
    assert_eq!(route("POST", "/tx/"), Route::NotFound);
    assert_eq!(route("", ""), Route::NotFound);
}

#[test]
fn a_request_without_a_body_is_answered_at_once() {
    let alive = respond_without_body(Route::Liveness).unwrap();
    assert_eq!(alive.status, 200);
    assert_eq!(alive.body, "Relayer is running");
    let missing = respond_without_body(Route::NotFound).unwrap();
    assert_eq!(missing.status, 404);
    assert_eq!(missing.body, "Not Found");
    assert!(respond_without_body(Route::SubmitProof).is_none());
}

#[test]
fn a_body_that_is_no_json_is_a_bad_request() {
    let response = respond_to_invalid_json("expected value at line 1 column 1");
    assert_eq!(response.status, 400);
    assert_eq!(response.body, "Invalid JSON: expected value at line 1 column 1");
}

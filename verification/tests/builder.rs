use genai_client::datatypes::{Content, GenerateContentReq};
use genai_client::error::GenAiError;
use genai_client::request::{build_generate_request, build_stream_request};

fn simple_req(model: &str) -> GenerateContentReq {
    GenerateContentReq {
        model: model.to_string(),
        contents: vec![Content {
            parts: None,
            role: Some("user".to_string()),
        }],
        generation_config: None,
        system_instruction: None,
    }
}

#[test]
fn stream_request_url_and_method() {
    let req = simple_req("gemini-pro");
    let p = build_stream_request("https://example.test/v1beta/models", "SECRET-REDACTED", &req)
        .unwrap();
    assert_eq!(p.method, "POST");
    assert_eq!(
        p.url,
        "https://example.test/v1beta/models/gemini-pro:streamGenerateContent?alt=sse&key=SECRET-REDACTED"
    );
    assert!(p.accept_sse);
    assert!(!p.body.is_empty());
}

#[test]
fn generate_request_url() {
    let req = simple_req("m2");
    let p = build_generate_request("https://example.test/models", "k", &req).unwrap();
    assert_eq!(p.url, "https://example.test/models/m2:generateContent?key=k");
    assert!(!p.accept_sse);
}

#[test]
fn empty_model_is_a_local_validation_error() {
    let req = simple_req("");
    match build_stream_request("https://example.test", "k", &req) {
        Err(GenAiError::LocalValidation { .. }) => {}
        other => panic!("expected a local validation error, got {:?}", other),
    }
    assert!(build_generate_request("https://example.test", "k", &req).is_err());
}

#[test]
fn from_response_lowercases_header_names_only() {
    let e = GenAiError::from_response(
        503,
        vec![
            ("X-Rate-Limit".to_string(), "MixedCaseValue".to_string()),
            ("retry-after".to_string(), "30".to_string()),
        ],
        "overloaded".to_string(),
    );
    match e {
        GenAiError::Remote {
            status,
            message,
            headers,
        } => {
            assert_eq!(status, 503);
            assert_eq!(message, "overloaded");
            assert_eq!(headers[0], ("x-rate-limit".to_string(), "MixedCaseValue".to_string()));
            assert_eq!(headers[1], ("retry-after".to_string(), "30".to_string()));
        }
        other => panic!("expected a remote error, got {:?}", other),
    }
}

#[test]
fn header_names_lowercase_only_ascii_letters() {
    let e = GenAiError::from_response(
        500,
        vec![("X-\u{c9}-Header".to_string(), "v".to_string())],
        String::new(),
    );
    match e {
        GenAiError::Remote { headers, .. } => {
            assert_eq!(headers[0].0, "x-\u{c9}-header");
        }
        other => panic!("expected a remote error, got {:?}", other),
    }
}

#[test]
fn repeated_header_names_keep_one_entry_last_value_wins() {
    let e = GenAiError::from_response(
        429,
        vec![
            ("Set-Cookie".to_string(), "first".to_string()),
            ("Retry-After".to_string(), "30".to_string()),
            ("set-cookie".to_string(), "second".to_string()),
        ],
        "quota exceeded".to_string(),
    );
    match e {
        GenAiError::Remote { headers, .. } => {
            assert_eq!(
                headers,
                vec![
                    ("set-cookie".to_string(), "second".to_string()),
                    ("retry-after".to_string(), "30".to_string()),
                ]
            );
        }
        other => panic!("expected a remote error, got {:?}", other),
    }
}

#[test]
fn decode_cause_text_names_the_cause() {
    assert_eq!(
        genai_client::error::DecodeCause::MalformedJson.text(),
        "malformed JSON"
    );
    assert_eq!(
        genai_client::error::DecodeCause::UnexpectedShape.text(),
        "JSON of an unexpected shape"
    );
}

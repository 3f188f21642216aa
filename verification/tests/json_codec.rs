use genai_client::codec::encode_request;
use genai_client::datatypes::{
    Blob, Content, FunctionCall, GenerateContentReq, Part,
};
use genai_client::json::{to_json_bytes, Json};
use genai_client::parse::parse_json;
use genai_client::stream::decode_response;

fn text_part(t: &str) -> Part {
    Part {
        video_metadata: None,
        code_execution_result: None,
        executable_code: None,
        file_data: None,
        function_call: None,
        function_response: None,
        inline_data: None,
        text: Some(t.to_string()),
    }
}

#[test]
fn parse_literals_and_numbers() {
    assert_eq!(parse_json(b"null"), Some(Json::Null));
    assert_eq!(parse_json(b"true"), Some(Json::Bool(true)));
    assert_eq!(parse_json(b" false "), Some(Json::Bool(false)));
    assert_eq!(parse_json(b"42"), Some(Json::Int(42)));
    assert_eq!(parse_json(b"-7"), Some(Json::Int(-7)));
    assert_eq!(parse_json(b"0"), Some(Json::Int(0)));
    assert_eq!(parse_json(b"1.5"), Some(Json::Num("1.5".to_string())));
    assert_eq!(parse_json(b"2e10"), Some(Json::Num("2e10".to_string())));
    // out of i64 range: kept verbatim
    assert_eq!(
        parse_json(b"99999999999999999999"),
        Some(Json::Num("99999999999999999999".to_string()))
    );
}

#[test]
fn parse_rejects_malformed_input() {
    assert_eq!(parse_json(b""), None);
    assert_eq!(parse_json(b"{broken"), None);
    assert_eq!(parse_json(b"01"), None);
    assert_eq!(parse_json(b"nul"), None);
    assert_eq!(parse_json(b"[1,]"), None);
    assert_eq!(parse_json(b"\"unterminated"), None);
    assert_eq!(parse_json(b"1 2"), None);
}

#[test]
fn parse_strings_with_escapes() {
    assert_eq!(
        parse_json(b"\"a\\n\\t\\\"b\\\\\""),
        Some(Json::Text("a\n\t\"b\\".to_string()))
    );
    assert_eq!(parse_json(b"\"\\u0041\""), Some(Json::Text("A".to_string())));
    assert_eq!(
        parse_json(b"\"\\u00e9\""),
        Some(Json::Text("\u{e9}".to_string()))
    );
    // a surrogate pair
    assert_eq!(
        parse_json(b"\"\\ud83d\\ude00\""),
        Some(Json::Text("\u{1f600}".to_string()))
    );
    // a lone surrogate is malformed
    assert_eq!(parse_json(b"\"\\ud83d\""), None);
    // raw UTF-8 passes through
    assert_eq!(
        parse_json("\"caf\u{e9}\"".as_bytes()),
        Some(Json::Text("caf\u{e9}".to_string()))
    );
}

#[test]
fn parse_nested_structures() {
    let j = parse_json(b" { \"a\" : [ 1 , { \"b\" : null } ] } ").unwrap();
    assert_eq!(
        j,
        Json::Obj(vec![(
            "a".to_string(),
            Json::Arr(vec![
                Json::Int(1),
                Json::Obj(vec![("b".to_string(), Json::Null)])
            ])
        )])
    );
}

#[test]
fn serialize_then_parse_is_identity() {
    let v = Json::Obj(vec![
        ("s".to_string(), Json::Text("line\nquote\"done".to_string())),
        ("n".to_string(), Json::Int(-12)),
        ("f".to_string(), Json::Num("2.75".to_string())),
        ("b".to_string(), Json::Bool(false)),
        ("z".to_string(), Json::Null),
        (
            "a".to_string(),
            Json::Arr(vec![Json::Int(1), Json::Int(2), Json::Int(3)]),
        ),
    ]);
    let bytes = to_json_bytes(&v);
    assert_eq!(parse_json(&bytes), Some(v));
}

#[test]
fn serializer_escapes_and_formats() {
    let v = Json::Text("a\"b\\c\nd".to_string());
    assert_eq!(to_json_bytes(&v), b"\"a\\\"b\\\\c\\nd\"".to_vec());
    assert_eq!(to_json_bytes(&Json::Int(-450)), b"-450".to_vec());
    assert_eq!(
        to_json_bytes(&Json::Text("\u{1}".to_string())),
        b"\"\\u0001\"".to_vec()
    );
}

#[test]
fn request_body_has_expected_wire_form() {
    let req = GenerateContentReq {
        model: "gemini-pro".to_string(),
        contents: vec![Content {
            parts: Some(vec![text_part("hi")]),
            role: Some("user".to_string()),
        }],
        generation_config: None,
        system_instruction: None,
    };
    let body = to_json_bytes(&encode_request(&req));
    assert_eq!(
        String::from_utf8(body).unwrap(),
        "{\"model\":\"gemini-pro\",\"contents\":[{\"parts\":[{\"text\":\"hi\"}],\"role\":\"user\"}]}"
    );
}

#[test]
fn request_roundtrip_through_wire_bytes() {
    let req = GenerateContentReq {
        model: "m".to_string(),
        contents: vec![Content {
            parts: Some(vec![
                text_part("ask"),
                Part {
                    video_metadata: None,
                    code_execution_result: None,
                    executable_code: None,
                    file_data: None,
                    function_call: Some(FunctionCall {
                        id: None,
                        args: Some(Json::Obj(vec![("q".to_string(), Json::Int(3))])),
                        name: "lookup".to_string(),
                    }),
                    function_response: None,
                    inline_data: Some(Blob {
                        data: vec![0, 127, 255],
                        mime_type: "application/octet-stream".to_string(),
                    }),
                    text: None,
                },
            ]),
            role: Some("user".to_string()),
        }],
        generation_config: Some(Json::Obj(vec![(
            "temperature".to_string(),
            Json::Num("0.5".to_string()),
        )])),
        system_instruction: Some(Content {
            parts: Some(vec![text_part("be brief")]),
            role: None,
        }),
    };
    let tree = encode_request(&req);
    let bytes = to_json_bytes(&tree);
    // the body parses back to the very tree it was serialized from
    assert_eq!(parse_json(&bytes), Some(tree));
}

#[test]
fn decode_response_reads_all_typed_fields() {
    let mut body = String::new();
    body.push_str("{\"candidates\":[{\"content\":{\"parts\":[{\"text\":\"hello\"}],\"role\":\"model\"},");
    body.push_str("\"finish_reason\":\"STOP\",\"index\":0,\"token_count\":5}],");
    body.push_str("\"model_version\":\"v9\",");
    body.push_str("\"usage_metadata\":{\"prompt_token_count\":2,\"total_token_count\":7},");
    body.push_str("\"unknown_field\":[1,2,3]}");
    let c = decode_response(body.as_bytes()).unwrap();
    let cand = &c.candidates.as_ref().unwrap()[0];
    let parts = cand.content.as_ref().unwrap().parts.as_ref().unwrap();
    assert_eq!(parts[0].text.as_deref(), Some("hello"));
    assert_eq!(
        cand.finish_reason,
        Some(genai_client::datatypes::FinishReason::Stop)
    );
    assert_eq!(cand.index, Some(0));
    assert_eq!(cand.token_count, Some(5));
    assert_eq!(c.model_version.as_deref(), Some("v9"));
    let um = c.usage_metadata.as_ref().unwrap();
    assert_eq!(um.prompt_token_count, Some(2));
    assert_eq!(um.total_token_count, Some(7));
    assert_eq!(um.candidates_token_count, None);
}

#[test]
fn decode_response_decodes_escaped_and_raw_unicode_text() {
    let body = "{\"candidates\":[{\"content\":{\"parts\":[{\"text\":\"caf\u{e9} \\u00e9\"}]}}]}";
    let c = decode_response(body.as_bytes()).unwrap();
    let cands = c.candidates.unwrap();
    let parts = cands[0].content.as_ref().unwrap().parts.as_ref().unwrap();
    assert_eq!(parts[0].text.as_deref(), Some("caf\u{e9} \u{e9}"));
}

#[test]
fn decode_response_rejects_wrong_types() {
    match decode_response(b"{\"candidates\":7}") {
        Err(genai_client::error::GenAiError::PayloadDecode { raw, cause }) => {
            assert_eq!(raw, b"{\"candidates\":7}");
            assert_eq!(cause, genai_client::error::DecodeCause::UnexpectedShape);
        }
        other => panic!("expected a payload error, got {:?}", other),
    }
    match decode_response(b"not json at all") {
        Err(genai_client::error::GenAiError::PayloadDecode { raw, cause }) => {
            assert_eq!(raw, b"not json at all");
            assert_eq!(cause, genai_client::error::DecodeCause::MalformedJson);
        }
        other => panic!("expected a payload error, got {:?}", other),
    }
}

#[test]
fn decode_response_reads_tool_part_variants() {
    let mut body = String::new();
    body.push_str("{\"candidates\":[{\"content\":{\"parts\":[");
    body.push_str("{\"executable_code\":{\"code\":\"print(1)\",\"language\":\"PYTHON\"}},");
    body.push_str("{\"code_execution_result\":{\"outcome\":\"OK\",\"output\":\"1\"}},");
    body.push_str("{\"file_data\":{\"file_uri\":\"gs://f\",\"mime_type\":\"image/png\"}},");
    body.push_str("{\"function_call\":{\"name\":\"f\",\"args\":{\"x\":true}}},");
    body.push_str("{\"inline_data\":{\"data\":[1,2,3],\"mime_type\":\"application/octet-stream\"}}");
    body.push_str("]}}],\"prompt_feedback\":{\"block_reason\":\"SAFETY\"}}");
    let c = decode_response(body.as_bytes()).unwrap();
    let cands = c.candidates.unwrap();
    let parts = cands[0].content.as_ref().unwrap().parts.as_ref().unwrap();
    let ec = parts[0].executable_code.as_ref().unwrap();
    assert_eq!(ec.code, "print(1)");
    assert_eq!(ec.language, genai_client::datatypes::Language::Python);
    let cer = parts[1].code_execution_result.as_ref().unwrap();
    assert_eq!(cer.outcome, genai_client::datatypes::Outcome::Okay);
    assert_eq!(cer.output.as_deref(), Some("1"));
    let fd = parts[2].file_data.as_ref().unwrap();
    assert_eq!(fd.file_uri, "gs://f");
    assert_eq!(fd.mime_type, "image/png");
    let fc = parts[3].function_call.as_ref().unwrap();
    assert_eq!(fc.name, "f");
    assert_eq!(
        fc.args,
        Some(Json::Obj(vec![("x".to_string(), Json::Bool(true))]))
    );
    let blob = parts[4].inline_data.as_ref().unwrap();
    assert_eq!(blob.data, vec![1, 2, 3]);
    let pf = c.prompt_feedback.unwrap();
    assert_eq!(
        pf.block_reason,
        Some(genai_client::datatypes::BlockedReason::Safety)
    );
}

#[test]
fn parse_empty_containers() {
    assert_eq!(parse_json(b"[]"), Some(Json::Arr(vec![])));
    assert_eq!(parse_json(b"{ }"), Some(Json::Obj(vec![])));
    assert_eq!(parse_json(b"[ ]"), Some(Json::Arr(vec![])));
    assert_eq!(parse_json(b"\"\""), Some(Json::Text(String::new())));
}

#[test]
fn duplicate_member_first_occurrence_wins() {
    let c = decode_response(b"{\"model_version\":\"first\",\"model_version\":\"second\"}")
        .unwrap();
    assert_eq!(c.model_version.as_deref(), Some("first"));
}

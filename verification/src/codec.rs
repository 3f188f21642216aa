//! The JSON codec for the protocol records.
//!
//! Encoding maps a request envelope to a JSON tree with a fixed member
//! order; decoding reads a JSON tree back into records, ignoring unknown
//! members and failing on a wrongly-typed one.  The round-trip law
//! [`lemma_request_roundtrip`] proves that encoding then decoding a request
//! body is lossless for every populated field.

use crate::datatypes::{ostr_view, ojson_view, Blob, BlobView, BlockedReason, Candidate, CandidateView, CodeExecutionResult, CodeExecutionResultView, Content, ContentView, ExecutableCode, ExecutableCodeView, FileData, FileDataView, FinishReason, FunctionCall, FunctionCallView, FunctionResponse, FunctionResponseView, GenerateContentReq, GenerateContentReqView, GenerateContentResponse, GenerateContentResponsePromptFeedback, GenerateContentResponsePromptFeedbackView, GenerateContentResponseUsageMetadata, GenerateContentResponseUsageMetadataView, GenerateContentResponseView, Language, Outcome, Part, PartView, VideoMetadata, VideoMetadataView};
use crate::json::{clone_json, jview, jview_elems, jview_members, lemma_jview_elems_push, lemma_jview_members_push, Json, JsonV};
use vstd::prelude::*;

verus! {

broadcast use vstd::seq::group_seq_axioms;

/// The wire string of an execution outcome.
pub open spec fn outcome_str(o: Outcome) -> Seq<char> {
    match o {
        Outcome::Unspecified => "UNSPECIFIED"@,
        Outcome::Okay => "OK"@,
        Outcome::Failed => "FAILED"@,
        Outcome::DeadlineExceeded => "DEADLINE_EXCEEDED"@,
    }
}

/// The execution outcome of a wire string.
pub open spec fn outcome_of(s: Seq<char>) -> Option<Outcome> {
    if s == "UNSPECIFIED"@ {
        Some(Outcome::Unspecified)
    } else if s == "OK"@ {
        Some(Outcome::Okay)
    } else if s == "FAILED"@ {
        Some(Outcome::Failed)
    } else if s == "DEADLINE_EXCEEDED"@ {
        Some(Outcome::DeadlineExceeded)
    } else {
        None
    }
}

/// The wire string of a code language.
pub open spec fn language_str(l: Language) -> Seq<char> {
    match l {
        Language::Unspecified => "UNSPECIFIED"@,
        Language::Python => "PYTHON"@,
    }
}

/// The code language of a wire string.
pub open spec fn language_of(s: Seq<char>) -> Option<Language> {
    if s == "UNSPECIFIED"@ {
        Some(Language::Unspecified)
    } else if s == "PYTHON"@ {
        Some(Language::Python)
    } else {
        None
    }
}

/// The finish reason of a wire string.
pub open spec fn finish_reason_of(s: Seq<char>) -> Option<FinishReason> {
    if s == "UNSPECIFIED"@ {
        Some(FinishReason::Unspecified)
    } else if s == "STOP"@ {
        Some(FinishReason::Stop)
    } else if s == "MAX_TOKENS"@ {
        Some(FinishReason::MaxTokens)
    } else if s == "SAFETY"@ {
        Some(FinishReason::Safety)
    } else if s == "RECITATION"@ {
        Some(FinishReason::Recitation)
    } else if s == "OTHER"@ {
        Some(FinishReason::Other)
    } else if s == "BLOCKLIST"@ {
        Some(FinishReason::Blocklist)
    } else if s == "PROHIBITED_CONTENT"@ {
        Some(FinishReason::ProhibitedContent)
    } else if s == "SPII"@ {
        Some(FinishReason::Spii)
    } else if s == "MALFORMED_FUNCTION_CALL"@ {
        Some(FinishReason::MalformedFunctionCall)
    } else {
        None
    }
}

/// The blocked reason of a wire string.
pub open spec fn blocked_reason_of(s: Seq<char>) -> Option<BlockedReason> {
    if s == "UNSPECIFIED"@ {
        Some(BlockedReason::Unspecified)
    } else if s == "SAFETY"@ {
        Some(BlockedReason::Safety)
    } else if s == "OTHER"@ {
        Some(BlockedReason::Other)
    } else if s == "BLOCKLIST"@ {
        Some(BlockedReason::Blocklist)
    } else if s == "PROHIBITED_CONTENT"@ {
        Some(BlockedReason::ProhibitedContent)
    } else {
        None
    }
}

/// One object member.
pub open spec fn mem1(k: Seq<char>, v: JsonV) -> Seq<(Seq<char>, JsonV)> {
    seq![(k, v)]
}

/// One object member when the value is present, nothing when it is absent.
pub open spec fn omem(k: Seq<char>, v: Option<JsonV>) -> Seq<(Seq<char>, JsonV)> {
    match v {
        Option::Some(j) => seq![(k, j)],
        Option::None => Seq::empty(),
    }
}

/// An optional string as an optional JSON string.
pub open spec fn otext(o: Option<Seq<char>>) -> Option<JsonV> {
    match o {
        Option::Some(s) => Some(JsonV::Text(s)),
        Option::None => None,
    }
}

/// Binary data as a JSON array of byte values.
pub open spec fn bytes_arr(d: Seq<u8>) -> Seq<JsonV> {
    d.map_values(|b: u8| JsonV::Int(b as int))
}

pub open spec fn enc_video(v: VideoMetadataView) -> JsonV {
    JsonV::Obj(omem("end_offset"@, otext(v.end_offset)) + omem("start_offset"@, otext(
        v.start_offset,
    )))
}

pub open spec fn enc_cer(c: CodeExecutionResultView) -> JsonV {
    JsonV::Obj(mem1("outcome"@, JsonV::Text(outcome_str(c.outcome))) + omem("output"@, otext(
        c.output,
    )))
}

pub open spec fn enc_code(e: ExecutableCodeView) -> JsonV {
    JsonV::Obj(mem1("code"@, JsonV::Text(e.code)) + mem1("language"@, JsonV::Text(language_str(
        e.language,
    ))))
}

pub open spec fn enc_file(f: FileDataView) -> JsonV {
    JsonV::Obj(mem1("file_uri"@, JsonV::Text(f.file_uri)) + mem1("mime_type"@, JsonV::Text(
        f.mime_type,
    )))
}

pub open spec fn enc_fcall(f: FunctionCallView) -> JsonV {
    JsonV::Obj(omem("id"@, otext(f.id)) + omem("args"@, f.args) + mem1("name"@, JsonV::Text(
        f.name,
    )))
}

pub open spec fn enc_fresp(f: FunctionResponseView) -> JsonV {
    JsonV::Obj(omem("id"@, otext(f.id)) + mem1("name"@, JsonV::Text(f.name)) + mem1("response"@,
        f.response,
    ))
}

pub open spec fn enc_blob(b: BlobView) -> JsonV {
    JsonV::Obj(mem1("data"@, JsonV::Arr(bytes_arr(b.data))) + mem1("mime_type"@, JsonV::Text(
        b.mime_type,
    )))
}

pub open spec fn enc_part(p: PartView) -> JsonV {
    JsonV::Obj(omem("video_metadata"@, (match p.video_metadata {
        Option::Some(v) => Some(enc_video(v)),
        Option::None => None,
    })) + omem("code_execution_result"@, (match p.code_execution_result {
        Option::Some(v) => Some(enc_cer(v)),
        Option::None => None,
    })) + omem("executable_code"@, (match p.executable_code {
        Option::Some(v) => Some(enc_code(v)),
        Option::None => None,
    })) + omem("file_data"@, (match p.file_data {
        Option::Some(v) => Some(enc_file(v)),
        Option::None => None,
    })) + omem("function_call"@, (match p.function_call {
        Option::Some(v) => Some(enc_fcall(v)),
        Option::None => None,
    })) + omem("function_response"@, (match p.function_response {
        Option::Some(v) => Some(enc_fresp(v)),
        Option::None => None,
    })) + omem("inline_data"@, (match p.inline_data {
        Option::Some(v) => Some(enc_blob(v)),
        Option::None => None,
    })) + omem("text"@, otext(p.text)))
}

/// The encodings of a part list.
pub open spec fn enc_parts(s: Seq<PartView>) -> Seq<JsonV> {
    s.map_values(|p: PartView| enc_part(p))
}

pub open spec fn enc_content(c: ContentView) -> JsonV {
    JsonV::Obj(omem("parts"@, (match c.parts {
        Option::Some(ps) => Some(JsonV::Arr(enc_parts(ps))),
        Option::None => None,
    })) + omem("role"@, otext(c.role)))
}

/// The encodings of a content list.
pub open spec fn enc_contents(s: Seq<ContentView>) -> Seq<JsonV> {
    s.map_values(|c: ContentView| enc_content(c))
}

/// The JSON body of a request: the model identifier, the message list, the
/// opaque configuration under its wire name `generationConfig`, and the
/// optional system instruction.
pub open spec fn enc_req(r: GenerateContentReqView) -> JsonV {
    JsonV::Obj(mem1("model"@, JsonV::Text(r.model)) + mem1("contents"@, JsonV::Arr(enc_contents(
        r.contents,
    ))) + omem("generationConfig"@, r.generation_config) + omem("system_instruction"@, (match r
        .system_instruction {
        Option::Some(c) => Some(enc_content(c)),
        Option::None => None,
    })))
}

/// The first member with the given key, scanning in order.
pub open spec fn obj_get(ms: Seq<(Seq<char>, JsonV)>, k: Seq<char>) -> Option<JsonV>
    decreases ms.len(),
{
    if ms.len() == 0 {
        None
    } else if ms[0].0 == k {
        Some(ms[0].1)
    } else {
        obj_get(ms.drop_first(), k)
    }
}

/// Looking a key up in concatenated member lists scans the first list, then
/// the second.
pub broadcast proof fn lemma_obj_get_concat(a: Seq<(Seq<char>, JsonV)>, b: Seq<(Seq<char>, JsonV)>, k: Seq<char>)
    ensures
        #[trigger] obj_get(a + b, k) == (match obj_get(a, k) {
            Option::Some(v) => Some(v),
            Option::None => obj_get(b, k),
        }),
    decreases a.len(),
{
    if a.len() == 0 {
        assert(a + b =~= b);
    } else {
        assert((a + b).drop_first() =~= a.drop_first() + b);
        lemma_obj_get_concat(a.drop_first(), b, k);
    }
}

/// An optional string member: absent, present as a string, or a type error.
pub open spec fn dec_otext_field(ms: Seq<(Seq<char>, JsonV)>, k: Seq<char>) -> Option<
    Option<Seq<char>>,
> {
    match obj_get(ms, k) {
        Option::None => Some(None),
        Option::Some(JsonV::Text(s)) => Some(Some(s)),
        Option::Some(_) => None,
    }
}

/// An optional integer member within `i64` range.
pub open spec fn dec_oint_field(ms: Seq<(Seq<char>, JsonV)>, k: Seq<char>) -> Option<Option<int>> {
    match obj_get(ms, k) {
        Option::None => Some(None),
        Option::Some(JsonV::Int(i)) => if -0x8000_0000_0000_0000 <= i <= 0x7fff_ffff_ffff_ffff {
            Some(Some(i))
        } else {
            None
        },
        Option::Some(_) => None,
    }
}

/// A required string member.
pub open spec fn dec_text_field(ms: Seq<(Seq<char>, JsonV)>, k: Seq<char>) -> Option<Seq<char>> {
    match obj_get(ms, k) {
        Option::Some(JsonV::Text(s)) => Some(s),
        _ => None,
    }
}

pub open spec fn dec_video(j: JsonV) -> Option<VideoMetadataView> {
    match j {
        JsonV::Obj(ms) => {
            let e = dec_otext_field(ms, "end_offset"@);
            let s = dec_otext_field(ms, "start_offset"@);
            if e is Some && s is Some {
                Some(VideoMetadataView { end_offset: e.unwrap(), start_offset: s.unwrap() })
            } else {
                None
            }
        },
        _ => None,
    }
}

pub open spec fn dec_cer(j: JsonV) -> Option<CodeExecutionResultView> {
    match j {
        JsonV::Obj(ms) => {
            let o = (match obj_get(ms, "outcome"@) {
                Option::Some(JsonV::Text(s)) => outcome_of(s),
                _ => None,
            });
            let out = dec_otext_field(ms, "output"@);
            if o is Some && out is Some {
                Some(CodeExecutionResultView { outcome: o.unwrap(), output: out.unwrap() })
            } else {
                None
            }
        },
        _ => None,
    }
}

pub open spec fn dec_code(j: JsonV) -> Option<ExecutableCodeView> {
    match j {
        JsonV::Obj(ms) => {
            let c = dec_text_field(ms, "code"@);
            let l = (match obj_get(ms, "language"@) {
                Option::Some(JsonV::Text(s)) => language_of(s),
                _ => None,
            });
            if c is Some && l is Some {
                Some(ExecutableCodeView { code: c.unwrap(), language: l.unwrap() })
            } else {
                None
            }
        },
        _ => None,
    }
}

pub open spec fn dec_file(j: JsonV) -> Option<FileDataView> {
    match j {
        JsonV::Obj(ms) => {
            let u = dec_text_field(ms, "file_uri"@);
            let m = dec_text_field(ms, "mime_type"@);
            if u is Some && m is Some {
                Some(FileDataView { file_uri: u.unwrap(), mime_type: m.unwrap() })
            } else {
                None
            }
        },
        _ => None,
    }
}

pub open spec fn dec_fcall(j: JsonV) -> Option<FunctionCallView> {
    match j {
        JsonV::Obj(ms) => {
            let i = dec_otext_field(ms, "id"@);
            let a = obj_get(ms, "args"@);
            let n = dec_text_field(ms, "name"@);
            if i is Some && n is Some {
                Some(FunctionCallView { id: i.unwrap(), args: a, name: n.unwrap() })
            } else {
                None
            }
        },
        _ => None,
    }
}

pub open spec fn dec_fresp(j: JsonV) -> Option<FunctionResponseView> {
    match j {
        JsonV::Obj(ms) => {
            let i = dec_otext_field(ms, "id"@);
            let n = dec_text_field(ms, "name"@);
            let r = obj_get(ms, "response"@);
            if i is Some && n is Some && r is Some {
                Some(FunctionResponseView { id: i.unwrap(), name: n.unwrap(), response: r.unwrap() })
            } else {
                None
            }
        },
        _ => None,
    }
}

/// Byte values read back from a JSON array.
pub open spec fn dec_bytes(es: Seq<JsonV>) -> Option<Seq<u8>> {
    if forall|k: int|
        0 <= k < es.len() ==> ((#[trigger] es[k]) matches JsonV::Int(i) && 0 <= i <= 255) {
        Some(
            Seq::new(
                es.len(),
                |k: int|
                    match es[k] {
                        JsonV::Int(i) => i as u8,
                        _ => 0u8,
                    },
            ),
        )
    } else {
        None
    }
}

pub open spec fn dec_blob(j: JsonV) -> Option<BlobView> {
    match j {
        JsonV::Obj(ms) => {
            let d = (match obj_get(ms, "data"@) {
                Option::Some(JsonV::Arr(es)) => dec_bytes(es),
                _ => None,
            });
            let m = dec_text_field(ms, "mime_type"@);
            if d is Some && m is Some {
                Some(BlobView { data: d.unwrap(), mime_type: m.unwrap() })
            } else {
                None
            }
        },
        _ => None,
    }
}

pub open spec fn dec_part(j: JsonV) -> Option<PartView> {
    match j {
        JsonV::Obj(ms) => {
            let vm = (match obj_get(ms, "video_metadata"@) {
                Option::None => Some(None),
                Option::Some(x) => (match dec_video(x) {
                    Option::Some(v) => Some(Some(v)),
                    Option::None => None,
                }),
            });
            let cer = (match obj_get(ms, "code_execution_result"@) {
                Option::None => Some(None),
                Option::Some(x) => (match dec_cer(x) {
                    Option::Some(v) => Some(Some(v)),
                    Option::None => None,
                }),
            });
            let ec = (match obj_get(ms, "executable_code"@) {
                Option::None => Some(None),
                Option::Some(x) => (match dec_code(x) {
                    Option::Some(v) => Some(Some(v)),
                    Option::None => None,
                }),
            });
            let fd = (match obj_get(ms, "file_data"@) {
                Option::None => Some(None),
                Option::Some(x) => (match dec_file(x) {
                    Option::Some(v) => Some(Some(v)),
                    Option::None => None,
                }),
            });
            let fc = (match obj_get(ms, "function_call"@) {
                Option::None => Some(None),
                Option::Some(x) => (match dec_fcall(x) {
                    Option::Some(v) => Some(Some(v)),
                    Option::None => None,
                }),
            });
            let fr = (match obj_get(ms, "function_response"@) {
                Option::None => Some(None),
                Option::Some(x) => (match dec_fresp(x) {
                    Option::Some(v) => Some(Some(v)),
                    Option::None => None,
                }),
            });
            let bl = (match obj_get(ms, "inline_data"@) {
                Option::None => Some(None),
                Option::Some(x) => (match dec_blob(x) {
                    Option::Some(v) => Some(Some(v)),
                    Option::None => None,
                }),
            });
            let tx = dec_otext_field(ms, "text"@);
            if vm is Some && cer is Some && ec is Some && fd is Some && fc is Some && fr is Some
                && bl is Some && tx is Some {
                Some(
                    PartView {
                        video_metadata: vm.unwrap(),
                        code_execution_result: cer.unwrap(),
                        executable_code: ec.unwrap(),
                        file_data: fd.unwrap(),
                        function_call: fc.unwrap(),
                        function_response: fr.unwrap(),
                        inline_data: bl.unwrap(),
                        text: tx.unwrap(),
                    },
                )
            } else {
                None
            }
        },
        _ => None,
    }
}

pub open spec fn dec_parts(es: Seq<JsonV>) -> Option<Seq<PartView>>
    decreases es.len(),
{
    if es.len() == 0 {
        Some(Seq::empty())
    } else {
        match (dec_part(es[0]), dec_parts(es.drop_first())) {
            (Option::Some(p), Option::Some(ps)) => Some(seq![p] + ps),
            _ => None,
        }
    }
}

pub open spec fn dec_content(j: JsonV) -> Option<ContentView> {
    match j {
        JsonV::Obj(ms) => {
            let ps = (match obj_get(ms, "parts"@) {
                Option::None => Some(None),
                Option::Some(JsonV::Arr(es)) => (match dec_parts(es) {
                    Option::Some(v) => Some(Some(v)),
                    Option::None => None,
                }),
                Option::Some(_) => None,
            });
            let r = dec_otext_field(ms, "role"@);
            if ps is Some && r is Some {
                Some(ContentView { parts: ps.unwrap(), role: r.unwrap() })
            } else {
                None
            }
        },
        _ => None,
    }
}

pub open spec fn dec_contents(es: Seq<JsonV>) -> Option<Seq<ContentView>>
    decreases es.len(),
{
    if es.len() == 0 {
        Some(Seq::empty())
    } else {
        match (dec_content(es[0]), dec_contents(es.drop_first())) {
            (Option::Some(c), Option::Some(cs)) => Some(seq![c] + cs),
            _ => None,
        }
    }
}

/// The decode of a whole request body, inverse to [`enc_req`].
pub open spec fn dec_req(j: JsonV) -> Option<GenerateContentReqView> {
    match j {
        JsonV::Obj(ms) => {
            let m = dec_text_field(ms, "model"@);
            let cs = (match obj_get(ms, "contents"@) {
                Option::Some(JsonV::Arr(es)) => dec_contents(es),
                _ => None,
            });
            let gc = obj_get(ms, "generationConfig"@);
            let si = (match obj_get(ms, "system_instruction"@) {
                Option::None => Some(None),
                Option::Some(x) => (match dec_content(x) {
                    Option::Some(c) => Some(Some(c)),
                    Option::None => None,
                }),
            });
            if m is Some && cs is Some && si is Some {
                Some(
                    GenerateContentReqView {
                        model: m.unwrap(),
                        contents: cs.unwrap(),
                        generation_config: gc,
                        system_instruction: si.unwrap(),
                    },
                )
            } else {
                None
            }
        },
        _ => None,
    }
}

pub open spec fn dec_usage(j: JsonV) -> Option<GenerateContentResponseUsageMetadataView> {
    match j {
        JsonV::Obj(ms) => {
            let a = dec_oint_field(ms, "cached_content_token_count"@);
            let b = dec_oint_field(ms, "candidates_token_count"@);
            let c = dec_oint_field(ms, "prompt_token_count"@);
            let d = dec_oint_field(ms, "total_token_count"@);
            if a is Some && b is Some && c is Some && d is Some {
                Some(
                    GenerateContentResponseUsageMetadataView {
                        cached_content_token_count: a.unwrap(),
                        candidates_token_count: b.unwrap(),
                        prompt_token_count: c.unwrap(),
                        total_token_count: d.unwrap(),
                    },
                )
            } else {
                None
            }
        },
        _ => None,
    }
}

pub open spec fn dec_feedback(j: JsonV) -> Option<GenerateContentResponsePromptFeedbackView> {
    match j {
        JsonV::Obj(ms) => {
            let br = (match obj_get(ms, "block_reason"@) {
                Option::None => Some(None),
                Option::Some(JsonV::Text(s)) => (match blocked_reason_of(s) {
                    Option::Some(r) => Some(Some(r)),
                    Option::None => None,
                }),
                Option::Some(_) => None,
            });
            let msg = dec_otext_field(ms, "block_reason_message"@);
            if br is Some && msg is Some {
                Some(
                    GenerateContentResponsePromptFeedbackView {
                        block_reason: br.unwrap(),
                        block_reason_message: msg.unwrap(),
                    },
                )
            } else {
                None
            }
        },
        _ => None,
    }
}

pub open spec fn dec_candidate(j: JsonV) -> Option<CandidateView> {
    match j {
        JsonV::Obj(ms) => {
            let c = (match obj_get(ms, "content"@) {
                Option::None => Some(None),
                Option::Some(x) => (match dec_content(x) {
                    Option::Some(v) => Some(Some(v)),
                    Option::None => None,
                }),
            });
            let fm = dec_otext_field(ms, "finish_message"@);
            let tc = dec_oint_field(ms, "token_count"@);
            let fr = (match obj_get(ms, "finish_reason"@) {
                Option::None => Some(None),
                Option::Some(JsonV::Text(s)) => (match finish_reason_of(s) {
                    Option::Some(r) => Some(Some(r)),
                    Option::None => None,
                }),
                Option::Some(_) => None,
            });
            let ix = dec_oint_field(ms, "index"@);
            if c is Some && fm is Some && tc is Some && fr is Some && ix is Some {
                Some(
                    CandidateView {
                        content: c.unwrap(),
                        finish_message: fm.unwrap(),
                        token_count: tc.unwrap(),
                        finish_reason: fr.unwrap(),
                        index: ix.unwrap(),
                    },
                )
            } else {
                None
            }
        },
        _ => None,
    }
}

pub open spec fn dec_candidates(es: Seq<JsonV>) -> Option<Seq<CandidateView>>
    decreases es.len(),
{
    if es.len() == 0 {
        Some(Seq::empty())
    } else {
        match (dec_candidate(es[0]), dec_candidates(es.drop_first())) {
            (Option::Some(c), Option::Some(cs)) => Some(seq![c] + cs),
            _ => None,
        }
    }
}

/// The decode of one streamed response chunk: unknown members are ignored,
/// absent optional members map to not-present, a wrongly-typed member fails
/// the whole payload.
pub open spec fn dec_chunk(j: JsonV) -> Option<GenerateContentResponseView> {
    match j {
        JsonV::Obj(ms) => {
            let cs = (match obj_get(ms, "candidates"@) {
                Option::None => Some(None),
                Option::Some(JsonV::Arr(es)) => (match dec_candidates(es) {
                    Option::Some(v) => Some(Some(v)),
                    Option::None => None,
                }),
                Option::Some(_) => None,
            });
            let mv = dec_otext_field(ms, "model_version"@);
            let pf = (match obj_get(ms, "prompt_feedback"@) {
                Option::None => Some(None),
                Option::Some(x) => (match dec_feedback(x) {
                    Option::Some(v) => Some(Some(v)),
                    Option::None => None,
                }),
            });
            let um = (match obj_get(ms, "usage_metadata"@) {
                Option::None => Some(None),
                Option::Some(x) => (match dec_usage(x) {
                    Option::Some(v) => Some(Some(v)),
                    Option::None => None,
                }),
            });
            if cs is Some && mv is Some && pf is Some && um is Some {
                Some(
                    GenerateContentResponseView {
                        candidates: cs.unwrap(),
                        model_version: mv.unwrap(),
                        prompt_feedback: pf.unwrap(),
                        usage_metadata: um.unwrap(),
                    },
                )
            } else {
                None
            }
        },
        _ => None,
    }
}

proof fn lemma_outcome_rt(o: Outcome)
    ensures
        outcome_of(outcome_str(o)) == Some(o),
{
    reveal_strlit("UNSPECIFIED");
    reveal_strlit("OK");
    reveal_strlit("FAILED");
    reveal_strlit("DEADLINE_EXCEEDED");
    assert("UNSPECIFIED"@.len() == 11);
    assert("OK"@.len() == 2);
    assert("FAILED"@.len() == 6);
    assert("DEADLINE_EXCEEDED"@.len() == 17);
}

proof fn lemma_language_rt(l: Language)
    ensures
        language_of(language_str(l)) == Some(l),
{
    reveal_strlit("UNSPECIFIED");
    reveal_strlit("PYTHON");
    assert("UNSPECIFIED"@.len() == 11);
    assert("PYTHON"@.len() == 6);
}

proof fn lemma_video_rt(v: VideoMetadataView)
    ensures
        dec_video(enc_video(v)) == Some(v),
{
    broadcast use lemma_obj_get_concat;

    reveal_with_fuel(obj_get, 10);

    reveal_strlit("end_offset");
    reveal_strlit("start_offset");
    assert("end_offset"@.len() == 10);
    assert("start_offset"@.len() == 12);
}

proof fn lemma_cer_rt(c: CodeExecutionResultView)
    ensures
        dec_cer(enc_cer(c)) == Some(c),
{
    broadcast use lemma_obj_get_concat;

    reveal_with_fuel(obj_get, 10);

    reveal_strlit("outcome");
    reveal_strlit("output");
    assert("outcome"@.len() == 7);
    assert("output"@.len() == 6);
    lemma_outcome_rt(c.outcome);
}

proof fn lemma_code_rt(e: ExecutableCodeView)
    ensures
        dec_code(enc_code(e)) == Some(e),
{
    broadcast use lemma_obj_get_concat;

    reveal_with_fuel(obj_get, 10);

    reveal_strlit("code");
    reveal_strlit("language");
    assert("code"@.len() == 4);
    assert("language"@.len() == 8);
    lemma_language_rt(e.language);
}

proof fn lemma_file_rt(f: FileDataView)
    ensures
        dec_file(enc_file(f)) == Some(f),
{
    broadcast use lemma_obj_get_concat;

    reveal_with_fuel(obj_get, 10);

    reveal_strlit("file_uri");
    reveal_strlit("mime_type");
    assert("file_uri"@.len() == 8);
    assert("mime_type"@.len() == 9);
}

proof fn lemma_fcall_rt(f: FunctionCallView)
    ensures
        dec_fcall(enc_fcall(f)) == Some(f),
{
    broadcast use lemma_obj_get_concat;

    reveal_with_fuel(obj_get, 10);

    reveal_strlit("id");
    reveal_strlit("args");
    reveal_strlit("name");
    assert("id"@.len() == 2);
    assert("args"@.len() == 4);
    assert("name"@.len() == 4);
    assert("args"@[0] == 'a' && "name"@[0] == 'n');
}

proof fn lemma_fresp_rt(f: FunctionResponseView)
    ensures
        dec_fresp(enc_fresp(f)) == Some(f),
{
    broadcast use lemma_obj_get_concat;

    reveal_with_fuel(obj_get, 10);

    reveal_strlit("id");
    reveal_strlit("name");
    reveal_strlit("response");
    assert("id"@.len() == 2);
    assert("name"@.len() == 4);
    assert("response"@.len() == 8);
}

proof fn lemma_blob_rt(b: BlobView)
    ensures
        dec_blob(enc_blob(b)) == Some(b),
{
    broadcast use lemma_obj_get_concat;

    reveal_with_fuel(obj_get, 10);

    reveal_strlit("data");
    reveal_strlit("mime_type");
    assert("data"@.len() == 4);
    assert("mime_type"@.len() == 9);
    assert(forall|k: int|
        0 <= k < bytes_arr(b.data).len() ==> ((#[trigger] bytes_arr(b.data)[k]) matches JsonV::Int(
            i,
        ) && 0 <= i <= 255));
    assert(dec_bytes(bytes_arr(b.data)).unwrap() =~= b.data);
}

#[verifier::rlimit(100)]
#[verifier::spinoff_prover]
proof fn lemma_part_rt(p: PartView)
    ensures
        dec_part(enc_part(p)) == Some(p),
{
    broadcast use lemma_obj_get_concat;

    reveal_with_fuel(obj_get, 10);

    reveal_strlit("video_metadata");
    reveal_strlit("code_execution_result");
    reveal_strlit("executable_code");
    reveal_strlit("file_data");
    reveal_strlit("function_call");
    reveal_strlit("function_response");
    reveal_strlit("inline_data");
    reveal_strlit("text");
    assert("video_metadata"@.len() == 14);
    assert("code_execution_result"@.len() == 21);
    assert("executable_code"@.len() == 15);
    assert("file_data"@.len() == 9);
    assert("function_call"@.len() == 13);
    assert("function_response"@.len() == 17);
    assert("inline_data"@.len() == 11);
    assert("text"@.len() == 4);
    match p.video_metadata {
        Option::Some(v) => lemma_video_rt(v),
        Option::None => (),
    }
    match p.code_execution_result {
        Option::Some(v) => lemma_cer_rt(v),
        Option::None => (),
    }
    match p.executable_code {
        Option::Some(v) => lemma_code_rt(v),
        Option::None => (),
    }
    match p.file_data {
        Option::Some(v) => lemma_file_rt(v),
        Option::None => (),
    }
    match p.function_call {
        Option::Some(v) => lemma_fcall_rt(v),
        Option::None => (),
    }
    match p.function_response {
        Option::Some(v) => lemma_fresp_rt(v),
        Option::None => (),
    }
    match p.inline_data {
        Option::Some(v) => lemma_blob_rt(v),
        Option::None => (),
    }
}

proof fn lemma_parts_rt(s: Seq<PartView>)
    ensures
        dec_parts(enc_parts(s)) == Some(s),
    decreases s.len(),
{
    if s.len() == 0 {
        assert(enc_parts(s).len() == 0);
        assert(dec_parts(enc_parts(s)) == Some(s)) by {
            assert(s =~= Seq::<PartView>::empty());
        }
    } else {
        lemma_part_rt(s[0]);
        lemma_parts_rt(s.drop_first());
        assert(enc_parts(s).drop_first() =~= enc_parts(s.drop_first()));
        assert(enc_parts(s)[0] == enc_part(s[0]));
        assert(seq![s[0]] + s.drop_first() =~= s);
    }
}

proof fn lemma_content_rt(c: ContentView)
    ensures
        dec_content(enc_content(c)) == Some(c),
{
    broadcast use lemma_obj_get_concat;

    reveal_with_fuel(obj_get, 10);

    reveal_strlit("parts");
    reveal_strlit("role");
    assert("parts"@.len() == 5);
    assert("role"@.len() == 4);
    match c.parts {
        Option::Some(ps) => lemma_parts_rt(ps),
        Option::None => (),
    }
}

proof fn lemma_contents_rt(s: Seq<ContentView>)
    ensures
        dec_contents(enc_contents(s)) == Some(s),
    decreases s.len(),
{
    if s.len() == 0 {
        assert(enc_contents(s).len() == 0);
        assert(dec_contents(enc_contents(s)) == Some(s)) by {
            assert(s =~= Seq::<ContentView>::empty());
        }
    } else {
        lemma_content_rt(s[0]);
        lemma_contents_rt(s.drop_first());
        assert(enc_contents(s).drop_first() =~= enc_contents(s.drop_first()));
        assert(enc_contents(s)[0] == enc_content(s[0]));
        assert(seq![s[0]] + s.drop_first() =~= s);
    }
}

/// Encoding a request body and decoding it back is lossless: every
/// populated field of the envelope, message list and opaque configuration
/// comes back exactly, and every absent optional field stays absent.
pub proof fn lemma_request_roundtrip(r: GenerateContentReqView)
    ensures
        dec_req(enc_req(r)) == Some(r),
{
    broadcast use lemma_obj_get_concat;

    reveal_with_fuel(obj_get, 10);

    reveal_strlit("model");
    reveal_strlit("contents");
    reveal_strlit("generationConfig");
    reveal_strlit("system_instruction");
    assert("model"@.len() == 5);
    assert("contents"@.len() == 8);
    assert("generationConfig"@.len() == 16);
    assert("system_instruction"@.len() == 18);
    lemma_contents_rt(r.contents);
    match r.system_instruction {
        Option::Some(c) => lemma_content_rt(c),
        Option::None => (),
    }
}

/// Appends one required member.
fn push_mem(m: &mut Vec<(String, Json)>, key: &str, j: Json)
    ensures
        jview_members(final(m)@) == jview_members(old(m)@) + mem1(key@, jview(j)),
{
    let ghost pre = m@;
    m.push((String::from_str(key), j));
    proof {
        lemma_jview_members_push(pre, m@.last());
        assert(jview_members(m@) =~= jview_members(pre) + mem1(key@, jview(m@.last().1)));
    }
}

/// Appends one optional member, or nothing.
fn push_omem(m: &mut Vec<(String, Json)>, key: &str, v: Option<Json>)
    ensures
        jview_members(final(m)@) == jview_members(old(m)@) + omem(key@, ojson_view(v)),
{
    match v {
        Option::Some(j) => {
            let ghost pre = m@;
            m.push((String::from_str(key), j));
            proof {
                lemma_jview_members_push(pre, m@.last());
                assert(jview_members(m@) =~= jview_members(pre) + omem(
                    key@,
                    ojson_view(Some(m@.last().1)),
                ));
            }
        },
        Option::None => {
            proof {
                assert(jview_members(m@) =~= jview_members(m@) + omem(key@, ojson_view(
                    None::<Json>,
                )));
            }
        },
    }
}

/// An optional string field as an optional JSON string value.
fn otext_x(v: &Option<String>) -> (r: Option<Json>)
    ensures
        ojson_view(r) == otext(ostr_view(*v)),
{
    match v {
        Option::Some(x) => Some(Json::Text(x.clone())),
        Option::None => None,
    }
}

/// The wire string of an execution outcome.
fn outcome_text(o: Outcome) -> (r: String)
    ensures
        r@ == outcome_str(o),
{
    match o {
        Outcome::Unspecified => String::from_str("UNSPECIFIED"),
        Outcome::Okay => String::from_str("OK"),
        Outcome::Failed => String::from_str("FAILED"),
        Outcome::DeadlineExceeded => String::from_str("DEADLINE_EXCEEDED"),
    }
}

/// The wire string of a code language.
fn language_text(l: Language) -> (r: String)
    ensures
        r@ == language_str(l),
{
    match l {
        Language::Unspecified => String::from_str("UNSPECIFIED"),
        Language::Python => String::from_str("PYTHON"),
    }
}

fn enc_video_x(v: &VideoMetadata) -> (r: Json)
    ensures
        jview(r) == enc_video(v@),
{
    let mut m: Vec<(String, Json)> = Vec::new();
    proof {
        assert(jview_members(m@) =~= Seq::<(Seq<char>, JsonV)>::empty());
    }
    push_omem(&mut m, "end_offset", otext_x(&v.end_offset));
    push_omem(&mut m, "start_offset", otext_x(&v.start_offset));
    proof {
        assert(jview_members(m@) =~= omem("end_offset"@, otext(v@.end_offset)) + omem(
            "start_offset"@,
            otext(v@.start_offset),
        ));
    }
    Json::Obj(m)
}

fn enc_cer_x(c: &CodeExecutionResult) -> (r: Json)
    ensures
        jview(r) == enc_cer(c@),
{
    let mut m: Vec<(String, Json)> = Vec::new();
    proof {
        assert(jview_members(m@) =~= Seq::<(Seq<char>, JsonV)>::empty());
    }
    push_mem(&mut m, "outcome", Json::Text(outcome_text(c.outcome)));
    push_omem(&mut m, "output", otext_x(&c.output));
    Json::Obj(m)
}

fn enc_code_x(e: &ExecutableCode) -> (r: Json)
    ensures
        jview(r) == enc_code(e@),
{
    let mut m: Vec<(String, Json)> = Vec::new();
    proof {
        assert(jview_members(m@) =~= Seq::<(Seq<char>, JsonV)>::empty());
    }
    push_mem(&mut m, "code", Json::Text(e.code.clone()));
    push_mem(&mut m, "language", Json::Text(language_text(e.language)));
    Json::Obj(m)
}

fn enc_file_x(f: &FileData) -> (r: Json)
    ensures
        jview(r) == enc_file(f@),
{
    let mut m: Vec<(String, Json)> = Vec::new();
    proof {
        assert(jview_members(m@) =~= Seq::<(Seq<char>, JsonV)>::empty());
    }
    push_mem(&mut m, "file_uri", Json::Text(f.file_uri.clone()));
    push_mem(&mut m, "mime_type", Json::Text(f.mime_type.clone()));
    Json::Obj(m)
}

fn enc_fcall_x(f: &FunctionCall) -> (r: Json)
    ensures
        jview(r) == enc_fcall(f@),
{
    let mut m: Vec<(String, Json)> = Vec::new();
    proof {
        assert(jview_members(m@) =~= Seq::<(Seq<char>, JsonV)>::empty());
    }
    push_omem(&mut m, "id", otext_x(&f.id));
    let args = match &f.args {
        Option::Some(j) => Some(clone_json(j)),
        Option::None => None,
    };
    push_omem(&mut m, "args", args);
    push_mem(&mut m, "name", Json::Text(f.name.clone()));
    Json::Obj(m)
}

fn enc_fresp_x(f: &FunctionResponse) -> (r: Json)
    ensures
        jview(r) == enc_fresp(f@),
{
    let mut m: Vec<(String, Json)> = Vec::new();
    proof {
        assert(jview_members(m@) =~= Seq::<(Seq<char>, JsonV)>::empty());
    }
    push_omem(&mut m, "id", otext_x(&f.id));
    push_mem(&mut m, "name", Json::Text(f.name.clone()));
    push_mem(&mut m, "response", clone_json(&f.response));
    Json::Obj(m)
}

fn enc_blob_x(b: &Blob) -> (r: Json)
    ensures
        jview(r) == enc_blob(b@),
{
    let mut data: Vec<Json> = Vec::new();
    proof {
        assert(jview_elems(data@) =~= Seq::<JsonV>::empty());
    }
    let mut i: usize = 0;
    while i < b.data.len()
        invariant
            i <= b.data@.len(),
            jview_elems(data@) == bytes_arr(b.data@.subrange(0, i as int)),
        decreases b.data@.len() - i,
    {
        let ghost pre = data@;
        data.push(Json::Int(b.data[i] as i64));
        proof {
            lemma_jview_elems_push(pre, data@.last());
            assert(jview_elems(data@) =~= bytes_arr(b.data@.subrange(0, i + 1 as int)));
        }
        i = i + 1;
    }
    proof {
        assert(b.data@.subrange(0, b.data@.len() as int) =~= b.data@);
    }
    let mut m: Vec<(String, Json)> = Vec::new();
    proof {
        assert(jview_members(m@) =~= Seq::<(Seq<char>, JsonV)>::empty());
    }
    push_mem(&mut m, "data", Json::Arr(data));
    push_mem(&mut m, "mime_type", Json::Text(b.mime_type.clone()));
    Json::Obj(m)
}

#[verifier::rlimit(100)]
fn enc_part_x(p: &Part) -> (r: Json)
    ensures
        jview(r) == enc_part(p@),
{
    let mut m: Vec<(String, Json)> = Vec::new();
    proof {
        assert(jview_members(m@) =~= Seq::<(Seq<char>, JsonV)>::empty());
    }
    let vm = match &p.video_metadata {
        Option::Some(v) => Some(enc_video_x(v)),
        Option::None => None,
    };
    push_omem(&mut m, "video_metadata", vm);
    let cer = match &p.code_execution_result {
        Option::Some(v) => Some(enc_cer_x(v)),
        Option::None => None,
    };
    push_omem(&mut m, "code_execution_result", cer);
    let ec = match &p.executable_code {
        Option::Some(v) => Some(enc_code_x(v)),
        Option::None => None,
    };
    push_omem(&mut m, "executable_code", ec);
    let fd = match &p.file_data {
        Option::Some(v) => Some(enc_file_x(v)),
        Option::None => None,
    };
    push_omem(&mut m, "file_data", fd);
    let fc = match &p.function_call {
        Option::Some(v) => Some(enc_fcall_x(v)),
        Option::None => None,
    };
    push_omem(&mut m, "function_call", fc);
    let fr = match &p.function_response {
        Option::Some(v) => Some(enc_fresp_x(v)),
        Option::None => None,
    };
    push_omem(&mut m, "function_response", fr);
    let bl = match &p.inline_data {
        Option::Some(v) => Some(enc_blob_x(v)),
        Option::None => None,
    };
    push_omem(&mut m, "inline_data", bl);
    push_omem(&mut m, "text", otext_x(&p.text));
    Json::Obj(m)
}

fn enc_parts_x(ps: &Vec<Part>) -> (r: Vec<Json>)
    ensures
        jview_elems(r@) == enc_parts(crate::datatypes::parts_view(ps@)),
{
    let mut out: Vec<Json> = Vec::new();
    proof {
        assert(jview_elems(out@) =~= Seq::<JsonV>::empty());
        assert(jview_elems(out@) =~= enc_parts(crate::datatypes::parts_view(ps@.subrange(0, 0))));
    }
    let mut i: usize = 0;
    while i < ps.len()
        invariant
            i <= ps@.len(),
            jview_elems(out@) == enc_parts(crate::datatypes::parts_view(ps@.subrange(0, i as int))),
        decreases ps@.len() - i,
    {
        let ghost pre = out@;
        let e = enc_part_x(&ps[i]);
        out.push(e);
        proof {
            lemma_jview_elems_push(pre, out@.last());
            assert(crate::datatypes::parts_view(ps@.subrange(0, i + 1 as int))
                =~= crate::datatypes::parts_view(ps@.subrange(0, i as int)).push(ps@[i as int]@));
            assert(jview_elems(out@) =~= enc_parts(
                crate::datatypes::parts_view(ps@.subrange(0, i + 1 as int)),
            ));
        }
        i = i + 1;
    }
    proof {
        assert(ps@.subrange(0, ps@.len() as int) =~= ps@);
    }
    out
}

fn enc_content_x(c: &Content) -> (r: Json)
    ensures
        jview(r) == enc_content(c@),
{
    let mut m: Vec<(String, Json)> = Vec::new();
    proof {
        assert(jview_members(m@) =~= Seq::<(Seq<char>, JsonV)>::empty());
    }
    let ps = match &c.parts {
        Option::Some(v) => Some(Json::Arr(enc_parts_x(v))),
        Option::None => None,
    };
    push_omem(&mut m, "parts", ps);
    push_omem(&mut m, "role", otext_x(&c.role));
    Json::Obj(m)
}

fn enc_contents_x(cs: &Vec<Content>) -> (r: Vec<Json>)
    ensures
        jview_elems(r@) == enc_contents(crate::datatypes::contents_view(cs@)),
{
    let mut out: Vec<Json> = Vec::new();
    proof {
        assert(jview_elems(out@) =~= Seq::<JsonV>::empty());
        assert(jview_elems(out@) =~= enc_contents(
            crate::datatypes::contents_view(cs@.subrange(0, 0)),
        ));
    }
    let mut i: usize = 0;
    while i < cs.len()
        invariant
            i <= cs@.len(),
            jview_elems(out@) == enc_contents(
                crate::datatypes::contents_view(cs@.subrange(0, i as int)),
            ),
        decreases cs@.len() - i,
    {
        let ghost pre = out@;
        let e = enc_content_x(&cs[i]);
        out.push(e);
        proof {
            lemma_jview_elems_push(pre, out@.last());
            assert(crate::datatypes::contents_view(cs@.subrange(0, i + 1 as int))
                =~= crate::datatypes::contents_view(cs@.subrange(0, i as int)).push(
                cs@[i as int]@,
            ));
            assert(jview_elems(out@) =~= enc_contents(
                crate::datatypes::contents_view(cs@.subrange(0, i + 1 as int)),
            ));
        }
        i = i + 1;
    }
    proof {
        assert(cs@.subrange(0, cs@.len() as int) =~= cs@);
    }
    out
}

/// Builds the JSON body of a request, exactly as [`enc_req`] states it.
pub fn encode_request(r: &GenerateContentReq) -> (j: Json)
    ensures
        jview(j) == enc_req(r@),
{
    let mut m: Vec<(String, Json)> = Vec::new();
    proof {
        assert(jview_members(m@) =~= Seq::<(Seq<char>, JsonV)>::empty());
    }
    push_mem(&mut m, "model", Json::Text(r.model.clone()));
    push_mem(&mut m, "contents", Json::Arr(enc_contents_x(&r.contents)));
    let gc = match &r.generation_config {
        Option::Some(j) => Some(clone_json(j)),
        Option::None => None,
    };
    push_omem(&mut m, "generationConfig", gc);
    let si = match &r.system_instruction {
        Option::Some(c) => Some(enc_content_x(c)),
        Option::None => None,
    };
    push_omem(&mut m, "system_instruction", si);
    Json::Obj(m)
}

/// The first member with the given key, as [`obj_get`] gives it.
fn get_field<'a>(m: &'a Vec<(String, Json)>, key: &str) -> (r: Option<&'a Json>)
    ensures
        (match obj_get(jview_members(m@), key@) {
            Option::Some(v) => r matches Some(j) && jview(*j) == v,
            Option::None => r is None,
        }),
{
    let ks = String::from_str(key);
    let ghost ms = jview_members(m@);
    proof {
        crate::json::lemma_jview_members(m@);
        assert(ms.skip(0) =~= ms);
    }
    let mut i: usize = 0;
    while i < m.len()
        invariant
            i <= m@.len(),
            ks@ == key@,
            ms == jview_members(m@),
            ms.len() == m@.len(),
            forall|k: int| 0 <= k < m@.len() ==> #[trigger] ms[k] == (m@[k].0@, jview(m@[k].1)),
            obj_get(ms, key@) == obj_get(ms.skip(i as int), key@),
        decreases m@.len() - i,
    {
        let hit = m[i].0 == ks;
        proof {
            assert(ms.skip(i as int)[0] == ms[i as int]);
            assert(ms.skip(i as int).drop_first() =~= ms.skip(i + 1 as int));
        }
        if hit {
            return Some(&m[i].1);
        }
        i = i + 1;
    }
    proof {
        assert(ms.skip(m@.len() as int).len() == 0);
    }
    None
}

/// An optional string member, or a type error.
fn dec_otext_x(m: &Vec<(String, Json)>, key: &str) -> (r: Option<Option<String>>)
    ensures
        (match dec_otext_field(jview_members(m@), key@) {
            Option::Some(o) => r matches Some(x) && ostr_view(x) == o,
            Option::None => r is None,
        }),
{
    match get_field(m, key) {
        Option::None => Some(None),
        Option::Some(j) => match j {
            Json::Text(s) => Some(Some(s.clone())),
            _ => None,
        },
    }
}

/// An optional integer member, or a type error.
fn dec_oint_x(m: &Vec<(String, Json)>, key: &str) -> (r: Option<Option<i64>>)
    ensures
        (match dec_oint_field(jview_members(m@), key@) {
            Option::Some(o) => r matches Some(x) && crate::datatypes::oint_view(x) == o,
            Option::None => r is None,
        }),
{
    match get_field(m, key) {
        Option::None => Some(None),
        Option::Some(j) => match j {
            Json::Int(i) => Some(Some(*i)),
            _ => None,
        },
    }
}

/// A required string member, or a failure.
fn dec_text_x(m: &Vec<(String, Json)>, key: &str) -> (r: Option<String>)
    ensures
        (match dec_text_field(jview_members(m@), key@) {
            Option::Some(t) => r matches Some(x) && x@ == t,
            Option::None => r is None,
        }),
{
    match get_field(m, key) {
        Option::Some(j) => match j {
            Json::Text(s) => Some(s.clone()),
            _ => None,
        },
        Option::None => None,
    }
}

/// The execution outcome of a wire string.
fn outcome_from(s: &String) -> (r: Option<Outcome>)
    ensures
        r == outcome_of(s@),
{
    if *s == String::from_str("UNSPECIFIED") {
        Some(Outcome::Unspecified)
    } else if *s == String::from_str("OK") {
        Some(Outcome::Okay)
    } else if *s == String::from_str("FAILED") {
        Some(Outcome::Failed)
    } else if *s == String::from_str("DEADLINE_EXCEEDED") {
        Some(Outcome::DeadlineExceeded)
    } else {
        None
    }
}

/// The code language of a wire string.
fn language_from(s: &String) -> (r: Option<Language>)
    ensures
        r == language_of(s@),
{
    if *s == String::from_str("UNSPECIFIED") {
        Some(Language::Unspecified)
    } else if *s == String::from_str("PYTHON") {
        Some(Language::Python)
    } else {
        None
    }
}

/// The finish reason of a wire string.
fn finish_reason_from(s: &String) -> (r: Option<FinishReason>)
    ensures
        r == finish_reason_of(s@),
{
    if *s == String::from_str("UNSPECIFIED") {
        Some(FinishReason::Unspecified)
    } else if *s == String::from_str("STOP") {
        Some(FinishReason::Stop)
    } else if *s == String::from_str("MAX_TOKENS") {
        Some(FinishReason::MaxTokens)
    } else if *s == String::from_str("SAFETY") {
        Some(FinishReason::Safety)
    } else if *s == String::from_str("RECITATION") {
        Some(FinishReason::Recitation)
    } else if *s == String::from_str("OTHER") {
        Some(FinishReason::Other)
    } else if *s == String::from_str("BLOCKLIST") {
        Some(FinishReason::Blocklist)
    } else if *s == String::from_str("PROHIBITED_CONTENT") {
        Some(FinishReason::ProhibitedContent)
    } else if *s == String::from_str("SPII") {
        Some(FinishReason::Spii)
    } else if *s == String::from_str("MALFORMED_FUNCTION_CALL") {
        Some(FinishReason::MalformedFunctionCall)
    } else {
        None
    }
}

/// The blocked reason of a wire string.
fn blocked_reason_from(s: &String) -> (r: Option<BlockedReason>)
    ensures
        r == blocked_reason_of(s@),
{
    if *s == String::from_str("UNSPECIFIED") {
        Some(BlockedReason::Unspecified)
    } else if *s == String::from_str("SAFETY") {
        Some(BlockedReason::Safety)
    } else if *s == String::from_str("OTHER") {
        Some(BlockedReason::Other)
    } else if *s == String::from_str("BLOCKLIST") {
        Some(BlockedReason::Blocklist)
    } else if *s == String::from_str("PROHIBITED_CONTENT") {
        Some(BlockedReason::ProhibitedContent)
    } else {
        None
    }
}

fn dec_video_x(j: &Json) -> (r: Option<VideoMetadata>)
    ensures
        (match dec_video(jview(*j)) {
            Option::Some(v) => r matches Some(x) && x@ == v,
            Option::None => r is None,
        }),
{
    match j {
        Json::Obj(m) => {
            let e = dec_otext_x(m, "end_offset");
            let st = dec_otext_x(m, "start_offset");
            match (e, st) {
                (Option::Some(a), Option::Some(b)) => Some(
                    VideoMetadata { end_offset: a, start_offset: b },
                ),
                _ => None,
            }
        },
        _ => None,
    }
}

fn dec_cer_x(j: &Json) -> (r: Option<CodeExecutionResult>)
    ensures
        (match dec_cer(jview(*j)) {
            Option::Some(v) => r matches Some(x) && x@ == v,
            Option::None => r is None,
        }),
{
    match j {
        Json::Obj(m) => {
            let o = match get_field(m, "outcome") {
                Option::Some(x) => match x {
                    Json::Text(s) => outcome_from(s),
                    _ => None,
                },
                Option::None => None,
            };
            let out = dec_otext_x(m, "output");
            match (o, out) {
                (Option::Some(a), Option::Some(b)) => Some(
                    CodeExecutionResult { outcome: a, output: b },
                ),
                _ => None,
            }
        },
        _ => None,
    }
}

fn dec_code_x(j: &Json) -> (r: Option<ExecutableCode>)
    ensures
        (match dec_code(jview(*j)) {
            Option::Some(v) => r matches Some(x) && x@ == v,
            Option::None => r is None,
        }),
{
    match j {
        Json::Obj(m) => {
            let c = dec_text_x(m, "code");
            let l = match get_field(m, "language") {
                Option::Some(x) => match x {
                    Json::Text(s) => language_from(s),
                    _ => None,
                },
                Option::None => None,
            };
            match (c, l) {
                (Option::Some(a), Option::Some(b)) => Some(ExecutableCode { code: a, language: b }),
                _ => None,
            }
        },
        _ => None,
    }
}

fn dec_file_x(j: &Json) -> (r: Option<FileData>)
    ensures
        (match dec_file(jview(*j)) {
            Option::Some(v) => r matches Some(x) && x@ == v,
            Option::None => r is None,
        }),
{
    match j {
        Json::Obj(m) => {
            let u = dec_text_x(m, "file_uri");
            let t = dec_text_x(m, "mime_type");
            match (u, t) {
                (Option::Some(a), Option::Some(b)) => Some(FileData { file_uri: a, mime_type: b }),
                _ => None,
            }
        },
        _ => None,
    }
}

fn dec_fcall_x(j: &Json) -> (r: Option<FunctionCall>)
    ensures
        (match dec_fcall(jview(*j)) {
            Option::Some(v) => r matches Some(x) && x@ == v,
            Option::None => r is None,
        }),
{
    match j {
        Json::Obj(m) => {
            let i = dec_otext_x(m, "id");
            let a = match get_field(m, "args") {
                Option::Some(x) => Some(clone_json(x)),
                Option::None => None,
            };
            let n = dec_text_x(m, "name");
            match (i, n) {
                (Option::Some(iv), Option::Some(nv)) => Some(
                    FunctionCall { id: iv, args: a, name: nv },
                ),
                _ => None,
            }
        },
        _ => None,
    }
}

fn dec_fresp_x(j: &Json) -> (r: Option<FunctionResponse>)
    ensures
        (match dec_fresp(jview(*j)) {
            Option::Some(v) => r matches Some(x) && x@ == v,
            Option::None => r is None,
        }),
{
    match j {
        Json::Obj(m) => {
            let i = dec_otext_x(m, "id");
            let n = dec_text_x(m, "name");
            let resp = match get_field(m, "response") {
                Option::Some(x) => Some(clone_json(x)),
                Option::None => None,
            };
            match (i, n, resp) {
                (Option::Some(iv), Option::Some(nv), Option::Some(rv)) => Some(
                    FunctionResponse { id: iv, name: nv, response: rv },
                ),
                _ => None,
            }
        },
        _ => None,
    }
}

/// Byte values read back from a JSON array, as [`dec_bytes`] gives them.
fn dec_bytes_x(es: &Vec<Json>) -> (r: Option<Vec<u8>>)
    ensures
        (match dec_bytes(jview_elems(es@)) {
            Option::Some(d) => r matches Some(x) && x@ == d,
            Option::None => r is None,
        }),
{
    let ghost vs = jview_elems(es@);
    proof {
        crate::json::lemma_jview_elems(es@);
    }
    let mut out: Vec<u8> = Vec::new();
    let mut i: usize = 0;
    while i < es.len()
        invariant
            i <= es@.len(),
            vs == jview_elems(es@),
            vs.len() == es@.len(),
            forall|k: int| 0 <= k < es@.len() ==> #[trigger] vs[k] == jview(es@[k]),
            out@.len() == i,
            forall|k: int|
                0 <= k < i ==> ((#[trigger] vs[k]) matches JsonV::Int(n) && 0 <= n <= 255
                    && out@[k] == n as u8),
        decreases es@.len() - i,
    {
        match &es[i] {
            Json::Int(n) => {
                if 0 <= *n && *n <= 255 {
                    out.push(*n as u8);
                } else {
                    proof {
                        assert(!(vs[i as int] matches JsonV::Int(x) && 0 <= x <= 255));
                    }
                    return None;
                }
            },
            _ => {
                proof {
                    assert(!(vs[i as int] matches JsonV::Int(x) && 0 <= x <= 255));
                }
                return None;
            },
        }
        i = i + 1;
    }
    proof {
        assert(dec_bytes(vs) matches Some(d) && d =~= out@);
    }
    Some(out)
}

fn dec_blob_x(j: &Json) -> (r: Option<Blob>)
    ensures
        (match dec_blob(jview(*j)) {
            Option::Some(v) => r matches Some(x) && x@ == v,
            Option::None => r is None,
        }),
{
    match j {
        Json::Obj(m) => {
            let d = match get_field(m, "data") {
                Option::Some(x) => match x {
                    Json::Arr(es) => dec_bytes_x(es),
                    _ => None,
                },
                Option::None => None,
            };
            let t = dec_text_x(m, "mime_type");
            match (d, t) {
                (Option::Some(a), Option::Some(b)) => Some(Blob { data: a, mime_type: b }),
                _ => None,
            }
        },
        _ => None,
    }
}

#[verifier::rlimit(100)]
fn dec_part_x(j: &Json) -> (r: Option<Part>)
    ensures
        (match dec_part(jview(*j)) {
            Option::Some(v) => r matches Some(x) && x@ == v,
            Option::None => r is None,
        }),
{
    let m = match j {
        Json::Obj(m) => m,
        _ => {
            return None;
        },
    };
    let vm = match get_field(m, "video_metadata") {
        Option::None => None,
        Option::Some(x) => match dec_video_x(x) {
            Option::Some(v) => Some(v),
            Option::None => {
                return None;
            },
        },
    };
    let cer = match get_field(m, "code_execution_result") {
        Option::None => None,
        Option::Some(x) => match dec_cer_x(x) {
            Option::Some(v) => Some(v),
            Option::None => {
                return None;
            },
        },
    };
    let ec = match get_field(m, "executable_code") {
        Option::None => None,
        Option::Some(x) => match dec_code_x(x) {
            Option::Some(v) => Some(v),
            Option::None => {
                return None;
            },
        },
    };
    let fd = match get_field(m, "file_data") {
        Option::None => None,
        Option::Some(x) => match dec_file_x(x) {
            Option::Some(v) => Some(v),
            Option::None => {
                return None;
            },
        },
    };
    let fc = match get_field(m, "function_call") {
        Option::None => None,
        Option::Some(x) => match dec_fcall_x(x) {
            Option::Some(v) => Some(v),
            Option::None => {
                return None;
            },
        },
    };
    let fr = match get_field(m, "function_response") {
        Option::None => None,
        Option::Some(x) => match dec_fresp_x(x) {
            Option::Some(v) => Some(v),
            Option::None => {
                return None;
            },
        },
    };
    let bl = match get_field(m, "inline_data") {
        Option::None => None,
        Option::Some(x) => match dec_blob_x(x) {
            Option::Some(v) => Some(v),
            Option::None => {
                return None;
            },
        },
    };
    let tx = match dec_otext_x(m, "text") {
        Option::Some(t) => t,
        Option::None => {
            return None;
        },
    };
    Some(
        Part {
            video_metadata: vm,
            code_execution_result: cer,
            executable_code: ec,
            file_data: fd,
            function_call: fc,
            function_response: fr,
            inline_data: bl,
            text: tx,
        },
    )
}

fn dec_parts_x(es: &Vec<Json>, i: usize) -> (r: Option<Vec<Part>>)
    requires
        i <= es@.len(),
    ensures
        (match dec_parts(jview_elems(es@).skip(i as int)) {
            Option::Some(ps) => r matches Some(x) && crate::datatypes::parts_view(x@) == ps,
            Option::None => r is None,
        }),
    decreases es@.len() - i,
{
    proof {
        crate::json::lemma_jview_elems(es@);
    }
    if i >= es.len() {
        let out: Vec<Part> = Vec::new();
        proof {
            assert(jview_elems(es@).skip(i as int).len() == 0);
            assert(crate::datatypes::parts_view(out@) =~= Seq::<
                crate::datatypes::PartView,
            >::empty());
        }
        return Some(out);
    }
    proof {
        assert(jview_elems(es@).skip(i as int)[0] == jview(es@[i as int]));
        assert(jview_elems(es@).skip(i as int).drop_first() =~= jview_elems(es@).skip(i + 1 as int));
    }
    let p = match dec_part_x(&es[i]) {
        Option::Some(p) => p,
        Option::None => {
            return None;
        },
    };
    match dec_parts_x(es, i + 1) {
        Option::Some(rest) => {
            let ghost tail = rest@;
            let mut rest = rest;
            rest.insert(0, p);
            proof {
                assert(rest@ =~= seq![p] + tail);
                assert(crate::datatypes::parts_view(rest@) =~= seq![p@]
                    + crate::datatypes::parts_view(tail));
            }
            Some(rest)
        },
        Option::None => None,
    }
}

fn dec_content_x(j: &Json) -> (r: Option<Content>)
    ensures
        (match dec_content(jview(*j)) {
            Option::Some(v) => r matches Some(x) && x@ == v,
            Option::None => r is None,
        }),
{
    match j {
        Json::Obj(m) => {
            let ps = match get_field(m, "parts") {
                Option::None => None,
                Option::Some(x) => match x {
                    Json::Arr(es) => {
                        proof {
                            assert(jview_elems(es@).skip(0) =~= jview_elems(es@));
                        }
                        match dec_parts_x(es, 0) {
                            Option::Some(v) => Some(v),
                            Option::None => {
                                return None;
                            },
                        }
                    },
                    _ => {
                        return None;
                    },
                },
            };
            let role = dec_otext_x(m, "role");
            match role {
                Option::Some(rv) => Some(Content { parts: ps, role: rv }),
                Option::None => None,
            }
        },
        _ => None,
    }
}

fn dec_usage_x(j: &Json) -> (r: Option<GenerateContentResponseUsageMetadata>)
    ensures
        (match dec_usage(jview(*j)) {
            Option::Some(v) => r matches Some(x) && x@ == v,
            Option::None => r is None,
        }),
{
    match j {
        Json::Obj(m) => {
            let a = dec_oint_x(m, "cached_content_token_count");
            let b = dec_oint_x(m, "candidates_token_count");
            let c = dec_oint_x(m, "prompt_token_count");
            let d = dec_oint_x(m, "total_token_count");
            match (a, b, c, d) {
                (Option::Some(av), Option::Some(bv), Option::Some(cv), Option::Some(dv)) => Some(
                    GenerateContentResponseUsageMetadata {
                        cached_content_token_count: av,
                        candidates_token_count: bv,
                        prompt_token_count: cv,
                        total_token_count: dv,
                    },
                ),
                _ => None,
            }
        },
        _ => None,
    }
}

fn dec_feedback_x(j: &Json) -> (r: Option<GenerateContentResponsePromptFeedback>)
    ensures
        (match dec_feedback(jview(*j)) {
            Option::Some(v) => r matches Some(x) && x@ == v,
            Option::None => r is None,
        }),
{
    match j {
        Json::Obj(m) => {
            let br = match get_field(m, "block_reason") {
                Option::None => None,
                Option::Some(x) => match x {
                    Json::Text(s) => match blocked_reason_from(s) {
                        Option::Some(v) => Some(v),
                        Option::None => {
                            return None;
                        },
                    },
                    _ => {
                        return None;
                    },
                },
            };
            let msg = dec_otext_x(m, "block_reason_message");
            match msg {
                Option::Some(mv) => Some(
                    GenerateContentResponsePromptFeedback {
                        block_reason: br,
                        block_reason_message: mv,
                    },
                ),
                Option::None => None,
            }
        },
        _ => None,
    }
}

#[verifier::rlimit(100)]
fn dec_candidate_x(j: &Json) -> (r: Option<Candidate>)
    ensures
        (match dec_candidate(jview(*j)) {
            Option::Some(v) => r matches Some(x) && x@ == v,
            Option::None => r is None,
        }),
{
    let m = match j {
        Json::Obj(m) => m,
        _ => {
            return None;
        },
    };
    let c = match get_field(m, "content") {
        Option::None => None,
        Option::Some(x) => match dec_content_x(x) {
            Option::Some(v) => Some(v),
            Option::None => {
                return None;
            },
        },
    };
    let fm = match dec_otext_x(m, "finish_message") {
        Option::Some(v) => v,
        Option::None => {
            return None;
        },
    };
    let tc = match dec_oint_x(m, "token_count") {
        Option::Some(v) => v,
        Option::None => {
            return None;
        },
    };
    let fr = match get_field(m, "finish_reason") {
        Option::None => None,
        Option::Some(x) => match x {
            Json::Text(s) => match finish_reason_from(s) {
                Option::Some(v) => Some(v),
                Option::None => {
                    return None;
                },
            },
            _ => {
                return None;
            },
        },
    };
    let ix = match dec_oint_x(m, "index") {
        Option::Some(v) => v,
        Option::None => {
            return None;
        },
    };
    Some(
        Candidate {
            content: c,
            finish_message: fm,
            token_count: tc,
            finish_reason: fr,
            index: ix,
        },
    )
}

fn dec_candidates_x(es: &Vec<Json>, i: usize) -> (r: Option<Vec<Candidate>>)
    requires
        i <= es@.len(),
    ensures
        (match dec_candidates(jview_elems(es@).skip(i as int)) {
            Option::Some(cs) => r matches Some(x) && crate::datatypes::candidates_view(x@) == cs,
            Option::None => r is None,
        }),
    decreases es@.len() - i,
{
    proof {
        crate::json::lemma_jview_elems(es@);
    }
    if i >= es.len() {
        let out: Vec<Candidate> = Vec::new();
        proof {
            assert(jview_elems(es@).skip(i as int).len() == 0);
            assert(crate::datatypes::candidates_view(out@) =~= Seq::<CandidateView>::empty());
        }
        return Some(out);
    }
    proof {
        assert(jview_elems(es@).skip(i as int)[0] == jview(es@[i as int]));
        assert(jview_elems(es@).skip(i as int).drop_first() =~= jview_elems(es@).skip(i + 1 as int));
    }
    let c = match dec_candidate_x(&es[i]) {
        Option::Some(c) => c,
        Option::None => {
            return None;
        },
    };
    match dec_candidates_x(es, i + 1) {
        Option::Some(rest) => {
            let ghost tail = rest@;
            let mut rest = rest;
            rest.insert(0, c);
            proof {
                assert(rest@ =~= seq![c] + tail);
                assert(crate::datatypes::candidates_view(rest@) =~= seq![c@]
                    + crate::datatypes::candidates_view(tail));
            }
            Some(rest)
        },
        Option::None => None,
    }
}

/// Decodes one response chunk from its JSON tree, exactly as [`dec_chunk`]
/// states it: unknown members ignored, absent members not present, a
/// wrongly-typed member a failure.
pub fn decode_chunk_json(j: &Json) -> (r: Option<GenerateContentResponse>)
    ensures
        (match dec_chunk(jview(*j)) {
            Option::Some(v) => r matches Some(x) && x@ == v,
            Option::None => r is None,
        }),
{
    let m = match j {
        Json::Obj(m) => m,
        _ => {
            return None;
        },
    };
    let cs = match get_field(m, "candidates") {
        Option::None => None,
        Option::Some(x) => match x {
            Json::Arr(es) => {
                proof {
                    assert(jview_elems(es@).skip(0) =~= jview_elems(es@));
                }
                match dec_candidates_x(es, 0) {
                    Option::Some(v) => Some(v),
                    Option::None => {
                        return None;
                    },
                }
            },
            _ => {
                return None;
            },
        },
    };
    let mv = match dec_otext_x(m, "model_version") {
        Option::Some(v) => v,
        Option::None => {
            return None;
        },
    };
    let pf = match get_field(m, "prompt_feedback") {
        Option::None => None,
        Option::Some(x) => match dec_feedback_x(x) {
            Option::Some(v) => Some(v),
            Option::None => {
                return None;
            },
        },
    };
    let um = match get_field(m, "usage_metadata") {
        Option::None => None,
        Option::Some(x) => match dec_usage_x(x) {
            Option::Some(v) => Some(v),
            Option::None => {
                return None;
            },
        },
    };
    Some(
        GenerateContentResponse {
            candidates: cs,
            model_version: mv,
            prompt_feedback: pf,
            usage_metadata: um,
        },
    )
}

/// The full body law: serializing the encoded request to bytes, parsing
/// the bytes back and decoding the tree recovers the request exactly, for
/// every envelope whose opaque JSON values are well-formed (no verbatim
/// number literals, integers within range) and whose body fits in memory.
pub proof fn lemma_request_body_roundtrip(r: GenerateContentReqView)
    requires
        wf_req_cfg(r),
        2 * crate::json::ser_json(enc_req(r)).len() + 2 <= usize::MAX,
    ensures
        crate::parse::parse_json_spec(crate::json::ser_json(enc_req(r))) == Some(enc_req(r)),
        dec_req(enc_req(r)) == Some(r),
{
    lemma_wf_enc_req(r);
    crate::parse::lemma_document_roundtrip(enc_req(r));
    lemma_request_roundtrip(r);
}

/// Well-formedness of the opaque JSON a part carries: function-call
/// arguments and function-response payloads.
pub open spec fn wf_part_cfg(p: PartView) -> bool {
    &&& (p.function_call matches Some(f) ==> (f.args matches Some(a) ==> crate::parse::wf_json(a)))
    &&& (p.function_response matches Some(f) ==> crate::parse::wf_json(f.response))
}

/// Well-formedness of the opaque JSON a message carries.
pub open spec fn wf_content_cfg(c: ContentView) -> bool {
    c.parts matches Some(ps) ==> forall|k: int| 0 <= k < ps.len() ==> wf_part_cfg(#[trigger] ps[k])
}

/// Well-formedness of every opaque JSON value a request carries: the
/// generation configuration and the function payloads inside the messages.
pub open spec fn wf_req_cfg(r: GenerateContentReqView) -> bool {
    &&& (r.generation_config matches Some(g) ==> crate::parse::wf_json(g))
    &&& (forall|k: int| 0 <= k < r.contents.len() ==> wf_content_cfg(#[trigger] r.contents[k]))
    &&& (r.system_instruction matches Some(c) ==> wf_content_cfg(c))
}

/// Splitting a member list splits its well-formedness.
proof fn lemma_wf_members_concat(a: Seq<(Seq<char>, JsonV)>, b: Seq<(Seq<char>, JsonV)>)
    ensures
        crate::parse::wf_members(a + b) <==> (crate::parse::wf_members(a)
            && crate::parse::wf_members(b)),
    decreases a.len(),
{
    if a.len() == 0 {
        assert(a + b =~= b);
    } else {
        assert((a + b)[0] == a[0]);
        assert((a + b).drop_first() =~= a.drop_first() + b);
        lemma_wf_members_concat(a.drop_first(), b);
    }
}

/// A list whose values are all well-formed is a well-formed element list.
proof fn lemma_wf_elems_pointwise(es: Seq<JsonV>)
    requires
        forall|k: int| 0 <= k < es.len() ==> crate::parse::wf_json(#[trigger] es[k]),
    ensures
        crate::parse::wf_elems(es),
    decreases es.len(),
{
    if es.len() > 0 {
        lemma_wf_elems_pointwise(es.drop_first());
    }
}

proof fn lemma_wf_enc_video(v: VideoMetadataView)
    ensures
        crate::parse::wf_json(enc_video(v)),
{
    reveal_with_fuel(crate::parse::wf_members, 4);
    lemma_wf_members_concat(
        omem("end_offset"@, otext(v.end_offset)),
        omem("start_offset"@, otext(v.start_offset)),
    );
}

proof fn lemma_wf_enc_cer(c: CodeExecutionResultView)
    ensures
        crate::parse::wf_json(enc_cer(c)),
{
    reveal_with_fuel(crate::parse::wf_members, 4);
    lemma_wf_members_concat(
        mem1("outcome"@, JsonV::Text(outcome_str(c.outcome))),
        omem("output"@, otext(c.output)),
    );
}

proof fn lemma_wf_enc_code(e: ExecutableCodeView)
    ensures
        crate::parse::wf_json(enc_code(e)),
{
    reveal_with_fuel(crate::parse::wf_members, 4);
    lemma_wf_members_concat(
        mem1("code"@, JsonV::Text(e.code)),
        mem1("language"@, JsonV::Text(language_str(e.language))),
    );
}

proof fn lemma_wf_enc_file(f: FileDataView)
    ensures
        crate::parse::wf_json(enc_file(f)),
{
    reveal_with_fuel(crate::parse::wf_members, 4);
    lemma_wf_members_concat(
        mem1("file_uri"@, JsonV::Text(f.file_uri)),
        mem1("mime_type"@, JsonV::Text(f.mime_type)),
    );
}

proof fn lemma_wf_enc_fcall(f: FunctionCallView)
    requires
        f.args matches Some(a) ==> crate::parse::wf_json(a),
    ensures
        crate::parse::wf_json(enc_fcall(f)),
{
    reveal_with_fuel(crate::parse::wf_members, 4);
    lemma_wf_members_concat(omem("id"@, otext(f.id)), omem("args"@, f.args));
    lemma_wf_members_concat(
        omem("id"@, otext(f.id)) + omem("args"@, f.args),
        mem1("name"@, JsonV::Text(f.name)),
    );
}

proof fn lemma_wf_enc_fresp(f: FunctionResponseView)
    requires
        crate::parse::wf_json(f.response),
    ensures
        crate::parse::wf_json(enc_fresp(f)),
{
    reveal_with_fuel(crate::parse::wf_members, 4);
    lemma_wf_members_concat(omem("id"@, otext(f.id)), mem1("name"@, JsonV::Text(f.name)));
    lemma_wf_members_concat(
        omem("id"@, otext(f.id)) + mem1("name"@, JsonV::Text(f.name)),
        mem1("response"@, f.response),
    );
}

proof fn lemma_wf_enc_blob(b: BlobView)
    ensures
        crate::parse::wf_json(enc_blob(b)),
{
    reveal_with_fuel(crate::parse::wf_members, 4);
    assert forall|k: int| 0 <= k < bytes_arr(b.data).len() implies crate::parse::wf_json(
        #[trigger] bytes_arr(b.data)[k],
    ) by {
        assert(bytes_arr(b.data)[k] == JsonV::Int(b.data[k] as int));
    }
    lemma_wf_elems_pointwise(bytes_arr(b.data));
    lemma_wf_members_concat(
        mem1("data"@, JsonV::Arr(bytes_arr(b.data))),
        mem1("mime_type"@, JsonV::Text(b.mime_type)),
    );
}

proof fn lemma_wf_enc_part(p: PartView)
    requires
        wf_part_cfg(p),
    ensures
        crate::parse::wf_json(enc_part(p)),
{
    reveal_with_fuel(crate::parse::wf_members, 4);
    let m1 = omem("video_metadata"@, (match p.video_metadata {
        Option::Some(v) => Some(enc_video(v)),
        Option::None => None,
    }));
    let m2 = omem("code_execution_result"@, (match p.code_execution_result {
        Option::Some(v) => Some(enc_cer(v)),
        Option::None => None,
    }));
    let m3 = omem("executable_code"@, (match p.executable_code {
        Option::Some(v) => Some(enc_code(v)),
        Option::None => None,
    }));
    let m4 = omem("file_data"@, (match p.file_data {
        Option::Some(v) => Some(enc_file(v)),
        Option::None => None,
    }));
    let m5 = omem("function_call"@, (match p.function_call {
        Option::Some(v) => Some(enc_fcall(v)),
        Option::None => None,
    }));
    let m6 = omem("function_response"@, (match p.function_response {
        Option::Some(v) => Some(enc_fresp(v)),
        Option::None => None,
    }));
    let m7 = omem("inline_data"@, (match p.inline_data {
        Option::Some(v) => Some(enc_blob(v)),
        Option::None => None,
    }));
    let m8 = omem("text"@, otext(p.text));
    match p.video_metadata {
        Option::Some(v) => lemma_wf_enc_video(v),
        Option::None => (),
    }
    match p.code_execution_result {
        Option::Some(v) => lemma_wf_enc_cer(v),
        Option::None => (),
    }
    match p.executable_code {
        Option::Some(v) => lemma_wf_enc_code(v),
        Option::None => (),
    }
    match p.file_data {
        Option::Some(v) => lemma_wf_enc_file(v),
        Option::None => (),
    }
    match p.function_call {
        Option::Some(v) => lemma_wf_enc_fcall(v),
        Option::None => (),
    }
    match p.function_response {
        Option::Some(v) => lemma_wf_enc_fresp(v),
        Option::None => (),
    }
    match p.inline_data {
        Option::Some(v) => lemma_wf_enc_blob(v),
        Option::None => (),
    }
    lemma_wf_members_concat(m1, m2);
    lemma_wf_members_concat(m1 + m2, m3);
    lemma_wf_members_concat(m1 + m2 + m3, m4);
    lemma_wf_members_concat(m1 + m2 + m3 + m4, m5);
    lemma_wf_members_concat(m1 + m2 + m3 + m4 + m5, m6);
    lemma_wf_members_concat(m1 + m2 + m3 + m4 + m5 + m6, m7);
    lemma_wf_members_concat(m1 + m2 + m3 + m4 + m5 + m6 + m7, m8);
}

proof fn lemma_wf_enc_content(c: ContentView)
    requires
        wf_content_cfg(c),
    ensures
        crate::parse::wf_json(enc_content(c)),
{
    reveal_with_fuel(crate::parse::wf_members, 4);
    match c.parts {
        Option::Some(ps) => {
            assert forall|k: int| 0 <= k < enc_parts(ps).len() implies crate::parse::wf_json(
                #[trigger] enc_parts(ps)[k],
            ) by {
                assert(enc_parts(ps)[k] == enc_part(ps[k]));
                lemma_wf_enc_part(ps[k]);
            }
            lemma_wf_elems_pointwise(enc_parts(ps));
        },
        Option::None => (),
    }
    lemma_wf_members_concat(omem("parts"@, (match c.parts {
        Option::Some(ps) => Some(JsonV::Arr(enc_parts(ps))),
        Option::None => None,
    })), omem("role"@, otext(c.role)));
}

/// Every opaque value well-formed makes the whole encoded request body a
/// well-formed JSON tree.
pub proof fn lemma_wf_enc_req(r: GenerateContentReqView)
    requires
        wf_req_cfg(r),
    ensures
        crate::parse::wf_json(enc_req(r)),
{
    reveal_with_fuel(crate::parse::wf_members, 4);
    assert forall|k: int| 0 <= k < enc_contents(r.contents).len() implies crate::parse::wf_json(
        #[trigger] enc_contents(r.contents)[k],
    ) by {
        assert(enc_contents(r.contents)[k] == enc_content(r.contents[k]));
        lemma_wf_enc_content(r.contents[k]);
    }
    lemma_wf_elems_pointwise(enc_contents(r.contents));
    match r.system_instruction {
        Option::Some(c) => lemma_wf_enc_content(c),
        Option::None => (),
    }
    let m1 = mem1("model"@, JsonV::Text(r.model));
    let m2 = mem1("contents"@, JsonV::Arr(enc_contents(r.contents)));
    let m3 = omem("generationConfig"@, r.generation_config);
    let m4 = omem("system_instruction"@, (match r.system_instruction {
        Option::Some(c) => Some(enc_content(c)),
        Option::None => None,
    }));
    lemma_wf_members_concat(m1, m2);
    lemma_wf_members_concat(m1 + m2, m3);
    lemma_wf_members_concat(m1 + m2 + m3, m4);
}

} // verus!

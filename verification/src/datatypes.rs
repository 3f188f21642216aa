//! The request and response records of the generative-content protocol.
//!
//! Only the envelope needed to build a streaming call and to interpret its
//! response stream is typed here: the model identifier, the ordered message
//! list with its part variants, and the decoded response chunk.  Sampling
//! and tooling configuration is passed through unvalidated as an opaque
//! JSON value.  Each record has a mathematical view (`...View`) that the
//! JSON codec's contracts speak of.

use crate::json::{Json, JsonV, jview};
use vstd::prelude::*;

verus! {

/// Outcome of a code execution.
#[derive(Debug, Clone, Copy, PartialEq, Eq, Structural)]
pub enum Outcome {
    Unspecified,
    Okay,
    Failed,
    DeadlineExceeded,
}

/// Programming language of executable code.
#[derive(Debug, Clone, Copy, PartialEq, Eq, Structural)]
pub enum Language {
    Unspecified,
    Python,
}

/// Why a candidate stopped producing tokens.
#[derive(Debug, Clone, Copy, PartialEq, Eq, Structural)]
pub enum FinishReason {
    Unspecified,
    Stop,
    MaxTokens,
    Safety,
    Recitation,
    Other,
    Blocklist,
    ProhibitedContent,
    Spii,
    MalformedFunctionCall,
}

/// Why a prompt was blocked.
#[derive(Debug, Clone, Copy, PartialEq, Eq, Structural)]
pub enum BlockedReason {
    Unspecified,
    Safety,
    Other,
    Blocklist,
    ProhibitedContent,
}

pub ghost struct VideoMetadataView {
    pub end_offset: Option<Seq<char>>,
    pub start_offset: Option<Seq<char>>,
}

/// Offsets of a video segment.
#[derive(Debug, Clone, PartialEq)]
pub struct VideoMetadata {
    pub end_offset: Option<String>,
    pub start_offset: Option<String>,
}

pub ghost struct CodeExecutionResultView {
    pub outcome: Outcome,
    pub output: Option<Seq<char>>,
}

/// Result of executing code.
#[derive(Debug, Clone, PartialEq)]
pub struct CodeExecutionResult {
    pub outcome: Outcome,
    pub output: Option<String>,
}

pub ghost struct ExecutableCodeView {
    pub code: Seq<char>,
    pub language: Language,
}

/// Code the model wants executed.
#[derive(Debug, Clone, PartialEq)]
pub struct ExecutableCode {
    pub code: String,
    pub language: Language,
}

pub ghost struct FileDataView {
    pub file_uri: Seq<char>,
    pub mime_type: Seq<char>,
}

/// A reference to an uploaded file.
#[derive(Debug, Clone, PartialEq)]
pub struct FileData {
    pub file_uri: String,
    pub mime_type: String,
}

pub ghost struct FunctionCallView {
    pub id: Option<Seq<char>>,
    pub args: Option<JsonV>,
    pub name: Seq<char>,
}

/// A function call the model requests, with opaque JSON arguments.
#[derive(Debug, PartialEq)]
pub struct FunctionCall {
    pub id: Option<String>,
    pub args: Option<Json>,
    pub name: String,
}

pub ghost struct FunctionResponseView {
    pub id: Option<Seq<char>>,
    pub name: Seq<char>,
    pub response: JsonV,
}

/// The caller's answer to a function call, with an opaque JSON payload.
#[derive(Debug, PartialEq)]
pub struct FunctionResponse {
    pub id: Option<String>,
    pub name: String,
    pub response: Json,
}

pub ghost struct BlobView {
    pub data: Seq<u8>,
    pub mime_type: Seq<char>,
}

/// An inline binary blob with its MIME type.
#[derive(Debug, Clone, PartialEq)]
pub struct Blob {
    pub data: Vec<u8>,
    pub mime_type: String,
}

pub ghost struct PartView {
    pub video_metadata: Option<VideoMetadataView>,
    pub code_execution_result: Option<CodeExecutionResultView>,
    pub executable_code: Option<ExecutableCodeView>,
    pub file_data: Option<FileDataView>,
    pub function_call: Option<FunctionCallView>,
    pub function_response: Option<FunctionResponseView>,
    pub inline_data: Option<BlobView>,
    pub text: Option<Seq<char>>,
}

/// One part of a message: a closed set of mutually-optional payload
/// variants, as the lax upstream schema has it.
#[derive(Debug, PartialEq)]
pub struct Part {
    pub video_metadata: Option<VideoMetadata>,
    pub code_execution_result: Option<CodeExecutionResult>,
    pub executable_code: Option<ExecutableCode>,
    pub file_data: Option<FileData>,
    pub function_call: Option<FunctionCall>,
    pub function_response: Option<FunctionResponse>,
    pub inline_data: Option<Blob>,
    pub text: Option<String>,
}

pub ghost struct ContentView {
    pub parts: Option<Seq<PartView>>,
    pub role: Option<Seq<char>>,
}

/// One message: a role tag and its ordered parts.
#[derive(Debug, PartialEq)]
pub struct Content {
    pub parts: Option<Vec<Part>>,
    pub role: Option<String>,
}

pub ghost struct GenerateContentReqView {
    pub model: Seq<char>,
    pub contents: Seq<ContentView>,
    pub generation_config: Option<JsonV>,
    pub system_instruction: Option<ContentView>,
}

/// A content-generation request: the model identifier, the ordered message
/// list, an opaque generation configuration passed through unvalidated,
/// and an optional system instruction.
#[derive(Debug, PartialEq)]
pub struct GenerateContentReq {
    pub model: String,
    pub contents: Vec<Content>,
    pub generation_config: Option<Json>,
    pub system_instruction: Option<Content>,
}

pub ghost struct GenerateContentResponseUsageMetadataView {
    pub cached_content_token_count: Option<int>,
    pub candidates_token_count: Option<int>,
    pub prompt_token_count: Option<int>,
    pub total_token_count: Option<int>,
}

/// Token counts reported with a response.
#[derive(Debug, Clone, PartialEq)]
pub struct GenerateContentResponseUsageMetadata {
    pub cached_content_token_count: Option<i64>,
    pub candidates_token_count: Option<i64>,
    pub prompt_token_count: Option<i64>,
    pub total_token_count: Option<i64>,
}

pub ghost struct GenerateContentResponsePromptFeedbackView {
    pub block_reason: Option<BlockedReason>,
    pub block_reason_message: Option<Seq<char>>,
}

/// Prompt-level feedback in a response.
#[derive(Debug, Clone, PartialEq)]
pub struct GenerateContentResponsePromptFeedback {
    pub block_reason: Option<BlockedReason>,
    pub block_reason_message: Option<String>,
}

pub ghost struct CandidateView {
    pub content: Option<ContentView>,
    pub finish_message: Option<Seq<char>>,
    pub token_count: Option<int>,
    pub finish_reason: Option<FinishReason>,
    pub index: Option<int>,
}

/// One generated candidate of a response chunk.
#[derive(Debug, PartialEq)]
pub struct Candidate {
    pub content: Option<Content>,
    pub finish_message: Option<String>,
    pub token_count: Option<i64>,
    pub finish_reason: Option<FinishReason>,
    pub index: Option<i64>,
}

pub ghost struct GenerateContentResponseView {
    pub candidates: Option<Seq<CandidateView>>,
    pub model_version: Option<Seq<char>>,
    pub prompt_feedback: Option<GenerateContentResponsePromptFeedbackView>,
    pub usage_metadata: Option<GenerateContentResponseUsageMetadataView>,
}

/// One decoded unit of streamed output: zero or more candidates, optional
/// prompt feedback, optional usage metadata.
#[derive(Debug, PartialEq)]
pub struct GenerateContentResponse {
    pub candidates: Option<Vec<Candidate>>,
    pub model_version: Option<String>,
    pub prompt_feedback: Option<GenerateContentResponsePromptFeedback>,
    pub usage_metadata: Option<GenerateContentResponseUsageMetadata>,
}

/// The view of an optional string.
pub open spec fn ostr_view(o: Option<String>) -> Option<Seq<char>> {
    match o {
        Option::Some(s) => Some(s@),
        Option::None => None,
    }
}

/// The view of an optional count.
pub open spec fn oint_view(o: Option<i64>) -> Option<int> {
    match o {
        Option::Some(i) => Some(i as int),
        Option::None => None,
    }
}

/// The view of an optional opaque JSON value.
pub open spec fn ojson_view(o: Option<Json>) -> Option<JsonV> {
    match o {
        Option::Some(j) => Some(jview(j)),
        Option::None => None,
    }
}

impl View for VideoMetadata {
    type V = VideoMetadataView;

    open spec fn view(&self) -> VideoMetadataView {
        VideoMetadataView {
            end_offset: ostr_view(self.end_offset),
            start_offset: ostr_view(self.start_offset),
        }
    }
}

impl View for CodeExecutionResult {
    type V = CodeExecutionResultView;

    open spec fn view(&self) -> CodeExecutionResultView {
        CodeExecutionResultView { outcome: self.outcome, output: ostr_view(self.output) }
    }
}

impl View for ExecutableCode {
    type V = ExecutableCodeView;

    open spec fn view(&self) -> ExecutableCodeView {
        ExecutableCodeView { code: self.code@, language: self.language }
    }
}

impl View for FileData {
    type V = FileDataView;

    open spec fn view(&self) -> FileDataView {
        FileDataView { file_uri: self.file_uri@, mime_type: self.mime_type@ }
    }
}

impl View for FunctionCall {
    type V = FunctionCallView;

    open spec fn view(&self) -> FunctionCallView {
        FunctionCallView {
            id: ostr_view(self.id),
            args: ojson_view(self.args),
            name: self.name@,
        }
    }
}

impl View for FunctionResponse {
    type V = FunctionResponseView;

    open spec fn view(&self) -> FunctionResponseView {
        FunctionResponseView {
            id: ostr_view(self.id),
            name: self.name@,
            response: jview(self.response),
        }
    }
}

impl View for Blob {
    type V = BlobView;

    open spec fn view(&self) -> BlobView {
        BlobView { data: self.data@, mime_type: self.mime_type@ }
    }
}

impl View for Part {
    type V = PartView;

    open spec fn view(&self) -> PartView {
        PartView {
            video_metadata: (match self.video_metadata {
                Option::Some(v) => Some(v@),
                Option::None => None,
            }),
            code_execution_result: (match self.code_execution_result {
                Option::Some(v) => Some(v@),
                Option::None => None,
            }),
            executable_code: (match self.executable_code {
                Option::Some(v) => Some(v@),
                Option::None => None,
            }),
            file_data: (match self.file_data {
                Option::Some(v) => Some(v@),
                Option::None => None,
            }),
            function_call: (match self.function_call {
                Option::Some(v) => Some(v@),
                Option::None => None,
            }),
            function_response: (match self.function_response {
                Option::Some(v) => Some(v@),
                Option::None => None,
            }),
            inline_data: (match self.inline_data {
                Option::Some(v) => Some(v@),
                Option::None => None,
            }),
            text: ostr_view(self.text),
        }
    }
}

/// The views of a part list, in order.
pub open spec fn parts_view(s: Seq<Part>) -> Seq<PartView> {
    s.map_values(|p: Part| p@)
}

impl View for Content {
    type V = ContentView;

    open spec fn view(&self) -> ContentView {
        ContentView {
            parts: (match self.parts {
                Option::Some(ps) => Some(parts_view(ps@)),
                Option::None => None,
            }),
            role: ostr_view(self.role),
        }
    }
}

/// The views of a content list, in order.
pub open spec fn contents_view(s: Seq<Content>) -> Seq<ContentView> {
    s.map_values(|c: Content| c@)
}

impl View for GenerateContentReq {
    type V = GenerateContentReqView;

    open spec fn view(&self) -> GenerateContentReqView {
        GenerateContentReqView {
            model: self.model@,
            contents: contents_view(self.contents@),
            generation_config: ojson_view(self.generation_config),
            system_instruction: (match self.system_instruction {
                Option::Some(c) => Some(c@),
                Option::None => None,
            }),
        }
    }
}

impl View for GenerateContentResponseUsageMetadata {
    type V = GenerateContentResponseUsageMetadataView;

    open spec fn view(&self) -> GenerateContentResponseUsageMetadataView {
        GenerateContentResponseUsageMetadataView {
            cached_content_token_count: oint_view(self.cached_content_token_count),
            candidates_token_count: oint_view(self.candidates_token_count),
            prompt_token_count: oint_view(self.prompt_token_count),
            total_token_count: oint_view(self.total_token_count),
        }
    }
}

impl View for GenerateContentResponsePromptFeedback {
    type V = GenerateContentResponsePromptFeedbackView;

    open spec fn view(&self) -> GenerateContentResponsePromptFeedbackView {
        GenerateContentResponsePromptFeedbackView {
            block_reason: self.block_reason,
            block_reason_message: ostr_view(self.block_reason_message),
        }
    }
}

impl View for Candidate {
    type V = CandidateView;

    open spec fn view(&self) -> CandidateView {
        CandidateView {
            content: (match self.content {
                Option::Some(c) => Some(c@),
                Option::None => None,
            }),
            finish_message: ostr_view(self.finish_message),
            token_count: oint_view(self.token_count),
            finish_reason: self.finish_reason,
            index: oint_view(self.index),
        }
    }
}

/// The views of a candidate list, in order.
pub open spec fn candidates_view(s: Seq<Candidate>) -> Seq<CandidateView> {
    s.map_values(|c: Candidate| c@)
}

impl View for GenerateContentResponse {
    type V = GenerateContentResponseView;

    open spec fn view(&self) -> GenerateContentResponseView {
        GenerateContentResponseView {
            candidates: (match self.candidates {
                Option::Some(cs) => Some(candidates_view(cs@)),
                Option::None => None,
            }),
            model_version: ostr_view(self.model_version),
            prompt_feedback: (match self.prompt_feedback {
                Option::Some(p) => Some(p@),
                Option::None => None,
            }),
            usage_metadata: (match self.usage_metadata {
                Option::Some(u) => Some(u@),
                Option::None => None,
            }),
        }
    }
}

} // verus!

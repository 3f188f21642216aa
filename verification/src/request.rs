//! The request builder.
//!
//! Builds the outbound HTTP request descriptor for a generation call: the
//! method, the URL with the model and the API key, the JSON body, and the
//! SSE negotiation flag.  Pure, no I/O; the transport sends it.

use crate::codec::{enc_req, encode_request};
use crate::datatypes::GenerateContentReq;
use crate::error::{ErrView, GenAiError};
use crate::json::{ser_json, to_json_bytes};
use vstd::prelude::*;

verus! {

/// An outbound request, ready for a transport to send.
#[derive(Debug)]
pub struct HttpRequestParts {
    /// The HTTP method, always `POST`.
    pub method: String,
    /// The full URL, key included.
    pub url: String,
    /// The JSON body bytes.
    pub body: Vec<u8>,
    /// Whether the request negotiates a server-sent-event response.
    pub accept_sse: bool,
}

/// Builds the streaming request: `POST
/// <base>/<model>:streamGenerateContent?alt=sse&key=<key>` with the
/// JSON-encoded request as body.  Fails exactly on an empty model
/// identifier, before anything is sent.
pub fn build_stream_request(base_url: &str, api_key: &str, req: &GenerateContentReq) -> (r: Result<
    HttpRequestParts,
    GenAiError,
>)
    ensures
        req.model@.len() == 0 <==> r is Err,
        r matches Err(e) ==> e@ matches ErrView::LocalValidation { .. },
        r matches Ok(p) ==> p.method@ == "POST"@ && p.url@ == base_url@ + "/"@ + req.model@
            + ":streamGenerateContent?alt=sse&key="@ + api_key@ && p.body@ == ser_json(
            enc_req(req@),
        ) && p.accept_sse == true,
{
    if req.model.as_str().unicode_len() == 0 {
        return Err(
            GenAiError::LocalValidation {
                message: String::from_str("model identifier must not be empty"),
            },
        );
    }
    let mut url = String::from_str(base_url);
    url.append("/");
    url.append(req.model.as_str());
    url.append(":streamGenerateContent?alt=sse&key=");
    url.append(api_key);
    let body = to_json_bytes(&encode_request(req));
    Ok(HttpRequestParts { method: String::from_str("POST"), url, body, accept_sse: true })
}

/// Builds the single-shot request: `POST
/// <base>/<model>:generateContent?key=<key>`.  Fails exactly on an empty
/// model identifier.
pub fn build_generate_request(base_url: &str, api_key: &str, req: &GenerateContentReq) -> (r:
    Result<HttpRequestParts, GenAiError>)
    ensures
        req.model@.len() == 0 <==> r is Err,
        r matches Err(e) ==> e@ matches ErrView::LocalValidation { .. },
        r matches Ok(p) ==> p.method@ == "POST"@ && p.url@ == base_url@ + "/"@ + req.model@
            + ":generateContent?key="@ + api_key@ && p.body@ == ser_json(enc_req(req@))
            && p.accept_sse == false,
{
    if req.model.as_str().unicode_len() == 0 {
        return Err(
            GenAiError::LocalValidation {
                message: String::from_str("model identifier must not be empty"),
            },
        );
    }
    let mut url = String::from_str(base_url);
    url.append("/");
    url.append(req.model.as_str());
    url.append(":generateContent?key=");
    url.append(api_key);
    let body = to_json_bytes(&encode_request(req));
    Ok(HttpRequestParts { method: String::from_str("POST"), url, body, accept_sse: false })
}

} // verus!

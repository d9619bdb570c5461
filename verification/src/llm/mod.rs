//! Requests to an OpenAI-compatible chat model.
use vstd::prelude::*;
use vstd::string::*;
use vstd::utf8::*;

pub mod openai;

verus! {

/// Request to the LLM.
pub struct LlmRequest {
    /// OCR text together with the style context.
    pub current_context: String,
}

/// What the model is asked to produce.
#[derive(Clone, Copy, Debug)]
pub enum Mode {
    /// Generate a full reply.
    Reply,
}

/// Configuration for the LLM backend.
#[derive(Clone, Debug)]
pub struct LlmConfig {
    pub api_key: String,
    pub model: String,
    pub base_url: String,
}

/// One message of a chat-completion request.
pub struct ChatMessage {
    pub role: String,
    pub content: String,
}

/// The role of the instructions that open a conversation with the model.
pub const ROLE_SYSTEM: &'static str = "system";

/// The role of the user's turn.
pub const ROLE_USER: &'static str = "user";

/// The path of the chat-completion endpoint below the API base URL.
pub const CHAT_COMPLETIONS_PATH: &'static str = "/chat/completions";

/// The scheme of the `Authorization` header.
pub const BEARER_PREFIX: &'static str = "Bearer ";

/// A two-message conversation: instructions, then the user's turn.
pub fn system_and_user(system: &str, user: String) -> (msgs: Vec<ChatMessage>)
    ensures
        msgs@.len() == 2,
        msgs@[0].role@ == ROLE_SYSTEM@,
        msgs@[0].content@ == system@,
        msgs@[1].role@ == ROLE_USER@,
        msgs@[1].content@ == user@,
{
    let first = ChatMessage { role: String::from_str(ROLE_SYSTEM), content: String::from_str(system) };
    let second = ChatMessage { role: String::from_str(ROLE_USER), content: user };
    let mut msgs: Vec<ChatMessage> = Vec::new();
    msgs.push(first);
    msgs.push(second);
    msgs
}

/// `{base_url}/chat/completions`.
pub fn chat_completions_url(base_url: &str) -> (url: String)
    ensures
        url@ == base_url@ + CHAT_COMPLETIONS_PATH@,
{
    let mut url = String::from_str(base_url);
    url.append(CHAT_COMPLETIONS_PATH);
    url
}

/// The value of the `Authorization` header: `Bearer {api_key}`.
pub fn bearer_token(api_key: &str) -> (value: String)
    ensures
        value@ == BEARER_PREFIX@ + api_key@,
{
    let mut value = String::from_str(BEARER_PREFIX);
    value.append(api_key);
    value
}

/// A request to the model that failed before or while its answer was read.
#[derive(Clone, Copy, Debug)]
pub enum RequestFailure {
    /// Sending the reply request failed.
    RequestFailed,
    /// Reading the streamed reply failed.
    StreamError,
    /// Sending a background (distillation or style) request failed.
    HttpError,
    /// The answer of a background request was not the expected JSON.
    ParseError,
}

/// The text that precedes the error's own message for each kind of failure.
pub open spec fn failure_prefix(kind: RequestFailure) -> Seq<char> {
    match kind {
        RequestFailure::RequestFailed => "HTTP request failed: "@,
        RequestFailure::StreamError => "Stream error: "@,
        RequestFailure::HttpError => "HTTP error: "@,
        RequestFailure::ParseError => "Parse error: "@,
    }
}

/// The error text of a failed request: the prefix of its kind, then `detail`, the
/// message of the error that caused it.
pub fn request_failure_text(kind: RequestFailure, detail: &str) -> (t: String)
    ensures
        t@ == failure_prefix(kind) + detail@,
{
    let mut t = match kind {
        RequestFailure::RequestFailed => String::from_str("HTTP request failed: "),
        RequestFailure::StreamError => String::from_str("Stream error: "),
        RequestFailure::HttpError => String::from_str("HTTP error: "),
        RequestFailure::ParseError => String::from_str("Parse error: "),
    };
    t.append(detail);
    t
}

/// `"API error ("`, the start of the text of an error status.
pub const API_ERROR_OPEN: &'static str = "API error (";

/// `"): "`, what follows the status in the text of an error status.
pub const API_ERROR_CLOSE: &'static str = "): ";

/// `"API error: "`, the start of the text of an error status given without its body.
pub const API_STATUS_ERROR_PREFIX: &'static str = "API error: ";

/// How many bytes of an error body a background request keeps.
pub const API_ERROR_BODY_LIMIT: usize = 200;

/// The text of an error status: `"API error ({status}): {body}"`.
pub fn api_error_text(status: &str, body: &str) -> (t: String)
    ensures
        t@ == API_ERROR_OPEN@ + status@ + API_ERROR_CLOSE@ + body@,
{
    let mut t = String::from_str(API_ERROR_OPEN);
    t.append(status);
    t.append(API_ERROR_CLOSE);
    t.append(body);
    t
}

/// How many bytes of `body` an error text keeps: all of them, up to `API_ERROR_BODY_LIMIT`.
pub open spec fn body_cut(body: Seq<char>) -> int {
    let n = encode_utf8(body).len() as int;
    if n <= API_ERROR_BODY_LIMIT {
        n
    } else {
        API_ERROR_BODY_LIMIT as int
    }
}

/// The text that the first `body_cut(body)` bytes of `body` encode.
pub open spec fn body_head(body: Seq<char>) -> Seq<char> {
    decode_utf8(encode_utf8(body).subrange(0, body_cut(body)))
}

/// The text of an error status with its body cut to its first `API_ERROR_BODY_LIMIT`
/// bytes. The cut must fall between two characters (slicing a `str` elsewhere panics).
pub fn api_error_text_truncated(status: &str, body: &str) -> (t: String)
    requires
        is_char_boundary(encode_utf8(body@), body_cut(body@)),
    ensures
        t@ == API_ERROR_OPEN@ + status@ + API_ERROR_CLOSE@ + body_head(body@),
{
    let n = body.as_bytes().len();
    let cut = if n <= API_ERROR_BODY_LIMIT {
        n
    } else {
        API_ERROR_BODY_LIMIT
    };
    assert(cut as int == body_cut(body@));
    let (head, _rest) = body.split_at(cut);
    proof {
        broadcast use encode_utf8_decode_utf8;

        assert(decode_utf8(encode_utf8(head@)) == head@);
    }
    api_error_text(status, head)
}

/// The text of an error status given without its body: `"API error: {status}"`.
pub fn api_status_error_text(status: &str) -> (t: String)
    ensures
        t@ == API_STATUS_ERROR_PREFIX@ + status@,
{
    let mut t = String::from_str(API_STATUS_ERROR_PREFIX);
    t.append(status);
    t
}

} // verus!

use vstd::prelude::*;
use vstd::utf8::{decode_utf8, valid_utf8};
use crate::email::encodable_len;
use crate::transfer_encoding::base64_url_encode;

verus! {

/// The value of the Authorization header for an OAuth2 access token.
pub fn bearer_authorization(token: &str) -> (value: String)
    ensures
        value@ == "Bearer "@ + token@,
{
    let mut value = String::from_str("Bearer ");
    value.append(token);
    value
}

/// Whether an HTTP status code reports success: the 2xx class, as
/// `http::StatusCode::is_success` has it.
pub fn is_success_status(code: u16) -> (success: bool)
    ensures
        success == (200 <= code <= 299),
{
    200 <= code && code <= 299
}

/// What the program keeps of the message that the Gmail API sends back.
#[derive(Debug)]
pub struct SentMessage {
    pub id: Option<String>,
    pub thread_id: Option<String>,
}

/// Why sending failed, at the steps that the library takes.
#[derive(Debug)]
pub enum SendError {
    /// The API answered with a status outside 2xx; the text to show.
    RequestFailed(String),
    /// The answer was not a message in JSON, for the reason given.
    InvalidResponse(String),
}

/// The view of optional bytes.
pub open spec fn opt_bytes(b: Option<&[u8]>) -> Option<Seq<u8>> {
    match b {
        Some(v) => Some(v@),
        None => None,
    }
}

/// The view of an optional string.
pub open spec fn opt_string(s: Option<String>) -> Option<Seq<char>> {
    match s {
        Some(v) => Some(v@),
        None => None,
    }
}

/// The JSON that `serde_json::to_string` writes for a Gmail API message
/// (`google_gmail1::api::Message`) whose only field is the raw RFC 822
/// text: every field in declaration order under its API name, `null` where
/// unset, and `raw` as URL-safe base64 with padding.
pub open spec fn send_request_json(raw: Option<Seq<u8>>) -> Seq<char> {
    "{\"historyId\":null,\"id\":null,\"internalDate\":null,\"labelIds\":null,\"payload\":null,\"raw\":"@
        + match raw {
        Some(r) => "\""@ + base64_url_encode(r) + "\""@,
        None => "null"@,
    } + ",\"sizeEstimate\":null,\"snippet\":null,\"threadId\":null}"@
}

/// The raw text is absent or small enough for the base64 encoder.
pub open spec fn raw_encodable(raw: Option<Seq<u8>>) -> bool {
    match raw {
        Some(r) => encodable_len(r.len()),
        None => true,
    }
}

/// The id and thread id of the Gmail API message that
/// `serde_json::from_slice` reads from a response body: `None` where the
/// body is not such a message.
pub uninterp spec fn sent_message_ids(body: Seq<u8>) -> Option<(Option<Seq<char>>, Option<Seq<char>>)>;

/// The text that `String::from_utf8_lossy` makes of some bytes.
pub uninterp spec fn lossy_utf8(bytes: Seq<u8>) -> Seq<char>;

/// Writes a Gmail API message holding `raw` as JSON with
/// `serde_json::to_string`. The message has no maps and its fields are
/// numbers, strings and `raw`, which `google_apis_common`'s
/// `urlsafe_base64::Wrapper` writes as a string of
/// `BASE64_URL_SAFE.encode(raw)`, so writing it succeeds and gives
/// `send_request_json(raw)`. The encoder panics where the output length
/// overflows `usize`; `requires` leaves those inputs out.
#[verifier::external_body]
fn serialize_message(raw: Option<&[u8]>) -> (json: Result<String, String>)
    requires
        raw_encodable(opt_bytes(raw)),
    ensures
        json is Ok,
        json matches Ok(j) ==> j@ == send_request_json(opt_bytes(raw)),
{
    let message = google_gmail1::api::Message { raw: raw.map(|r| r.to_vec()), ..Default::default() };
    serde_json::to_string(&message).map_err(|e| e.to_string())
}

/// Reads a Gmail API message from a response body with
/// `serde_json::from_slice::<google_gmail1::api::Message>` and keeps its
/// ids. The contract names the outcome; the error is the parser's message.
#[verifier::external_body]
fn parse_sent_message(body: &[u8]) -> (result: Result<SentMessage, String>)
    ensures
        result is Ok <==> sent_message_ids(body@) is Some,
        result matches Ok(m) ==> sent_message_ids(body@) == Some(
            (opt_string(m.id), opt_string(m.thread_id)),
        ),
{
    match serde_json::from_slice::<google_gmail1::api::Message>(body) {
        Ok(m) => Ok(SentMessage { id: m.id, thread_id: m.thread_id }),
        Err(e) => Err(e.to_string()),
    }
}

/// Decodes bytes as UTF-8 with `String::from_utf8_lossy`, which puts
/// U+FFFD in place of invalid sequences. The contract names the result and
/// states what the documentation gives for valid UTF-8: the decoded text.
#[verifier::external_body]
fn utf8_lossy(bytes: &[u8]) -> (text: String)
    ensures
        text@ == lossy_utf8(bytes@),
        valid_utf8(bytes@) ==> text@ == decode_utf8(bytes@),
{
    String::from_utf8_lossy(bytes).into_owned()
}

/// The JSON body of the request that sends a message with the given raw
/// RFC 822 text.
pub fn send_request_body(raw: Option<&[u8]>) -> (body: String)
    requires
        raw_encodable(opt_bytes(raw)),
    ensures
        body@ == send_request_json(opt_bytes(raw)),
{
    match serialize_message(raw) {
        Ok(json) => json,
        Err(_) => {
            proof {
                assert(false);
            }
            String::new()
        },
    }
}

/// The text shown where the API refuses a message.
pub open spec fn request_failed_text(status_text: Seq<char>, body: Seq<u8>) -> Seq<char> {
    "Gmail API request failed with status "@ + status_text + ": "@ + lossy_utf8(body)
}

/// Judges the answer of the Gmail API: a status outside 2xx is a failure,
/// shown with the status (`status_text`, as the HTTP library writes it)
/// and the body as text; otherwise the body must be a message in JSON,
/// whose ids are kept.
pub fn send_outcome(status: u16, status_text: &str, body: &[u8]) -> (result: Result<
    SentMessage,
    SendError,
>)
    ensures
        !(200 <= status <= 299) ==> (result matches Err(SendError::RequestFailed(m))
            && m@ == request_failed_text(status_text@, body@)),
        200 <= status <= 299 ==> {
            &&& result is Ok <==> sent_message_ids(body@) is Some
            &&& result matches Ok(m) ==> sent_message_ids(body@) == Some(
                (opt_string(m.id), opt_string(m.thread_id)),
            )
            &&& result matches Err(e) ==> e is InvalidResponse
        },
{
    if !is_success_status(status) {
        let mut text = String::from_str("Gmail API request failed with status ");
        text.append(status_text);
        text.append(": ");
        text.append(utf8_lossy(body).as_str());
        return Err(SendError::RequestFailed(text));
    }
    match parse_sent_message(body) {
        Ok(m) => Ok(m),
        Err(message) => Err(SendError::InvalidResponse(message)),
    }
}

} // verus!

//! Extraction of the routing-relevant fields from a JSON request body.
//!
//! The body itself is parsed by serde_json behind trusted wrappers; the
//! route-dependent choice of which field supplies the request text is
//! verified here. A body that is not JSON, or lacks a field, degrades to
//! the documented defaults: empty text, the sentinel user id, no
//! streaming.

use vstd::prelude::*;

verus! {

/// Route tags whose request-text extraction differs.
#[derive(Clone, Copy, PartialEq, Eq, Structural)]
pub enum RouteTag {
    Generate,
    Completions,
    ChatCompletions,
    Other,
}

/// The string value of the given top-level field of the body, when the
/// body is a JSON object carrying that field as a string.
pub uninterp spec fn string_field_of(body: Seq<u8>, key: Seq<char>) -> Option<Seq<char>>;

/// The canonical textual serialization of the top-level `messages` field
/// of the body, when present.
pub uninterp spec fn messages_field_of(body: Seq<u8>) -> Option<Seq<char>>;

/// The boolean value of the top-level `stream` field of the body, when
/// present.
pub uninterp spec fn stream_field_of(body: Seq<u8>) -> Option<bool>;

/// Relies on serde_json::from_slice, Value::get and Value::as_str: the
/// string value of the given top-level field, or nothing when the body is
/// not a JSON object or the field is absent or not a string.
#[verifier::external_body]
fn json_string_field(body: &Vec<u8>, key: &str) -> (r: Option<String>)
    ensures
        match r {
            Some(s) => string_field_of(body@, key@) == Some(s@),
            None => string_field_of(body@, key@) is None,
        },
{
    match serde_json::from_slice::<serde_json::Value>(body) {
        Ok(v) => v.get(key).and_then(|t| t.as_str()).map(|s| s.to_string()),
        Err(_) => None,
    }
}

/// Relies on serde_json::from_slice, Value::get and serde_json::to_string:
/// the `messages` field serialized back to text, preserving order and
/// structure, or nothing when the body is not JSON or has no `messages`.
#[verifier::external_body]
fn json_messages_field(body: &Vec<u8>) -> (r: Option<String>)
    ensures
        match r {
            Some(s) => messages_field_of(body@) == Some(s@),
            None => messages_field_of(body@) is None,
        },
{
    match serde_json::from_slice::<serde_json::Value>(body) {
        Ok(v) => match v.get("messages") {
            Some(m) => serde_json::to_string(m).ok(),
            None => None,
        },
        Err(_) => None,
    }
}

/// Relies on serde_json::from_slice, Value::get and Value::as_bool: the
/// boolean `stream` field, or nothing when the body is not JSON or the
/// field is absent or not a boolean.
#[verifier::external_body]
fn json_stream_field(body: &Vec<u8>) -> (r: Option<bool>)
    ensures
        r == stream_field_of(body@),
{
    match serde_json::from_slice::<serde_json::Value>(body) {
        Ok(v) => v.get("stream").and_then(|s| s.as_bool()),
        Err(_) => None,
    }
}

/// The request text a given route reads from a body.
pub open spec fn spec_request_text(body: Seq<u8>, route: RouteTag) -> Seq<char> {
    match route {
        RouteTag::Generate => match string_field_of(body, "text"@) {
            Some(s) => s,
            None => Seq::empty(),
        },
        RouteTag::Completions => match string_field_of(body, "prompt"@) {
            Some(s) => s,
            None => Seq::empty(),
        },
        RouteTag::ChatCompletions => match messages_field_of(body) {
            Some(s) => s,
            None => Seq::empty(),
        },
        RouteTag::Other => Seq::empty(),
    }
}

/// Request text per route: `generate` reads the `text` field,
/// `v1/completions` reads `prompt`, `v1/chat/completions` reads the
/// serialized `messages`; any other route, a missing field, or a body
/// that is not JSON yields empty text.
pub fn get_text_from_request(body: &Vec<u8>, route: RouteTag) -> (r: String)
    ensures
        r@ == spec_request_text(body@, route),
{
    let field = match route {
        RouteTag::Generate => json_string_field(body, "text"),
        RouteTag::Completions => json_string_field(body, "prompt"),
        RouteTag::ChatCompletions => json_messages_field(body),
        RouteTag::Other => None,
    };
    match field {
        Some(s) => s,
        None => {
            let r = String::new();
            proof {
                assert(r@ =~= Seq::<char>::empty());
            }
            r
        },
    }
}

/// The user id a body carries.
pub open spec fn spec_request_uid(body: Seq<u8>) -> Seq<char> {
    match string_field_of(body, "user"@) {
        Some(s) => s,
        None => "default_uid"@,
    }
}

/// The top-level `user` field of the body, or the sentinel user id when
/// the field is absent or the body is not JSON.
pub fn get_uid_from_body(body: &Vec<u8>) -> (r: String)
    ensures
        r@ == spec_request_uid(body@),
{
    match json_string_field(body, "user") {
        Some(s) => s,
        None => "default_uid".to_owned(),
    }
}

/// Whether the body asks for a streaming response.
pub open spec fn spec_stream_flag(body: Seq<u8>) -> bool {
    match stream_field_of(body) {
        Some(b) => b,
        None => false,
    }
}

/// The top-level `stream` field of the body; false when absent, not a
/// boolean, or the body is not JSON.
pub fn get_stream_flag(body: &Vec<u8>) -> (r: bool)
    ensures
        r == spec_stream_flag(body@),
{
    match json_stream_field(body) {
        Some(b) => b,
        None => false,
    }
}

} // verus!

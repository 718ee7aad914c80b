use cache_router::extract::{
    get_stream_flag, get_text_from_request, get_uid_from_body, RouteTag,
};
use cache_router::stream::{contains_done_sentinel, map_status_code, INTERNAL_SERVER_ERROR};

fn body(s: &str) -> Vec<u8> {
    s.as_bytes().to_vec()
}

#[test]
fn generate_reads_text_field() {
    let b = body(r#"{"text":"hello world"}"#);
    assert_eq!(get_text_from_request(&b, RouteTag::Generate), "hello world");
}

#[test]
fn completions_reads_prompt_field() {
    let b = body(r#"{"prompt":"tell me","text":"ignored"}"#);
    assert_eq!(get_text_from_request(&b, RouteTag::Completions), "tell me");
}

#[test]
fn chat_completions_serializes_messages() {
    let b = body(r#"{"messages":[{"content":"hi","role":"user"},{"content":"yo","role":"assistant"}]}"#);
    assert_eq!(
        get_text_from_request(&b, RouteTag::ChatCompletions),
        r#"[{"content":"hi","role":"user"},{"content":"yo","role":"assistant"}]"#
    );
}

#[test]
fn other_routes_yield_empty_text() {
    let b = body(r#"{"text":"hello"}"#);
    assert_eq!(get_text_from_request(&b, RouteTag::Other), "");
}

#[test]
fn missing_field_yields_empty_text() {
    let b = body(r#"{"foo":1}"#);
    assert_eq!(get_text_from_request(&b, RouteTag::Generate), "");
}

#[test]
fn non_json_body_yields_empty_text_and_default_uid() {
    let b = body("not json at all");
    assert_eq!(get_text_from_request(&b, RouteTag::Generate), "");
    assert_eq!(get_uid_from_body(&b), "default_uid");
}

#[test]
fn uid_comes_from_user_field() {
    let b = body(r#"{"user":"alice","text":"x"}"#);
    assert_eq!(get_uid_from_body(&b), "alice");
}

#[test]
fn uid_defaults_when_absent() {
    let b = body(r#"{"text":"x"}"#);
    assert_eq!(get_uid_from_body(&b), "default_uid");
}

#[test]
fn stream_flag_reads_boolean() {
    assert!(get_stream_flag(&body(r#"{"stream": true, "text": "hi"}"#)));
    assert!(!get_stream_flag(&body(r#"{"stream": false}"#)));
    assert!(!get_stream_flag(&body(r#"{"text": "hi"}"#)));
    assert!(!get_stream_flag(&body("oops")));
}

#[test]
fn non_string_field_is_treated_as_absent() {
    let b = body(r#"{"text": 42}"#);
    assert_eq!(get_text_from_request(&b, RouteTag::Generate), "");
}

#[test]
fn sentinel_found_alone() {
    assert!(contains_done_sentinel(&body("data: [DONE]")));
}

#[test]
fn sentinel_found_embedded() {
    assert!(contains_done_sentinel(&body(
        "event: x\ndata: {\"a\":1}\n\ndata: [DONE]\n\n"
    )));
}

#[test]
fn sentinel_absent_in_prefix() {
    assert!(!contains_done_sentinel(&body("data: [DONE")));
    assert!(!contains_done_sentinel(&body("")));
    assert!(!contains_done_sentinel(&body("data: {\"done\": true}")));
}

#[test]
fn valid_status_codes_pass_through() {
    assert_eq!(map_status_code(200), 200);
    assert_eq!(map_status_code(404), 404);
    assert_eq!(map_status_code(100), 100);
    assert_eq!(map_status_code(999), 999);
}

#[test]
fn invalid_status_codes_collapse() {
    assert_eq!(map_status_code(99), INTERNAL_SERVER_ERROR);
    assert_eq!(map_status_code(1000), INTERNAL_SERVER_ERROR);
    assert_eq!(map_status_code(0), INTERNAL_SERVER_ERROR);
}

#[test]
fn sentinel_fires_once_over_a_chunk_sequence() {
    let chunks = [
        body("data: {\"token\":\"a\"}\n\n"),
        body("data: {\"token\":\"b\"}\n\n"),
        body("data: [DONE]\n\n"),
    ];
    let hits = chunks.iter().filter(|c| contains_done_sentinel(c)).count();
    assert_eq!(hits, 1);
}

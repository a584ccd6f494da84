use live_stream::index_map::IndexMap;
use live_stream::json::{Json, JsonNumber};
use live_stream::json_text::{read_json, write_json};
use live_stream::read_args::{
    accept_read_args_candidate, is_valid_read_args, parse_read_args_candidate,
    repair_whitespace_stalled_read_args, sanitize_parsed_read_args, sanitize_read_args,
};
use live_stream::reasoning::{encode_reasoning_signature, PendingReasoning};
use live_stream::sse::encode_sse_event;
use live_stream::text::{count_bytes, join, same_text};
use live_stream::upstream::{
    event_is_success_terminal, is_standard_max_output_tokens_incomplete, judge_event,
    map_codex_usage_to_anthropic, output_index, parse_codex_usage, response_is_incomplete_terminal,
    server_tool_use_id_from_codex_web_search_id, web_search_query, CodexUsage,
};

fn json(text: &str) -> Json {
    read_json(text).expect("test JSON")
}

#[test]
fn json_text_is_read_and_written() {
    let value = json(" { \"b\" : [ 1, -2, 1.5, true, null ], \"a\" : \"\\u00e9\" } ");
    assert_eq!(write_json(&value), "{\"a\":\"é\",\"b\":[1,-2,1.5,true,null]}");
    assert_eq!(value.text_at("a"), "é");
    assert!(read_json("{").is_none());
    assert!(read_json("").is_none());
}

#[test]
fn the_last_entry_of_a_key_counts() {
    let value = Json::object().with("k", Json::number(1)).with("k", Json::number(2));
    assert_eq!(value.u64_at("k"), Some(2));
    assert_eq!(write_json(&value), "{\"k\":2}");
    let other = value.with("j", Json::text("x"));
    assert_eq!(other.u64_at("k"), Some(2));
    assert_eq!(other.str_at("j"), Some("x"));
    assert!(other.get("i").is_none());
}

#[test]
fn numbers_keep_their_sign_and_size() {
    assert_eq!(json("18446744073709551615").as_u64(), Some(u64::MAX));
    assert_eq!(json("18446744073709551615").as_i64(), None);
    assert_eq!(json("-1").as_u64(), None);
    assert_eq!(json("-1").as_i64(), Some(-1));
    assert_eq!(json("7").as_i64(), Some(7));
    assert_eq!(json("7.0").as_u64(), None);
    assert_eq!(json("7.0").as_i64(), None);
    let number = JsonNumber::from_parts(None, None, "1e2".to_string());
    assert_eq!(write_json(&Json::Number(number)), "100.0");
}

#[test]
fn read_arguments_are_checked() {
    for valid in [
        r#"{"file_path":"/a"}"#,
        r#"{"file_path":"/a","offset":0,"limit":1,"pages":""}"#,
        r#"{"file_path":"/a","limit":9223372036854775807}"#,
    ] {
        assert!(is_valid_read_args(&json(valid)), "{valid}");
    }
    for invalid in [
        r#"[]"#,
        r#"{}"#,
        r#"{"file_path":""}"#,
        r#"{"file_path":1}"#,
        r#"{"file_path":"/a","other":1}"#,
        r#"{"file_path":"/a","offset":-1}"#,
        r#"{"file_path":"/a","offset":"1"}"#,
        r#"{"file_path":"/a","offset":1.5}"#,
        r#"{"file_path":"/a","offset":null}"#,
        r#"{"file_path":"/a","limit":0}"#,
        r#"{"file_path":"/a","limit":9223372036854775808}"#,
        r#"{"file_path":"/a","pages":3}"#,
    ] {
        assert!(!is_valid_read_args(&json(invalid)), "{invalid}");
    }
}

#[test]
fn only_empty_pages_are_left_out() {
    let with_pages = r#"{"file_path":"/a", "pages":"1-2"}"#;
    let without = r#"{"file_path":"/a", "pages":""}"#;
    assert_eq!(sanitize_read_args("Read", with_pages), with_pages);
    assert_eq!(sanitize_read_args("Read", without), r#"{"file_path":"/a"}"#);
    assert_eq!(sanitize_read_args("Bash", without), without);
    assert_eq!(sanitize_read_args("Read", "{ broken"), "{ broken");
    assert_eq!(sanitize_parsed_read_args("kept", None), "kept");
    assert_eq!(sanitize_parsed_read_args("gone", Some(json(without))), r#"{"file_path":"/a"}"#);
}

#[test]
fn candidates_are_rewritten() {
    assert_eq!(
        parse_read_args_candidate(r#"{"offset": 1, "file_path": "/a", "pages": ""}"#).as_deref(),
        Some(r#"{"file_path":"/a","offset":1}"#)
    );
    assert_eq!(parse_read_args_candidate(r#"{"file_path":"#), None);
    assert_eq!(accept_read_args_candidate(None), None);
    assert_eq!(accept_read_args_candidate(Some(json("{}"))), None);
}

#[test]
fn stalled_arguments_are_repaired_from_the_limit_on() {
    let args = r#"{"file_path":"/a""#;
    let repaired = Some(r#"{"file_path":"/a"}"#.to_string());
    let stalled = |spaces: usize| format!("{args}{}", " ".repeat(spaces));
    assert_eq!(repair_whitespace_stalled_read_args("Read", &stalled(1_023)), None);
    assert_eq!(repair_whitespace_stalled_read_args("Read", &stalled(1_024)), repaired);
    assert_eq!(repair_whitespace_stalled_read_args("Bash", &stalled(1_024)), None);
    let whole = format!("{args}}}{}", "\n".repeat(1_024));
    assert_eq!(repair_whitespace_stalled_read_args("Read", &whole), repaired);
    let invalid = format!("{{\"path\":1{}", " ".repeat(1_024));
    assert_eq!(repair_whitespace_stalled_read_args("Read", &invalid), None);
}

#[test]
fn white_space_is_counted_in_bytes() {
    let args = r#"{"file_path":"/a"}"#;
    // An ideographic space takes three bytes.
    let short = format!("{args}{}", "\u{3000}".repeat(341));
    let long = format!("{args}{}", "\u{3000}".repeat(342));
    assert_eq!(repair_whitespace_stalled_read_args("Read", &short), None);
    assert_eq!(repair_whitespace_stalled_read_args("Read", &long).as_deref(), Some(args));
    // A zero width space is none.
    let zero_width = format!("{args}{}", "\u{200b}".repeat(500));
    assert_eq!(repair_whitespace_stalled_read_args("Read", &zero_width), None);
    for space in ['\t', '\u{b}', '\r', '\u{85}', '\u{a0}', '\u{1680}', '\u{2007}', '\u{2029}'] {
        let stalled = format!("{args}{}", space.to_string().repeat(1_024));
        assert_eq!(repair_whitespace_stalled_read_args("Read", &stalled).as_deref(), Some(args));
    }
}

#[test]
fn usage_counts_cached_tokens_apart() {
    let response = json(
        r#"{"usage":{"input_tokens":10,"output_tokens":3,"input_tokens_details":{"cached_tokens":4},"output_tokens_details":{"reasoning_tokens":2}}}"#,
    );
    let usage = parse_codex_usage(&response);
    assert_eq!(
        usage,
        CodexUsage {
            input_tokens: Some(10),
            output_tokens: Some(3),
            input_tokens_details_cached: Some(4),
            output_tokens_details_reasoning: Some(2),
        }
    );
    let mapped = map_codex_usage_to_anthropic(&Some(usage), 5);
    assert_eq!(mapped.input_tokens, 6);
    assert_eq!(mapped.output_tokens, 3);
    assert_eq!(mapped.cache_read_input_tokens, 4);
    assert_eq!(mapped.cache_creation_input_tokens, 0);
    assert_eq!(mapped.web_search_requests, 5);
    let more_cached = CodexUsage { input_tokens_details_cached: Some(11), ..usage };
    assert_eq!(map_codex_usage_to_anthropic(&Some(more_cached), 0).input_tokens, 0);
    assert_eq!(map_codex_usage_to_anthropic(&None, 0).output_tokens, 0);
    assert_eq!(parse_codex_usage(&json("{}")).input_tokens, None);
}

#[test]
fn queries_are_found() {
    for (item, query) in [
        (r#"{}"#, ""),
        (r#"{"action":{}}"#, ""),
        (r#"{"action":{"query":"one","queries":["two"]}}"#, "one"),
        (r#"{"action":{"queries":[1,"two","three"]}}"#, "two"),
        (r#"{"action":{"queries":"two"}}"#, ""),
        (r#"{"action":{"queries":[]}}"#, ""),
    ] {
        assert_eq!(web_search_query(&json(item)), query, "{item}");
    }
}

#[test]
fn events_are_judged() {
    let completed = json(r#"{"type":"response.completed","response":{"status":"completed"}}"#);
    assert!(event_is_success_terminal(&completed));
    assert!(judge_event(&completed).complete);
    let cut = json(r#"{"type":"response.done","response":{"status":"incomplete"}}"#);
    assert!(response_is_incomplete_terminal(&cut));
    assert!(!judge_event(&cut).complete);
    let limited = r#"{"type":"response.incomplete","response":{"status":"incomplete","error":null,"incomplete_details":{"reason":"max_output_tokens"}}}"#;
    assert!(is_standard_max_output_tokens_incomplete(&json(limited)));
    let failed = limited.replace("null", "{}");
    assert!(!is_standard_max_output_tokens_incomplete(&json(&failed)));
    assert!(judge_event(&json("{}")).failure.is_none());
}

#[test]
fn output_indices_default_to_the_first() {
    assert_eq!(output_index(&json(r#"{"output_index":4}"#)), 4);
    assert_eq!(output_index(&json(r#"{"output_index":-4}"#)), 0);
    assert_eq!(output_index(&json("{}")), 0);
}

#[test]
fn search_identifiers_are_prefixed() {
    assert_eq!(server_tool_use_id_from_codex_web_search_id("ws_9"), "srvtoolu_ws_9");
}

#[test]
fn frames_are_exact() {
    assert_eq!(encode_sse_event("ping", "{}"), b"event: ping\ndata: {}\n\n");
}

#[test]
fn reasoning_is_replayed_once_it_is_known() {
    let mut pending = PendingReasoning::new();
    pending.capture(&json(r#"{"id":"rs_1"}"#));
    pending.capture(&json(r#"{"encrypted_content":"abc"}"#));
    let replay = pending.replay().unwrap();
    assert_eq!(
        encode_reasoning_signature(&replay),
        r#"ccp:codex:v1:{"encrypted_content":"abc","id":"rs_1"}"#
    );
    let mut unknown = PendingReasoning::new();
    unknown.capture(&json(r#"{"id":"rs_1"}"#));
    assert!(unknown.replay().is_none());
}

#[test]
fn strings_are_compared_and_joined() {
    assert!(same_text("é", "é"));
    assert!(!same_text("é", "e"));
    assert!(!same_text("a", "ab"));
    assert_eq!(count_bytes("é日"), 5);
    assert_eq!(join("a", "b"), "ab");
}

#[test]
fn index_maps_are_walked_in_order() {
    let mut map = IndexMap::new();
    for index in [9, 2, 5] {
        map.insert(index, index * 10);
    }
    map.insert(5, 7);
    assert_eq!(map.remove(9), Some(90));
    assert_eq!(map.remove(9), None);
    assert_eq!(map.keys(), [2, 5]);
    assert_eq!(map.get(5), Some(&7));
    assert!(!map.contains_key(9));
    assert!(!map.is_empty());
    assert_eq!(map.into_values(), [20, 7]);
}

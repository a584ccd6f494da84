use live_stream::items::ResponsesInputItem;
use live_stream::json::Json;
use live_stream::json_text::{read_json, write_json};
use live_stream::traffic::TrafficCapture;
use live_stream::translator::LiveStreamTranslator;
use live_stream::upstream::IncompleteResponsePolicy;

const ADD_MESSAGE: &str =
    r#"{"type":"response.output_item.added","output_index":0,"item":{"type":"message","id":"m"}}"#;
const TEXT: &str = r#"{"type":"response.output_text.delta","output_index":0,"delta":"hi"}"#;
const MESSAGE_DONE: &str =
    r#"{"type":"response.output_item.done","output_index":0,"item":{"type":"message"}}"#;
const COMPLETED: &str = r#"{"type":"response.completed","response":{"id":"r"}}"#;
const SEARCH_ADDED: &str =
    r#"{"type":"response.output_item.added","output_index":5,"item":{"type":"web_search_call"}}"#;
const SEARCH_DONE: &str = r#"{"type":"response.output_item.done","output_index":5,"item":{"type":"web_search_call","id":"ws_1","action":{"query":"q"}}}"#;

fn json(text: &str) -> Json {
    read_json(text).expect("test JSON")
}

fn translator() -> LiveStreamTranslator {
    LiveStreamTranslator::new("msg", "model")
}

fn feed(translator: &mut LiveStreamTranslator, events: &[&str]) -> Vec<u8> {
    let mut out = Vec::new();
    for event in events {
        out.extend(translator.accept(&json(event), None).unwrap());
    }
    out
}

/// The names of the events in a chunk, each with the index that it is about.
fn outline(chunk: &[u8]) -> Vec<String> {
    let text = std::str::from_utf8(chunk).unwrap();
    text.split_terminator("\n\n")
        .map(|frame| {
            let (head, data) = frame.split_once("\ndata: ").unwrap();
            let name = head.strip_prefix("event: ").unwrap();
            match json(data).u64_at("index") {
                Some(index) => format!("{name} {index}"),
                None => name.to_string(),
            }
        })
        .collect()
}

#[test]
fn nothing_follows_the_end() {
    let mut translator = translator();
    feed(&mut translator, &[ADD_MESSAGE, TEXT, MESSAGE_DONE, COMPLETED]);
    assert!(translator.is_finished());
    assert_eq!(feed(&mut translator, &[ADD_MESSAGE, TEXT, COMPLETED]), b"");
    assert_eq!(translator.accept(&json(r#"{"type":"error"}"#), None), Ok(vec![]));
    assert_eq!(translator.ping_chunk(None), b"");
    assert_eq!(translator.finish_after_closed_completed_tool_call(None), b"");
    assert_eq!(translator.error_chunk("late", "api_error", None), b"");
}

#[test]
fn blocks_are_opened_and_closed_once() {
    let mut translator = translator();
    let out = feed(
        &mut translator,
        &[
            r#"{"type":"response.reasoning_summary_text.delta","output_index":7,"delta":"plan"}"#,
            r#"{"type":"response.reasoning_summary_part.added","output_index":7}"#,
            ADD_MESSAGE,
            TEXT,
            r#"{"type":"response.output_item.added","output_index":1,"item":{"type":"function_call","call_id":"c","name":"Bash"}}"#,
            COMPLETED,
        ],
    );
    assert_eq!(
        outline(&out),
        [
            "message_start",
            "content_block_start 0",
            "content_block_delta 0",
            "content_block_delta 0",
            "content_block_stop 0",
            "content_block_start 1",
            "content_block_delta 1",
            "content_block_start 2",
            "content_block_stop 1",
            "content_block_stop 2",
            "message_delta",
            "message_stop",
        ]
    );
}

#[test]
fn open_blocks_are_closed_in_the_order_of_their_outputs() {
    let mut translator = translator();
    let mut out = Vec::new();
    for output_index in [9, 2, 5] {
        out.extend(feed(
            &mut translator,
            &[&format!(
                r#"{{"type":"response.output_text.delta","output_index":{output_index},"delta":"x"}}"#
            )],
        ));
    }
    let end = feed(&mut translator, &[COMPLETED]);
    assert_eq!(
        outline(&end),
        [
            "content_block_stop 1",
            "content_block_stop 2",
            "content_block_stop 0",
            "message_delta",
            "message_stop",
        ]
    );
}

#[test]
fn a_replaced_output_stays_open_for_the_client() {
    let mut translator = translator();
    let out = feed(&mut translator, &[ADD_MESSAGE, ADD_MESSAGE, COMPLETED]);
    assert_eq!(
        outline(&out),
        [
            "message_start",
            "content_block_start 0",
            "content_block_start 1",
            "content_block_stop 1",
            "message_delta",
            "message_stop",
        ]
    );
}

#[test]
fn searches_come_before_the_texts_that_wait() {
    let mut translator = translator();
    assert_eq!(feed(&mut translator, &[SEARCH_ADDED, SEARCH_DONE, ADD_MESSAGE, TEXT]), b"");
    let cite = |url: &str, title: &str| {
        format!(
            r#"{{"type":"response.output_text.annotation.added","annotation":{{"type":"url_citation","url":"{url}","title":"{title}"}}}}"#
        )
    };
    let one = cite("https://one.test", "One");
    let again = cite("https://one.test", "Again");
    let two = cite("https://two.test", "");
    feed(&mut translator, &[&one, &again, &two, MESSAGE_DONE]);
    let out = feed(&mut translator, &[COMPLETED]);
    assert_eq!(
        outline(&out),
        [
            "message_start",
            "content_block_start 0",
            "content_block_delta 0",
            "content_block_stop 0",
            "content_block_start 1",
            "content_block_stop 1",
            "content_block_start 2",
            "content_block_delta 2",
            "content_block_stop 2",
            "message_delta",
            "message_stop",
        ]
    );
    let text = String::from_utf8(out).unwrap();
    assert!(text.contains(
        r#""content":[{"title":"One","type":"web_search_result","url":"https://one.test"},{"title":"https://two.test","type":"web_search_result","url":"https://two.test"}]"#
    ));
    assert!(text.contains(r#""partial_json":"{\"query\":\"q\"}""#));
    assert!(text.contains(r#""id":"srvtoolu_ws_1""#));
    assert!(text.contains(r#""web_search_requests":1"#));
}

#[test]
fn other_annotations_are_not_cited() {
    let mut translator = translator();
    feed(
        &mut translator,
        &[
            SEARCH_DONE,
            r#"{"type":"response.output_text.annotation.added"}"#,
            r#"{"type":"response.output_text.annotation.added","annotation":{"type":"file_citation","url":"https://one.test"}}"#,
            r#"{"type":"response.output_text.annotation.added","annotation":{"type":"url_citation"}}"#,
        ],
    );
    let out = String::from_utf8(feed(&mut translator, &[COMPLETED])).unwrap();
    assert!(out.contains(r#""content":[],"tool_use_id":"srvtoolu_ws_1""#));
}

#[test]
fn text_is_addressed_by_index_or_by_item() {
    let mut translator = translator();
    let out = feed(
        &mut translator,
        &[
            ADD_MESSAGE,
            r#"{"type":"response.output_item.added","output_index":3,"item":{"type":"message","id":"n"}}"#,
            r#"{"type":"response.output_text.delta","item_id":"n","delta":"b"}"#,
            r#"{"type":"response.output_text.delta","item_id":"unknown","delta":"a"}"#,
            r#"{"type":"response.output_text.delta","output_index":3,"item_id":"m","delta":"b"}"#,
        ],
    );
    assert_eq!(
        outline(&out)[3..],
        ["content_block_delta 1", "content_block_delta 0", "content_block_delta 1"]
    );
}

#[test]
fn framing_events_are_no_content() {
    let mut translator = translator();
    for event in [
        r#"{"type":"codex.rate_limits"}"#,
        r#"{"type":"keepalive"}"#,
        r#"{"type":"response.created"}"#,
        r#"{"type":"response.in_progress"}"#,
        r#"{"type":"response.web_search_call.searching"}"#,
        ADD_MESSAGE,
        r#"{"type":"response.reasoning_summary_part.added","output_index":0}"#,
        r#"{"type":"response.output_text.annotation.added"}"#,
        r#"{"type":"response.function_call_arguments.done","output_index":0,"arguments":"{}"}"#,
        r#"{"type":"response.output_text.delta","output_index":0,"delta":""}"#,
        r#"{}"#,
    ] {
        feed(&mut translator, &[event]);
        assert!(!translator.has_semantic_output(), "{event}");
    }
    feed(&mut translator, &[TEXT]);
    assert!(translator.has_semantic_output());
    feed(&mut translator, &[COMPLETED]);
    assert!(translator.has_semantic_output());
}

#[test]
fn pieces_of_a_read_call_are_held_back() {
    let mut translator = translator();
    feed(
        &mut translator,
        &[r#"{"type":"response.output_item.added","output_index":0,"item":{"type":"function_call","call_id":"c","name":"Read"}}"#],
    );
    let piece = r#"{"type":"response.function_call_arguments.delta","output_index":0,"delta":"{\"file_path\":\"/a\",\"pages\":\"\"}"}"#;
    assert_eq!(feed(&mut translator, &[piece]), b"");
    let out = feed(
        &mut translator,
        &[r#"{"type":"response.output_item.done","output_index":0,"item":{"type":"function_call"}}"#],
    );
    assert_eq!(outline(&out), ["content_block_delta 0", "content_block_stop 0"]);
    let text = String::from_utf8(out).unwrap();
    assert!(text.contains(r#""partial_json":"{\"file_path\":\"/a\"}""#));
}

#[test]
fn pieces_of_other_calls_pass_through() {
    let mut translator = translator().with_finish_metadata(true);
    feed(
        &mut translator,
        &[r#"{"type":"response.output_item.added","output_index":0,"item":{"type":"function_call","call_id":"c","name":"Bash"}}"#],
    );
    for (piece, sent) in [("{\\\"a", "{\\\"a"), ("\\\":1}", "\\\":1}")] {
        let out = feed(
            &mut translator,
            &[&format!(
                r#"{{"type":"response.function_call_arguments.delta","output_index":0,"delta":"{piece}"}}"#
            )],
        );
        assert_eq!(
            String::from_utf8(out).unwrap(),
            format!(
                "event: content_block_delta\ndata: {{\"delta\":{{\"partial_json\":\"{sent}\",\"type\":\"input_json_delta\"}},\"index\":0,\"type\":\"content_block_delta\"}}\n\n"
            )
        );
    }
    let done = r#"{"type":"response.output_item.done","output_index":0,"item":{"type":"function_call"}}"#;
    assert_eq!(outline(&feed(&mut translator, &[done])), ["content_block_stop 0"]);
    feed(&mut translator, &[COMPLETED]);
    let metadata = translator.take_finish_metadata().unwrap();
    assert_eq!(
        metadata.output_items,
        [ResponsesInputItem::FunctionCall {
            call_id: "c".to_string(),
            name: "Bash".to_string(),
            arguments: "{\"a\":1}".to_string(),
        }]
    );
}

#[test]
fn whole_arguments_are_sent_where_no_piece_came() {
    let added = r#"{"type":"response.output_item.added","output_index":0,"item":{"type":"function_call","call_id":"c","name":"Bash"}}"#;
    let done = r#"{"type":"response.function_call_arguments.done","output_index":0,"arguments":"{\"early\":1}"}"#;
    let mut early = translator();
    feed(&mut early, &[added, done]);
    let out = feed(
        &mut early,
        &[r#"{"type":"response.output_item.done","output_index":0,"item":{"type":"function_call"}}"#],
    );
    assert!(String::from_utf8(out).unwrap().contains(r#""partial_json":"{\"early\":1}""#));

    let mut late = translator();
    feed(&mut late, &[added, done]);
    let out = feed(
        &mut late,
        &[r#"{"type":"response.output_item.done","output_index":0,"item":{"type":"function_call","arguments":"{\"late\":1}"}}"#],
    );
    assert!(String::from_utf8(out).unwrap().contains(r#""partial_json":"{\"late\":1}""#));
}

#[test]
fn oversized_read_arguments_are_refused() {
    let mut translator = translator().with_finish_metadata(true);
    feed(
        &mut translator,
        &[r#"{"type":"response.output_item.added","output_index":0,"item":{"type":"function_call","call_id":"c","name":"Read"}}"#],
    );
    let piece = Json::object()
        .with("type", Json::text("response.function_call_arguments.delta"))
        .with("output_index", Json::number(0))
        .with("delta", Json::text(&"x".repeat(1_048_577)));
    assert_eq!(
        translator.accept(&piece, None),
        Err("Buffered Read tool arguments exceeded safe limits".to_string())
    );
    assert!(!translator.collects_finish_metadata());
    assert!(!translator.is_finished());
}

#[test]
fn failures_send_nothing_and_drop_the_metadata() {
    for (event, message) in [
        (
            r#"{"type":"response.failed","response":{"error":{"message":"in response"}}}"#,
            "in response",
        ),
        (r#"{"type":"error","error":{"message":"in error"}}"#, "in error"),
        (r#"{"type":"error","message":"plain"}"#, "plain"),
        (r#"{"type":"response.failed"}"#, "Upstream response failed"),
        (
            r#"{"type":"response.incomplete","response":{"incomplete_details":{"reason":"content_filter"}}}"#,
            "Upstream response incomplete: content_filter",
        ),
        (r#"{"type":"response.incomplete"}"#, "Upstream response incomplete: unknown"),
    ] {
        for policy in
            [IncompleteResponsePolicy::Error, IncompleteResponsePolicy::AllowMaxOutputTokens]
        {
            let mut translator =
                translator().with_finish_metadata(true).with_incomplete_response_policy(policy);
            assert!(translator.collects_finish_metadata());
            assert_eq!(translator.accept(&json(event), None), Err(message.to_string()));
            assert!(!translator.collects_finish_metadata());
            assert!(!translator.is_finished());
        }
    }
}

#[test]
fn an_error_chunk_closes_what_is_open_and_ends_the_message() {
    let mut translator = translator();
    feed(&mut translator, &[ADD_MESSAGE, TEXT]);
    let out = translator.error_chunk("went wrong", "api_error", None);
    assert_eq!(
        String::from_utf8(out).unwrap(),
        "event: content_block_stop\ndata: {\"index\":0,\"type\":\"content_block_stop\"}\n\n\
         event: error\ndata: {\"error\":{\"message\":\"went wrong\",\"type\":\"api_error\"},\"type\":\"error\"}\n\n"
    );
    assert!(translator.is_finished());
}

#[test]
fn an_error_chunk_starts_the_message_where_nothing_was_sent() {
    let out = translator().error_chunk("no", "api_error", None);
    assert_eq!(outline(&out), ["message_start", "error"]);
}

#[test]
fn the_end_of_the_connection_needs_a_closed_tool_call() {
    let mut without_call = translator();
    feed(&mut without_call, &[ADD_MESSAGE, TEXT, MESSAGE_DONE]);
    assert_eq!(without_call.finish_after_closed_completed_tool_call(None), b"");
    assert!(!without_call.is_finished());

    let mut open_call = translator();
    feed(
        &mut open_call,
        &[r#"{"type":"response.output_item.added","output_index":0,"item":{"type":"function_call","call_id":"c","name":"Bash"}}"#],
    );
    assert_eq!(open_call.finish_after_closed_completed_tool_call(None), b"");
    assert!(!open_call.is_finished());
}

#[test]
fn the_capture_records_what_is_sent() {
    let mut translator = translator();
    let mut capture = TrafficCapture::new();
    let out = translator.ping_chunk(Some(&mut capture));
    let accepted = translator.accept(&json(ADD_MESSAGE), Some(&mut capture)).unwrap();
    assert_eq!(outline(&out), ["message_start", "ping"]);
    assert_eq!(outline(&accepted), ["content_block_start 0"]);
    let records = capture.drain();
    let names: Vec<_> = records.iter().map(|record| record.data.text_at("event")).collect();
    assert_eq!(names, ["message_start", "ping", "content_block_start"]);
    assert!(records.iter().all(|record| record.label == "050-downstream-event"));
    assert_eq!(write_json(records[1].data.get("data").unwrap()), r#"{"type":"ping"}"#);
    assert!(capture.drain().is_empty());
}

#[test]
fn the_first_frames_are_exact() {
    let mut translator = LiveStreamTranslator::with_estimated_input_tokens("msg_1", "m", 12);
    assert!(translator.has_room());
    assert_eq!(
        String::from_utf8(translator.ping_chunk(None)).unwrap(),
        "event: message_start\ndata: {\"message\":{\"content\":[],\"id\":\"msg_1\",\"model\":\"m\",\
         \"role\":\"assistant\",\"stop_reason\":null,\"stop_sequence\":null,\"type\":\"message\",\
         \"usage\":{\"input_tokens\":12,\"output_tokens\":0}},\"type\":\"message_start\"}\n\n\
         event: ping\ndata: {\"type\":\"ping\"}\n\n"
    );
}

#[test]
fn an_unclosed_output_is_not_reported() {
    let mut translator = translator().with_finish_metadata(true);
    feed(&mut translator, &[ADD_MESSAGE, TEXT, COMPLETED]);
    assert!(translator.is_finished());
    assert!(!translator.collects_finish_metadata());
    assert!(translator.take_finish_metadata().is_none());
}

#[test]
fn metadata_is_taken_once() {
    let mut translator = translator().with_finish_metadata(true);
    feed(&mut translator, &[ADD_MESSAGE, TEXT, MESSAGE_DONE, COMPLETED]);
    let metadata = translator.take_finish_metadata().unwrap();
    assert!(metadata.continuation_eligible);
    assert_eq!(metadata.response_id.as_deref(), Some("r"));
    assert!(translator.take_finish_metadata().is_none());
}

#[test]
fn unfinished_metadata_is_given_up() {
    let mut translator = translator().with_finish_metadata(true);
    feed(&mut translator, &[ADD_MESSAGE]);
    assert!(translator.take_finish_metadata().is_none());
    assert!(!translator.collects_finish_metadata());
}

#[test]
fn only_the_start_of_the_message_shows_the_estimate() {
    let run = |tokens: u64| {
        let mut translator =
            LiveStreamTranslator::with_estimated_input_tokens("msg", "model", tokens);
        assert!(!translator.is_finished());
        assert!(!translator.has_semantic_output());
        assert!(translator.take_finish_metadata().is_none());
        let out = feed(
            &mut translator,
            &[SEARCH_ADDED, SEARCH_DONE, ADD_MESSAGE, TEXT, MESSAGE_DONE, COMPLETED],
        );
        String::from_utf8(out).unwrap()
    };
    let (one, other) = (run(11), run(23));
    let (start, rest) = one.split_once("\n\n").unwrap();
    let (other_start, other_rest) = other.split_once("\n\n").unwrap();
    assert_eq!(rest, other_rest);
    assert!(start.contains(r#""usage":{"input_tokens":11,"output_tokens":0}"#));
    assert_eq!(start.replace("11", "23"), other_start);
}

#[test]
fn the_indices_of_a_whole_response_have_no_gap() {
    let mut translator = translator();
    let out = feed(
        &mut translator,
        &[
            r#"{"type":"response.reasoning_summary_text.delta","output_index":8,"delta":"plan"}"#,
            SEARCH_ADDED,
            SEARCH_DONE,
            ADD_MESSAGE,
            TEXT,
            r#"{"type":"response.output_item.added","output_index":1,"item":{"type":"function_call","call_id":"c","name":"Bash"}}"#,
            r#"{"type":"response.output_text.delta","output_index":4,"delta":"x"}"#,
            MESSAGE_DONE,
            COMPLETED,
        ],
    );
    let events = outline(&out);
    let indices_of = |name: &str| {
        let mut indices: Vec<u64> = events
            .iter()
            .filter_map(|event| event.strip_prefix(name)?.strip_prefix(' ')?.parse().ok())
            .collect();
        indices.sort();
        indices
    };
    assert_eq!(indices_of("content_block_start"), [0, 1, 2, 3, 4, 5]);
    assert_eq!(indices_of("content_block_stop"), [0, 1, 2, 3, 4, 5]);
    assert_eq!(events[events.len() - 2..], ["message_delta", "message_stop"]);
}

#[test]
fn items_without_a_block_replace_nothing() {
    let mut translator = translator();
    let out = feed(
        &mut translator,
        &[
            ADD_MESSAGE,
            r#"{"type":"response.output_item.added","output_index":0,"item":{"type":"reasoning","id":"rs"}}"#,
            r#"{"type":"response.output_item.added","output_index":0,"item":{"type":"web_search_call"}}"#,
            TEXT,
            MESSAGE_DONE,
            COMPLETED,
        ],
    );
    assert_eq!(
        outline(&out),
        [
            "message_start",
            "content_block_start 0",
            "content_block_delta 0",
            "content_block_stop 0",
            "message_delta",
            "message_stop",
        ]
    );
}

#[test]
fn a_finished_search_is_content() {
    let mut translator = translator();
    feed(&mut translator, &[SEARCH_ADDED]);
    assert!(!translator.has_semantic_output());
    feed(&mut translator, &[SEARCH_DONE]);
    assert!(translator.has_semantic_output());
    translator.error_chunk("late", "api_error", None);
    assert!(translator.has_semantic_output());
}

#[test]
fn failures_and_pings_are_no_content() {
    let mut translator = translator();
    translator.ping_chunk(None);
    feed(&mut translator, &[ADD_MESSAGE]);
    translator.finish_after_closed_completed_tool_call(None);
    translator.error_chunk("no", "api_error", None);
    assert!(translator.is_finished());
    assert!(!translator.has_semantic_output());
}

#[test]
fn oversized_arguments_of_other_calls_pass_through() {
    let mut translator = translator();
    feed(
        &mut translator,
        &[r#"{"type":"response.output_item.added","output_index":0,"item":{"type":"function_call","call_id":"c","name":"Bash"}}"#],
    );
    let half = "x".repeat(600_000);
    for _ in 0..2 {
        let piece = Json::object()
            .with("type", Json::text("response.function_call_arguments.delta"))
            .with("output_index", Json::number(0))
            .with("delta", Json::text(&half));
        let out = translator.accept(&piece, None).unwrap();
        assert_eq!(outline(&out), ["content_block_delta 0"]);
        assert!(String::from_utf8(out).unwrap().contains(&half));
    }
    assert!(!translator.is_finished());
}

#[test]
fn the_end_of_the_connection_after_a_tool_call_is_exact() {
    let mut translator = translator();
    feed(
        &mut translator,
        &[
            r#"{"type":"response.output_item.added","output_index":0,"item":{"type":"function_call","call_id":"c","name":"Bash"}}"#,
            r#"{"type":"response.output_item.done","output_index":0,"item":{"type":"function_call","arguments":"{}"}}"#,
            r#"{"type":"response.reasoning_summary_text.delta","output_index":1,"delta":"next"}"#,
        ],
    );
    let out = translator.finish_after_closed_completed_tool_call(None);
    assert_eq!(outline(&out), ["content_block_stop 1", "message_delta", "message_stop"]);
    assert!(String::from_utf8(out).unwrap().contains(r#""stop_reason":"tool_use""#));
}

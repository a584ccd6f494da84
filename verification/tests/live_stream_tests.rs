use live_stream::items::{FinishMetadata, ResponsesContentPart, ResponsesInputItem};
use live_stream::json::Json;
use live_stream::json_text::{read_json, write_json};
use live_stream::model::BUFFERED_TOOL_MAX_ARGS_BYTES;
use live_stream::read_args::BUFFERED_READ_REPAIR_TRAILING_WHITESPACE_BYTES;
use live_stream::translator::LiveStreamTranslator;
use live_stream::upstream::IncompleteResponsePolicy;

fn json(text: &str) -> Json {
    read_json(text).expect("test JSON")
}

/// A JSON string literal.
fn quoted(text: &str) -> String {
    write_json(&Json::text(text))
}

fn render(events: &[&str]) -> String {
    let mut translator = LiveStreamTranslator::new("msg_1", "gpt-5.5");
    let mut out = Vec::new();
    for event in events {
        out.extend(translator.accept(&json(event), None).unwrap());
    }
    String::from_utf8(out).unwrap()
}

/// The data of the first event with the given name.
fn event_data(chunk: &[u8], name: &str) -> Json {
    let text = std::str::from_utf8(chunk).unwrap();
    let head = format!("event: {name}\ndata: ");
    let frame = text.split("\n\n").find(|frame| frame.starts_with(&head)).unwrap();
    json(&frame[head.len()..])
}

/// Runs a stream with and without metadata collection; both must answer alike.
fn collect_finish_metadata(events: &[String]) -> Option<FinishMetadata> {
    let mut ordinary = LiveStreamTranslator::new("msg_metadata", "gpt-5.5");
    let mut collecting =
        LiveStreamTranslator::new("msg_metadata", "gpt-5.5").with_finish_metadata(true);
    for event in events {
        let ordinary_chunk = ordinary.accept(&json(event), None);
        let collected_chunk = collecting.accept(&json(event), None);
        assert_eq!(collected_chunk, ordinary_chunk);
        if collected_chunk.is_err() || collecting.is_finished() {
            break;
        }
    }
    let actual = collecting.take_finish_metadata();
    assert!(!collecting.collects_finish_metadata());
    assert!(collecting.take_finish_metadata().is_none());
    actual
}

fn message(text: &str) -> ResponsesInputItem {
    ResponsesInputItem::Message {
        role: "assistant".to_string(),
        content: vec![ResponsesContentPart::OutputText { text: text.to_string() }],
    }
}

fn call(name: &str, arguments: &str) -> ResponsesInputItem {
    ResponsesInputItem::FunctionCall {
        call_id: "metadata-tool".to_string(),
        name: name.to_string(),
        arguments: arguments.to_string(),
    }
}

fn text_events_at(output_index: usize, text: &str) -> Vec<String> {
    vec![
        format!(
            r#"{{"type":"response.output_item.added","output_index":{output_index},"item":{{"type":"message","id":"metadata-message"}}}}"#
        ),
        format!(
            r#"{{"type":"response.output_text.delta","output_index":{output_index},"delta":{}}}"#,
            quoted(text)
        ),
        format!(
            r#"{{"type":"response.output_item.done","output_index":{output_index},"item":{{"type":"message"}}}}"#
        ),
    ]
}

fn text_stream_events(text: &str) -> Vec<String> {
    let mut events = text_events_at(0, text);
    events.push(
        r#"{"type":"response.completed","response":{"id":"metadata-response","usage":{"input_tokens":7,"output_tokens":3}}}"#
            .to_string(),
    );
    events
}

fn tool_stream_events(name: &str, arguments: &str) -> Vec<String> {
    vec![
        format!(
            r#"{{"type":"response.output_item.added","output_index":0,"item":{{"type":"function_call","call_id":"metadata-tool","name":{}}}}}"#,
            quoted(name)
        ),
        format!(
            r#"{{"type":"response.function_call_arguments.delta","output_index":0,"delta":{}}}"#,
            quoted(arguments)
        ),
        format!(
            r#"{{"type":"response.output_item.done","output_index":0,"item":{{"type":"function_call","arguments":{}}}}}"#,
            quoted(arguments)
        ),
        r#"{"type":"response.completed","response":{"id":"metadata-response","usage":{}}}"#
            .to_string(),
    ]
}

#[test]
fn finish_metadata_matches_text_and_tool_outputs() {
    for text in ["answer", "", "日本語\n記号：é"] {
        let metadata =
            collect_finish_metadata(&text_stream_events(text)).expect("正常完了の終了情報を保持する");
        assert!(metadata.continuation_eligible);
        assert_eq!(metadata.response_id.as_deref(), Some("metadata-response"));
        let expected = if text.is_empty() { vec![] } else { vec![message(text)] };
        assert_eq!(metadata.output_items, expected);
    }
    for (name, arguments, expected) in [
        ("Bash", "{ \"command\": \"pwd\" }", "{ \"command\": \"pwd\" }"),
        (
            "Read",
            r#"{"file_path":"/tmp/metadata","offset":2,"pages":""}"#,
            r#"{"file_path":"/tmp/metadata","offset":2}"#,
        ),
    ] {
        let metadata = collect_finish_metadata(&tool_stream_events(name, arguments))
            .expect("ツールの終了情報を保持する");
        assert!(metadata.continuation_eligible);
        assert_eq!(metadata.output_items, vec![call(name, expected)]);
    }
}

#[test]
fn finish_metadata_preserves_reasoning_replay_with_and_without_summary() {
    for summary in [None, Some("plan")] {
        let mut events = vec![
            r#"{"type":"response.output_item.added","output_index":0,"item":{"type":"reasoning","id":"metadata-reasoning","encrypted_content":"opaque"}}"#
                .to_string(),
        ];
        if let Some(summary) = summary {
            events.push(format!(
                r#"{{"type":"response.reasoning_summary_text.delta","output_index":0,"delta":{}}}"#,
                quoted(summary)
            ));
        }
        events.push(
            r#"{"type":"response.output_item.done","output_index":0,"item":{"type":"reasoning","id":"metadata-reasoning"}}"#
                .to_string(),
        );
        events.push(
            r#"{"type":"response.done","response":{"id":"metadata-response"}}"#.to_string(),
        );
        let metadata = collect_finish_metadata(&events).unwrap();
        assert!(matches!(
            metadata.output_items.as_slice(),
            [ResponsesInputItem::Reasoning { id, encrypted_content, .. }]
                if id == "metadata-reasoning" && encrypted_content == "opaque"
        ));
    }
}

#[test]
fn finish_metadata_orders_outputs_by_upstream_index() {
    let mut events = Vec::new();
    for (output_index, text) in [(1, "second"), (0, "first")] {
        events.extend(text_events_at(output_index, text));
    }
    events.push(
        r#"{"type":"response.completed","response":{"id":"metadata-response"}}"#.to_string(),
    );
    let metadata = collect_finish_metadata(&events).unwrap();
    assert_eq!(metadata.output_items[0], message("first"));
    assert_eq!(metadata.output_items[1], message("second"));
}

#[test]
fn finish_metadata_preserves_deferred_web_search_text() {
    let mut events = vec![
        r#"{"type":"response.output_item.added","output_index":0,"item":{"type":"web_search_call","id":"metadata-search"}}"#
            .to_string(),
        r#"{"type":"response.output_item.done","output_index":0,"item":{"type":"web_search_call","id":"metadata-search","action":{"query":"query"}}}"#
            .to_string(),
    ];
    events.extend(text_events_at(1, "answer"));
    events.push(text_stream_events("answer").pop().unwrap());
    let metadata = collect_finish_metadata(&events).unwrap();
    assert_eq!(metadata.output_items.len(), 1);
    assert_eq!(metadata.output_items[0], message("answer"));
}

#[test]
fn finish_metadata_ignores_text_without_reducer_addressing() {
    let mut events = text_stream_events("untracked");
    events.remove(0);
    let metadata = collect_finish_metadata(&events).unwrap();
    assert!(metadata.output_items.is_empty());

    let mut events = text_stream_events("untracked");
    events.remove(2);
    events.remove(0);
    let metadata = collect_finish_metadata(&events).unwrap();
    assert!(metadata.output_items.is_empty());

    let mut events = text_stream_events("kept");
    events.insert(
        2,
        r#"{"type":"response.output_text.delta","delta":" ignored"}"#.to_string(),
    );
    events.insert(
        3,
        r#"{"type":"response.output_text.delta","item_id":"metadata-message","delta":" appended"}"#
            .to_string(),
    );
    let metadata = collect_finish_metadata(&events).unwrap();
    assert_eq!(metadata.output_items[0], message("kept appended"));
}

#[test]
fn finish_metadata_preserves_done_argument_precedence() {
    for (name, earlier, later, kept) in [
        ("Bash", r#"{ "value": 1 }"#, r#"{"value":2}"#, r#"{ "value": 1 }"#),
        (
            "Read",
            r#"{"file_path":"/tmp/first","offset":2,"pages":""}"#,
            r#"{"file_path":"/tmp/second","offset":3,"pages":""}"#,
            r#"{"file_path":"/tmp/first","offset":2}"#,
        ),
    ] {
        let mut events = tool_stream_events(name, later);
        events[1] = format!(
            r#"{{"type":"response.function_call_arguments.done","output_index":0,"arguments":{}}}"#,
            quoted(earlier)
        );
        let metadata = collect_finish_metadata(&events).unwrap();
        assert_eq!(metadata.output_items, vec![call(name, kept)]);
    }

    let mut events = tool_stream_events("Bash", r#"{"command":"pwd"}"#);
    events.remove(1);
    let metadata = collect_finish_metadata(&events).unwrap();
    assert_eq!(metadata.output_items, vec![call("Bash", r#"{"command":"pwd"}"#)]);
}

#[test]
fn finish_metadata_preserves_unsanitized_arguments_when_done_omits_item() {
    let arguments = r#"{"file_path":"/tmp/metadata","offset":2,"pages":""}"#;
    let mut events = tool_stream_events("Read", arguments);
    events[2] = r#"{"type":"response.output_item.done","output_index":0}"#.to_string();
    let metadata = collect_finish_metadata(&events).unwrap();
    assert_eq!(metadata.output_items, vec![call("Read", arguments)]);
}

#[test]
fn finish_metadata_rejects_incomplete_or_unclosed_streams() {
    let mut events = text_stream_events("open");
    events.remove(2);
    assert!(collect_finish_metadata(&events).is_none());

    let mut events = text_stream_events("unfinished");
    events.pop();
    assert!(collect_finish_metadata(&events).is_none());

    for terminal in [
        r#"{"type":"response.failed","response":{"error":{"message":"failed"}}}"#,
        r#"{"type":"response.incomplete","response":{"status":"incomplete","incomplete_details":{"reason":"max_output_tokens"}}}"#,
    ] {
        let mut events = text_stream_events("partial");
        events[3] = terminal.to_string();
        assert!(collect_finish_metadata(&events).is_none());
    }
}

#[test]
fn finish_metadata_marks_repaired_read_completion_ineligible() {
    let events = tool_stream_events(
        "Read",
        &format!(
            "{{\"file_path\":\"/tmp/metadata\",\"pages\":\"\"{}",
            " ".repeat(BUFFERED_READ_REPAIR_TRAILING_WHITESPACE_BYTES)
        ),
    );
    let metadata = collect_finish_metadata(&events).unwrap();
    assert!(!metadata.continuation_eligible);
    assert_eq!(metadata.output_items, vec![call("Read", r#"{"file_path":"/tmp/metadata"}"#)]);
}

#[test]
fn finish_metadata_keeps_the_reducer_tool_argument_limit() {
    for length in [BUFFERED_TOOL_MAX_ARGS_BYTES, BUFFERED_TOOL_MAX_ARGS_BYTES + 1] {
        let metadata = collect_finish_metadata(&tool_stream_events("Bash", &"x".repeat(length)));
        assert_eq!(metadata.is_some(), length == BUFFERED_TOOL_MAX_ARGS_BYTES);
    }
}

#[test]
fn disabled_finish_metadata_does_not_keep_completed_outputs() {
    let mut translator = LiveStreamTranslator::new("msg_metadata", "gpt-5.5")
        .with_finish_metadata(true)
        .with_finish_metadata(false);
    for output_index in 0..128 {
        for event in text_events_at(output_index, "answer") {
            translator.accept(&json(&event), None).unwrap();
            assert!(!translator.collects_finish_metadata());
        }
    }
    translator.accept(&json(r#"{"type":"response.completed","response":{}}"#), None).unwrap();
    assert!(translator.take_finish_metadata().is_none());
}

#[test]
fn emits_text_delta_before_terminal_event() {
    let mut translator = LiveStreamTranslator::new("msg_1", "gpt-5.5");
    let out = translator
        .accept(
            &json(r#"{"type":"response.output_text.delta","output_index":0,"delta":"hello"}"#),
            None,
        )
        .unwrap();
    let out = String::from_utf8(out).unwrap();
    assert!(out.contains("message_start"));
    assert!(out.contains("content_block_start"));
    assert!(out.contains("text_delta"));
    assert!(out.contains("hello"));
    assert!(!out.contains("message_stop"));
    assert!(translator.has_semantic_output());
}

#[test]
fn estimated_input_is_visible_at_start_and_provider_usage_is_exact_at_finish() {
    let mut translator =
        LiveStreamTranslator::with_estimated_input_tokens("msg_1", "gpt-5.5", 321);

    let started = translator
        .accept(
            &json(r#"{"type":"response.output_text.delta","output_index":0,"delta":"abcdefgh"}"#),
            None,
        )
        .unwrap();
    let started = event_data(&started, "message_start");
    let usage = started.get("message").unwrap().get("usage").unwrap();
    assert_eq!(usage.u64_at("input_tokens"), Some(321));

    let finished = translator
        .accept(
            &json(
                r#"{"type":"response.completed","response":{"id":"resp_1","status":"completed","usage":{"input_tokens":300,"output_tokens":9}}}"#,
            ),
            None,
        )
        .unwrap();
    let finished = event_data(&finished, "message_delta");
    let usage = finished.get("usage").unwrap();
    assert_eq!(usage.u64_at("input_tokens"), Some(300));
    assert_eq!(usage.u64_at("output_tokens"), Some(9));
}

#[test]
fn finishes_text_stream() {
    let out = render(&[
        r#"{"type":"response.output_item.added","output_index":0,"item":{"type":"message","id":"msg_up"}}"#,
        r#"{"type":"response.output_text.delta","output_index":0,"delta":"hello"}"#,
        r#"{"type":"response.output_item.done","output_index":0,"item":{"type":"message"}}"#,
        r#"{"type":"response.completed","response":{"id":"resp_1","status":"completed","incomplete_details":null,"usage":{"input_tokens":2,"output_tokens":1}}}"#,
    ]);
    assert!(out.contains("content_block_stop"));
    assert!(out.contains("message_delta"));
    assert!(out.contains(r#""stop_reason":"end_turn""#));
    assert!(out.contains("message_stop"));
}

#[test]
fn terminal_only_completion_remains_non_semantic() {
    let mut translator = LiveStreamTranslator::new("msg_1", "gpt-5.5");
    let out = translator
        .accept(
            &json(
                r#"{"type":"response.completed","response":{"id":"resp_1","status":"completed","incomplete_details":null,"usage":{}}}"#,
            ),
            None,
        )
        .unwrap();
    let out = String::from_utf8(out).unwrap();
    assert!(out.contains(r#""stop_reason":"end_turn""#));
    assert!(!out.contains(r#""stop_reason":"max_tokens""#));
    assert!(!translator.has_semantic_output());
}

#[test]
fn strict_live_translator_rejects_incomplete_response() {
    let mut translator = LiveStreamTranslator::new("msg_1", "gpt-5.5");
    let error = translator
        .accept(
            &json(
                r#"{"type":"response.incomplete","response":{"status":"incomplete","incomplete_details":{"reason":"max_output_tokens"}}}"#,
            ),
            None,
        )
        .unwrap_err();
    assert!(error.contains("max_output_tokens"));
}

#[test]
fn standard_responses_policy_maps_max_output_tokens_to_message_stop() {
    let mut translator = LiveStreamTranslator::new("msg_1", "gpt-5.6-luna")
        .with_incomplete_response_policy(IncompleteResponsePolicy::AllowMaxOutputTokens);
    let out = translator
        .accept(
            &json(
                r#"{"type":"response.incomplete","response":{"status":"incomplete","error":null,"incomplete_details":{"reason":"max_output_tokens"},"usage":{"input_tokens":2,"output_tokens":8}}}"#,
            ),
            None,
        )
        .unwrap();
    let out = String::from_utf8(out).unwrap();
    assert!(out.contains(r#""stop_reason":"max_tokens""#));
    assert!(out.contains(r#""output_tokens":8"#));
    assert!(out.contains("event: message_stop"));
    assert!(translator.is_finished());
}

#[test]
fn standard_responses_policy_rejects_other_incomplete_reasons() {
    for reason in ["content_filter", "unknown"] {
        let mut translator = LiveStreamTranslator::new("msg_1", "gpt-5.6-luna")
            .with_incomplete_response_policy(IncompleteResponsePolicy::AllowMaxOutputTokens);
        let event = format!(
            r#"{{"type":"response.incomplete","response":{{"status":"incomplete","incomplete_details":{{"reason":"{reason}"}}}}}}"#
        );
        assert!(translator.accept(&json(&event), None).is_err(), "{reason}");
    }
}

#[test]
fn structural_tool_start_is_not_semantic_until_arguments_arrive() {
    let mut tool = LiveStreamTranslator::new("msg_tool", "gpt-5.5");
    tool.accept(
        &json(
            r#"{"type":"response.output_item.added","output_index":0,"item":{"type":"function_call","call_id":"call_1","name":"Read"}}"#,
        ),
        None,
    )
    .unwrap();
    assert!(!tool.has_semantic_output());
    tool.accept(
        &json(r#"{"type":"response.function_call_arguments.delta","output_index":0,"delta":"{}"}"#),
        None,
    )
    .unwrap();
    assert!(tool.has_semantic_output());

    let mut thinking = LiveStreamTranslator::new("msg_thinking", "gpt-5.5");
    thinking
        .accept(
            &json(
                r#"{"type":"response.reasoning_summary_text.delta","output_index":0,"delta":"plan"}"#,
            ),
            None,
        )
        .unwrap();
    assert!(thinking.has_semantic_output());

    let mut web_search = LiveStreamTranslator::new("msg_search", "gpt-5.5");
    web_search
        .accept(
            &json(
                r#"{"type":"response.output_item.added","output_index":0,"item":{"type":"web_search_call","id":"ws_1"}}"#,
            ),
            None,
        )
        .unwrap();
    assert!(!web_search.has_semantic_output());
    web_search
        .accept(
            &json(
                r#"{"type":"response.output_item.done","output_index":0,"item":{"type":"web_search_call","id":"ws_1","action":{"query":"live-stream-proxy"}}}"#,
            ),
            None,
        )
        .unwrap();
    assert!(web_search.has_semantic_output());
}

#[test]
fn buffers_read_tool_args_until_done() {
    let out = render(&[
        r#"{"type":"response.output_item.added","output_index":0,"item":{"type":"function_call","call_id":"call_1","name":"Read"}}"#,
        r#"{"type":"response.function_call_arguments.delta","output_index":0,"delta":"{\"file_path\":\"/tmp/a\",\"pages\":\"\"}"}"#,
        r#"{"type":"response.output_item.done","output_index":0,"item":{"type":"function_call","call_id":"call_1","name":"Read","arguments":"{\"file_path\":\"/tmp/a\",\"pages\":\"\"}"}}"#,
        r#"{"type":"response.completed","response":{"id":"resp_1","usage":{}}}"#,
    ]);
    assert!(out.contains("tool_use"));
    assert!(out.contains("input_json_delta"));
    assert!(out.contains("/tmp/a"));
    assert!(!out.contains("pages"));
}

#[test]
fn repairs_whitespace_stalled_read_args_as_tool_use_finish() {
    let mut translator = LiveStreamTranslator::new("msg_1", "gpt-5.5");
    let mut out = Vec::new();
    out.extend(
        translator
            .accept(
                &json(
                    r#"{"type":"response.output_item.added","output_index":0,"item":{"type":"function_call","call_id":"call_1","name":"Read"}}"#,
                ),
                None,
            )
            .unwrap(),
    );
    let stalled = format!("{{\"file_path\":\"/tmp/a\",\"pages\":\"\"{}", " ".repeat(1024));
    let event = format!(
        r#"{{"type":"response.function_call_arguments.delta","output_index":0,"delta":{}}}"#,
        quoted(&stalled)
    );
    out.extend(translator.accept(&json(&event), None).unwrap());
    let rendered = String::from_utf8(out).unwrap();
    assert!(rendered.contains(r#""partial_json":"{\"file_path\":\"/tmp/a\"}""#));
    assert!(rendered.contains(r#""stop_reason":"tool_use""#));
    assert!(rendered.contains("message_stop"));
    assert!(translator.is_finished());
}

#[test]
fn websocket_compat_can_finish_after_closed_completed_tool_call() {
    let mut translator = LiveStreamTranslator::new("msg_1", "gpt-5.5");
    let mut out = Vec::new();
    for event in [
        r#"{"type":"response.output_item.added","output_index":0,"item":{"type":"function_call","call_id":"call_1","name":"WebSearch"}}"#,
        r#"{"type":"response.function_call_arguments.done","output_index":0,"arguments":"{\"query\":\"live-stream-proxy github\"}"}"#,
        r#"{"type":"response.output_item.done","output_index":0,"item":{"type":"function_call","call_id":"call_1","name":"WebSearch","arguments":"{\"query\":\"live-stream-proxy github\"}"}}"#,
    ] {
        out.extend(translator.accept(&json(event), None).unwrap());
    }
    out.extend(translator.finish_after_closed_completed_tool_call(None));
    let rendered = String::from_utf8(out).unwrap();
    assert!(rendered.contains("content_block_start"));
    assert!(rendered.contains("input_json_delta"));
    assert!(rendered.contains(r#""stop_reason":"tool_use""#));
    assert!(rendered.contains("message_stop"));
    assert!(!rendered.contains("event: error"));
}

#[test]
fn emits_web_search_results_from_citations_before_deferred_text() {
    let out = render(&[
        r#"{"type":"response.output_item.added","output_index":0,"item":{"type":"web_search_call","id":"ws_1"}}"#,
        r#"{"type":"response.output_item.done","output_index":0,"item":{"type":"web_search_call","id":"ws_1","action":{"query":"grok reasoning effort"}}}"#,
        r#"{"type":"response.output_item.added","output_index":1,"item":{"type":"message","id":"msg_up"}}"#,
        r#"{"type":"response.output_text.delta","output_index":1,"delta":"See the official docs."}"#,
        r#"{"type":"response.output_text.annotation.added","annotation":{"type":"url_citation","title":"Reasoning","url":"https://docs.x.ai/docs/guides/reasoning"}}"#,
        r#"{"type":"response.output_item.done","output_index":1,"item":{"type":"message"}}"#,
        r#"{"type":"response.completed","response":{"status":"completed","usage":{}}}"#,
    ]);

    let tool = out.find("server_tool_use").unwrap();
    let result = out.find("web_search_tool_result").unwrap();
    let text = out.find("See the official docs.").unwrap();
    assert!(tool < result && result < text);
    assert!(out.contains("https://docs.x.ai/docs/guides/reasoning"));
    assert!(out.contains(r#""web_search_requests":1"#));
}

#[test]
fn rate_limit_event_is_progress_telemetry() {
    let mut translator = LiveStreamTranslator::new("msg_1", "gpt-5.5");
    let out = translator
        .accept(
            &json(r#"{"type":"codex.rate_limits","rate_limits":{"limit_reached":true}}"#),
            None,
        )
        .unwrap();
    let out = String::from_utf8(out).unwrap();
    assert!(out.contains("event: ping"));
    assert!(!out.contains("event: error"));
}

#[test]
fn progress_events_start_message_and_emit_pings() {
    let mut translator = LiveStreamTranslator::new("msg_1", "gpt-5.5");
    let first = String::from_utf8(
        translator.accept(&json(r#"{"type":"response.created"}"#), None).unwrap(),
    )
    .unwrap();
    assert_eq!(first.matches("event: message_start").count(), 1);
    assert_eq!(first.matches("event: ping").count(), 1);

    let second = String::from_utf8(translator.ping_chunk(None)).unwrap();
    assert!(!second.contains("event: message_start"));
    assert_eq!(second.matches("event: ping").count(), 1);
}

#[test]
fn live_stream_emits_signature_delta_before_thinking_stop() {
    let out = render(&[
        r#"{"type":"response.output_item.added","output_index":0,"item":{"type":"reasoning","id":"rs_1","encrypted_content":"opaque"}}"#,
        r#"{"type":"response.reasoning_summary_text.delta","output_index":0,"delta":"plan"}"#,
        r#"{"type":"response.output_item.done","output_index":0,"item":{"type":"reasoning","id":"rs_1"}}"#,
        r#"{"type":"response.completed","response":{"id":"resp_1","usage":{}}}"#,
    ]);
    let thinking_delta = out.find(r#""type":"thinking_delta""#).unwrap();
    let signature_delta = out.find(r#""type":"signature_delta""#).unwrap();
    let thinking_stop = out[signature_delta..]
        .find("event: content_block_stop")
        .map(|offset| signature_delta + offset)
        .unwrap();
    assert!(thinking_delta < signature_delta);
    assert!(signature_delta < thinking_stop);
    assert!(out.contains("ccp:codex:v1:"));
}

#[test]
fn signature_only_reasoning_is_semantic_output() {
    let mut translator = LiveStreamTranslator::new("msg_1", "gpt-5.5");
    let mut out = Vec::new();
    for event in [
        r#"{"type":"response.output_item.added","output_index":0,"item":{"type":"reasoning","id":"rs_1","encrypted_content":"opaque"}}"#,
        r#"{"type":"response.output_item.done","output_index":0,"item":{"type":"reasoning","id":"rs_1"}}"#,
    ] {
        out.extend(translator.accept(&json(event), None).unwrap());
    }
    let out = String::from_utf8(out).unwrap();
    assert!(out.contains(r#""type":"signature_delta""#));
    assert!(translator.has_semantic_output());
}

//! What is read off the upstream events and the arguments of tool calls, in
//! terms of their JSON entries.

use crate::index_map::ascending;
use crate::json::{JsonModel, NumberModel};
use crate::json_text::{json_read, json_written};
use crate::kinds::{is_answer, is_end, lemma_answer_to_end};
use crate::model::{deferred_events, DeferredModel, State, Step, WebSearchModel};
use crate::read_args::{
    law_removed_key_is_gone, repaired_args, sanitized_args, valid_read_args, without_key,
};
use crate::reasoning::ReplayModel;
use crate::text::{byte_len, is_white_space, without_trailing_space};
use crate::upstream::{
    addressed_index, event_kind, event_verdict, first_string, mapped_usage, nested_str,
    response_usage, search_query, spec_output_index, VerdictModel,
};
use vstd::prelude::*;

verus! {

/// A string is read only from an entry that holds a string, a count only from
/// one that holds an integer from zero on.
pub proof fn law_entries_are_read(value: JsonModel, key: Seq<char>, text: Seq<char>, count: u64)
    ensures
        value.get(key) == Some(JsonModel::Str(text)) ==> value.str_at(key) == Some(text)
            && value.text_at(key) == text,
        !(value.get(key) matches Some(JsonModel::Str(_))) ==> value.str_at(key) is None
            && value.text_at(key) == Seq::<char>::empty(),
        value.get(key) == Some(JsonModel::Number(NumberModel::Unsigned(count))) ==> value.u64_at(
            key,
        ) == Some(count),
        !(value.get(key) matches Some(JsonModel::Number(_))) ==> value.u64_at(key) is None,
        value !is Object ==> value.get(key) is None,
{
}

/// An event names an output by a count. One that names none stands for the first
/// output, where it has to stand for one.
pub proof fn law_output_index_is_read(payload: JsonModel)
    ensures
        match payload.u64_at("output_index"@) {
            Some(index) => addressed_index(payload) == Some(index as usize) && spec_output_index(
                payload,
            ) == index as usize,
            None => addressed_index(payload) is None && spec_output_index(payload) == 0,
        },
{
}

/// The count at an entry of an optional value, or else zero.
pub open spec fn count_at(value: Option<JsonModel>, key: Seq<char>) -> u64 {
    match value {
        Some(value) => match value.u64_at(key) {
            Some(count) => count,
            None => 0,
        },
        None => 0,
    }
}

/// An entry of an optional value.
pub open spec fn entry_of(value: Option<JsonModel>, key: Seq<char>) -> Option<JsonModel> {
    match value {
        Some(value) => value.get(key),
        None => None,
    }
}

/// The usage at the end of a response is what the response counts. Input tokens
/// that were read from the cache are counted as such and not as input. Every web
/// search that began is counted.
pub proof fn law_usage_is_what_the_response_counts(
    state: State,
    payload: JsonModel,
    verdict: VerdictModel,
    taken: Step,
)
    requires
        is_answer(state, payload, verdict, taken),
        is_end(payload),
    ensures
        ({
            let events = taken.events;
            let sent = events[events.len() - 2]->usage;
            let counts = entry_of(payload.get("response"@), "usage"@);
            let input = count_at(counts, "input_tokens"@);
            let cached = count_at(
                entry_of(counts, "input_tokens_details"@),
                "cached_tokens"@,
            );
            &&& events[events.len() - 2] is MessageDelta
            &&& sent.output_tokens == count_at(counts, "output_tokens"@)
            &&& sent.cache_read_input_tokens == cached
            &&& cached <= input ==> sent.input_tokens + cached == input
            &&& cached > input ==> sent.input_tokens == 0
            &&& sent.cache_creation_input_tokens == 0
            &&& state.web_search_requests <= u64::MAX ==> sent.web_search_requests
                == state.web_search_requests
        }),
{
    lemma_answer_to_end(state, payload, verdict, taken);
    lemma_usage(state, payload, verdict);
}

proof fn lemma_usage(state: State, payload: JsonModel, verdict: VerdictModel)
    ensures
        ({
            let finished = state.still().finish(payload, verdict);
            let sent = finished.events[finished.events.len() - 2];
            &&& finished.events.len() >= 2
            &&& sent is MessageDelta
            &&& sent->usage == mapped_usage(
                match payload.get("response"@) {
                    Some(response) => Some(response_usage(response)),
                    None => None,
                },
                state.web_search_requests,
            )
        }),
{
    let noted = state.still().with_metadata(
        match state.metadata {
            Some(metadata) if metadata.open_blocks == Set::<usize>::empty() => Some(
                metadata.terminated(
                    verdict.complete,
                    nested_str(payload, "response"@, "id"@),
                ),
            ),
            _ => None,
        },
    );
    let ready = noted.close_thinking();
    assert(ready.close_thinking() == ready);
    lemma_requests_stay(ready, ascending(ready.state.blocks.dom()));
    let closed = ready.close_open_blocks();
    let cleared = Step {
        state: State {
            web_searches: Seq::empty(),
            deferred_text: Seq::empty(),
            ..closed.state
        },
        ..closed
    };
    lemma_requests_stay_searches(cleared, closed.state.web_searches);
    lemma_requests_stay_texts(
        cleared.flush_searches(closed.state.web_searches),
        closed.state.deferred_text,
    );
}

proof fn lemma_requests_stay(step: Step, order: Seq<usize>)
    ensures
        step.close_blocks(order).state.web_search_requests == step.state.web_search_requests,
    decreases order.len(),
{
    if order.len() > 0 {
        lemma_requests_stay(step.close_block(order.first()), order.drop_first());
    }
}

proof fn lemma_requests_stay_searches(
    step: Step,
    searches: Seq<WebSearchModel>,
)
    ensures
        step.flush_searches(searches).state.web_search_requests == step.state.web_search_requests,
    decreases searches.len(),
{
    if searches.len() > 0 {
        lemma_requests_stay_searches(
            step.start_message().emit_all(step.state.search_events(searches.first())),
            searches.drop_first(),
        );
    }
}

proof fn lemma_requests_stay_texts(
    step: Step,
    texts: Seq<DeferredModel>,
)
    ensures
        step.flush_texts(texts).state.web_search_requests == step.state.web_search_requests,
    decreases texts.len(),
{
    if texts.len() > 0 {
        lemma_requests_stay_texts(
            step.emit_all(deferred_events(texts.first())),
            texts.drop_first(),
        );
    }
}

proof fn lemma_first_string(values: Seq<JsonModel>, i: int, text: Seq<char>)
    requires
        0 <= i < values.len(),
        values[i] == JsonModel::Str(text),
        forall|j: int| 0 <= j < i ==> !(#[trigger] values[j] is Str),
    ensures
        first_string(values) == Some(text),
    decreases i,
{
    if i > 0 {
        assert(!(values[0] is Str));
        let rest = values.drop_first();
        assert forall|j: int| 0 <= j < i - 1 implies !(#[trigger] rest[j] is Str) by {
            assert(!(values[j + 1] is Str));
        }
        lemma_first_string(rest, i - 1, text);
    }
}

proof fn lemma_no_string(values: Seq<JsonModel>)
    requires
        forall|j: int| 0 <= j < values.len() ==> !(#[trigger] values[j] is Str),
    ensures
        first_string(values) is None,
    decreases values.len(),
{
    if values.len() > 0 {
        assert(!(values[0] is Str));
        let rest = values.drop_first();
        assert forall|j: int| 0 <= j < rest.len() implies !(#[trigger] rest[j] is Str) by {
            assert(!(values[j + 1] is Str));
        }
        lemma_no_string(rest);
    }
}

/// The query of a web search is that of its action, or else the first string
/// among its queries.
pub proof fn law_query_is_found(
    item: JsonModel,
    action: JsonModel,
    queries: Seq<JsonModel>,
    i: int,
    query: Seq<char>,
)
    ensures
        item.get("action"@) is None ==> search_query(item) == Seq::<char>::empty(),
        item.get("action"@) == Some(action) && action.get("query"@) == Some(
            JsonModel::Str(query),
        ) ==> search_query(item) == query,
        item.get("action"@) == Some(action) && !(action.get("query"@) matches Some(
            JsonModel::Str(_),
        )) && action.get("queries"@) == Some(JsonModel::Array(queries)) && 0 <= i < queries.len()
            && queries[i] == JsonModel::Str(query) && (forall|j: int|
            0 <= j < i ==> !(#[trigger] queries[j] is Str)) ==> search_query(item) == query,
        item.get("action"@) == Some(action) && !(action.get("query"@) matches Some(
            JsonModel::Str(_),
        )) && action.get("queries"@) == Some(JsonModel::Array(queries)) && (forall|j: int|
            0 <= j < queries.len() ==> !(#[trigger] queries[j] is Str)) ==> search_query(item)
            == Seq::<char>::empty(),
        item.get("action"@) == Some(action) && !(action.get("query"@) matches Some(
            JsonModel::Str(_),
        )) && !(action.get("queries"@) matches Some(JsonModel::Array(_))) ==> search_query(item)
            == Seq::<char>::empty(),
{
    if 0 <= i < queries.len() && queries[i] == JsonModel::Str(query) && (forall|j: int|
        0 <= j < i ==> !(#[trigger] queries[j] is Str)) {
        lemma_first_string(queries, i, query);
    }
    if forall|j: int| 0 <= j < queries.len() ==> !(#[trigger] queries[j] is Str) {
        lemma_no_string(queries);
    }
}

/// The first of some texts that is there.
pub open spec fn first_of(
    one: Option<Seq<char>>,
    two: Option<Seq<char>>,
    three: Option<Seq<char>>,
    last: Seq<char>,
) -> Seq<char> {
    if one is Some {
        one->0
    } else if two is Some {
        two->0
    } else if three is Some {
        three->0
    } else {
        last
    }
}

/// The string at an entry of an optional value.
pub open spec fn text_of(value: Option<JsonModel>, key: Seq<char>) -> Option<Seq<char>> {
    match value {
        Some(value) => value.str_at(key),
        None => None,
    }
}

/// What fails a stream is a reported error, or the end of a response that is not
/// whole; and the reason is the one that the event gives.
pub proof fn law_failures_are_told_apart(payload: JsonModel)
    ensures
        ({
            let kind = event_kind(payload);
            let failure = event_verdict(payload).failure;
            let is_error = kind == "response.failed"@ || kind == "error"@;
            let response = payload.get("response"@);
            let reason = text_of(entry_of(response, "incomplete_details"@), "reason"@);
            &&& failure is Some <==> is_error || kind == "response.incomplete"@
            &&& is_error ==> failure == Some(
                first_of(
                    text_of(entry_of(response, "error"@), "message"@),
                    text_of(payload.get("error"@), "message"@),
                    payload.str_at("message"@),
                    "Upstream response failed"@,
                ),
            )
            &&& kind == "response.incomplete"@ && reason is Some ==> failure == Some(
                "Upstream response incomplete: "@ + reason->0,
            )
            &&& kind == "response.incomplete"@ && reason is None ==> failure == Some(
                "Upstream response incomplete: "@ + "unknown"@,
            )
        }),
{
    reveal_strlit("response.failed");
    reveal_strlit("error");
    reveal_strlit("response.incomplete");
    assert("response.failed"@.len() == 15);
    assert("error"@.len() == 5);
    assert("response.incomplete"@.len() == 19);
}

/// A response is complete where it ends normally and does not say that it is
/// incomplete. It ran into the limit of its output tokens where it ends as
/// incomplete, says so, gives that as the reason, and reports no error.
pub proof fn law_ends_are_told_apart(payload: JsonModel)
    ensures
        ({
            let kind = event_kind(payload);
            let response = payload.get("response"@);
            let is_incomplete = text_of(response, "status"@) == Some("incomplete"@);
            let reason = text_of(entry_of(response, "incomplete_details"@), "reason"@);
            let error = entry_of(response, "error"@);
            &&& event_verdict(payload).complete <==> (kind == "response.completed"@ || kind
                == "response.done"@) && !is_incomplete
            &&& event_verdict(payload).max_output_tokens <==> kind == "response.incomplete"@
                && is_incomplete && reason == Some("max_output_tokens"@) && (error is None
                || error == Some(JsonModel::Null))
        }),
{
    reveal_strlit("response.completed");
    reveal_strlit("response.done");
    reveal_strlit("response.incomplete");
    assert("response.completed"@.len() == 18);
    assert("response.done"@.len() == 13);
    assert("response.incomplete"@.len() == 19);
}

/// The arguments of a tool are handed on as they are. Only where the tool is
/// `Read` and its `pages` are the empty string, they are written anew, without
/// `pages` and with every other entry as it was.
pub proof fn law_only_empty_pages_are_left_out(name: Seq<char>, args: Seq<char>)
    ensures
        ({
            let parsed = json_read(args);
            let is_empty = parsed matches Some(value) && value.get("pages"@) == Some(
                JsonModel::Str(Seq::empty()),
            );
            if name == "Read"@ && is_empty {
                exists|kept: JsonModel|
                    {
                        &&& sanitized_args(name, args) == #[trigger] json_written(kept)
                        &&& kept.get("pages"@) is None
                        &&& forall|key: Seq<char>|
                            key != "pages"@ ==> #[trigger] kept.get(key) == parsed->0.get(key)
                    }
            } else {
                sanitized_args(name, args) == args
            }
        }),
{
    let parsed = json_read(args);
    if name == "Read"@ && (parsed matches Some(value) && value.get("pages"@) == Some(
        JsonModel::Str(Seq::empty()),
    )) {
        let entries = parsed->0->Object_0;
        let kept = without_key(parsed->0, "pages"@);
        law_removed_key_is_gone(entries, "pages"@, "pages"@);
        assert forall|key: Seq<char>| key != "pages"@ implies #[trigger] kept.get(key)
            == parsed->0.get(key) by {
            law_removed_key_is_gone(entries, "pages"@, key);
        }
        assert(sanitized_args(name, args) == json_written(kept));
    }
}

/// What is trimmed off the end of a text is its white space, all of it and
/// nothing else.
pub proof fn law_trailing_space_is_trimmed(text: Seq<char>)
    ensures
        ({
            let trimmed = without_trailing_space(text);
            &&& trimmed.len() <= text.len()
            &&& text.take(trimmed.len() as int) == trimmed
            &&& forall|i: int|
                trimmed.len() <= i < text.len() ==> is_white_space(#[trigger] text[i])
            &&& trimmed.len() > 0 ==> !is_white_space(trimmed.last())
        }),
    decreases text.len(),
{
    if text.len() > 0 && is_white_space(text.last()) {
        let rest = text.drop_last();
        law_trailing_space_is_trimmed(rest);
        let trimmed = without_trailing_space(text);
        assert(text.take(trimmed.len() as int) =~= rest.take(trimmed.len() as int));
        assert forall|i: int| trimmed.len() <= i < text.len() implies is_white_space(
            #[trigger] text[i],
        ) by {
            if i < rest.len() {
                assert(rest[i] == text[i]);
            }
        }
    } else {
        assert(text.take(text.len() as int) =~= text);
    }
}

/// Arguments are repaired where they are those of `Read` and end in 1024 bytes
/// of white space or more, and where what stands before is valid, as it is or
/// else with a closing brace. Then they are written anew, without the white
/// space.
pub proof fn law_stalled_arguments_are_repaired(name: Seq<char>, args: Seq<char>)
    ensures
        ({
            let trimmed = without_trailing_space(args);
            let stalled = byte_len(args) - byte_len(trimmed) >= 1024;
            let whole = json_read(trimmed);
            let closed = json_read(trimmed + seq!['}']);
            let repaired = repaired_args(name, args);
            if name != "Read"@ || !stalled {
                repaired is None
            } else if whole is Some && valid_read_args(whole->0) {
                repaired == Some(sanitized_args("Read"@, json_written(whole->0)))
            } else if closed is Some && valid_read_args(closed->0) {
                repaired == Some(sanitized_args("Read"@, json_written(closed->0)))
            } else {
                repaired is None
            }
        }),
{
    reveal_strlit("}");
    assert("}"@ =~= seq!['}']);
}

/// Arguments of `Read` are valid as an object with a path that is not empty, and
/// with nothing else but an offset that is an integer from zero on, a limit that
/// is an integer from one on, and pages that are a string.
pub proof fn law_valid_arguments(entries: Seq<(Seq<char>, JsonModel)>)
    ensures
        ({
            let value = JsonModel::Object(entries);
            let offset = value.get("offset"@);
            let limit = value.get("limit"@);
            let pages = value.get("pages"@);
            valid_read_args(value) <==> {
                &&& value.get("file_path"@) matches Some(JsonModel::Str(path)) && path.len() > 0
                &&& offset is None || (offset->0.as_i64() matches Some(n) && 0 <= n)
                &&& limit is None || (limit->0.as_i64() matches Some(n) && 1 <= n)
                &&& pages is None || pages->0 is Str
                &&& forall|i: int|
                    0 <= i < entries.len() ==> {
                        let key = (#[trigger] entries[i]).0;
                        key == "file_path"@ || key == "offset"@ || key == "limit"@ || key
                            == "pages"@
                    }
            }
        }),
        forall|other: JsonModel| other !is Object ==> !(#[trigger] valid_read_args(other)),
{
}

/// The signature of a reasoning item carries its identifier and its content.
pub proof fn law_signature_carries_the_reasoning(replay: ReplayModel)
    ensures
        replay.signature() == "ccp:codex:v1:"@ + json_written(
            JsonModel::Object(
                seq![
                    ("id"@, JsonModel::Str(replay.id)),
                    ("encrypted_content"@, JsonModel::Str(replay.encrypted_content)),
                ],
            ),
        ),
{
    let none = Seq::<(Seq<char>, JsonModel)>::empty();
    let id = ("id"@, JsonModel::Str(replay.id));
    let content = ("encrypted_content"@, JsonModel::Str(replay.encrypted_content));
    assert(none.push(id).push(content) =~= seq![id, content]);
}

} // verus!

//! What a client reads off the JSON of the events.

use crate::downstream::{
    ContentBlockModel, DeltaModel, Event, StopReason, Usage, WebSearchResultModel,
};
use crate::json::{lookup, JsonModel};
use crate::json_text::json_written;
use crate::reading::{count_at, entry_of, text_of};
use crate::sse::{frame, frame_text, lemma_wire_concat, wire};
use crate::traffic::downstream_records;
use vstd::prelude::*;
use vstd::utf8::encode_utf8;

verus! {

proof fn lemma_lookup(
    entries: Seq<(Seq<char>, JsonModel)>,
    added: Seq<char>,
    value: JsonModel,
    key: Seq<char>,
)
    ensures
        lookup(entries.push((added, value)), key) == if added == key {
            Some(value)
        } else {
            lookup(entries, key)
        },
{
    assert(entries.push((added, value)).drop_last() =~= entries);
}

proof fn lemma_lookups()
    ensures
        forall|
            entries: Seq<(Seq<char>, JsonModel)>,
            added: Seq<char>,
            value: JsonModel,
            key: Seq<char>,
        | #[trigger]
            lookup(entries.push((added, value)), key) == if added == key {
                Some(value)
            } else {
                lookup(entries, key)
            },
{
    assert forall|
        entries: Seq<(Seq<char>, JsonModel)>,
        added: Seq<char>,
        value: JsonModel,
        key: Seq<char>,
    | #[trigger]
        lookup(entries.push((added, value)), key) == if added == key {
            Some(value)
        } else {
            lookup(entries, key)
        } by {
        lemma_lookup(entries, added, value, key);
    }
}

/// The lengths of the keys, and what tells those of one length apart.
proof fn lemma_keys()
    ensures
        "id"@.len() == 2,
        "url"@.len() == 3,
        "type"@.len() == 4 && "type"@[0] == 't' && "type"@[1] == 'y',
        "text"@.len() == 4 && "text"@[0] == 't' && "text"@[1] == 'e',
        "name"@.len() == 4 && "name"@[0] == 'n',
        "role"@.len() == 4 && "role"@[0] == 'r',
        "data"@.len() == 4,
        "index"@.len() == 5 && "index"@[0] == 'i',
        "input"@.len() == 5 && "input"@[0] == 'i',
        "delta"@.len() == 5 && "delta"@[0] == 'd',
        "usage"@.len() == 5 && "usage"@[0] == 'u',
        "model"@.len() == 5 && "model"@[0] == 'm',
        "title"@.len() == 5,
        "error"@.len() == 5,
        "event"@.len() == 5,
        "message"@.len() == 7 && "message"@[0] == 'm',
        "content"@.len() == 7 && "content"@[0] == 'c',
        "thinking"@.len() == 8,
        "signature"@.len() == 9,
        "stop_reason"@.len() == 11,
        "tool_use_id"@.len() == 11,
        "partial_json"@.len() == 12,
        "input_tokens"@.len() == 12,
        "output_tokens"@.len() == 13,
        "stop_sequence"@.len() == 13,
        "content_block"@.len() == 13,
        "server_tool_use"@.len() == 15,
        "cache_read_input_tokens"@.len() == 23,
        "cache_creation_input_tokens"@.len() == 27,
{
    reveal_strlit("id");
    reveal_strlit("url");
    reveal_strlit("type");
    reveal_strlit("text");
    reveal_strlit("name");
    reveal_strlit("role");
    reveal_strlit("data");
    reveal_strlit("index");
    reveal_strlit("input");
    reveal_strlit("delta");
    reveal_strlit("usage");
    reveal_strlit("model");
    reveal_strlit("title");
    reveal_strlit("error");
    reveal_strlit("event");
    reveal_strlit("message");
    reveal_strlit("content");
    reveal_strlit("thinking");
    reveal_strlit("signature");
    reveal_strlit("stop_reason");
    reveal_strlit("tool_use_id");
    reveal_strlit("partial_json");
    reveal_strlit("input_tokens");
    reveal_strlit("output_tokens");
    reveal_strlit("stop_sequence");
    reveal_strlit("content_block");
    reveal_strlit("server_tool_use");
    reveal_strlit("cache_read_input_tokens");
    reveal_strlit("cache_creation_input_tokens");
}

/// Every event says what it is, under the name that it is sent under.
pub proof fn law_events_say_their_type(event: Event)
    ensures
        event.json().str_at("type"@) == Some(event.name()),
{
    lemma_lookups();
    lemma_keys();
}

/// The start of the message says who the message is from, which one it is and
/// which model writes it, and estimates its input.
pub proof fn law_message_start_is_read(id: Seq<char>, model: Seq<char>, input_tokens: u64)
    ensures
        ({
            let json = (Event::MessageStart { id, model, input_tokens }).json();
            let message = json.get("message"@);
            let usage = entry_of(message, "usage"@);
            &&& text_of(message, "id"@) == Some(id)
            &&& text_of(message, "model"@) == Some(model)
            &&& text_of(message, "type"@) == Some("message"@)
            &&& text_of(message, "role"@) == Some("assistant"@)
            &&& entry_of(message, "content"@) == Some(JsonModel::Array(Seq::empty()))
            &&& entry_of(message, "stop_reason"@) == Some(JsonModel::Null)
            &&& entry_of(message, "stop_sequence"@) == Some(JsonModel::Null)
            &&& entry_of(usage, "input_tokens"@) is Some
            &&& count_at(usage, "input_tokens"@) == input_tokens
            &&& entry_of(usage, "output_tokens"@) is Some
            &&& count_at(usage, "output_tokens"@) == 0
        }),
{
    lemma_lookups();
    lemma_keys();
}

/// What is said of a block names the block, and says what it opens or adds.
pub proof fn law_blocks_are_addressed(index: nat, block: ContentBlockModel, delta: DeltaModel)
    requires
        index <= u64::MAX,
    ensures
        (Event::BlockStart { index, block }).json().u64_at("index"@) == Some(index as u64),
        (Event::BlockStart { index, block }).json().get("content_block"@) == Some(block.json()),
        (Event::BlockDelta { index, delta }).json().u64_at("index"@) == Some(index as u64),
        (Event::BlockDelta { index, delta }).json().get("delta"@) == Some(delta.json()),
        (Event::BlockStop { index }).json().u64_at("index"@) == Some(index as u64),
{
    lemma_lookups();
    lemma_keys();
}

/// A block is opened empty. A tool call has its identifier and its name, the
/// result of a web search the identifier of its call and one item for each page.
pub proof fn law_opened_blocks_are_read(
    id: Seq<char>,
    name: Seq<char>,
    results: Seq<WebSearchResultModel>,
)
    ensures
        ({
            let json = ContentBlockModel::Text.json();
            json.str_at("type"@) == Some("text"@) && json.str_at("text"@) == Some(""@)
        }),
        ({
            let json = ContentBlockModel::Thinking.json();
            &&& json.str_at("type"@) == Some("thinking"@)
            &&& json.str_at("thinking"@) == Some(""@)
            &&& json.str_at("signature"@) == Some(""@)
        }),
        ({
            let json = (ContentBlockModel::ToolUse { id, name }).json();
            &&& json.str_at("type"@) == Some("tool_use"@)
            &&& json.str_at("id"@) == Some(id)
            &&& json.str_at("name"@) == Some(name)
            &&& json.get("input"@) == Some(JsonModel::Object(Seq::empty()))
        }),
        ({
            let json = (ContentBlockModel::ServerToolUse { id }).json();
            &&& json.str_at("type"@) == Some("server_tool_use"@)
            &&& json.str_at("id"@) == Some(id)
            &&& json.str_at("name"@) == Some("web_search"@)
            &&& json.get("input"@) == Some(JsonModel::Object(Seq::empty()))
        }),
        ({
            let json = (ContentBlockModel::WebSearchToolResult { tool_use_id: id, results }).json();
            &&& json.str_at("type"@) == Some("web_search_tool_result"@)
            &&& json.str_at("tool_use_id"@) == Some(id)
            &&& json.get("content"@) matches Some(JsonModel::Array(items)) && items.len()
                == results.len() && forall|i: int|
                0 <= i < results.len() ==> {
                    &&& (#[trigger] items[i]).str_at("type"@) == Some("web_search_result"@)
                    &&& items[i].str_at("title"@) == Some(results[i].title)
                    &&& items[i].str_at("url"@) == Some(results[i].url)
                }
        }),
{
    lemma_lookups();
    lemma_keys();
}

/// A piece is read as what it was sent as.
pub proof fn law_pieces_are_read(text: Seq<char>)
    ensures
        ({
            let json = DeltaModel::Text(text).json();
            json.str_at("type"@) == Some("text_delta"@) && json.str_at("text"@) == Some(text)
        }),
        ({
            let json = DeltaModel::Thinking(text).json();
            json.str_at("type"@) == Some("thinking_delta"@) && json.str_at("thinking"@) == Some(
                text,
            )
        }),
        ({
            let json = DeltaModel::Signature(text).json();
            json.str_at("type"@) == Some("signature_delta"@) && json.str_at("signature"@) == Some(
                text,
            )
        }),
        ({
            let json = DeltaModel::InputJson(text).json();
            json.str_at("type"@) == Some("input_json_delta"@) && json.str_at("partial_json"@)
                == Some(text)
        }),
{
    lemma_lookups();
    lemma_keys();
}

/// The end of the message says why the message stops, and what it has used.
pub proof fn law_message_end_is_read(stop_reason: StopReason, usage: Usage)
    ensures
        ({
            let json = (Event::MessageDelta { stop_reason, usage }).json();
            let delta = json.get("delta"@);
            let counts = json.get("usage"@);
            let requests = count_at(
                entry_of(counts, "server_tool_use"@),
                "web_search_requests"@,
            );
            &&& stop_reason == StopReason::EndTurn ==> text_of(delta, "stop_reason"@) == Some(
                "end_turn"@,
            )
            &&& stop_reason == StopReason::MaxTokens ==> text_of(delta, "stop_reason"@) == Some(
                "max_tokens"@,
            )
            &&& stop_reason == StopReason::ToolUse ==> text_of(delta, "stop_reason"@) == Some(
                "tool_use"@,
            )
            &&& entry_of(delta, "stop_sequence"@) == Some(JsonModel::Null)
            &&& count_at(counts, "input_tokens"@) == usage.input_tokens
            &&& count_at(counts, "output_tokens"@) == usage.output_tokens
            &&& count_at(counts, "cache_creation_input_tokens"@)
                == usage.cache_creation_input_tokens
            &&& count_at(counts, "cache_read_input_tokens"@) == usage.cache_read_input_tokens
            &&& requests == usage.web_search_requests
            &&& entry_of(counts, "server_tool_use"@) is Some <==> usage.web_search_requests > 0
        }),
{
    lemma_lookups();
    lemma_keys();
}

/// An error is read as it was given.
pub proof fn law_errors_are_read(error_type: Seq<char>, message: Seq<char>)
    ensures
        ({
            let error = (Event::Error { error_type, message }).json().get("error"@);
            text_of(error, "type"@) == Some(error_type) && text_of(error, "message"@) == Some(
                message,
            )
        }),
{
    lemma_lookups();
    lemma_keys();
}

/// Each event that is sent is recorded, in order, with its name and its JSON.
pub proof fn law_records_hold_the_events(events: Seq<Event>, i: int)
    requires
        0 <= i < events.len(),
    ensures
        downstream_records(events).len() == events.len(),
        downstream_records(events)[i].label == "050-downstream-event"@,
        downstream_records(events)[i].data.str_at("event"@) == Some(events[i].name()),
        downstream_records(events)[i].data.get("data"@) == Some(events[i].json()),
{
    lemma_lookups();
    lemma_keys();
}

/// A frame is a line that names the event, a line with its data and an empty
/// line. The name and the data stand in it unchanged.
pub proof fn law_frames_are_read(event: Seq<char>, data: Seq<char>)
    ensures
        ({
            let text = frame_text(event, data);
            let line: int = event.len() as int + 7;
            let end: int = line + 7 + data.len();
            &&& text.len() == end + 2
            &&& text.take(7) == seq!['e', 'v', 'e', 'n', 't', ':', ' ']
            &&& text.subrange(7, line) == event
            &&& text.subrange(line, line + 7) == seq!['\n', 'd', 'a', 't', 'a', ':', ' ']
            &&& text.subrange(line + 7, end) == data
            &&& text.skip(end) == seq!['\n', '\n']
        }),
{
    reveal_strlit("event: ");
    reveal_strlit("\ndata: ");
    reveal_strlit("\n\n");
    let text = frame_text(event, data);
    let line: int = event.len() as int + 7;
    let end: int = line + 7 + data.len();
    assert(text.take(7) =~= seq!['e', 'v', 'e', 'n', 't', ':', ' ']);
    assert(text.subrange(7, line) =~= event);
    assert(text.subrange(line, line + 7) =~= seq!['\n', 'd', 'a', 't', 'a', ':', ' ']);
    assert(text.subrange(line + 7, end) =~= data);
    assert(text.skip(end) =~= seq!['\n', '\n']);
}

/// The bytes of a run of events are the frame of its first event, with the
/// event's name and its JSON, and behind it the bytes of the other events.
pub proof fn law_frames_are_sent_in_order(event: Event, others: Seq<Event>)
    ensures
        wire(seq![event] + others) == encode_utf8(
            frame_text(event.name(), json_written(event.json())),
        ) + wire(others),
        wire(Seq::empty()) == Seq::<u8>::empty(),
{
    lemma_wire_concat(seq![event], others);
    let single = seq![event];
    assert(single.drop_last() =~= Seq::<Event>::empty());
    assert(single.last() == event);
    reveal_with_fuel(wire, 2);
    assert(wire(single) =~= frame(event));
}

} // verus!

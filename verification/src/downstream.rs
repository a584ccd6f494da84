//! The events that go to the downstream client, and the JSON that each of them
//! carries.

use crate::json::{Json, JsonModel, NumberModel};
use vstd::prelude::*;

verus! {

/// Why a message stopped.
#[derive(Debug, Clone, Copy, PartialEq, Eq, Structural)]
pub enum StopReason {
    EndTurn,
    MaxTokens,
    ToolUse,
}

/// A page that a web search found.
#[derive(Debug)]
pub struct WebSearchResult {
    pub title: String,
    pub url: String,
}

/// Token counts as the downstream client reads them.
#[derive(Debug, Clone, Copy, PartialEq, Eq, Structural)]
pub struct Usage {
    pub input_tokens: u64,
    pub output_tokens: u64,
    pub cache_creation_input_tokens: u64,
    pub cache_read_input_tokens: u64,
    pub web_search_requests: u64,
}

/// What a content block is opened as.
#[derive(Debug)]
pub enum ContentBlock {
    Text,
    Thinking,
    ToolUse { id: String, name: String },
    ServerToolUse { id: String },
    WebSearchToolResult { tool_use_id: String, results: Vec<WebSearchResult> },
}

/// A piece of content for an open block.
#[derive(Debug)]
pub enum Delta {
    Text(String),
    Thinking(String),
    Signature(String),
    InputJson(String),
}

/// One event for the downstream client.
#[derive(Debug)]
pub enum Downstream {
    MessageStart { id: String, model: String, input_tokens: u64 },
    Ping,
    BlockStart { index: usize, block: ContentBlock },
    BlockDelta { index: usize, delta: Delta },
    BlockStop { index: usize },
    MessageDelta { stop_reason: StopReason, usage: Usage },
    MessageStop,
    Error { error_type: String, message: String },
}

/// What a [`WebSearchResult`] stands for.
pub struct WebSearchResultModel {
    pub title: Seq<char>,
    pub url: Seq<char>,
}

/// What a [`ContentBlock`] stands for.
pub enum ContentBlockModel {
    Text,
    Thinking,
    ToolUse { id: Seq<char>, name: Seq<char> },
    ServerToolUse { id: Seq<char> },
    WebSearchToolResult { tool_use_id: Seq<char>, results: Seq<WebSearchResultModel> },
}

/// What a [`Delta`] stands for.
pub enum DeltaModel {
    Text(Seq<char>),
    Thinking(Seq<char>),
    Signature(Seq<char>),
    InputJson(Seq<char>),
}

/// What a [`Downstream`] event stands for.
pub enum Event {
    MessageStart { id: Seq<char>, model: Seq<char>, input_tokens: u64 },
    Ping,
    BlockStart { index: nat, block: ContentBlockModel },
    BlockDelta { index: nat, delta: DeltaModel },
    BlockStop { index: nat },
    MessageDelta { stop_reason: StopReason, usage: Usage },
    MessageStop,
    Error { error_type: Seq<char>, message: Seq<char> },
}

impl View for WebSearchResult {
    type V = WebSearchResultModel;

    open spec fn view(&self) -> WebSearchResultModel {
        WebSearchResultModel { title: self.title@, url: self.url@ }
    }
}

/// What a list of results stands for.
pub open spec fn results_view(results: Seq<WebSearchResult>) -> Seq<WebSearchResultModel> {
    results.map_values(|result: WebSearchResult| result@)
}

impl View for ContentBlock {
    type V = ContentBlockModel;

    open spec fn view(&self) -> ContentBlockModel {
        match *self {
            ContentBlock::Text => ContentBlockModel::Text,
            ContentBlock::Thinking => ContentBlockModel::Thinking,
            ContentBlock::ToolUse { id, name } => ContentBlockModel::ToolUse {
                id: id@,
                name: name@,
            },
            ContentBlock::ServerToolUse { id } => ContentBlockModel::ServerToolUse { id: id@ },
            ContentBlock::WebSearchToolResult {
                tool_use_id,
                results,
            } => ContentBlockModel::WebSearchToolResult {
                tool_use_id: tool_use_id@,
                results: results_view(results@),
            },
        }
    }
}

impl View for Delta {
    type V = DeltaModel;

    open spec fn view(&self) -> DeltaModel {
        match *self {
            Delta::Text(text) => DeltaModel::Text(text@),
            Delta::Thinking(text) => DeltaModel::Thinking(text@),
            Delta::Signature(text) => DeltaModel::Signature(text@),
            Delta::InputJson(text) => DeltaModel::InputJson(text@),
        }
    }
}

impl View for Downstream {
    type V = Event;

    open spec fn view(&self) -> Event {
        match *self {
            Downstream::MessageStart { id, model, input_tokens } => Event::MessageStart {
                id: id@,
                model: model@,
                input_tokens,
            },
            Downstream::Ping => Event::Ping,
            Downstream::BlockStart { index, block } => Event::BlockStart {
                index: index as nat,
                block: block@,
            },
            Downstream::BlockDelta { index, delta } => Event::BlockDelta {
                index: index as nat,
                delta: delta@,
            },
            Downstream::BlockStop { index } => Event::BlockStop { index: index as nat },
            Downstream::MessageDelta { stop_reason, usage } => Event::MessageDelta {
                stop_reason,
                usage,
            },
            Downstream::MessageStop => Event::MessageStop,
            Downstream::Error { error_type, message } => Event::Error {
                error_type: error_type@,
                message: message@,
            },
        }
    }
}

/// What a list of events stands for.
pub open spec fn events_view(events: Seq<Downstream>) -> Seq<Event> {
    events.map_values(|event: Downstream| event@)
}

/// A JSON number.
pub open spec fn json_number(number: int) -> JsonModel {
    JsonModel::Number(NumberModel::Unsigned(number as u64))
}

impl StopReason {
    pub open spec fn spec_name(self) -> Seq<char> {
        match self {
            StopReason::EndTurn => "end_turn"@,
            StopReason::MaxTokens => "max_tokens"@,
            StopReason::ToolUse => "tool_use"@,
        }
    }

    /// The name of the reason in the message.
    pub fn name(&self) -> (name: &'static str)
        ensures
            name@ == self.spec_name(),
    {
        match self {
            StopReason::EndTurn => "end_turn",
            StopReason::MaxTokens => "max_tokens",
            StopReason::ToolUse => "tool_use",
        }
    }
}

impl Usage {
    pub open spec fn spec_json(self) -> JsonModel {
        let counts = JsonModel::object().with(
            "input_tokens"@,
            json_number(self.input_tokens as int),
        ).with("output_tokens"@, json_number(self.output_tokens as int)).with(
            "cache_creation_input_tokens"@,
            json_number(self.cache_creation_input_tokens as int),
        ).with("cache_read_input_tokens"@, json_number(self.cache_read_input_tokens as int));
        if self.web_search_requests == 0 {
            counts
        } else {
            counts.with(
                "server_tool_use"@,
                JsonModel::object().with(
                    "web_search_requests"@,
                    json_number(self.web_search_requests as int),
                ),
            )
        }
    }

    /// The usage object of the message. Server tools are named only where one
    /// was used.
    pub fn json(&self) -> (value: Json)
        ensures
            value@ == self.spec_json(),
    {
        let counts = Json::object().with("input_tokens", Json::number(self.input_tokens)).with(
            "output_tokens",
            Json::number(self.output_tokens),
        ).with(
            "cache_creation_input_tokens",
            Json::number(self.cache_creation_input_tokens),
        ).with("cache_read_input_tokens", Json::number(self.cache_read_input_tokens));
        if self.web_search_requests == 0 {
            counts
        } else {
            counts.with(
                "server_tool_use",
                Json::object().with(
                    "web_search_requests",
                    Json::number(self.web_search_requests),
                ),
            )
        }
    }
}

impl WebSearchResultModel {
    pub open spec fn json(self) -> JsonModel {
        JsonModel::object().with("type"@, JsonModel::Str("web_search_result"@)).with(
            "title"@,
            JsonModel::Str(self.title),
        ).with("url"@, JsonModel::Str(self.url))
    }
}

impl WebSearchResult {
    /// The result as an item of a result block.
    pub fn json(&self) -> (value: Json)
        ensures
            value@ == self@.json(),
    {
        Json::object().with("type", Json::text("web_search_result")).with(
            "title",
            Json::text(self.title.as_str()),
        ).with("url", Json::text(self.url.as_str()))
    }
}

/// A copy of some results.
pub fn copy_results(results: &Vec<WebSearchResult>) -> (copies: Vec<WebSearchResult>)
    ensures
        results_view(copies@) == results_view(results@),
{
    let mut copies: Vec<WebSearchResult> = Vec::new();
    for result in iter: results
        invariant
            copies@.len() == iter.index(),
            forall|i: int| 0 <= i < copies@.len() ==> (#[trigger] copies@[i])@ == results@[i]@,
    {
        copies.push(
            WebSearchResult { title: result.title.clone(), url: result.url.clone() },
        );
    }
    assert(results_view(copies@) =~= results_view(results@));
    copies
}

/// The results as the items of a result block.
pub fn results_json(results: &Vec<WebSearchResult>) -> (value: Json)
    ensures
        value@ == JsonModel::Array(
            results_view(results@).map_values(|result: WebSearchResultModel| result.json()),
        ),
{
    let mut items: Vec<Json> = Vec::new();
    for result in iter: results
        invariant
            items@.len() == iter.index(),
            forall|i: int| 0 <= i < items@.len() ==> items@[i]@ == results@[i]@.json(),
    {
        items.push(result.json());
    }
    let value = Json::Array(items);
    assert(value@->Array_0 =~= results_view(results@).map_values(
        |result: WebSearchResultModel| result.json(),
    ));
    value
}

impl ContentBlockModel {
    pub open spec fn json(self) -> JsonModel {
        match self {
            ContentBlockModel::Text => JsonModel::object().with(
                "type"@,
                JsonModel::Str("text"@),
            ).with("text"@, JsonModel::Str(""@)),
            ContentBlockModel::Thinking => JsonModel::object().with(
                "type"@,
                JsonModel::Str("thinking"@),
            ).with("thinking"@, JsonModel::Str(""@)).with("signature"@, JsonModel::Str(""@)),
            ContentBlockModel::ToolUse { id, name } => JsonModel::object().with(
                "type"@,
                JsonModel::Str("tool_use"@),
            ).with("id"@, JsonModel::Str(id)).with("name"@, JsonModel::Str(name)).with(
                "input"@,
                JsonModel::object(),
            ),
            ContentBlockModel::ServerToolUse { id } => JsonModel::object().with(
                "type"@,
                JsonModel::Str("server_tool_use"@),
            ).with("id"@, JsonModel::Str(id)).with("name"@, JsonModel::Str("web_search"@)).with(
                "input"@,
                JsonModel::object(),
            ),
            ContentBlockModel::WebSearchToolResult { tool_use_id, results } => {
                JsonModel::object().with("type"@, JsonModel::Str("web_search_tool_result"@)).with(
                    "tool_use_id"@,
                    JsonModel::Str(tool_use_id),
                ).with(
                    "content"@,
                    JsonModel::Array(
                        results.map_values(|result: WebSearchResultModel| result.json()),
                    ),
                )
            },
        }
    }
}

impl ContentBlock {
    /// The block as the start event carries it.
    pub fn json(&self) -> (value: Json)
        ensures
            value@ == self@.json(),
    {
        match self {
            ContentBlock::Text => Json::object().with("type", Json::text("text")).with(
                "text",
                Json::text(""),
            ),
            ContentBlock::Thinking => Json::object().with("type", Json::text("thinking")).with(
                "thinking",
                Json::text(""),
            ).with("signature", Json::text("")),
            ContentBlock::ToolUse { id, name } => Json::object().with(
                "type",
                Json::text("tool_use"),
            ).with("id", Json::text(id.as_str())).with("name", Json::text(name.as_str())).with(
                "input",
                Json::object(),
            ),
            ContentBlock::ServerToolUse { id } => Json::object().with(
                "type",
                Json::text("server_tool_use"),
            ).with("id", Json::text(id.as_str())).with("name", Json::text("web_search")).with(
                "input",
                Json::object(),
            ),
            ContentBlock::WebSearchToolResult { tool_use_id, results } => Json::object().with(
                "type",
                Json::text("web_search_tool_result"),
            ).with("tool_use_id", Json::text(tool_use_id.as_str())).with(
                "content",
                results_json(results),
            ),
        }
    }
}

impl DeltaModel {
    pub open spec fn json(self) -> JsonModel {
        match self {
            DeltaModel::Text(text) => JsonModel::object().with(
                "type"@,
                JsonModel::Str("text_delta"@),
            ).with("text"@, JsonModel::Str(text)),
            DeltaModel::Thinking(text) => JsonModel::object().with(
                "type"@,
                JsonModel::Str("thinking_delta"@),
            ).with("thinking"@, JsonModel::Str(text)),
            DeltaModel::Signature(text) => JsonModel::object().with(
                "type"@,
                JsonModel::Str("signature_delta"@),
            ).with("signature"@, JsonModel::Str(text)),
            DeltaModel::InputJson(text) => JsonModel::object().with(
                "type"@,
                JsonModel::Str("input_json_delta"@),
            ).with("partial_json"@, JsonModel::Str(text)),
        }
    }
}

impl Delta {
    /// The piece as the delta event carries it.
    pub fn json(&self) -> (value: Json)
        ensures
            value@ == self@.json(),
    {
        match self {
            Delta::Text(text) => Json::object().with("type", Json::text("text_delta")).with(
                "text",
                Json::text(text.as_str()),
            ),
            Delta::Thinking(text) => Json::object().with("type", Json::text("thinking_delta")).with(
                "thinking",
                Json::text(text.as_str()),
            ),
            Delta::Signature(text) => Json::object().with(
                "type",
                Json::text("signature_delta"),
            ).with("signature", Json::text(text.as_str())),
            Delta::InputJson(text) => Json::object().with(
                "type",
                Json::text("input_json_delta"),
            ).with("partial_json", Json::text(text.as_str())),
        }
    }
}

impl Event {
    /// The name under which the event is sent.
    pub open spec fn name(self) -> Seq<char> {
        match self {
            Event::MessageStart { .. } => "message_start"@,
            Event::Ping => "ping"@,
            Event::BlockStart { .. } => "content_block_start"@,
            Event::BlockDelta { .. } => "content_block_delta"@,
            Event::BlockStop { .. } => "content_block_stop"@,
            Event::MessageDelta { .. } => "message_delta"@,
            Event::MessageStop => "message_stop"@,
            Event::Error { .. } => "error"@,
        }
    }

    /// The JSON that the event carries.
    pub open spec fn json(self) -> JsonModel {
        let head = JsonModel::object().with("type"@, JsonModel::Str(self.name()));
        match self {
            Event::MessageStart { id, model, input_tokens } => head.with(
                "message"@,
                JsonModel::object().with("id"@, JsonModel::Str(id)).with(
                    "type"@,
                    JsonModel::Str("message"@),
                ).with("role"@, JsonModel::Str("assistant"@)).with(
                    "model"@,
                    JsonModel::Str(model),
                ).with("content"@, JsonModel::Array(Seq::empty())).with(
                    "stop_reason"@,
                    JsonModel::Null,
                ).with("stop_sequence"@, JsonModel::Null).with(
                    "usage"@,
                    JsonModel::object().with(
                        "input_tokens"@,
                        json_number(input_tokens as int),
                    ).with("output_tokens"@, json_number(0)),
                ),
            ),
            Event::Ping => head,
            Event::BlockStart { index, block } => head.with(
                "index"@,
                json_number(index as int),
            ).with("content_block"@, block.json()),
            Event::BlockDelta { index, delta } => head.with(
                "index"@,
                json_number(index as int),
            ).with("delta"@, delta.json()),
            Event::BlockStop { index } => head.with("index"@, json_number(index as int)),
            Event::MessageDelta { stop_reason, usage } => head.with(
                "delta"@,
                JsonModel::object().with(
                    "stop_reason"@,
                    JsonModel::Str(stop_reason.spec_name()),
                ).with("stop_sequence"@, JsonModel::Null),
            ).with("usage"@, usage.spec_json()),
            Event::MessageStop => head,
            Event::Error { error_type, message } => head.with(
                "error"@,
                JsonModel::object().with("type"@, JsonModel::Str(error_type)).with(
                    "message"@,
                    JsonModel::Str(message),
                ),
            ),
        }
    }
}

impl Downstream {
    /// The name under which the event is sent.
    pub fn name(&self) -> (name: &'static str)
        ensures
            name@ == self@.name(),
    {
        match self {
            Downstream::MessageStart { .. } => "message_start",
            Downstream::Ping => "ping",
            Downstream::BlockStart { .. } => "content_block_start",
            Downstream::BlockDelta { .. } => "content_block_delta",
            Downstream::BlockStop { .. } => "content_block_stop",
            Downstream::MessageDelta { .. } => "message_delta",
            Downstream::MessageStop => "message_stop",
            Downstream::Error { .. } => "error",
        }
    }

    /// The JSON that the event carries.
    pub fn json(&self) -> (value: Json)
        ensures
            value@ == self@.json(),
    {
        let head = Json::object().with("type", Json::text(self.name()));
        match self {
            Downstream::MessageStart { id, model, input_tokens } => head.with(
                "message",
                Json::object().with("id", Json::text(id.as_str())).with(
                    "type",
                    Json::text("message"),
                ).with("role", Json::text("assistant")).with(
                    "model",
                    Json::text(model.as_str()),
                ).with("content", Json::array()).with("stop_reason", Json::Null).with(
                    "stop_sequence",
                    Json::Null,
                ).with(
                    "usage",
                    Json::object().with("input_tokens", Json::number(*input_tokens)).with(
                        "output_tokens",
                        Json::number(0),
                    ),
                ),
            ),
            Downstream::Ping => head,
            Downstream::BlockStart { index, block } => head.with(
                "index",
                Json::number(*index as u64),
            ).with("content_block", block.json()),
            Downstream::BlockDelta { index, delta } => head.with(
                "index",
                Json::number(*index as u64),
            ).with("delta", delta.json()),
            Downstream::BlockStop { index } => head.with("index", Json::number(*index as u64)),
            Downstream::MessageDelta { stop_reason, usage } => head.with(
                "delta",
                Json::object().with("stop_reason", Json::text(stop_reason.name())).with(
                    "stop_sequence",
                    Json::Null,
                ),
            ).with("usage", usage.json()),
            Downstream::MessageStop => head,
            Downstream::Error { error_type, message } => head.with(
                "error",
                Json::object().with("type", Json::text(error_type.as_str())).with(
                    "message",
                    Json::text(message.as_str()),
                ),
            ),
        }
    }
}

} // verus!

//! What the upstream events say.

use crate::downstream::Usage;
use crate::json::{Json, JsonModel};
use crate::text::{join, same_text, text_view};
use vstd::prelude::*;

verus! {

/// What to do with a response that the provider cut short.
#[derive(Debug, Clone, Copy, PartialEq, Eq, Structural)]
pub enum IncompleteResponsePolicy {
    /// Every incomplete response is an error.
    Error,
    /// A response that ran into its output token limit is a stopped message.
    AllowMaxOutputTokens,
}

/// How an upstream event is to be taken as a whole.
#[derive(Debug)]
pub struct EventVerdict {
    /// Why the event ends the stream in failure, if it does.
    pub failure: Option<String>,
    /// Whether the event ends a response at its output token limit.
    pub max_output_tokens: bool,
    /// Whether the event ends a response that is complete.
    pub complete: bool,
}

/// What an [`EventVerdict`] stands for.
pub struct VerdictModel {
    pub failure: Option<Seq<char>>,
    pub max_output_tokens: bool,
    pub complete: bool,
}

impl View for EventVerdict {
    type V = VerdictModel;

    open spec fn view(&self) -> VerdictModel {
        VerdictModel {
            failure: text_view(self.failure),
            max_output_tokens: self.max_output_tokens,
            complete: self.complete,
        }
    }
}

/// The kind of an event.
pub open spec fn event_kind(payload: JsonModel) -> Seq<char> {
    payload.text_at("type"@)
}

/// The output index that an event names.
pub open spec fn addressed_index(payload: JsonModel) -> Option<usize> {
    match payload.u64_at("output_index"@) {
        Some(index) => Some(index as usize),
        None => None,
    }
}

/// The output index that an event names, or else the first.
pub open spec fn spec_output_index(payload: JsonModel) -> usize {
    match addressed_index(payload) {
        Some(index) => index,
        None => 0,
    }
}

/// A nested entry: `outer` of the event, then `inner` of that.
pub open spec fn nested(payload: JsonModel, outer: Seq<char>, inner: Seq<char>) -> Option<
    JsonModel,
> {
    match payload.get(outer) {
        Some(value) => value.get(inner),
        None => None,
    }
}

/// The string of a nested entry.
pub open spec fn nested_str(payload: JsonModel, outer: Seq<char>, inner: Seq<char>) -> Option<
    Seq<char>,
> {
    match payload.get(outer) {
        Some(value) => value.str_at(inner),
        None => None,
    }
}

/// The output index that an event names.
pub fn find_index(payload: &Json) -> (index: Option<usize>)
    ensures
        index == addressed_index(payload@),
{
    match payload.u64_at("output_index") {
        Some(index) => Some(index as usize),
        None => None,
    }
}

/// The output index that an event names, or else the first.
pub fn output_index(payload: &Json) -> (index: usize)
    ensures
        index == spec_output_index(payload@),
{
    match find_index(payload) {
        Some(index) => index,
        None => 0,
    }
}

/// The string of a nested entry.
pub fn find_nested_str<'a>(payload: &'a Json, outer: &str, inner: &str) -> (text: Option<&'a str>)
    ensures
        match text {
            Some(text) => nested_str(payload@, outer@, inner@) == Some(text@),
            None => nested_str(payload@, outer@, inner@) is None,
        },
{
    match payload.get(outer) {
        Some(value) => value.str_at(inner),
        None => None,
    }
}

/// Whether the event ends a response normally.
pub open spec fn is_success_terminal(payload: JsonModel) -> bool {
    event_kind(payload) == "response.completed"@ || event_kind(payload) == "response.done"@
}

/// Whether the event ends a response that is not whole.
pub open spec fn is_incomplete_terminal(payload: JsonModel) -> bool {
    event_kind(payload) == "response.incomplete"@ || nested_str(payload, "response"@, "status"@)
        == Some("incomplete"@)
}

/// The reason that an incomplete response gives.
pub open spec fn incomplete_reason(payload: JsonModel) -> Option<Seq<char>> {
    match nested(payload, "response"@, "incomplete_details"@) {
        Some(details) => details.str_at("reason"@),
        None => None,
    }
}

/// Whether the response of the event holds an error.
pub open spec fn has_response_error(payload: JsonModel) -> bool {
    match nested(payload, "response"@, "error"@) {
        Some(error) => error != JsonModel::Null,
        None => false,
    }
}

/// Whether the event ends a response, free of errors, at its output token limit.
pub open spec fn is_standard_token_limit(payload: JsonModel) -> bool {
    &&& event_kind(payload) == "response.incomplete"@
    &&& nested_str(payload, "response"@, "status"@) == Some("incomplete"@)
    &&& !has_response_error(payload)
    &&& incomplete_reason(payload) == Some("max_output_tokens"@)
}

/// The error message that an event carries.
pub open spec fn error_message(payload: JsonModel) -> Seq<char> {
    let in_response = match nested(payload, "response"@, "error"@) {
        Some(error) => error.str_at("message"@),
        None => None,
    };
    match in_response {
        Some(message) => message,
        None => match nested_str(payload, "error"@, "message"@) {
            Some(message) => message,
            None => match payload.str_at("message"@) {
                Some(message) => message,
                None => "Upstream response failed"@,
            },
        },
    }
}

/// Why the event ends the stream in failure: it reports an error, or it ends an
/// incomplete response.
pub open spec fn event_failure(payload: JsonModel) -> Option<Seq<char>> {
    if event_kind(payload) == "response.failed"@ || event_kind(payload) == "error"@ {
        Some(error_message(payload))
    } else if event_kind(payload) == "response.incomplete"@ {
        Some(
            "Upstream response incomplete: "@ + match incomplete_reason(payload) {
                Some(reason) => reason,
                None => "unknown"@,
            },
        )
    } else {
        None
    }
}

/// How the event is to be taken as a whole.
pub open spec fn event_verdict(payload: JsonModel) -> VerdictModel {
    VerdictModel {
        failure: event_failure(payload),
        max_output_tokens: is_standard_token_limit(payload),
        complete: is_success_terminal(payload) && !is_incomplete_terminal(payload),
    }
}

/// Computes [`is_success_terminal`].
pub fn event_is_success_terminal(payload: &Json) -> (success: bool)
    ensures
        success == is_success_terminal(payload@),
{
    let kind = payload.text_at("type");
    same_text(kind, "response.completed") || same_text(kind, "response.done")
}

/// Computes [`is_incomplete_terminal`].
pub fn response_is_incomplete_terminal(payload: &Json) -> (incomplete: bool)
    ensures
        incomplete == is_incomplete_terminal(payload@),
{
    if same_text(payload.text_at("type"), "response.incomplete") {
        return true;
    }
    match find_nested_str(payload, "response", "status") {
        Some(status) => same_text(status, "incomplete"),
        None => false,
    }
}

fn find_incomplete_reason(payload: &Json) -> (reason: Option<&str>)
    ensures
        match reason {
            Some(reason) => incomplete_reason(payload@) == Some(reason@),
            None => incomplete_reason(payload@) is None,
        },
{
    match payload.get("response") {
        Some(response) => find_nested_str(response, "incomplete_details", "reason"),
        None => None,
    }
}

/// Computes [`is_standard_token_limit`].
pub fn is_standard_max_output_tokens_incomplete(payload: &Json) -> (limited: bool)
    ensures
        limited == is_standard_token_limit(payload@),
{
    if !same_text(payload.text_at("type"), "response.incomplete") {
        return false;
    }
    let response = match payload.get("response") {
        Some(response) => response,
        None => {
            return false;
        },
    };
    let incomplete = match response.str_at("status") {
        Some(status) => same_text(status, "incomplete"),
        None => false,
    };
    let failed = match response.get("error") {
        Some(Json::Null) => false,
        Some(_) => true,
        None => false,
    };
    let limited = match find_incomplete_reason(payload) {
        Some(reason) => same_text(reason, "max_output_tokens"),
        None => false,
    };
    incomplete && !failed && limited
}

fn find_error_message(payload: &Json) -> (message: &str)
    ensures
        message@ == error_message(payload@),
{
    let in_response = match payload.get("response") {
        Some(response) => find_nested_str(response, "error", "message"),
        None => None,
    };
    match in_response {
        Some(message) => message,
        None => match find_nested_str(payload, "error", "message") {
            Some(message) => message,
            None => match payload.str_at("message") {
                Some(message) => message,
                None => "Upstream response failed",
            },
        },
    }
}

/// Computes [`event_failure`].
pub fn classify_event_failure(payload: &Json) -> (failure: Option<String>)
    ensures
        text_view(failure) == event_failure(payload@),
{
    let kind = payload.text_at("type");
    if same_text(kind, "response.failed") || same_text(kind, "error") {
        Some(find_error_message(payload).to_string())
    } else if same_text(kind, "response.incomplete") {
        let reason = match find_incomplete_reason(payload) {
            Some(reason) => reason,
            None => "unknown",
        };
        Some(join("Upstream response incomplete: ", reason))
    } else {
        None
    }
}

/// Judges an event as a whole.
pub fn judge_event(payload: &Json) -> (verdict: EventVerdict)
    ensures
        verdict@ == event_verdict(payload@),
{
    EventVerdict {
        failure: classify_event_failure(payload),
        max_output_tokens: is_standard_max_output_tokens_incomplete(payload),
        complete: event_is_success_terminal(payload) && !response_is_incomplete_terminal(payload),
    }
}

/// The first string among some values.
pub open spec fn first_string(values: Seq<JsonModel>) -> Option<Seq<char>>
    decreases values.len(),
{
    if values.len() == 0 {
        None
    } else {
        match values.first().as_str() {
            Some(text) => Some(text),
            None => first_string(values.drop_first()),
        }
    }
}

/// The query of a web search item: the one query of its action, or else the
/// first string among several.
pub open spec fn search_query(item: JsonModel) -> Seq<char> {
    match item.get("action"@) {
        None => Seq::empty(),
        Some(action) => match action.str_at("query"@) {
            Some(query) => query,
            None => match action.get("queries"@) {
                Some(JsonModel::Array(queries)) => match first_string(queries) {
                    Some(query) => query,
                    None => Seq::empty(),
                },
                _ => Seq::empty(),
            },
        },
    }
}

fn find_first_string(value: &Json) -> (text: Option<&str>)
    ensures
        value@ matches JsonModel::Array(values) ==> match text {
            Some(text) => first_string(values) == Some(text@),
            None => first_string(values) is None,
        },
        !(value@ is Array) ==> text is None,
{
    match value {
        Json::Array(items) => {
            let ghost values = value@->Array_0;
            let mut i: usize = 0;
            assert(values.skip(0) =~= values);
            while i < items.len()
                invariant
                    *value == Json::Array(*items),
                    values == value@->Array_0,
                    values.len() == items@.len(),
                    i <= items@.len(),
                    first_string(values) == first_string(values.skip(i as int)),
                decreases items@.len() - i,
            {
                assert(values.skip(i as int).first() == values[i as int]);
                assert(values[i as int] == items@[i as int]@);
                assert(values.skip(i as int).drop_first() =~= values.skip(i + 1));
                match items[i].as_str() {
                    Some(text) => {
                        return Some(text);
                    },
                    None => {},
                }
                i += 1;
            }
            None
        },
        _ => None,
    }
}

/// Computes [`search_query`].
pub fn web_search_query(item: &Json) -> (query: String)
    ensures
        query@ == search_query(item@),
{
    let action = match item.get("action") {
        Some(action) => action,
        None => {
            return String::new();
        },
    };
    match action.str_at("query") {
        Some(query) => query.to_string(),
        None => match action.get("queries") {
            Some(queries) => match find_first_string(queries) {
                Some(query) => query.to_string(),
                None => String::new(),
            },
            None => String::new(),
        },
    }
}

/// The identifier of a server tool use that stands for an upstream web search.
pub open spec fn server_tool_use_id(search_id: Seq<char>) -> Seq<char> {
    "srvtoolu_"@ + search_id
}

/// Computes [`server_tool_use_id`].
pub fn server_tool_use_id_from_codex_web_search_id(search_id: &str) -> (id: String)
    ensures
        id@ == server_tool_use_id(search_id@),
{
    join("srvtoolu_", search_id)
}

/// Token counts as the provider reports them.
#[derive(Debug, Clone, Copy, PartialEq, Eq, Structural)]
pub struct CodexUsage {
    pub input_tokens: Option<u64>,
    pub output_tokens: Option<u64>,
    pub input_tokens_details_cached: Option<u64>,
    pub output_tokens_details_reasoning: Option<u64>,
}

/// The unsigned number of a nested entry.
pub open spec fn nested_u64(value: JsonModel, outer: Seq<char>, inner: Seq<char>) -> Option<u64> {
    match value.get(outer) {
        Some(value) => value.u64_at(inner),
        None => None,
    }
}

fn find_nested_u64(value: &Json, outer: &str, inner: &str) -> (number: Option<u64>)
    ensures
        number == nested_u64(value@, outer@, inner@),
{
    match value.get(outer) {
        Some(value) => value.u64_at(inner),
        None => None,
    }
}

/// The token counts of a response.
pub open spec fn response_usage(response: JsonModel) -> CodexUsage {
    match response.get("usage"@) {
        None => CodexUsage {
            input_tokens: None,
            output_tokens: None,
            input_tokens_details_cached: None,
            output_tokens_details_reasoning: None,
        },
        Some(usage) => CodexUsage {
            input_tokens: usage.u64_at("input_tokens"@),
            output_tokens: usage.u64_at("output_tokens"@),
            input_tokens_details_cached: nested_u64(
                usage,
                "input_tokens_details"@,
                "cached_tokens"@,
            ),
            output_tokens_details_reasoning: nested_u64(
                usage,
                "output_tokens_details"@,
                "reasoning_tokens"@,
            ),
        },
    }
}

/// Computes [`response_usage`].
pub fn parse_codex_usage(response: &Json) -> (usage: CodexUsage)
    ensures
        usage == response_usage(response@),
{
    match response.get("usage") {
        None => CodexUsage {
            input_tokens: None,
            output_tokens: None,
            input_tokens_details_cached: None,
            output_tokens_details_reasoning: None,
        },
        Some(usage) => CodexUsage {
            input_tokens: usage.u64_at("input_tokens"),
            output_tokens: usage.u64_at("output_tokens"),
            input_tokens_details_cached: find_nested_u64(
                usage,
                "input_tokens_details",
                "cached_tokens",
            ),
            output_tokens_details_reasoning: find_nested_u64(
                usage,
                "output_tokens_details",
                "reasoning_tokens",
            ),
        },
    }
}

/// A count, or else zero.
pub open spec fn count_or_zero(count: Option<u64>) -> u64 {
    match count {
        Some(count) => count,
        None => 0,
    }
}

/// The downstream usage for the provider's counts. The provider counts cached
/// tokens among the input tokens; downstream they are counted apart.
pub open spec fn mapped_usage(usage: Option<CodexUsage>, web_search_requests: nat) -> Usage {
    let input = match usage {
        Some(usage) => count_or_zero(usage.input_tokens),
        None => 0,
    };
    let output = match usage {
        Some(usage) => count_or_zero(usage.output_tokens),
        None => 0,
    };
    let cached = match usage {
        Some(usage) => count_or_zero(usage.input_tokens_details_cached),
        None => 0,
    };
    Usage {
        input_tokens: if cached <= input {
            (input - cached) as u64
        } else {
            0
        },
        output_tokens: output,
        cache_creation_input_tokens: 0,
        cache_read_input_tokens: cached,
        web_search_requests: web_search_requests as u64,
    }
}

/// Computes [`mapped_usage`].
pub fn map_codex_usage_to_anthropic(
    usage: &Option<CodexUsage>,
    web_search_requests: usize,
) -> (mapped: Usage)
    ensures
        mapped == mapped_usage(*usage, web_search_requests as nat),
{
    let (input, output, cached): (u64, u64, u64) = match usage {
        Some(usage) => (
            usage.input_tokens.unwrap_or(0),
            usage.output_tokens.unwrap_or(0),
            usage.input_tokens_details_cached.unwrap_or(0),
        ),
        None => (0, 0, 0),
    };
    Usage {
        input_tokens: input.saturating_sub(cached),
        output_tokens: output,
        cache_creation_input_tokens: 0,
        cache_read_input_tokens: cached,
        web_search_requests: web_search_requests as u64,
    }
}

} // verus!

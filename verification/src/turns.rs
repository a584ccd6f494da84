//! Why a turn ends and what it is charged for, in terms of all that came before.

use crate::answers::is_taken;
use crate::completion::law_stop_reason;
use crate::downstream::StopReason;
use crate::index_map::ascending;
use crate::json::JsonModel;
use crate::kinds::{is_answer, is_end, law_kinds_are_told_apart};
use crate::model::{deferred_events, DeferredModel, State, Step, WebSearchModel};
use crate::protocol::Call;
use crate::reading::law_usage_is_what_the_response_counts;
use crate::upstream::{
    event_kind, event_verdict, nested_str, spec_output_index, IncompleteResponsePolicy,
    VerdictModel,
};
use vstd::prelude::*;

verus! {

/// Whether a call begins an item of a type.
pub open spec fn begins(state: State, call: Call, item_type: Seq<char>) -> bool {
    &&& call matches Call::Accept { payload }
    &&& is_taken(state, payload, event_verdict(payload))
    &&& event_kind(payload) == "response.output_item.added"@
    &&& payload.get("item"@) matches Some(item) && item.text_at("type"@) == item_type
}

/// The number of items of a type that a run of calls begins.
pub open spec fn begun(start: State, calls: Seq<Call>, item_type: Seq<char>) -> nat
    decreases calls.len(),
{
    if calls.len() == 0 {
        0
    } else {
        let earlier = begun(start, calls.drop_last(), item_type);
        if begins(start.session(calls.drop_last()).state, calls.last(), item_type) {
            earlier + 1
        } else {
            earlier
        }
    }
}

spec fn is_uncounted(before: Step, after: Step) -> bool {
    &&& after.state.saw_tool_use == before.state.saw_tool_use
    &&& after.state.web_search_requests == before.state.web_search_requests
    &&& after.state.policy == before.state.policy
}

proof fn lemma_close_thinking(step: Step)
    ensures
        is_uncounted(step, step.close_thinking()),
{
}

proof fn lemma_text_delta(step: Step, payload: JsonModel)
    ensures
        is_uncounted(step, step.text_delta(payload)),
{
    lemma_close_thinking(step);
}

proof fn lemma_tool_delta(step: Step, payload: JsonModel)
    ensures
        is_uncounted(step, step.tool_delta(payload).step),
{
}

proof fn lemma_output_item_done(step: Step, payload: JsonModel)
    ensures
        is_uncounted(step, step.output_item_done(payload)),
{
    let output_index = spec_output_index(payload);
    let item = payload.get("item"@)->0;
    let known = Step { state: step.state.with_reasoning(output_index, item), ..step };
    lemma_close_thinking(known);
    lemma_close_thinking(step);
    assert(is_uncounted(step, step.reasoning_done(output_index, item)));
    assert(is_uncounted(step, step.web_search_done(item)));
    assert(is_uncounted(step, step.block_done(output_index, payload.get("item"@))));
}

proof fn lemma_close_blocks(step: Step, order: Seq<usize>)
    ensures
        is_uncounted(step, step.close_blocks(order)),
    decreases order.len(),
{
    if order.len() > 0 {
        assert(is_uncounted(step, step.close_block(order.first())));
        lemma_close_blocks(step.close_block(order.first()), order.drop_first());
    }
}

proof fn lemma_close_open_blocks(step: Step)
    ensures
        is_uncounted(step, step.close_open_blocks()),
{
    lemma_close_thinking(step);
    let ready = step.close_thinking();
    lemma_close_blocks(ready, ascending(ready.state.blocks.dom()));
}

proof fn lemma_flush_searches(step: Step, searches: Seq<WebSearchModel>)
    ensures
        is_uncounted(step, step.flush_searches(searches)),
    decreases searches.len(),
{
    if searches.len() > 0 {
        let sent = step.start_message().emit_all(step.state.search_events(searches.first()));
        lemma_flush_searches(sent, searches.drop_first());
    }
}

proof fn lemma_flush_texts(step: Step, texts: Seq<DeferredModel>)
    ensures
        is_uncounted(step, step.flush_texts(texts)),
    decreases texts.len(),
{
    if texts.len() > 0 {
        lemma_flush_texts(step.emit_all(deferred_events(texts.first())), texts.drop_first());
    }
}

proof fn lemma_finish(step: Step, payload: JsonModel, verdict: VerdictModel)
    ensures
        is_uncounted(step, step.finish(payload, verdict)),
{
    let noted = step.with_metadata(
        match step.state.metadata {
            Some(metadata) if metadata.open_blocks == Set::<usize>::empty() => Some(
                metadata.terminated(verdict.complete, nested_str(payload, "response"@, "id"@)),
            ),
            _ => None,
        },
    );
    lemma_close_thinking(noted);
    lemma_close_open_blocks(noted.close_thinking());
    let closed = noted.close_thinking().close_open_blocks();
    let cleared = Step {
        state: State {
            web_searches: Seq::empty(),
            deferred_text: Seq::empty(),
            ..closed.state
        },
        ..closed
    };
    lemma_flush_searches(cleared, closed.state.web_searches);
    lemma_flush_texts(
        cleared.flush_searches(closed.state.web_searches),
        closed.state.deferred_text,
    );
}

proof fn lemma_dispatch(step: Step, payload: JsonModel, verdict: VerdictModel)
    requires
        event_kind(payload) != "response.output_item.added"@,
    ensures
        is_uncounted(step, step.dispatch(payload, verdict).step),
{
    let kind = event_kind(payload);
    if kind == "response.function_call_arguments.delta"@ {
        lemma_tool_delta(step, payload);
    } else if kind == "response.reasoning_summary_text.delta"@ {
        lemma_close_thinking(step.semantic());
        assert(is_uncounted(step, step.reasoning_delta(payload)));
    } else if kind == "response.output_text.delta"@ {
        lemma_text_delta(step, payload);
    } else if kind == "response.output_item.done"@ {
        lemma_output_item_done(step, payload);
    } else if is_end(payload) {
        lemma_finish(step, payload, verdict);
    } else if kind == "response.reasoning_summary_part.added"@ {
        assert(is_uncounted(step, step.summary_part(payload)));
    } else if kind == "response.output_text.annotation.added"@ {
        assert(is_uncounted(step, Step { state: step.state.with_citation(payload), ..step }));
    } else if kind == "response.function_call_arguments.done"@ {
        assert(is_uncounted(step, Step { state: step.state.with_arguments(payload), ..step }));
    } else {
        assert(is_uncounted(step, step.ping()));
    }
}

proof fn lemma_output_item_added(step: Step, payload: JsonModel)
    ensures
        ({
            let after = step.output_item_added(payload).state;
            let is_call = payload.get("item"@) matches Some(item) && item.text_at("type"@)
                == "function_call"@;
            let is_search = payload.get("item"@) matches Some(item) && item.text_at("type"@)
                == "web_search_call"@;
            &&& after.saw_tool_use == (step.state.saw_tool_use || is_call)
            &&& after.web_search_requests == step.state.web_search_requests + if is_search {
                1nat
            } else {
                0nat
            }
            &&& after.policy == step.state.policy
        }),
{
    reveal_strlit("function_call");
    reveal_strlit("message");
    reveal_strlit("reasoning");
    reveal_strlit("web_search_call");
    assert("function_call"@.len() == 13);
    assert("message"@.len() == 7);
    assert("reasoning"@.len() == 9);
    assert("web_search_call"@.len() == 15);
}

proof fn lemma_call(state: State, call: Call)
    ensures
        ({
            let after = state.called(call).state;
            &&& after.saw_tool_use == (state.saw_tool_use || begins(
                state,
                call,
                "function_call"@,
            ))
            &&& after.web_search_requests == state.web_search_requests + if begins(
                state,
                call,
                "web_search_call"@,
            ) {
                1nat
            } else {
                0nat
            }
            &&& after.policy == state.policy
        }),
{
    let still = state.still();
    let quiet = still.with_metadata(None);
    match call {
        Call::Accept { payload } => {
            let verdict = event_verdict(payload);
            if event_kind(payload) == "response.output_item.added"@ {
                law_kinds_are_told_apart(still, payload, verdict);
                lemma_output_item_added(still, payload);
            } else {
                lemma_dispatch(still, payload, verdict);
            }
        },
        Call::EndAfterToolCall => {
            lemma_close_thinking(quiet);
        },
        Call::Fail { .. } => {
            lemma_close_open_blocks(quiet);
        },
        _ => {},
    }
}

/// A session remembers whether a tool call began, and how many web searches did.
pub proof fn law_tool_calls_and_searches_are_counted(start: State, calls: Seq<Call>)
    ensures
        start.session(calls).state.saw_tool_use == (start.saw_tool_use || begun(
            start,
            calls,
            "function_call"@,
        ) > 0),
        start.session(calls).state.web_search_requests == start.web_search_requests + begun(
            start,
            calls,
            "web_search_call"@,
        ),
        start.session(calls).state.policy == start.policy,
    decreases calls.len(),
{
    if calls.len() > 0 {
        law_tool_calls_and_searches_are_counted(start, calls.drop_last());
        lemma_call(start.session(calls.drop_last()).state, calls.last());
    }
}

/// A session of a new translator that ends with its response stops for the use
/// of a tool where a tool call began in it, and else because the turn is over;
/// but where its output ran into a limit that is tolerated, it stops for that.
/// It is charged for each web search that began in it.
pub proof fn law_turn_ends_for_its_tool_calls(
    message_id: Seq<char>,
    model: Seq<char>,
    estimated_input_tokens: u64,
    policy: IncompleteResponsePolicy,
    collects: bool,
    calls: Seq<Call>,
    payload: JsonModel,
)
    requires
        is_end(payload),
        is_taken(
            State::configured(
                message_id,
                model,
                estimated_input_tokens,
                policy,
                collects,
            ).session(calls).state,
            payload,
            event_verdict(payload),
        ),
    ensures
        ({
            let start = State::configured(
                message_id,
                model,
                estimated_input_tokens,
                policy,
                collects,
            );
            let verdict = event_verdict(payload);
            let events = start.session(calls).state.accepted(payload, verdict).step.events;
            let last = events[events.len() - 2];
            let searches = begun(start, calls, "web_search_call"@);
            &&& last is MessageDelta
            &&& last->stop_reason == if policy == IncompleteResponsePolicy::AllowMaxOutputTokens
                && verdict.max_output_tokens {
                StopReason::MaxTokens
            } else if begun(start, calls, "function_call"@) > 0 {
                StopReason::ToolUse
            } else {
                StopReason::EndTurn
            }
            &&& searches <= u64::MAX ==> last->usage.web_search_requests == searches
        }),
{
    let start = State::configured(message_id, model, estimated_input_tokens, policy, collects);
    let state = start.session(calls).state;
    law_tool_calls_and_searches_are_counted(start, calls);
    let verdict = event_verdict(payload);
    let taken = state.accepted(payload, verdict).step;
    assert(is_answer(state, payload, verdict, taken)) by {
        reveal(is_answer);
    }
    law_stop_reason(state, payload, verdict, taken);
    law_usage_is_what_the_response_counts(state, payload, verdict, taken);
}

} // verus!

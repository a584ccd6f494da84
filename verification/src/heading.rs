//! The heading of a message, its identifier, its model and the estimate of the
//! input tokens: it is shown where the message starts, and nothing else depends
//! on it.

use crate::downstream::{DeltaModel, Event, StopReason};
use crate::index_map::ascending;
use crate::json::JsonModel;
use crate::model::{
    deferred_events, BlockModel, DeferredModel, State, Step, WebSearchModel,
    BUFFERED_TOOL_MAX_ARGS_BYTES,
};
use crate::protocol::Call;
use crate::read_args::repaired_args;
use crate::text::byte_len;
use crate::upstream::{
    addressed_index, event_kind, event_verdict, nested_str, response_usage, spec_output_index,
    CodexUsage, IncompleteResponsePolicy, VerdictModel,
};
use vstd::prelude::*;

verus! {

/// What a message is started with.
pub struct Heading {
    pub id: Seq<char>,
    pub model: Seq<char>,
    pub input_tokens: u64,
}

/// What a translator starts its message with.
pub open spec fn heading_of(state: State) -> Heading {
    Heading {
        id: state.message_id,
        model: state.model,
        input_tokens: state.estimated_input_tokens,
    }
}

/// The same state with another heading.
pub open spec fn with_heading(state: State, heading: Heading) -> State {
    State {
        message_id: heading.id,
        model: heading.model,
        estimated_input_tokens: heading.input_tokens,
        ..state
    }
}

/// The same event with another heading: it stands in the start of the message.
pub open spec fn shown_with_heading(event: Event, heading: Heading) -> Event {
    match event {
        Event::MessageStart { .. } => Event::MessageStart {
            id: heading.id,
            model: heading.model,
            input_tokens: heading.input_tokens,
        },
        _ => event,
    }
}

/// The same events with another heading.
pub open spec fn all_with_heading(events: Seq<Event>, heading: Heading) -> Seq<Event> {
    events.map_values(|event: Event| shown_with_heading(event, heading))
}

spec fn restated(step: Step, heading: Heading) -> Step {
    Step {
        state: with_heading(step.state, heading),
        events: all_with_heading(step.events, heading),
    }
}

proof fn lemma_emit(step: Step, event: Event, heading: Heading)
    ensures
        restated(step.emit(event), heading) == restated(step, heading).emit(
            shown_with_heading(event, heading),
        ),
{
}

proof fn lemma_emit_all(step: Step, events: Seq<Event>, heading: Heading)
    ensures
        restated(step.emit_all(events), heading) == restated(step, heading).emit_all(
            all_with_heading(events, heading),
        ),
{
}

/// A step does not depend on the heading: with another one it comes to the
/// restated end.
spec fn is_blind(after: Step, other: Step, heading: Heading) -> bool {
    other == restated(after, heading)
}

proof fn lemma_start_message(step: Step, heading: Heading)
    ensures
        is_blind(step.start_message(), restated(step, heading).start_message(), heading),
{
    assert(restated(step, heading).start_message() == restated(step.start_message(), heading));
}

proof fn lemma_ping(step: Step, heading: Heading)
    ensures
        is_blind(step.ping(), restated(step, heading).ping(), heading),
{
    assert(restated(step, heading).ping() == restated(step.ping(), heading));
}

proof fn lemma_close_thinking(step: Step, heading: Heading)
    ensures
        is_blind(step.close_thinking(), restated(step, heading).close_thinking(), heading),
{
    assert(restated(step, heading).close_thinking() == restated(step.close_thinking(), heading));
}

proof fn lemma_open_text_block(step: Step, output_index: usize, heading: Heading)
    ensures
        is_blind(
            step.open_text_block(output_index),
            restated(step, heading).open_text_block(output_index),
            heading,
        ),
{
    assert(restated(step, heading).open_text_block(output_index) == restated(
        step.open_text_block(output_index),
        heading,
    ));
}

proof fn lemma_open_tool_block(
    step: Step,
    output_index: usize,
    call_id: Seq<char>,
    name: Seq<char>,
    heading: Heading,
)
    ensures
        is_blind(
            step.open_tool_block(output_index, call_id, name),
            restated(step, heading).open_tool_block(output_index, call_id, name),
            heading,
        ),
{
    assert(restated(step, heading).open_tool_block(output_index, call_id, name) == restated(
        step.open_tool_block(output_index, call_id, name),
        heading,
    ));
}

proof fn lemma_open_thinking(step: Step, output_index: usize, heading: Heading)
    ensures
        is_blind(
            step.open_thinking(output_index),
            restated(step, heading).open_thinking(output_index),
            heading,
        ),
{
    assert(restated(step, heading).open_thinking(output_index) == restated(
        step.open_thinking(output_index),
        heading,
    ));
}

proof fn lemma_summary_part(step: Step, payload: JsonModel, heading: Heading)
    ensures
        is_blind(
            step.summary_part(payload),
            restated(step, heading).summary_part(payload),
            heading,
        ),
{
    assert(restated(step, heading).summary_part(payload) == restated(
        step.summary_part(payload),
        heading,
    ));
}

proof fn lemma_output_item_added(step: Step, payload: JsonModel, heading: Heading)
    ensures
        is_blind(
            step.output_item_added(payload),
            restated(step, heading).output_item_added(payload),
            heading,
        ),
{
    match payload.get("item"@) {
        None => {},
        Some(item) => {
            let output_index = spec_output_index(payload);
            let kind = item.text_at("type"@);
            let noted = match step.state.metadata {
                Some(metadata) if kind == "message"@ || kind == "function_call"@ => {
                    step.with_metadata(Some(metadata.opened(output_index)))
                },
                _ => step,
            };
            lemma_close_thinking(noted, heading);
            let ready = noted.close_thinking();
            if kind == "message"@ {
                let named = Step {
                    state: State {
                        item_ids: match item.str_at("id"@) {
                            Some(id) => ready.state.item_ids.insert(id, output_index),
                            None => ready.state.item_ids,
                        },
                        ..ready.state
                    },
                    ..ready
                };
                lemma_open_text_block(named, output_index, heading);
            } else if kind == "function_call"@ {
                lemma_open_tool_block(
                    ready,
                    output_index,
                    item.text_at("call_id"@),
                    item.text_at("name"@),
                    heading,
                );
            }
        },
    }
}

proof fn lemma_reasoning_delta(step: Step, payload: JsonModel, heading: Heading)
    ensures
        is_blind(
            step.reasoning_delta(payload),
            restated(step, heading).reasoning_delta(payload),
            heading,
        ),
{
    let output_index = spec_output_index(payload);
    let seen = step.semantic();
    lemma_close_thinking(seen, heading);
    lemma_open_thinking(seen.close_thinking(), output_index, heading);
    let open = match step.state.thinking {
        Some(thinking) if thinking.output_index == output_index => seen,
        _ => seen.close_thinking().open_thinking(output_index),
    };
    lemma_emit(
        open,
        Event::BlockDelta {
            index: open.state.thinking->0.index,
            delta: DeltaModel::Thinking(payload.text_at("delta"@)),
        },
        heading,
    );
}

proof fn lemma_append_text(
    step: Step,
    output_index: usize,
    addressed: bool,
    delta: Seq<char>,
    heading: Heading,
)
    ensures
        is_blind(
            step.append_text(output_index, addressed, delta),
            restated(step, heading).append_text(output_index, addressed, delta),
            heading,
        ),
{
    assert(restated(step, heading).append_text(output_index, addressed, delta) == restated(
        step.append_text(output_index, addressed, delta),
        heading,
    ));
}

proof fn lemma_text_delta(step: Step, payload: JsonModel, heading: Heading)
    ensures
        is_blind(step.text_delta(payload), restated(step, heading).text_delta(payload), heading),
{
    lemma_close_thinking(step, heading);
    let ready = step.close_thinking();
    let delta = payload.text_at("delta"@);
    if delta.len() > 0 {
        let address = ready.state.text_address(payload);
        let output_index = match address {
            Some(index) => index,
            None => 0,
        };
        lemma_open_text_block(ready.semantic(), output_index, heading);
        let open = if ready.state.blocks.contains_key(output_index) {
            ready.semantic()
        } else {
            ready.semantic().open_text_block(output_index)
        };
        lemma_append_text(open, output_index, address is Some, delta, heading);
    }
}

proof fn lemma_finish_repaired(
    step: Step,
    output_index: usize,
    index: nat,
    call_id: Seq<char>,
    name: Seq<char>,
    arguments: Seq<char>,
    heading: Heading,
)
    ensures
        is_blind(
            step.finish_repaired(output_index, index, call_id, name, arguments),
            restated(step, heading).finish_repaired(output_index, index, call_id, name, arguments),
            heading,
        ),
{
    assert(restated(step, heading).finish_repaired(
        output_index,
        index,
        call_id,
        name,
        arguments,
    ) == restated(
        step.finish_repaired(output_index, index, call_id, name, arguments),
        heading,
    ));
}

proof fn lemma_tool_delta(step: Step, payload: JsonModel, heading: Heading)
    ensures
        is_blind(
            step.tool_delta(payload).step,
            restated(step, heading).tool_delta(payload).step,
            heading,
        ),
        restated(step, heading).tool_delta(payload).error == step.tool_delta(payload).error,
{
    let delta = payload.text_at("delta"@);
    match addressed_index(payload) {
        Some(output_index) if delta.len() > 0 => {
            let seen = step.semantic();
            if seen.state.blocks.contains_key(output_index) {
                match seen.state.blocks[output_index] {
                    BlockModel::Text { .. } => {},
                    BlockModel::Tool {
                        index,
                        call_id,
                        name,
                        args,
                        had_delta: _,
                        buffered,
                        emitted_args,
                    } => {
                        lemma_tool_piece(
                            seen,
                            output_index,
                            index,
                            call_id,
                            name,
                            args + delta,
                            buffered,
                            emitted_args,
                            delta,
                            heading,
                        );
                    },
                }
            }
        },
        _ => {},
    }
}

proof fn lemma_tool_piece(
    step: Step,
    output_index: usize,
    index: nat,
    call_id: Seq<char>,
    name: Seq<char>,
    args: Seq<char>,
    buffered: bool,
    emitted_args: bool,
    delta: Seq<char>,
    heading: Heading,
)
    ensures
        ({
            let one = step.tool_piece(
                output_index,
                index,
                call_id,
                name,
                args,
                buffered,
                emitted_args,
                delta,
            );
            let other = restated(step, heading).tool_piece(
                output_index,
                index,
                call_id,
                name,
                args,
                buffered,
                emitted_args,
                delta,
            );
            is_blind(one.step, other.step, heading) && other.error == one.error
        }),
{
    let oversized = byte_len(args) > BUFFERED_TOOL_MAX_ARGS_BYTES;
    let taken = Step {
        state: State {
            blocks: step.state.blocks.insert(
                output_index,
                BlockModel::Tool {
                    index,
                    call_id,
                    name,
                    args,
                    had_delta: true,
                    buffered,
                    emitted_args: emitted_args || !buffered,
                },
            ),
            metadata: if oversized {
                None
            } else {
                step.state.metadata
            },
            ..step.state
        },
        ..step
    };
    lemma_emit(
        taken,
        Event::BlockDelta { index, delta: DeltaModel::InputJson(delta) },
        heading,
    );
    if repaired_args(name, args) is Some {
        lemma_finish_repaired(
            taken,
            output_index,
            index,
            call_id,
            name,
            repaired_args(name, args)->0,
            heading,
        );
    }
}

proof fn lemma_signature_only(step: Step, output_index: usize, heading: Heading)
    ensures
        is_blind(
            step.signature_only(output_index),
            restated(step, heading).signature_only(output_index),
            heading,
        ),
{
    assert(restated(step, heading).signature_only(output_index) == restated(
        step.signature_only(output_index),
        heading,
    ));
}

proof fn lemma_reasoning_done(step: Step, output_index: usize, item: JsonModel, heading: Heading)
    ensures
        is_blind(
            step.reasoning_done(output_index, item),
            restated(step, heading).reasoning_done(output_index, item),
            heading,
        ),
{
    let known = Step { state: step.state.with_reasoning(output_index, item), ..step };
    lemma_close_thinking(known, heading);
    lemma_signature_only(known.close_thinking(), output_index, heading);
}

proof fn lemma_block_done(
    step: Step,
    output_index: usize,
    item: Option<JsonModel>,
    heading: Heading,
)
    ensures
        is_blind(
            step.block_done(output_index, item),
            restated(step, heading).block_done(output_index, item),
            heading,
        ),
{
    assert(restated(step, heading).block_done(output_index, item) == restated(
        step.block_done(output_index, item),
        heading,
    ));
}

proof fn lemma_output_item_done(step: Step, payload: JsonModel, heading: Heading)
    ensures
        is_blind(
            step.output_item_done(payload),
            restated(step, heading).output_item_done(payload),
            heading,
        ),
{
    let output_index = spec_output_index(payload);
    lemma_reasoning_done(step, output_index, payload.get("item"@)->0, heading);
    lemma_close_thinking(step, heading);
    lemma_block_done(step, output_index, payload.get("item"@), heading);
}

proof fn lemma_close_block(step: Step, output_index: usize, heading: Heading)
    ensures
        is_blind(
            step.close_block(output_index),
            restated(step, heading).close_block(output_index),
            heading,
        ),
{
    assert(restated(step, heading).close_block(output_index) == restated(
        step.close_block(output_index),
        heading,
    ));
}

proof fn lemma_close_blocks(step: Step, order: Seq<usize>, heading: Heading)
    ensures
        is_blind(step.close_blocks(order), restated(step, heading).close_blocks(order), heading),
    decreases order.len(),
{
    if order.len() > 0 {
        lemma_close_block(step, order.first(), heading);
        lemma_close_blocks(step.close_block(order.first()), order.drop_first(), heading);
    }
}

proof fn lemma_close_open_blocks(step: Step, heading: Heading)
    ensures
        is_blind(step.close_open_blocks(), restated(step, heading).close_open_blocks(), heading),
{
    lemma_close_thinking(step, heading);
    let ready = step.close_thinking();
    lemma_close_blocks(ready, ascending(ready.state.blocks.dom()), heading);
}

proof fn lemma_flush_searches(step: Step, searches: Seq<WebSearchModel>, heading: Heading)
    ensures
        is_blind(
            step.flush_searches(searches),
            restated(step, heading).flush_searches(searches),
            heading,
        ),
    decreases searches.len(),
{
    if searches.len() > 0 {
        let events = step.state.search_events(searches.first());
        lemma_start_message(step, heading);
        lemma_emit_all(step.start_message(), events, heading);
        assert(all_with_heading(events, heading) =~= events);
        assert(restated(step, heading).state.search_events(searches.first()) =~= events);
        lemma_flush_searches(
            step.start_message().emit_all(events),
            searches.drop_first(),
            heading,
        );
    }
}

proof fn lemma_flush_texts(step: Step, texts: Seq<DeferredModel>, heading: Heading)
    ensures
        is_blind(step.flush_texts(texts), restated(step, heading).flush_texts(texts), heading),
    decreases texts.len(),
{
    if texts.len() > 0 {
        let events = deferred_events(texts.first());
        lemma_emit_all(step, events, heading);
        assert(all_with_heading(events, heading) =~= events);
        lemma_flush_texts(step.emit_all(events), texts.drop_first(), heading);
    }
}

proof fn lemma_emit_web_searches(step: Step, heading: Heading)
    ensures
        is_blind(step.emit_web_searches(), restated(step, heading).emit_web_searches(), heading),
{
    let cleared = Step {
        state: State {
            web_searches: Seq::empty(),
            deferred_text: Seq::empty(),
            ..step.state
        },
        ..step
    };
    lemma_flush_searches(cleared, step.state.web_searches, heading);
    lemma_flush_texts(
        cleared.flush_searches(step.state.web_searches),
        step.state.deferred_text,
        heading,
    );
}

proof fn lemma_emit_finish(
    step: Step,
    stop_reason: StopReason,
    usage: Option<CodexUsage>,
    heading: Heading,
)
    ensures
        is_blind(
            step.emit_finish(stop_reason, usage),
            restated(step, heading).emit_finish(stop_reason, usage),
            heading,
        ),
{
    assert(restated(step, heading).emit_finish(stop_reason, usage) == restated(
        step.emit_finish(stop_reason, usage),
        heading,
    ));
}

proof fn lemma_finish(step: Step, payload: JsonModel, verdict: VerdictModel, heading: Heading)
    ensures
        is_blind(
            step.finish(payload, verdict),
            restated(step, heading).finish(payload, verdict),
            heading,
        ),
{
    let noted = step.with_metadata(
        match step.state.metadata {
            Some(metadata) if metadata.open_blocks == Set::<usize>::empty() => Some(
                metadata.terminated(verdict.complete, nested_str(payload, "response"@, "id"@)),
            ),
            _ => None,
        },
    );
    let usage = match payload.get("response"@) {
        Some(response) => Some(response_usage(response)),
        None => None,
    };
    let stop_reason = if step.state.policy == IncompleteResponsePolicy::AllowMaxOutputTokens
        && verdict.max_output_tokens {
        StopReason::MaxTokens
    } else if step.state.saw_tool_use {
        StopReason::ToolUse
    } else {
        StopReason::EndTurn
    };
    lemma_close_thinking(noted, heading);
    lemma_close_open_blocks(noted.close_thinking(), heading);
    let closed = noted.close_thinking().close_open_blocks();
    lemma_emit_web_searches(closed, heading);
    lemma_start_message(closed.emit_web_searches(), heading);
    lemma_emit_finish(closed.emit_web_searches().start_message(), stop_reason, usage, heading);
}

proof fn lemma_dispatch(step: Step, payload: JsonModel, verdict: VerdictModel, heading: Heading)
    ensures
        is_blind(
            step.dispatch(payload, verdict).step,
            restated(step, heading).dispatch(payload, verdict).step,
            heading,
        ),
        restated(step, heading).dispatch(payload, verdict).error == step.dispatch(
            payload,
            verdict,
        ).error,
{
    let kind = event_kind(payload);
    if kind == "response.function_call_arguments.delta"@ {
        lemma_tool_delta(step, payload, heading);
    } else if kind == "codex.rate_limits"@ || kind == "keepalive"@ || kind == "response.created"@
        || kind == "response.in_progress"@ {
        lemma_ping(step, heading);
    } else if kind == "response.output_item.added"@ {
        lemma_output_item_added(step, payload, heading);
    } else if kind == "response.reasoning_summary_part.added"@ {
        lemma_summary_part(step, payload, heading);
    } else if kind == "response.reasoning_summary_text.delta"@ {
        lemma_reasoning_delta(step, payload, heading);
    } else if kind == "response.output_text.delta"@ {
        lemma_text_delta(step, payload, heading);
    } else if kind == "response.output_text.annotation.added"@ {
        assert(with_heading(step.state, heading).with_citation(payload) == with_heading(
            step.state.with_citation(payload),
            heading,
        ));
    } else if kind == "response.function_call_arguments.done"@ {
        assert(with_heading(step.state, heading).with_arguments(payload) == with_heading(
            step.state.with_arguments(payload),
            heading,
        ));
    } else if kind == "response.output_item.done"@ {
        lemma_output_item_done(step, payload, heading);
    } else if kind == "response.completed"@ || kind == "response.incomplete"@ || kind
        == "response.done"@ {
        lemma_finish(step, payload, verdict, heading);
    }
}

proof fn lemma_still(state: State, heading: Heading)
    ensures
        restated(state.still(), heading) == with_heading(state, heading).still(),
        restated(state.still().with_metadata(None), heading) == with_heading(
            state,
            heading,
        ).still().with_metadata(None),
{
}

proof fn lemma_failed(
    state: State,
    message: Seq<char>,
    error_type: Seq<char>,
    heading: Heading,
)
    ensures
        is_blind(
            state.failed(message, error_type),
            with_heading(state, heading).failed(message, error_type),
            heading,
        ),
{
    lemma_still(state, heading);
    let quiet = state.still().with_metadata(None);
    lemma_close_open_blocks(quiet, heading);
    lemma_start_message(quiet.close_open_blocks(), heading);
    lemma_emit(
        quiet.close_open_blocks().start_message(),
        Event::Error { error_type, message },
        heading,
    );
}

proof fn lemma_ended(state: State, heading: Heading)
    ensures
        is_blind(
            state.ended_after_tool_call(),
            with_heading(state, heading).ended_after_tool_call(),
            heading,
        ),
{
    lemma_still(state, heading);
    let quiet = state.still().with_metadata(None);
    lemma_close_thinking(quiet, heading);
    lemma_start_message(quiet.close_thinking(), heading);
    lemma_emit_finish(
        quiet.close_thinking().start_message(),
        StopReason::ToolUse,
        None,
        heading,
    );
}

proof fn lemma_accepted(state: State, payload: JsonModel, verdict: VerdictModel, heading: Heading)
    ensures
        is_blind(
            state.accepted(payload, verdict).step,
            with_heading(state, heading).accepted(payload, verdict).step,
            heading,
        ),
        with_heading(state, heading).accepted(payload, verdict).error == state.accepted(
            payload,
            verdict,
        ).error,
{
    lemma_still(state, heading);
    lemma_dispatch(state.still(), payload, verdict, heading);
}

/// With another heading an event makes a translator fail with the same error.
pub proof fn law_errors_ignore_the_heading(
    state: State,
    payload: JsonModel,
    verdict: VerdictModel,
    heading: Heading,
)
    ensures
        with_heading(state, heading).accepted(payload, verdict).error == state.accepted(
            payload,
            verdict,
        ).error,
{
    lemma_accepted(state, payload, verdict, heading);
}

proof fn lemma_call(state: State, call: Call, heading: Heading)
    ensures
        is_blind(state.called(call), with_heading(state, heading).called(call), heading),
{
    lemma_still(state, heading);
    match call {
        Call::Accept { payload } => {
            lemma_accepted(state, payload, event_verdict(payload), heading);
        },
        Call::Ping => {
            lemma_ping(state.still(), heading);
        },
        Call::EndAfterToolCall => {
            lemma_ended(state, heading);
        },
        Call::Fail { message, error_type } => {
            lemma_failed(state, message, error_type, heading);
        },
        Call::TakeMetadata => {},
    }
}

/// Two sessions that differ only in the estimate send the same events, but for
/// the input heading in the start of the message, and come to the same state, but
/// for the estimate.
pub proof fn law_only_the_start_shows_the_heading(state: State, calls: Seq<Call>, heading: Heading)
    ensures
        with_heading(state, heading).session(calls).events == all_with_heading(
            state.session(calls).events,
            heading,
        ),
        with_heading(state, heading).session(calls).state == with_heading(
            state.session(calls).state,
            heading,
        ),
    decreases calls.len(),
{
    if calls.len() > 0 {
        law_only_the_start_shows_the_heading(state, calls.drop_last(), heading);
        let before = state.session(calls.drop_last());
        let taken = before.state.called(calls.last());
        lemma_call(before.state, calls.last(), heading);
        assert(all_with_heading(before.events + taken.events, heading) =~= all_with_heading(
            before.events,
            heading,
        ) + all_with_heading(taken.events, heading));
    }
}

/// Whatever is done with a translator that starts the message, its start has the
/// identifier, the model and the estimate that the translator was made with.
pub proof fn law_message_start_is_exact(state: State, calls: Seq<Call>, i: int)
    requires
        0 <= i < state.session(calls).events.len(),
        state.session(calls).events[i] is MessageStart,
    ensures
        state.session(calls).events[i] == (Event::MessageStart {
            id: state.message_id,
            model: state.model,
            input_tokens: state.estimated_input_tokens,
        }),
{
    let heading = heading_of(state);
    law_only_the_start_shows_the_heading(state, calls, heading);
    assert(with_heading(state, heading) == state);
    let events = state.session(calls).events;
    assert(events[i] == all_with_heading(events, heading)[i]);
}

/// The same event with another estimate.
pub open spec fn shown_with_estimate(event: Event, tokens: u64) -> Event {
    match event {
        Event::MessageStart { id, model, .. } => Event::MessageStart {
            id,
            model,
            input_tokens: tokens,
        },
        _ => event,
    }
}

/// Two sessions that differ only in the estimate send the same events, but for
/// the input tokens in the start of the message.
pub proof fn law_only_the_start_shows_the_estimate(state: State, calls: Seq<Call>, tokens: u64)
    ensures
        ({
            let other = State { estimated_input_tokens: tokens, ..state };
            other.session(calls).events == state.session(calls).events.map_values(
                |event: Event| shown_with_estimate(event, tokens),
            )
        }),
{
    let heading = Heading { input_tokens: tokens, ..heading_of(state) };
    let other = State { estimated_input_tokens: tokens, ..state };
    assert(with_heading(state, heading) == other);
    law_only_the_start_shows_the_heading(state, calls, heading);
    let events = state.session(calls).events;
    let expected = events.map_values(|event: Event| shown_with_estimate(event, tokens));
    assert forall|i: int| 0 <= i < events.len() implies #[trigger] all_with_heading(
        events,
        heading,
    )[i] == expected[i] by {
        if events[i] is MessageStart {
            law_message_start_is_exact(state, calls, i);
        }
    }
    assert(all_with_heading(events, heading) =~= expected);
}

} // verus!

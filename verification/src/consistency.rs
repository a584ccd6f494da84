//! What holds of every state that a translator comes to, and what follows from
//! it.

use crate::downstream::{Event, StopReason};
use crate::index_map::{ascending, is_ascending, lemma_ascending};
use crate::json::JsonModel;
use crate::kinds::law_pieces_are_no_failure;
use crate::model::{
    deferred_events, oversized_args_error, BlockModel, DeferredModel, State, Step, WebSearchModel,
    BUFFERED_TOOL_MAX_ARGS_BYTES,
};
use crate::protocol::Call;
use crate::text::byte_len;
use crate::upstream::{
    addressed_index, event_kind, event_verdict, mapped_usage, nested_str, spec_output_index,
    IncompleteResponsePolicy, VerdictModel,
};
use vstd::prelude::*;

verus! {

/// Whether an open output is one that can come about: the calls of `Read` are
/// held back and no others, the arguments of a call were passed on where it is
/// not held back and a piece has come, and a piece is never empty.
pub open spec fn is_sound_block(block: BlockModel) -> bool {
    match block {
        BlockModel::Text { .. } => true,
        BlockModel::Tool { name, args, had_delta, buffered, emitted_args, .. } => {
            &&& buffered == (name == "Read"@)
            &&& emitted_args == (had_delta && !buffered)
            &&& had_delta ==> args.len() > 0
        },
    }
}

/// Whether a state is one that can come about.
pub open spec fn is_consistent(state: State) -> bool {
    &&& state.blocks.dom().finite()
    &&& forall|k: usize| #[trigger]
        state.blocks.contains_key(k) ==> is_sound_block(state.blocks[k])
    &&& state.saw_tool_use ==> state.message_started
    &&& state.metadata matches Some(metadata) ==> metadata.output_items.dom().finite()
        && metadata.open_blocks.finite()
}

/// One step keeps the states consistent.
spec fn keeps(before: Step, after: Step) -> bool {
    is_consistent(before.state) ==> is_consistent(after.state)
}

proof fn lemma_close_thinking(step: Step)
    ensures
        keeps(step, step.close_thinking()),
{
}

proof fn lemma_start_message(step: Step)
    ensures
        keeps(step, step.start_message()),
{
}

proof fn lemma_open_text_block(step: Step, output_index: usize)
    ensures
        keeps(step, step.open_text_block(output_index)),
{
}

proof fn lemma_open_tool_block(
    step: Step,
    output_index: usize,
    call_id: Seq<char>,
    name: Seq<char>,
)
    ensures
        keeps(step, step.open_tool_block(output_index, call_id, name)),
{
}

proof fn lemma_output_item_added(step: Step, payload: JsonModel)
    ensures
        keeps(step, step.output_item_added(payload)),
{
    match payload.get("item"@) {
        None => {},
        Some(item) => {
            let output_index = spec_output_index(payload);
            let kind = item.text_at("type"@);
            let noted = match step.state.metadata {
                Some(metadata) if kind == "message"@ || kind == "function_call"@ => {
                    step.with_metadata(Some(metadata.opened(output_index)))
                },
                _ => step,
            };
            assert(keeps(step, noted));
            lemma_close_thinking(noted);
            if kind == "message"@ {
                let ready = noted.close_thinking();
                let named = Step {
                    state: State {
                        item_ids: match item.str_at("id"@) {
                            Some(id) => ready.state.item_ids.insert(id, output_index),
                            None => ready.state.item_ids,
                        },
                        ..ready.state
                    },
                    ..ready
                };
                lemma_open_text_block(named, output_index);
            } else if kind == "function_call"@ {
                lemma_open_tool_block(
                    noted.close_thinking(),
                    output_index,
                    item.text_at("call_id"@),
                    item.text_at("name"@),
                );
            }
        },
    }
}

proof fn lemma_reasoning_delta(step: Step, payload: JsonModel)
    ensures
        keeps(step, step.reasoning_delta(payload)),
{
    lemma_close_thinking(step.semantic());
}

proof fn lemma_text_delta(step: Step, payload: JsonModel)
    ensures
        keeps(step, step.text_delta(payload)),
{
    lemma_close_thinking(step);
    let ready = step.close_thinking();
    let delta = payload.text_at("delta"@);
    if delta.len() > 0 {
        let address = ready.state.text_address(payload);
        let output_index = match address {
            Some(index) => index,
            None => 0,
        };
        lemma_open_text_block(ready.semantic(), output_index);
        let open = if ready.state.blocks.contains_key(output_index) {
            ready.semantic()
        } else {
            ready.semantic().open_text_block(output_index)
        };
        assert(keeps(step, open));
        assert(keeps(open, open.append_text(output_index, address is Some, delta)));
    }
}

proof fn lemma_tool_piece(
    step: Step,
    output_index: usize,
    index: nat,
    call_id: Seq<char>,
    name: Seq<char>,
    args: Seq<char>,
    buffered: bool,
    emitted_args: bool,
    delta: Seq<char>,
)
    requires
        buffered == (name == "Read"@),
        emitted_args ==> !buffered,
        args.len() > 0,
    ensures
        keeps(
            step,
            step.tool_piece(
                output_index,
                index,
                call_id,
                name,
                args,
                buffered,
                emitted_args,
                delta,
            ).step,
        ),
{
}

proof fn lemma_tool_delta(step: Step, payload: JsonModel)
    ensures
        keeps(step, step.tool_delta(payload).step),
{
    let delta = payload.text_at("delta"@);
    match addressed_index(payload) {
        Some(output_index) if delta.len() > 0 => {
            let seen = step.semantic();
            if seen.state.blocks.contains_key(output_index) && is_consistent(step.state) {
                match seen.state.blocks[output_index] {
                    BlockModel::Text { .. } => {},
                    BlockModel::Tool {
                        index,
                        call_id,
                        name,
                        args,
                        had_delta: _,
                        buffered,
                        emitted_args,
                    } => {
                        assert(is_sound_block(step.state.blocks[output_index]));
                        lemma_tool_piece(
                            seen,
                            output_index,
                            index,
                            call_id,
                            name,
                            args + delta,
                            buffered,
                            emitted_args,
                            delta,
                        );
                    },
                }
            }
        },
        _ => {},
    }
}

proof fn lemma_with_arguments(step: Step, payload: JsonModel)
    ensures
        keeps(step, (Step { state: step.state.with_arguments(payload), ..step })),
{
}

proof fn lemma_reasoning_done(step: Step, output_index: usize, item: JsonModel)
    ensures
        keeps(step, step.reasoning_done(output_index, item)),
{
    let known = Step { state: step.state.with_reasoning(output_index, item), ..step };
    assert(keeps(step, known));
    lemma_close_thinking(known);
    let ready = known.close_thinking();
    assert(keeps(ready, ready.signature_only(output_index)));
}

proof fn lemma_block_done(step: Step, output_index: usize, item: Option<JsonModel>)
    ensures
        keeps(step, step.block_done(output_index, item)),
{
}

proof fn lemma_output_item_done(step: Step, payload: JsonModel)
    ensures
        keeps(step, step.output_item_done(payload)),
{
    let output_index = spec_output_index(payload);
    lemma_reasoning_done(step, output_index, payload.get("item"@)->0);
    lemma_close_thinking(step);
    assert(keeps(step, step.web_search_done(payload.get("item"@)->0)));
    lemma_block_done(step, output_index, payload.get("item"@));
}

proof fn lemma_close_blocks(step: Step, order: Seq<usize>)
    ensures
        keeps(step, step.close_blocks(order)),
    decreases order.len(),
{
    if order.len() > 0 {
        assert(keeps(step, step.close_block(order.first())));
        lemma_close_blocks(step.close_block(order.first()), order.drop_first());
    }
}

proof fn lemma_close_open_blocks(step: Step)
    ensures
        keeps(step, step.close_open_blocks()),
{
    lemma_close_thinking(step);
    let ready = step.close_thinking();
    lemma_close_blocks(ready, ascending(ready.state.blocks.dom()));
}

proof fn lemma_flush_searches(step: Step, searches: Seq<WebSearchModel>)
    ensures
        keeps(step, step.flush_searches(searches)),
    decreases searches.len(),
{
    if searches.len() > 0 {
        lemma_start_message(step);
        let sent = step.start_message().emit_all(step.state.search_events(searches.first()));
        lemma_flush_searches(sent, searches.drop_first());
    }
}

proof fn lemma_flush_texts(step: Step, texts: Seq<DeferredModel>)
    ensures
        keeps(step, step.flush_texts(texts)),
    decreases texts.len(),
{
    if texts.len() > 0 {
        lemma_flush_texts(step.emit_all(deferred_events(texts.first())), texts.drop_first());
    }
}

proof fn lemma_finish(step: Step, payload: JsonModel, verdict: VerdictModel)
    ensures
        keeps(step, step.finish(payload, verdict)),
{
    let noted = step.with_metadata(
        match step.state.metadata {
            Some(metadata) if metadata.open_blocks == Set::<usize>::empty() => Some(
                metadata.terminated(verdict.complete, nested_str(payload, "response"@, "id"@)),
            ),
            _ => None,
        },
    );
    assert(keeps(step, noted));
    lemma_close_thinking(noted);
    lemma_close_open_blocks(noted.close_thinking());
    let closed = noted.close_thinking().close_open_blocks();
    let cleared = Step {
        state: State {
            web_searches: Seq::empty(),
            deferred_text: Seq::empty(),
            ..closed.state
        },
        ..closed
    };
    assert(keeps(closed, cleared));
    lemma_flush_searches(cleared, closed.state.web_searches);
    lemma_flush_texts(
        cleared.flush_searches(closed.state.web_searches),
        closed.state.deferred_text,
    );
    lemma_start_message(closed.emit_web_searches());
}

proof fn lemma_dispatch(step: Step, payload: JsonModel, verdict: VerdictModel)
    ensures
        keeps(step, step.dispatch(payload, verdict).step),
{
    let kind = event_kind(payload);
    if kind == "response.function_call_arguments.delta"@ {
        lemma_tool_delta(step, payload);
    } else if kind == "codex.rate_limits"@ || kind == "keepalive"@ || kind == "response.created"@
        || kind == "response.in_progress"@ {
        lemma_start_message(step);
    } else if kind == "response.output_item.added"@ {
        lemma_output_item_added(step, payload);
    } else if kind == "response.reasoning_summary_part.added"@ {
        assert(keeps(step, step.summary_part(payload)));
    } else if kind == "response.reasoning_summary_text.delta"@ {
        lemma_reasoning_delta(step, payload);
    } else if kind == "response.output_text.delta"@ {
        lemma_text_delta(step, payload);
    } else if kind == "response.output_text.annotation.added"@ {
        assert(keeps(step, Step { state: step.state.with_citation(payload), ..step }));
    } else if kind == "response.function_call_arguments.done"@ {
        lemma_with_arguments(step, payload);
    } else if kind == "response.output_item.done"@ {
        lemma_output_item_done(step, payload);
    } else if kind == "response.completed"@ || kind == "response.incomplete"@ || kind
        == "response.done"@ {
        lemma_finish(step, payload, verdict);
    }
}

/// Every call keeps the state consistent.
pub proof fn law_call_keeps_consistency(state: State, call: Call)
    requires
        is_consistent(state),
    ensures
        is_consistent(state.called(call).state),
{
    let still = state.still();
    let quiet = still.with_metadata(None);
    assert(is_consistent(quiet.state));
    match call {
        Call::Accept { payload } => {
            lemma_dispatch(still, payload, event_verdict(payload));
        },
        Call::Ping => {
            lemma_start_message(still);
        },
        Call::EndAfterToolCall => {
            lemma_close_thinking(quiet);
            lemma_start_message(quiet.close_thinking());
        },
        Call::Fail { .. } => {
            lemma_close_open_blocks(quiet);
            lemma_start_message(quiet.close_open_blocks());
        },
        Call::TakeMetadata => {},
    }
}

/// Whatever is done with a new translator, its state is consistent.
pub proof fn law_session_is_consistent(
    message_id: Seq<char>,
    model: Seq<char>,
    estimated_input_tokens: u64,
    policy: IncompleteResponsePolicy,
    collects: bool,
    calls: Seq<Call>,
)
    ensures
        is_consistent(
            State::configured(
                message_id,
                model,
                estimated_input_tokens,
                policy,
                collects,
            ).session(calls).state,
        ),
    decreases calls.len(),
{
    if calls.len() > 0 {
        let start = State::configured(
            message_id,
            model,
            estimated_input_tokens,
            policy,
            collects,
        );
        law_session_is_consistent(
            message_id,
            model,
            estimated_input_tokens,
            policy,
            collects,
            calls.drop_last(),
        );
        law_call_keeps_consistency(start.session(calls.drop_last()).state, calls.last());
    }
}

proof fn lemma_oversized_read_text()
    ensures
        oversized_args_error("Read"@) == "Buffered Read tool arguments exceeded safe limits"@,
{
    reveal_strlit("Buffered ");
    reveal_strlit("Read");
    reveal_strlit(" tool arguments exceeded safe limits");
    reveal_strlit("Buffered Read tool arguments exceeded safe limits");
    assert(oversized_args_error("Read"@)
        =~= "Buffered Read tool arguments exceeded safe limits"@);
}

/// A piece with which the arguments of a `Read` call grow beyond the limit is
/// refused, and nothing is sent for it.
pub proof fn law_oversized_read_is_refused(
    state: State,
    payload: JsonModel,
    output_index: usize,
)
    requires
        is_consistent(state),
        !state.finished,
        event_kind(payload) == "response.function_call_arguments.delta"@,
        addressed_index(payload) == Some(output_index),
        payload.text_at("delta"@).len() > 0,
        state.blocks.contains_key(output_index),
        state.blocks[output_index] matches BlockModel::Tool { name, args, .. } && name == "Read"@
            && byte_len(args + payload.text_at("delta"@)) > BUFFERED_TOOL_MAX_ARGS_BYTES,
    ensures
        state.accepted(payload, event_verdict(payload)).error == Some(
            "Buffered Read tool arguments exceeded safe limits"@,
        ),
        state.accepted(payload, event_verdict(payload)).step.events == Seq::<Event>::empty(),
{
    law_pieces_are_no_failure(payload);
    lemma_oversized_read_text();
    assert(is_sound_block(state.blocks[output_index]));
}

/// When the connection ends after a tool call and no output is open, the open
/// thinking block is closed and the message ends with the reason that a tool is
/// to be used. The message has started by then.
pub proof fn law_connection_end_after_tool_call(state: State)
    requires
        is_consistent(state),
        !state.finished,
        state.saw_tool_use,
        state.blocks == Map::<usize, BlockModel>::empty(),
    ensures
        state.ended_after_tool_call().state.finished,
        state.ended_after_tool_call().events == state.still().close_thinking().events + seq![
            Event::MessageDelta {
                stop_reason: StopReason::ToolUse,
                usage: mapped_usage(None, state.web_search_requests),
            },
            Event::MessageStop,
        ],
{
}

/// What is reported has each collected output once, in the ascending order of
/// the upstream indices.
pub proof fn law_report_is_ordered(state: State)
    requires
        is_consistent(state),
        state.finish_report() is Some,
    ensures
        ({
            let items = state.metadata->0.output_items;
            let order = ascending(items.dom());
            &&& is_ascending(order)
            &&& order.to_set() == items.dom()
            &&& state.finish_report()->0.output_items.len() == order.len()
            &&& forall|i: int|
                0 <= i < order.len() ==> #[trigger] state.finish_report()->0.output_items[i]
                    == items[order[i]]
        }),
{
    lemma_ascending(state.metadata->0.output_items.dom());
}

} // verus!

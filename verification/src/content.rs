//! When a response has brought content: nothing that fills a block is sent
//! before, and it stays so.

use crate::consistency::{is_consistent, law_call_keeps_consistency};
use crate::downstream::Event;
use crate::index_map::{ascending, is_ascending, lemma_ascending};
use crate::json::JsonModel;
use crate::kinds::law_kinds_are_told_apart;
use crate::model::{State, Step};
use crate::progress::{law_call_keeps_progress, law_session_keeps_progress};
use crate::protocol::Call;
use crate::upstream::{
    event_kind, event_verdict, nested_str, spec_output_index, IncompleteResponsePolicy,
    VerdictModel,
};
use vstd::prelude::*;

verus! {

/// Whether nothing is held that would still have to be sent as content.
pub open spec fn holds_nothing(state: State) -> bool {
    &&& state.thinking is None
    &&& state.web_searches.len() == 0
    &&& state.deferred_text.len() == 0
    &&& forall|k: usize| #[trigger]
        state.blocks.contains_key(k) ==> !state.blocks[k].is_deferred()
}

/// Whether no event fills a block.
pub open spec fn has_no_piece(events: Seq<Event>) -> bool {
    forall|i: int| 0 <= i < events.len() ==> !(#[trigger] events[i] is BlockDelta)
}

/// Content was noted, or there is none: neither sent nor held.
pub open spec fn is_noted(step: Step) -> bool {
    step.state.semantic_output || (holds_nothing(step.state) && has_no_piece(step.events))
}

proof fn lemma_output_item_added(step: Step, payload: JsonModel)
    requires
        is_noted(step),
    ensures
        is_noted(step.output_item_added(payload)),
{
}

proof fn lemma_text_delta(step: Step, payload: JsonModel)
    requires
        is_noted(step),
    ensures
        is_noted(step.text_delta(payload)),
{
}

proof fn lemma_tool_delta(step: Step, payload: JsonModel)
    requires
        is_noted(step),
    ensures
        is_noted(step.tool_delta(payload).step),
{
}

proof fn lemma_with_arguments(step: Step, payload: JsonModel)
    requires
        is_noted(step),
    ensures
        is_noted((Step { state: step.state.with_arguments(payload), ..step })),
{
}

proof fn lemma_reasoning_done(step: Step, output_index: usize, item: JsonModel)
    requires
        is_noted(step),
    ensures
        is_noted(step.reasoning_done(output_index, item)),
{
}

proof fn lemma_block_done(step: Step, output_index: usize, item: Option<JsonModel>)
    requires
        is_noted(step),
    ensures
        is_noted(step.block_done(output_index, item)),
{
}

proof fn lemma_output_item_done(step: Step, payload: JsonModel)
    requires
        is_noted(step),
    ensures
        is_noted(step.output_item_done(payload)),
{
    let output_index = spec_output_index(payload);
    lemma_reasoning_done(step, output_index, payload.get("item"@)->0);
    lemma_block_done(step, output_index, payload.get("item"@));
}

proof fn lemma_close_blocks(step: Step, order: Seq<usize>)
    requires
        !step.state.semantic_output,
        is_noted(step),
        is_ascending(order),
        forall|i: int|
            0 <= i < order.len() ==> step.state.blocks.contains_key(#[trigger] order[i]),
    ensures
        !step.close_blocks(order).state.semantic_output,
        is_noted(step.close_blocks(order)),
    decreases order.len(),
{
    if order.len() > 0 {
        let closed = step.close_block(order.first());
        let rest = order.drop_first();
        assert(step.state.blocks.contains_key(order[0]));
        assert(is_noted(closed));
        assert forall|i: int| 0 <= i < rest.len() implies closed.state.blocks.contains_key(
            #[trigger] rest[i],
        ) by {
            assert(step.state.blocks.contains_key(order[i + 1]));
            assert(order[0] < order[i + 1]);
        }
        lemma_close_blocks(closed, rest);
    }
}

proof fn lemma_close_open_blocks(step: Step)
    requires
        !step.state.semantic_output,
        is_noted(step),
        step.state.blocks.dom().finite(),
    ensures
        !step.close_open_blocks().state.semantic_output,
        is_noted(step.close_open_blocks()),
{
    let order = ascending(step.state.blocks.dom());
    lemma_ascending(step.state.blocks.dom());
    assert forall|i: int| 0 <= i < order.len() implies step.state.blocks.contains_key(
        #[trigger] order[i],
    ) by {
        assert(order.to_set().contains(order[i]));
    }
    lemma_close_blocks(step, order);
}

proof fn lemma_finish(step: Step, payload: JsonModel, verdict: VerdictModel)
    requires
        !step.state.semantic_output,
        is_noted(step),
        step.state.blocks.dom().finite(),
    ensures
        is_noted(step.finish(payload, verdict)),
{
    let noted = step.with_metadata(
        match step.state.metadata {
            Some(metadata) if metadata.open_blocks == Set::<usize>::empty() => Some(
                metadata.terminated(verdict.complete, nested_str(payload, "response"@, "id"@)),
            ),
            _ => None,
        },
    );
    lemma_close_open_blocks(noted);
    let closed = noted.close_open_blocks();
    let flushed = closed.emit_web_searches();
    assert(flushed.events == closed.events);
    assert(is_noted(flushed));
}

proof fn lemma_dispatch(step: Step, payload: JsonModel, verdict: VerdictModel)
    requires
        !step.state.semantic_output,
        is_noted(step),
        step.state.blocks.dom().finite(),
    ensures
        is_noted(step.dispatch(payload, verdict).step),
{
    let kind = event_kind(payload);
    if kind == "response.function_call_arguments.delta"@ {
        lemma_tool_delta(step, payload);
    } else if kind == "codex.rate_limits"@ || kind == "keepalive"@ || kind == "response.created"@
        || kind == "response.in_progress"@ {
        assert(is_noted(step.ping()));
    } else if kind == "response.output_item.added"@ {
        lemma_output_item_added(step, payload);
    } else if kind == "response.reasoning_summary_part.added"@ {
        assert(is_noted(step.summary_part(payload)));
    } else if kind == "response.reasoning_summary_text.delta"@ {
        assert(is_noted(step.reasoning_delta(payload)));
    } else if kind == "response.output_text.delta"@ {
        lemma_text_delta(step, payload);
    } else if kind == "response.output_text.annotation.added"@ {
        assert(is_noted(Step { state: step.state.with_citation(payload), ..step }));
    } else if kind == "response.function_call_arguments.done"@ {
        lemma_with_arguments(step, payload);
    } else if kind == "response.output_item.done"@ {
        lemma_output_item_done(step, payload);
    } else if kind == "response.completed"@ || kind == "response.incomplete"@ || kind
        == "response.done"@ {
        lemma_finish(step, payload, verdict);
    }
}

proof fn lemma_call(state: State, call: Call)
    requires
        is_consistent(state),
        is_noted(state.still()),
    ensures
        is_noted(state.called(call)),
{
    let still = state.still();
    let quiet = still.with_metadata(None);
    law_call_keeps_progress(state, call);
    if !state.semantic_output && !state.finished {
        match call {
            Call::Accept { payload } => {
                lemma_dispatch(still, payload, event_verdict(payload));
            },
            Call::Ping => {},
            Call::EndAfterToolCall => {},
            Call::Fail { .. } => {
                lemma_close_open_blocks(quiet);
            },
            Call::TakeMetadata => {},
        }
    }
}

proof fn lemma_session(state: State, calls: Seq<Call>)
    requires
        is_consistent(state),
        is_noted(state.still()),
    ensures
        is_consistent(state.session(calls).state),
        is_noted(state.session(calls)),
    decreases calls.len(),
{
    if calls.len() > 0 {
        lemma_session(state, calls.drop_last());
        let before = state.session(calls.drop_last());
        assert(is_noted(before.state.still()));
        lemma_call(before.state, calls.last());
        law_call_keeps_consistency(before.state, calls.last());
        law_call_keeps_progress(before.state, calls.last());
    }
}

/// Whatever is done with a new translator, once it has sent a piece of a block
/// there has been content. And as long as there has been none, nothing is held
/// that would have to be sent as content.
pub proof fn law_sent_pieces_are_content(
    message_id: Seq<char>,
    model: Seq<char>,
    estimated_input_tokens: u64,
    policy: IncompleteResponsePolicy,
    collects: bool,
    calls: Seq<Call>,
)
    ensures
        ({
            let session = State::configured(
                message_id,
                model,
                estimated_input_tokens,
                policy,
                collects,
            ).session(calls);
            &&& forall|i: int|
                0 <= i < session.events.len() && #[trigger] session.events[i] is BlockDelta
                    ==> session.state.semantic_output
            &&& !session.state.semantic_output ==> holds_nothing(session.state)
        }),
{
    let start = State::configured(message_id, model, estimated_input_tokens, policy, collects);
    lemma_session(start, calls);
}

/// A web search that has ended is content, whatever is done later.
pub proof fn law_finished_search_is_content(
    state: State,
    payload: JsonModel,
    verdict: VerdictModel,
    later: Seq<Call>,
)
    requires
        !state.finished,
        state.accepted(payload, verdict).error is None,
        event_kind(payload) == "response.output_item.done"@,
        nested_str(payload, "item"@, "type"@) == Some("web_search_call"@),
    ensures
        state.accepted(payload, verdict).step.state.session(later).state.semantic_output,
{
    reveal_strlit("web_search_call");
    reveal_strlit("reasoning");
    assert("web_search_call"@.len() != "reasoning"@.len());
    law_kinds_are_told_apart(state.still(), payload, verdict);
    law_session_keeps_progress(state.accepted(payload, verdict).step.state, later);
}

} // verus!

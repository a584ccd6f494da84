//! What an event can change, and what it cannot.

use crate::consistency::{is_consistent, is_sound_block};
use crate::downstream::{Event, WebSearchResultModel};
use crate::index_map::ascending;
use crate::json::JsonModel;
use crate::kinds::{is_end, is_sign_of_life, law_kinds_are_told_apart};
use crate::model::{deferred_events, BlockModel, DeferredModel, State, Step, WebSearchModel};
use crate::protocol::Call;
use crate::upstream::{
    addressed_index, event_kind, event_verdict, nested_str, spec_output_index, VerdictModel,
};
use vstd::prelude::*;

verus! {

/// One state can come after another: what identifies the message is the same,
/// what was noted is still noted, no index is given out again, and the pages
/// that were cited stay, in their order.
pub open spec fn advances(before: State, after: State) -> bool {
    &&& after.message_id == before.message_id
    &&& after.model == before.model
    &&& after.estimated_input_tokens == before.estimated_input_tokens
    &&& after.policy == before.policy
    &&& before.message_started ==> after.message_started
    &&& before.saw_tool_use ==> after.saw_tool_use
    &&& before.semantic_output ==> after.semantic_output
    &&& before.finished ==> after.finished
    &&& before.next_index <= after.next_index
    &&& before.web_search_requests <= after.web_search_requests
    &&& before.web_search_results.is_prefix_of(after.web_search_results)
    &&& before.metadata is None ==> after.metadata is None
}

/// Whether the response can be continued, as far as is known.
pub open spec fn is_eligible(state: State) -> bool {
    state.metadata matches Some(metadata) && metadata.continuation_eligible
}

/// As `advances`, for a step that brings no content, no citation and not the
/// end of the response.
spec fn follows(before: Step, after: Step) -> bool {
    &&& advances(before.state, after.state)
    &&& after.state.semantic_output == before.state.semantic_output
    &&& after.state.web_search_results == before.state.web_search_results
    &&& is_eligible(after.state) ==> is_eligible(before.state)
}

proof fn lemma_close_thinking(step: Step)
    ensures
        follows(step, step.close_thinking()),
{
}

proof fn lemma_start_message(step: Step)
    ensures
        follows(step, step.start_message()),
{
}

proof fn lemma_open_text_block(step: Step, output_index: usize)
    ensures
        follows(step, step.open_text_block(output_index)),
{
}

proof fn lemma_open_tool_block(
    step: Step,
    output_index: usize,
    call_id: Seq<char>,
    name: Seq<char>,
)
    ensures
        follows(step, step.open_tool_block(output_index, call_id, name)),
{
}

proof fn lemma_output_item_added(step: Step, payload: JsonModel)
    ensures
        follows(step, step.output_item_added(payload)),
{
    match payload.get("item"@) {
        None => {},
        Some(item) => {
            let output_index = spec_output_index(payload);
            let kind = item.text_at("type"@);
            let noted = match step.state.metadata {
                Some(metadata) if kind == "message"@ || kind == "function_call"@ => {
                    step.with_metadata(Some(metadata.opened(output_index)))
                },
                _ => step,
            };
            assert(follows(step, noted));
            lemma_close_thinking(noted);
            if kind == "message"@ {
                let ready = noted.close_thinking();
                let named = Step {
                    state: State {
                        item_ids: match item.str_at("id"@) {
                            Some(id) => ready.state.item_ids.insert(id, output_index),
                            None => ready.state.item_ids,
                        },
                        ..ready.state
                    },
                    ..ready
                };
                lemma_open_text_block(named, output_index);
            } else if kind == "function_call"@ {
                lemma_open_tool_block(
                    noted.close_thinking(),
                    output_index,
                    item.text_at("call_id"@),
                    item.text_at("name"@),
                );
            }
        },
    }
}

proof fn lemma_close_blocks(step: Step, order: Seq<usize>)
    ensures
        follows(step, step.close_blocks(order)),
    decreases order.len(),
{
    if order.len() > 0 {
        assert(follows(step, step.close_block(order.first())));
        lemma_close_blocks(step.close_block(order.first()), order.drop_first());
    }
}

proof fn lemma_flush_searches(step: Step, searches: Seq<WebSearchModel>)
    ensures
        follows(step, step.flush_searches(searches)),
    decreases searches.len(),
{
    if searches.len() > 0 {
        let sent = step.start_message().emit_all(step.state.search_events(searches.first()));
        lemma_start_message(step);
        lemma_flush_searches(sent, searches.drop_first());
    }
}

proof fn lemma_flush_texts(step: Step, texts: Seq<DeferredModel>)
    ensures
        follows(step, step.flush_texts(texts)),
    decreases texts.len(),
{
    if texts.len() > 0 {
        lemma_flush_texts(step.emit_all(deferred_events(texts.first())), texts.drop_first());
    }
}

proof fn lemma_ending(step: Step)
    ensures
        follows(
            step,
            step.close_thinking().close_open_blocks().emit_web_searches().start_message(),
        ),
{
    let ready = step.close_thinking();
    lemma_close_thinking(step);
    lemma_close_thinking(ready);
    let settled = ready.close_thinking();
    lemma_close_blocks(settled, ascending(settled.state.blocks.dom()));
    let closed = ready.close_open_blocks();
    let cleared = Step {
        state: State {
            web_searches: Seq::empty(),
            deferred_text: Seq::empty(),
            ..closed.state
        },
        ..closed
    };
    assert(follows(closed, cleared));
    lemma_flush_searches(cleared, closed.state.web_searches);
    let searched = cleared.flush_searches(closed.state.web_searches);
    lemma_flush_texts(searched, closed.state.deferred_text);
    lemma_start_message(closed.emit_web_searches());
}

/// The end of a response changes what it may, and makes the response one that
/// can be continued only where it is complete and every output was closed.
proof fn lemma_finish(step: Step, payload: JsonModel, verdict: VerdictModel)
    ensures
        ({
            let after = step.finish(payload, verdict).state;
            &&& advances(step.state, after)
            &&& after.semantic_output == step.state.semantic_output
            &&& after.web_search_results == step.state.web_search_results
            &&& is_eligible(after) ==> verdict.complete
        }),
{
    let noted = step.with_metadata(
        match step.state.metadata {
            Some(metadata) if metadata.open_blocks == Set::<usize>::empty() => Some(
                metadata.terminated(
                    verdict.complete,
                    nested_str(payload, "response"@, "id"@),
                ),
            ),
            _ => None,
        },
    );
    lemma_ending(noted);
}

proof fn lemma_reasoning_delta(step: Step, payload: JsonModel)
    ensures
        follows(step, step.reasoning_delta(payload)) || (payload.text_at("delta"@).len() > 0
            && follows(step.semantic(), step.reasoning_delta(payload))),
{
    lemma_close_thinking(step.semantic());
}

proof fn lemma_text_delta(step: Step, payload: JsonModel)
    ensures
        follows(step, step.text_delta(payload)) || (payload.text_at("delta"@).len() > 0
            && follows(step.semantic(), step.text_delta(payload))),
{
    lemma_close_thinking(step);
    let ready = step.close_thinking();
    let delta = payload.text_at("delta"@);
    if delta.len() > 0 {
        let address = ready.state.text_address(payload);
        let output_index = match address {
            Some(index) => index,
            None => 0,
        };
        assert(follows(step.semantic(), ready.semantic()));
        lemma_open_text_block(ready.semantic(), output_index);
        let open = if ready.state.blocks.contains_key(output_index) {
            ready.semantic()
        } else {
            ready.semantic().open_text_block(output_index)
        };
        assert(follows(step.semantic(), open));
        assert(follows(open, open.append_text(output_index, address is Some, delta)));
    }
}

proof fn lemma_tool_piece(
    step: Step,
    output_index: usize,
    index: nat,
    call_id: Seq<char>,
    name: Seq<char>,
    args: Seq<char>,
    buffered: bool,
    emitted_args: bool,
    delta: Seq<char>,
)
    ensures
        follows(
            step,
            step.tool_piece(
                output_index,
                index,
                call_id,
                name,
                args,
                buffered,
                emitted_args,
                delta,
            ).step,
        ),
{
}

proof fn lemma_tool_delta(step: Step, payload: JsonModel)
    ensures
        follows(step, step.tool_delta(payload).step) || (payload.text_at("delta"@).len() > 0
            && follows(step.semantic(), step.tool_delta(payload).step)),
{
    let delta = payload.text_at("delta"@);
    match addressed_index(payload) {
        Some(output_index) if delta.len() > 0 => {
            let seen = step.semantic();
            if seen.state.blocks.contains_key(output_index) {
                match seen.state.blocks[output_index] {
                    BlockModel::Text { .. } => {},
                    BlockModel::Tool {
                        index,
                        call_id,
                        name,
                        args,
                        had_delta: _,
                        buffered,
                        emitted_args,
                    } => {
                        lemma_tool_piece(
                            seen,
                            output_index,
                            index,
                            call_id,
                            name,
                            args + delta,
                            buffered,
                            emitted_args,
                            delta,
                        );
                    },
                }
            }
        },
        _ => {},
    }
}

proof fn lemma_reasoning_done(step: Step, output_index: usize, item: JsonModel)
    ensures
        follows(step, step.reasoning_done(output_index, item)) || follows(
            step.semantic(),
            step.reasoning_done(output_index, item),
        ),
{
    let known = Step { state: step.state.with_reasoning(output_index, item), ..step };
    assert(follows(step, known));
    lemma_close_thinking(known);
    let ready = known.close_thinking();
    assert(follows(ready, ready.signature_only(output_index)) || follows(
        ready.semantic(),
        ready.signature_only(output_index),
    ));
}

proof fn lemma_output_item_done(step: Step, payload: JsonModel)
    ensures
        follows(step, step.output_item_done(payload)) || follows(
            step.semantic(),
            step.output_item_done(payload),
        ),
{
    let output_index = spec_output_index(payload);
    lemma_reasoning_done(step, output_index, payload.get("item"@)->0);
    lemma_close_thinking(step);
    assert(follows(step.semantic(), step.web_search_done(payload.get("item"@)->0)));
    let closed = step.block_done(output_index, payload.get("item"@));
    assert(follows(step, closed) || follows(step.semantic(), closed));
}

/// No url occurs twice among the cited pages.
pub open spec fn are_distinct(results: Seq<WebSearchResultModel>) -> bool {
    forall|i: int, j: int|
        0 <= i < j < results.len() ==> #[trigger] results[i].url != #[trigger] results[j].url
}

/// What holds of the states before and after an event that is not refused.
#[verifier::opaque]
spec fn changes(
    before: State,
    after: State,
    payload: JsonModel,
    verdict: VerdictModel,
) -> bool {
    &&& advances(before, after)
    &&& !brings_content(payload) ==> after.semantic_output == before.semantic_output
    &&& are_distinct(before.web_search_results) ==> are_distinct(after.web_search_results)
    &&& is_eligible(after) ==> is_eligible(before) || verdict.complete
}

/// Whether an event can bring content: a piece, not empty, of a text, of a
/// reasoning summary or of the arguments of a tool call, or an output that is
/// whole.
pub open spec fn brings_content(payload: JsonModel) -> bool {
    let kind = event_kind(payload);
    let is_piece = kind == "response.output_text.delta"@ || kind
        == "response.reasoning_summary_text.delta"@ || kind
        == "response.function_call_arguments.delta"@;
    is_piece && payload.text_at("delta"@).len() > 0 || kind == "response.output_item.done"@
}

proof fn lemma_frame(before: Step, after: Step, payload: JsonModel, verdict: VerdictModel)
    requires
        follows(before, after),
    ensures
        changes(before.state, after.state, payload, verdict),
{
    reveal(changes);
}

proof fn lemma_content(before: Step, after: Step, payload: JsonModel, verdict: VerdictModel)
    requires
        follows(before, after) || (brings_content(payload) && follows(before.semantic(), after)),
    ensures
        changes(before.state, after.state, payload, verdict),
{
    reveal(changes);
}

proof fn lemma_citation(state: State, payload: JsonModel, verdict: VerdictModel)
    ensures
        changes(state, state.with_citation(payload), payload, verdict),
{
    reveal(changes);
}

proof fn lemma_end(step: Step, payload: JsonModel, verdict: VerdictModel)
    ensures
        changes(step.state, step.finish(payload, verdict).state, payload, verdict),
{
    reveal(changes);
    lemma_finish(step, payload, verdict);
}

proof fn lemma_dispatch(step: Step, payload: JsonModel, verdict: VerdictModel)
    ensures
        changes(
            step.state,
            step.dispatch(payload, verdict).step.state,
            payload,
            verdict,
        ),
{
    let kind = event_kind(payload);
    let after = step.dispatch(payload, verdict).step;
    if kind == "response.function_call_arguments.delta"@ {
        lemma_tool_delta(step, payload);
        lemma_content(step, after, payload, verdict);
    } else if is_sign_of_life(payload) {
        lemma_start_message(step);
        lemma_frame(step, after, payload, verdict);
    } else if kind == "response.output_item.added"@ {
        lemma_output_item_added(step, payload);
        lemma_frame(step, after, payload, verdict);
    } else if kind == "response.reasoning_summary_part.added"@ {
        lemma_frame(step, after, payload, verdict);
    } else if kind == "response.reasoning_summary_text.delta"@ {
        lemma_reasoning_delta(step, payload);
        lemma_content(step, after, payload, verdict);
    } else if kind == "response.output_text.delta"@ {
        lemma_text_delta(step, payload);
        lemma_content(step, after, payload, verdict);
    } else if kind == "response.output_text.annotation.added"@ {
        lemma_citation(step.state, payload, verdict);
    } else if kind == "response.function_call_arguments.done"@ {
        lemma_frame(step, after, payload, verdict);
    } else if kind == "response.output_item.done"@ {
        lemma_output_item_done(step, payload);
        lemma_content(step, after, payload, verdict);
    } else if is_end(payload) {
        lemma_end(step, payload, verdict);
    } else {
        lemma_frame(step, after, payload, verdict);
    }
}

/// An event takes nothing back: what the translator has noted stays noted.
pub proof fn law_progress_is_kept(state: State, payload: JsonModel, verdict: VerdictModel)
    ensures
        advances(state, state.accepted(payload, verdict).step.state),
{
    reveal(changes);
    lemma_dispatch(state.still(), payload, verdict);
}

/// An event that only frames content is not content: neither a sign of life nor
/// the opening of an output nor an empty piece nor the end of the response
/// counts as such.
pub proof fn law_structure_is_not_semantic(
    state: State,
    payload: JsonModel,
    verdict: VerdictModel,
)
    requires
        !brings_content(payload),
    ensures
        state.accepted(payload, verdict).step.state.semantic_output == state.semantic_output,
{
    reveal(changes);
    lemma_dispatch(state.still(), payload, verdict);
}

/// A call takes nothing back, and none but one with an upstream event can bring
/// content.
pub proof fn law_call_keeps_progress(state: State, call: Call)
    ensures
        advances(state, state.called(call).state),
        !can_bring_content(call) ==> state.called(call).state.semantic_output
            == state.semantic_output,
{
    let still = state.still();
    let quiet = still.with_metadata(None);
    assert(follows(still, quiet));
    match call {
        Call::Accept { payload } => {
            law_progress_is_kept(state, payload, event_verdict(payload));
            if !brings_content(payload) {
                law_structure_is_not_semantic(state, payload, event_verdict(payload));
            }
        },
        Call::Ping => {
            lemma_start_message(still);
        },
        Call::EndAfterToolCall => {
            lemma_close_thinking(quiet);
            lemma_start_message(quiet.close_thinking());
        },
        Call::Fail { .. } => {
            lemma_close_thinking(quiet);
            let ready = quiet.close_thinking();
            lemma_close_blocks(ready, ascending(ready.state.blocks.dom()));
            lemma_start_message(quiet.close_open_blocks());
        },
        Call::TakeMetadata => {},
    }
}

/// Whether a call can bring content.
pub open spec fn can_bring_content(call: Call) -> bool {
    call matches Call::Accept { payload } && brings_content(payload)
}

/// Whatever is done with a translator, nothing is taken back.
pub proof fn law_session_keeps_progress(state: State, calls: Seq<Call>)
    ensures
        advances(state, state.session(calls).state),
    decreases calls.len(),
{
    if calls.len() > 0 {
        law_session_keeps_progress(state, calls.drop_last());
        law_call_keeps_progress(state.session(calls.drop_last()).state, calls.last());
    }
}

/// A session without content, however long, is not taken for one with content:
/// pings, the opening of outputs, empty pieces, the end of the response or of
/// the connection, and a failure leave it open.
pub proof fn law_framing_session_is_not_semantic(state: State, calls: Seq<Call>)
    requires
        forall|i: int| 0 <= i < calls.len() ==> !can_bring_content(#[trigger] calls[i]),
    ensures
        state.session(calls).state.semantic_output == state.semantic_output,
    decreases calls.len(),
{
    if calls.len() > 0 {
        law_framing_session_is_not_semantic(state, calls.drop_last());
        law_call_keeps_progress(state.session(calls.drop_last()).state, calls.last());
    }
}

/// A page is noted once, however often it is cited.
pub proof fn law_citations_stay_distinct(
    state: State,
    payload: JsonModel,
    verdict: VerdictModel,
)
    requires
        are_distinct(state.web_search_results),
    ensures
        are_distinct(state.accepted(payload, verdict).step.state.web_search_results),
{
    reveal(changes);
    lemma_dispatch(state.still(), payload, verdict);
}

/// Only a complete response can be continued.
pub proof fn law_only_complete_responses_continue(
    state: State,
    payload: JsonModel,
    verdict: VerdictModel,
)
    requires
        is_eligible(state.accepted(payload, verdict).step.state),
    ensures
        is_eligible(state) || verdict.complete,
{
    reveal(changes);
    lemma_dispatch(state.still(), payload, verdict);
}

/// A response that ends while an output is open is not reported.
pub proof fn law_unclosed_output_is_not_reported(
    state: State,
    payload: JsonModel,
    verdict: VerdictModel,
)
    requires
        !state.finished,
        state.metadata matches Some(metadata) && metadata.open_blocks != Set::<usize>::empty(),
        is_end(payload),
    ensures
        state.accepted(payload, verdict).step.state.finish_report() is None,
{
    law_kinds_are_told_apart(state.still(), payload, verdict);
    lemma_ending(state.still().with_metadata(None));
}

/// The pieces of a `Read` call are held back: they send nothing, except that a
/// repaired call ends the message.
pub proof fn law_held_back_arguments_wait(
    state: State,
    payload: JsonModel,
    verdict: VerdictModel,
    output_index: usize,
)
    requires
        is_consistent(state),
        event_kind(payload) == "response.function_call_arguments.delta"@,
        addressed_index(payload) == Some(output_index),
        state.blocks.contains_key(output_index),
        state.blocks[output_index] matches BlockModel::Tool { name, .. } && name == "Read"@,
    ensures
        ({
            let after = state.accepted(payload, verdict).step;
            after.events == Seq::<Event>::empty() || after.state.finished
        }),
{
    assert(is_sound_block(state.blocks[output_index]));
}

/// The pieces of a text that waits for web searches send nothing, but that they
/// end the open thinking block.
pub proof fn law_deferred_text_waits(
    state: State,
    payload: JsonModel,
    verdict: VerdictModel,
    output_index: usize,
)
    requires
        event_kind(payload) == "response.output_text.delta"@,
        state.text_address(payload) == Some(output_index),
        state.blocks.contains_key(output_index),
        state.blocks[output_index].is_deferred(),
    ensures
        ({
            let after = state.accepted(payload, verdict).step;
            after.events == Seq::<Event>::empty() || after.events
                == state.still().close_thinking().events
        }),
{
    law_kinds_are_told_apart(state.still(), payload, verdict);
}

/// The events of some web searches, in order.
pub open spec fn all_search_events(state: State, searches: Seq<WebSearchModel>) -> Seq<Event>
    decreases searches.len(),
{
    if searches.len() == 0 {
        Seq::empty()
    } else {
        state.search_events(searches.first()) + all_search_events(state, searches.drop_first())
    }
}

/// The events of some deferred texts, in order.
pub open spec fn all_deferred_events(texts: Seq<DeferredModel>) -> Seq<Event>
    decreases texts.len(),
{
    if texts.len() == 0 {
        Seq::empty()
    } else {
        deferred_events(texts.first()) + all_deferred_events(texts.drop_first())
    }
}

proof fn lemma_search_order(step: Step, searches: Seq<WebSearchModel>)
    requires
        step.state.message_started,
    ensures
        step.flush_searches(searches).events == step.events + all_search_events(
            step.state,
            searches,
        ),
    decreases searches.len(),
{
    if searches.len() > 0 {
        let sent = step.emit_all(step.state.search_events(searches.first()));
        lemma_search_order(sent, searches.drop_first());
    }
}

proof fn lemma_text_order(step: Step, texts: Seq<DeferredModel>)
    ensures
        step.flush_texts(texts).events == step.events + all_deferred_events(texts),
    decreases texts.len(),
{
    if texts.len() > 0 {
        lemma_text_order(step.emit_all(deferred_events(texts.first())), texts.drop_first());
    }
}

proof fn lemma_same_search_events(one: State, other: State, searches: Seq<WebSearchModel>)
    requires
        one.web_search_results == other.web_search_results,
    ensures
        all_search_events(one, searches) == all_search_events(other, searches),
    decreases searches.len(),
{
    if searches.len() > 0 {
        lemma_same_search_events(one, other, searches.drop_first());
    }
}

/// The web searches come first, each with all the pages that were cited, and
/// then the texts that waited for them, each in the order of their ends.
pub proof fn law_searches_precede_texts(step: Step)
    requires
        step.state.message_started,
    ensures
        step.emit_web_searches().events == step.events + all_search_events(
            step.state,
            step.state.web_searches,
        ) + all_deferred_events(step.state.deferred_text),
{
    let cleared = Step {
        state: State {
            web_searches: Seq::empty(),
            deferred_text: Seq::empty(),
            ..step.state
        },
        ..step
    };
    lemma_search_order(cleared, step.state.web_searches);
    lemma_same_search_events(cleared.state, step.state, step.state.web_searches);
    lemma_text_order(
        cleared.flush_searches(step.state.web_searches),
        step.state.deferred_text,
    );
}

} // verus!

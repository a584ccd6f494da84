//! What is passed on, what is collected on the way, and what is left at the end.

use crate::consistency::{is_consistent, is_sound_block, law_call_keeps_consistency};
use crate::downstream::{DeltaModel, Event};
use crate::index_map::ascending;
use crate::items::assistant_text;
use crate::json::JsonModel;
use crate::kinds::{law_kinds_are_told_apart, law_pieces_are_no_failure};
use crate::model::{
    deferred_events, BlockModel, DeferredModel, Outcome, State, Step, WebSearchModel,
};
use crate::protocol::{agrees, block_fits, Call, Client};
use crate::upstream::{
    addressed_index, event_kind, event_verdict, nested_str, spec_output_index, VerdictModel,
};
use vstd::prelude::*;

verus! {

/// Once the message has ended, no call sends anything, and none changes anything
/// but for taking the metadata.
pub proof fn law_finished_is_final(
    state: State,
    call: Call,
    payload: JsonModel,
    verdict: VerdictModel,
)
    requires
        state.finished,
    ensures
        state.called(call).events == Seq::<Event>::empty(),
        call !is TakeMetadata ==> state.called(call) == state.still(),
        state.accepted(payload, verdict) == (Outcome { step: state.still(), error: None }),
{
}

/// An event that fails the stream sends nothing, does not end the message, and
/// drops the metadata.
pub proof fn law_failure_sends_nothing(state: State, payload: JsonModel, verdict: VerdictModel)
    requires
        state.accepted(payload, verdict).error is Some,
    ensures
        state.accepted(payload, verdict).step.events == Seq::<Event>::empty(),
        state.accepted(payload, verdict).step.state.metadata is None,
        !state.accepted(payload, verdict).step.state.finished,
{
}

/// The same state without metadata.
pub open spec fn plain(state: State) -> State {
    State { metadata: None, ..state }
}

spec fn plain_step(step: Step) -> Step {
    Step { state: plain(step.state), ..step }
}

/// A step that took no metadata along is another one without its metadata.
spec fn hides(marked: Step, unmarked: Step) -> bool {
    unmarked == plain_step(marked)
}

proof fn lemma_plain_close_thinking(step: Step)
    ensures
        plain_step(step).close_thinking() == plain_step(step.close_thinking()),
{
}

proof fn lemma_plain_start(step: Step)
    ensures
        plain_step(step).start_message() == plain_step(step.start_message()),
{
}

proof fn lemma_plain_output_item_added(step: Step, payload: JsonModel)
    ensures
        plain_step(step).output_item_added(payload) == plain_step(step.output_item_added(payload)),
{
    match payload.get("item"@) {
        None => {},
        Some(item) => {
            let output_index = spec_output_index(payload);
            let kind = item.text_at("type"@);
            let noted = match step.state.metadata {
                Some(metadata) if kind == "message"@ || kind == "function_call"@ => {
                    step.with_metadata(Some(metadata.opened(output_index)))
                },
                _ => step,
            };
            assert(plain_step(noted) == plain_step(step));
            lemma_plain_close_thinking(noted);
        },
    }
}

proof fn lemma_plain_text_delta(step: Step, payload: JsonModel)
    ensures
        plain_step(step).text_delta(payload) == plain_step(step.text_delta(payload)),
{
    lemma_plain_close_thinking(step);
    let ready = step.close_thinking();
    let delta = payload.text_at("delta"@);
    if delta.len() > 0 {
        let address = ready.state.text_address(payload);
        let output_index = match address {
            Some(index) => index,
            None => 0,
        };
        let open = if ready.state.blocks.contains_key(output_index) {
            ready.semantic()
        } else {
            ready.semantic().open_text_block(output_index)
        };
        let plain_open = if ready.state.blocks.contains_key(output_index) {
            plain_step(ready).semantic()
        } else {
            plain_step(ready).semantic().open_text_block(output_index)
        };
        assert(plain_open == plain_step(open));
        assert(plain_step(open).append_text(output_index, address is Some, delta) == plain_step(
            open.append_text(output_index, address is Some, delta),
        ));
    }
}

proof fn lemma_plain_tool_piece(
    step: Step,
    output_index: usize,
    index: nat,
    call_id: Seq<char>,
    name: Seq<char>,
    args: Seq<char>,
    buffered: bool,
    emitted_args: bool,
    delta: Seq<char>,
)
    ensures
        ({
            let marked = step.tool_piece(
                output_index,
                index,
                call_id,
                name,
                args,
                buffered,
                emitted_args,
                delta,
            );
            plain_step(step).tool_piece(
                output_index,
                index,
                call_id,
                name,
                args,
                buffered,
                emitted_args,
                delta,
            ) == (Outcome { step: plain_step(marked.step), error: marked.error })
        }),
{
}

proof fn lemma_plain_reasoning_done(step: Step, output_index: usize, item: JsonModel)
    ensures
        plain_step(step).reasoning_done(output_index, item) == plain_step(
            step.reasoning_done(output_index, item),
        ),
{
    let known = Step { state: step.state.with_reasoning(output_index, item), ..step };
    lemma_plain_close_thinking(known);
}

proof fn lemma_plain_block_done(step: Step, output_index: usize, item: Option<JsonModel>)
    ensures
        plain_step(step).block_done(output_index, item) == plain_step(
            step.block_done(output_index, item),
        ),
{
}

proof fn lemma_plain_close_blocks(step: Step, order: Seq<usize>)
    ensures
        plain_step(step).close_blocks(order) == plain_step(step.close_blocks(order)),
    decreases order.len(),
{
    if order.len() > 0 {
        assert(plain_step(step).close_block(order.first()) == plain_step(
            step.close_block(order.first()),
        ));
        lemma_plain_close_blocks(step.close_block(order.first()), order.drop_first());
    }
}

proof fn lemma_plain_flush_searches(step: Step, searches: Seq<WebSearchModel>)
    ensures
        plain_step(step).flush_searches(searches) == plain_step(step.flush_searches(searches)),
    decreases searches.len(),
{
    if searches.len() > 0 {
        let sent = step.start_message().emit_all(step.state.search_events(searches.first()));
        assert(plain_step(step).state.search_events(searches.first()) == step.state.search_events(
            searches.first(),
        ));
        assert(plain_step(step).start_message().emit_all(
            step.state.search_events(searches.first()),
        ) == plain_step(sent));
        lemma_plain_flush_searches(sent, searches.drop_first());
    }
}

proof fn lemma_plain_flush_texts(step: Step, texts: Seq<DeferredModel>)
    ensures
        plain_step(step).flush_texts(texts) == plain_step(step.flush_texts(texts)),
    decreases texts.len(),
{
    if texts.len() > 0 {
        let sent = step.emit_all(deferred_events(texts.first()));
        assert(plain_step(step).emit_all(deferred_events(texts.first())) == plain_step(sent));
        lemma_plain_flush_texts(sent, texts.drop_first());
    }
}

proof fn lemma_plain_close_open_blocks(step: Step)
    ensures
        plain_step(step).close_open_blocks() == plain_step(step.close_open_blocks()),
{
    lemma_plain_close_thinking(step);
    let ready = step.close_thinking();
    lemma_plain_close_blocks(ready, ascending(ready.state.blocks.dom()));
}

proof fn lemma_plain_emit_web_searches(step: Step)
    ensures
        plain_step(step).emit_web_searches() == plain_step(step.emit_web_searches()),
{
    let cleared = Step {
        state: State {
            web_searches: Seq::empty(),
            deferred_text: Seq::empty(),
            ..step.state
        },
        ..step
    };
    lemma_plain_flush_searches(cleared, step.state.web_searches);
    lemma_plain_flush_texts(
        cleared.flush_searches(step.state.web_searches),
        step.state.deferred_text,
    );
}

/// The state and the events at the end of a response, but for the metadata.
spec fn ending(step: Step) -> Step {
    step.close_thinking().close_open_blocks().emit_web_searches().start_message()
}

proof fn lemma_plain_ending(step: Step)
    ensures
        ending(plain_step(step)) == plain_step(ending(step)),
{
    lemma_plain_close_thinking(step);
    lemma_plain_close_open_blocks(step.close_thinking());
    lemma_plain_emit_web_searches(step.close_thinking().close_open_blocks());
    lemma_plain_start(step.close_thinking().close_open_blocks().emit_web_searches());
}

proof fn lemma_plain_finish(step: Step, payload: JsonModel, verdict: VerdictModel)
    ensures
        plain_step(step).finish(payload, verdict) == plain_step(step.finish(payload, verdict)),
{
    let noted = step.with_metadata(
        match step.state.metadata {
            Some(metadata) if metadata.open_blocks == Set::<usize>::empty() => Some(
                metadata.terminated(verdict.complete, nested_str(payload, "response"@, "id"@)),
            ),
            _ => None,
        },
    );
    assert(plain_step(noted) == plain_step(step));
    lemma_plain_ending(noted);
    assert(plain_step(step).with_metadata(None) == plain_step(step));
}

proof fn lemma_plain_reasoning_delta(step: Step, payload: JsonModel)
    ensures
        plain_step(step).reasoning_delta(payload) == plain_step(step.reasoning_delta(payload)),
{
    lemma_plain_close_thinking(step.semantic());
}

proof fn lemma_plain_web_search_done(step: Step, item: JsonModel)
    ensures
        plain_step(step).web_search_done(item) == plain_step(step.web_search_done(item)),
{
    lemma_plain_close_thinking(step);
}

proof fn lemma_plain_tool_delta(step: Step, payload: JsonModel)
    ensures
        plain_step(step).tool_delta(payload).error == step.tool_delta(payload).error,
        plain_step(step).tool_delta(payload).step == plain_step(step.tool_delta(payload).step),
{
    let delta = payload.text_at("delta"@);
    match addressed_index(payload) {
        Some(output_index) if delta.len() > 0 => {
            let seen = step.semantic();
            assert(plain_step(step).semantic() == plain_step(seen));
            if seen.state.blocks.contains_key(output_index) {
                match seen.state.blocks[output_index] {
                    BlockModel::Text { .. } => {},
                    BlockModel::Tool {
                        index,
                        call_id,
                        name,
                        args,
                        had_delta: _,
                        buffered,
                        emitted_args,
                    } => {
                        lemma_plain_tool_piece(
                            seen,
                            output_index,
                            index,
                            call_id,
                            name,
                            args + delta,
                            buffered,
                            emitted_args,
                            delta,
                        );
                    },
                }
            }
        },
        _ => {},
    }
}

proof fn lemma_plain_output_item_done(step: Step, payload: JsonModel)
    ensures
        plain_step(step).output_item_done(payload) == plain_step(step.output_item_done(payload)),
{
    let output_index = spec_output_index(payload);
    lemma_plain_reasoning_done(step, output_index, payload.get("item"@)->0);
    lemma_plain_web_search_done(step, payload.get("item"@)->0);
    lemma_plain_block_done(step, output_index, payload.get("item"@));
}

proof fn lemma_plain_dispatch(step: Step, payload: JsonModel, verdict: VerdictModel)
    ensures
        plain_step(step).dispatch(payload, verdict).error == step.dispatch(payload, verdict).error,
        hides(
            step.dispatch(payload, verdict).step,
            plain_step(step).dispatch(payload, verdict).step,
        ),
{
    let kind = event_kind(payload);
    if kind == "response.function_call_arguments.delta"@ {
        lemma_plain_tool_delta(step, payload);
    } else if kind == "codex.rate_limits"@ || kind == "keepalive"@ || kind == "response.created"@
        || kind == "response.in_progress"@ {
        assert(plain_step(step).ping() == plain_step(step.ping()));
    } else if kind == "response.output_item.added"@ {
        lemma_plain_output_item_added(step, payload);
    } else if kind == "response.reasoning_summary_part.added"@ {
        assert(plain_step(step).summary_part(payload) == plain_step(step.summary_part(payload)));
    } else if kind == "response.reasoning_summary_text.delta"@ {
        lemma_plain_reasoning_delta(step, payload);
    } else if kind == "response.output_text.delta"@ {
        lemma_plain_text_delta(step, payload);
    } else if kind == "response.output_text.annotation.added"@ {
        assert(plain(step.state).with_citation(payload) == plain(
            step.state.with_citation(payload),
        ));
    } else if kind == "response.function_call_arguments.done"@ {
        assert(plain(step.state).with_arguments(payload) == plain(
            step.state.with_arguments(payload),
        ));
    } else if kind == "response.output_item.done"@ {
        lemma_plain_output_item_done(step, payload);
    } else if kind == "response.completed"@ || kind == "response.incomplete"@ || kind
        == "response.done"@ {
        lemma_plain_finish(step, payload, verdict);
    }
}

/// Collecting metadata does not show: an event makes a translator that collects
/// it send the same events, fail with the same error and end in the same state,
/// but for the metadata, as one that does not. And one that does not collect
/// metadata does not come to have any.
pub proof fn law_metadata_is_invisible(state: State, payload: JsonModel, verdict: VerdictModel)
    ensures
        plain(state).accepted(payload, verdict).error == state.accepted(payload, verdict).error,
        plain(state).accepted(payload, verdict).step.events == state.accepted(
            payload,
            verdict,
        ).step.events,
        plain(state).accepted(payload, verdict).step.state == plain(
            state.accepted(payload, verdict).step.state,
        ),
{
    assert(plain(state).still() == plain_step(state.still()));
    lemma_plain_dispatch(state.still(), payload, verdict);
}

proof fn lemma_plain_call(state: State, call: Call)
    ensures
        hides(state.called(call), plain(state).called(call)),
{
    assert(plain(state).still() == plain_step(state.still()));
    match call {
        Call::Accept { payload } => {
            law_metadata_is_invisible(state, payload, event_verdict(payload));
        },
        Call::Ping => {
            lemma_plain_start(state.still());
        },
        Call::EndAfterToolCall => {
            assert(state.still().with_metadata(None) == plain_step(state.still()));
            lemma_plain_close_thinking(plain_step(state.still()));
        },
        Call::Fail { .. } => {
            assert(state.still().with_metadata(None) == plain_step(state.still()));
            lemma_plain_close_open_blocks(plain_step(state.still()));
        },
        Call::TakeMetadata => {},
    }
}

/// Whatever is done with a translator, it sends the same whether or not it
/// collects metadata.
pub proof fn law_session_hides_metadata(state: State, calls: Seq<Call>)
    ensures
        plain(state).session(calls).events == state.session(calls).events,
        plain(state).session(calls).state == plain(state.session(calls).state),
    decreases calls.len(),
{
    if calls.len() > 0 {
        law_session_hides_metadata(state, calls.drop_last());
        lemma_plain_call(state.session(calls.drop_last()).state, calls.last());
    }
}

/// The text that is reported of an output is the text that the client has
/// received of it, where each of its pieces named the output.
pub proof fn law_reported_text_was_sent(
    state: State,
    payload: JsonModel,
    verdict: VerdictModel,
    client: Client,
    output_index: usize,
)
    requires
        agrees(state, client),
        !state.finished,
        state.accepted(payload, verdict).error is None,
        event_kind(payload) == "response.output_item.done"@,
        nested_str(payload, "item"@, "type"@) == Some("message"@),
        spec_output_index(payload) == output_index,
        state.blocks.contains_key(output_index),
        state.blocks[output_index] matches BlockModel::Text { text, deferred, .. } && !deferred
            && text.len() > 0,
        state.metadata matches Some(metadata) && metadata.open_blocks.contains(output_index)
            && !metadata.text_overrides.contains_key(output_index),
    ensures
        ({
            let index = state.blocks[output_index].index();
            let reported = state.accepted(payload, verdict).step.state.metadata->0.output_items;
            &&& client.open[index] is Text
            &&& reported[output_index] == assistant_text(client.open[index]->Text_0)
        }),
{
    law_kinds_are_told_apart(state.still(), payload, verdict);
    reveal_strlit("message");
    reveal_strlit("reasoning");
    reveal_strlit("web_search_call");
    assert("message"@.len() != "reasoning"@.len());
    assert("message"@.len() != "web_search_call"@.len());
    assert(block_fits(state.blocks[output_index], state.next_index, client));
}

/// Whether an event brings a piece of the tool call at an output index.
pub open spec fn is_piece(payload: JsonModel, output_index: usize) -> bool {
    &&& event_kind(payload) == "response.function_call_arguments.delta"@
    &&& addressed_index(payload) == Some(output_index)
    &&& payload.text_at("delta"@).len() > 0
}

/// Whether a call of a tool other than `Read` is open at an output index.
pub open spec fn is_direct_call(state: State, output_index: usize) -> bool {
    state.blocks.contains_key(output_index) && (
    state.blocks[output_index] matches BlockModel::Tool { name, .. } && name != "Read"@)
}

/// A piece of a call of a tool other than `Read` never fails, whatever the size
/// of the arguments. It is passed on as it comes, to the block of its call, and
/// the call stays open.
pub proof fn law_piece_passes_through(state: State, payload: JsonModel, output_index: usize)
    requires
        is_consistent(state),
        !state.finished,
        is_direct_call(state, output_index),
        is_piece(payload, output_index),
    ensures
        ({
            let block = state.blocks[output_index];
            let delta = payload.text_at("delta"@);
            let taken = state.accepted(payload, event_verdict(payload));
            let later = taken.step.state.blocks[output_index];
            &&& taken.error is None
            &&& taken.step.events == seq![
                Event::BlockDelta { index: block.index(), delta: DeltaModel::InputJson(delta) },
            ]
            &&& !taken.step.state.finished
            &&& is_direct_call(taken.step.state, output_index)
            &&& later.index() == block.index()
            &&& later->call_id == block->call_id
            &&& later->name == block->name
            &&& later->args == block->args + delta
        }),
{
    law_pieces_are_no_failure(payload);
    assert(is_sound_block(state.blocks[output_index]));
}

/// Some texts, one after the other.
pub open spec fn joined(texts: Seq<Seq<char>>) -> Seq<char>
    decreases texts.len(),
{
    if texts.len() == 0 {
        Seq::empty()
    } else {
        joined(texts.drop_last()) + texts.last()
    }
}

/// The pieces that some events bring.
pub open spec fn pieces(payloads: Seq<JsonModel>) -> Seq<Seq<char>> {
    payloads.map_values(|payload: JsonModel| payload.text_at("delta"@))
}

/// The calls that hand over some events.
pub open spec fn accepts(payloads: Seq<JsonModel>) -> Seq<Call> {
    payloads.map_values(|payload: JsonModel| Call::Accept { payload })
}

/// Whether a run has passed on some texts, each as one piece of a tool call, and
/// nothing else, and the call is still open.
pub open spec fn has_passed_on(
    block: BlockModel,
    run: Step,
    output_index: usize,
    texts: Seq<Seq<char>>,
) -> bool {
    let later = run.state.blocks[output_index];
    &&& run.events == texts.map_values(
        |text: Seq<char>|
            Event::BlockDelta { index: block.index(), delta: DeltaModel::InputJson(text) },
    )
    &&& !run.state.finished
    &&& is_direct_call(run.state, output_index)
    &&& later.index() == block.index()
    &&& later->call_id == block->call_id
    &&& later->name == block->name
    &&& later->args == block->args + joined(texts)
}

proof fn lemma_passed_on_more(
    block: BlockModel,
    run: Step,
    taken: Step,
    output_index: usize,
    texts: Seq<Seq<char>>,
    text: Seq<char>,
)
    requires
        has_passed_on(block, run, output_index, texts),
        taken.events == seq![
            Event::BlockDelta {
                index: run.state.blocks[output_index].index(),
                delta: DeltaModel::InputJson(text),
            },
        ],
        !taken.state.finished,
        is_direct_call(taken.state, output_index),
        taken.state.blocks[output_index].index() == run.state.blocks[output_index].index(),
        taken.state.blocks[output_index]->call_id == run.state.blocks[output_index]->call_id,
        taken.state.blocks[output_index]->name == run.state.blocks[output_index]->name,
        taken.state.blocks[output_index]->args == run.state.blocks[output_index]->args + text,
    ensures
        has_passed_on(
            block,
            (Step { state: taken.state, events: run.events + taken.events }),
            output_index,
            texts.push(text),
        ),
{
    assert(texts.push(text).drop_last() =~= texts);
    assert(block->args + joined(texts) + text =~= block->args + joined(texts.push(text)));
    assert(run.events + taken.events =~= texts.push(text).map_values(
        |text: Seq<char>|
            Event::BlockDelta { index: block.index(), delta: DeltaModel::InputJson(text) },
    ));
}

proof fn lemma_last_call(state: State, payloads: Seq<JsonModel>)
    requires
        payloads.len() > 0,
    ensures
        ({
            let run = state.session(accepts(payloads.drop_last()));
            let taken = run.state.called(Call::Accept { payload: payloads.last() });
            state.session(accepts(payloads)) == (Step {
                state: taken.state,
                events: run.events + taken.events,
            })
        }),
        pieces(payloads) == pieces(payloads.drop_last()).push(
            payloads.last().text_at("delta"@),
        ),
{
    assert(accepts(payloads).drop_last() =~= accepts(payloads.drop_last()));
}

/// For a run of pieces of a call of a tool other than `Read`, each piece is sent
/// as one event, with just this piece, and the arguments of the call grow by all
/// of them, in their order. The call stays open and the message goes on.
pub proof fn law_arguments_pass_through(
    state: State,
    payloads: Seq<JsonModel>,
    output_index: usize,
)
    requires
        is_consistent(state),
        !state.finished,
        is_direct_call(state, output_index),
        forall|i: int|
            0 <= i < payloads.len() ==> is_piece(#[trigger] payloads[i], output_index),
    ensures
        has_passed_on(
            state.blocks[output_index],
            state.session(accepts(payloads)),
            output_index,
            pieces(payloads),
        ),
        is_consistent(state.session(accepts(payloads)).state),
    decreases payloads.len(),
{
    if payloads.len() > 0 {
        let earlier = payloads.drop_last();
        let payload = payloads.last();
        law_arguments_pass_through(state, earlier, output_index);
        let run = state.session(accepts(earlier));
        law_piece_passes_through(run.state, payload, output_index);
        law_call_keeps_consistency(run.state, Call::Accept { payload });
        lemma_passed_on_more(
            state.blocks[output_index],
            run,
            run.state.called(Call::Accept { payload }),
            output_index,
            pieces(earlier),
            payload.text_at("delta"@),
        );
        lemma_last_call(state, payloads);
    } else {
        let block = state.blocks[output_index];
        assert(block->args + joined(pieces(payloads)) =~= block->args);
        assert(state.session(accepts(payloads)).events =~= pieces(payloads).map_values(
            |text: Seq<char>|
                Event::BlockDelta { index: block.index(), delta: DeltaModel::InputJson(text) },
        ));
    }
}

/// No piece in such a run fails, however long the arguments have become.
pub proof fn law_arguments_never_fail(
    state: State,
    payloads: Seq<JsonModel>,
    output_index: usize,
    i: int,
)
    requires
        is_consistent(state),
        !state.finished,
        is_direct_call(state, output_index),
        forall|j: int|
            0 <= j < payloads.len() ==> is_piece(#[trigger] payloads[j], output_index),
        0 <= i < payloads.len(),
    ensures
        state.session(accepts(payloads.take(i))).state.accepted(
            payloads[i],
            event_verdict(payloads[i]),
        ).error is None,
{
    law_arguments_pass_through(state, payloads.take(i), output_index);
    law_piece_passes_through(
        state.session(accepts(payloads.take(i))).state,
        payloads[i],
        output_index,
    );
}

/// The finish metadata can be taken once.
pub proof fn law_metadata_is_taken_once(state: State)
    ensures
        plain(state).finish_report() is None,
{
}

} // verus!

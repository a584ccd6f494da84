//! What a client has received in each block over a whole session, against what
//! the upstream events brought for it.

use crate::answers::{
    end_of_thinking, is_taken, law_empty_pieces_bring_nothing, law_summary_parts_are_set_off,
    law_thinking_is_sent, start_of_message,
};
use crate::downstream::{DeltaModel, Event};
use crate::index_map::ascending;
use crate::json::JsonModel;
use crate::kinds::{is_answer, is_end, is_sign_of_life};
use crate::model::{deferred_events, DeferredModel, State, Step, WebSearchModel};
use crate::protocol::Call;
use crate::upstream::{event_kind, event_verdict, nested_str, spec_output_index, VerdictModel};
use vstd::prelude::*;

verus! {

/// What the prose of a message is written in.
pub enum Prose {
    Text,
    Thinking,
}

/// The piece of prose that an event adds to a block.
pub open spec fn piece_of(event: Event, prose: Prose, index: nat) -> Seq<char> {
    match event {
        Event::BlockDelta { index: filled, delta } => if filled != index {
            Seq::empty()
        } else {
            match (prose, delta) {
                (Prose::Text, DeltaModel::Text(text)) => text,
                (Prose::Thinking, DeltaModel::Thinking(text)) => text,
                _ => Seq::empty(),
            }
        },
        _ => Seq::empty(),
    }
}

/// The prose that some events add to a block, as one.
pub open spec fn received(events: Seq<Event>, prose: Prose, index: nat) -> Seq<char>
    decreases events.len(),
{
    if events.len() == 0 {
        Seq::empty()
    } else {
        received(events.drop_last(), prose, index) + piece_of(events.last(), prose, index)
    }
}

pub proof fn lemma_push(events: Seq<Event>, event: Event, prose: Prose, index: nat)
    ensures
        received(events.push(event), prose, index) == received(events, prose, index) + piece_of(
            event,
            prose,
            index,
        ),
{
    assert(events.push(event).drop_last() =~= events);
}

pub proof fn lemma_concat(first: Seq<Event>, second: Seq<Event>, prose: Prose, index: nat)
    ensures
        received(first + second, prose, index) == received(first, prose, index) + received(
            second,
            prose,
            index,
        ),
    decreases second.len(),
{
    if second.len() == 0 {
        assert(first + second =~= first);
        assert(received(first, prose, index) + received(second, prose, index) =~= received(
            first,
            prose,
            index,
        ));
    } else {
        lemma_concat(first, second.drop_last(), prose, index);
        assert((first + second).drop_last() =~= first + second.drop_last());
        assert((first + second).last() == second.last());
        assert(received(first + second, prose, index) =~= received(first, prose, index) + received(
            second,
            prose,
            index,
        ));
    }
}

/// Whether no event adds prose of a sort.
pub open spec fn has_none(events: Seq<Event>, prose: Prose) -> bool {
    forall|i: int|
        0 <= i < events.len() ==> match (#[trigger] events[i], prose) {
            (Event::BlockDelta { delta: DeltaModel::Text(_), .. }, Prose::Text) => false,
            (Event::BlockDelta { delta: DeltaModel::Thinking(_), .. }, Prose::Thinking) => false,
            _ => true,
        }
}

pub proof fn lemma_none(events: Seq<Event>, prose: Prose, index: nat)
    requires
        has_none(events, prose),
    ensures
        received(events, prose, index) == Seq::<char>::empty(),
    decreases events.len(),
{
    if events.len() > 0 {
        let rest = events.drop_last();
        assert forall|i: int| 0 <= i < rest.len() implies match (#[trigger] rest[i], prose) {
            (Event::BlockDelta { delta: DeltaModel::Text(_), .. }, Prose::Text) => false,
            (Event::BlockDelta { delta: DeltaModel::Thinking(_), .. }, Prose::Thinking) => false,
            _ => true,
        } by {
            assert(rest[i] == events[i]);
        }
        lemma_none(rest, prose, index);
        assert(events[events.len() - 1] == events.last());
        assert(received(events, prose, index) =~= Seq::empty());
    }
}

/// Steps that add no prose of a sort.
pub open spec fn is_silent(before: Step, after: Step, prose: Prose) -> bool {
    has_none(before.events, prose) ==> has_none(after.events, prose)
}

pub proof fn lemma_close_thinking(step: Step, prose: Prose)
    ensures
        is_silent(step, step.close_thinking(), prose),
{
}

pub proof fn lemma_start_message(step: Step, prose: Prose)
    ensures
        is_silent(step, step.start_message(), prose),
{
}

pub proof fn lemma_output_item_added(step: Step, payload: JsonModel, prose: Prose)
    ensures
        is_silent(step, step.output_item_added(payload), prose),
{
    match payload.get("item"@) {
        None => {},
        Some(item) => {
            let output_index = spec_output_index(payload);
            let kind = item.text_at("type"@);
            let noted = match step.state.metadata {
                Some(metadata) if kind == "message"@ || kind == "function_call"@ => {
                    step.with_metadata(Some(metadata.opened(output_index)))
                },
                _ => step,
            };
            lemma_close_thinking(noted, prose);
        },
    }
}

proof fn lemma_text_delta_brings_no_thinking(step: Step, payload: JsonModel)
    ensures
        is_silent(step, step.text_delta(payload), Prose::Thinking),
{
    lemma_close_thinking(step, Prose::Thinking);
}

pub proof fn lemma_reasoning_delta_brings_no_text(step: Step, payload: JsonModel)
    ensures
        is_silent(step, step.reasoning_delta(payload), Prose::Text),
{
    lemma_close_thinking(step.semantic(), Prose::Text);
}

pub proof fn lemma_tool_delta(step: Step, payload: JsonModel, prose: Prose)
    ensures
        is_silent(step, step.tool_delta(payload).step, prose),
{
}

pub proof fn lemma_reasoning_done(step: Step, output_index: usize, item: JsonModel, prose: Prose)
    ensures
        is_silent(step, step.reasoning_done(output_index, item), prose),
{
    let known = Step { state: step.state.with_reasoning(output_index, item), ..step };
    lemma_close_thinking(known, prose);
}

pub proof fn lemma_block_done(step: Step, output_index: usize, item: Option<JsonModel>, prose: Prose)
    ensures
        is_silent(step, step.block_done(output_index, item), prose),
{
}

pub proof fn lemma_output_item_done(step: Step, payload: JsonModel, prose: Prose)
    ensures
        is_silent(step, step.output_item_done(payload), prose),
{
    let output_index = spec_output_index(payload);
    lemma_reasoning_done(step, output_index, payload.get("item"@)->0, prose);
    lemma_close_thinking(step, prose);
    lemma_block_done(step, output_index, payload.get("item"@), prose);
}

proof fn lemma_close_blocks(step: Step, order: Seq<usize>, prose: Prose)
    ensures
        is_silent(step, step.close_blocks(order), prose),
    decreases order.len(),
{
    if order.len() > 0 {
        assert(is_silent(step, step.close_block(order.first()), prose));
        lemma_close_blocks(step.close_block(order.first()), order.drop_first(), prose);
    }
}

pub proof fn lemma_close_open_blocks(step: Step, prose: Prose)
    ensures
        is_silent(step, step.close_open_blocks(), prose),
{
    lemma_close_thinking(step, prose);
    let ready = step.close_thinking();
    lemma_close_blocks(ready, ascending(ready.state.blocks.dom()), prose);
}

proof fn lemma_flush_searches(step: Step, searches: Seq<WebSearchModel>, prose: Prose)
    ensures
        is_silent(step, step.flush_searches(searches), prose),
    decreases searches.len(),
{
    if searches.len() > 0 {
        let sent = step.start_message().emit_all(step.state.search_events(searches.first()));
        assert(is_silent(step, sent, prose));
        lemma_flush_searches(sent, searches.drop_first(), prose);
    }
}

proof fn lemma_flush_texts_brings_no_thinking(step: Step, texts: Seq<DeferredModel>)
    ensures
        is_silent(step, step.flush_texts(texts), Prose::Thinking),
    decreases texts.len(),
{
    if texts.len() > 0 {
        let sent = step.emit_all(deferred_events(texts.first()));
        assert(is_silent(step, sent, Prose::Thinking));
        lemma_flush_texts_brings_no_thinking(sent, texts.drop_first());
    }
}

proof fn lemma_finish_brings_no_thinking(step: Step, payload: JsonModel, verdict: VerdictModel)
    ensures
        is_silent(step, step.finish(payload, verdict), Prose::Thinking),
{
    let prose = Prose::Thinking;
    let noted = step.with_metadata(
        match step.state.metadata {
            Some(metadata) if metadata.open_blocks == Set::<usize>::empty() => Some(
                metadata.terminated(verdict.complete, nested_str(payload, "response"@, "id"@)),
            ),
            _ => None,
        },
    );
    lemma_close_thinking(noted, prose);
    lemma_close_open_blocks(noted.close_thinking(), prose);
    let closed = noted.close_thinking().close_open_blocks();
    let cleared = Step {
        state: State {
            web_searches: Seq::empty(),
            deferred_text: Seq::empty(),
            ..closed.state
        },
        ..closed
    };
    lemma_flush_searches(cleared, closed.state.web_searches, prose);
    lemma_flush_texts_brings_no_thinking(
        cleared.flush_searches(closed.state.web_searches),
        closed.state.deferred_text,
    );
    lemma_start_message(closed.emit_web_searches(), prose);
}

/// Events that bring no reasoning send no thinking.
proof fn lemma_dispatch_without_thinking(step: Step, payload: JsonModel, verdict: VerdictModel)
    requires
        event_kind(payload) != "response.reasoning_summary_part.added"@,
        event_kind(payload) != "response.reasoning_summary_text.delta"@,
    ensures
        is_silent(step, step.dispatch(payload, verdict).step, Prose::Thinking),
{
    let kind = event_kind(payload);
    let prose = Prose::Thinking;
    if kind == "response.function_call_arguments.delta"@ {
        lemma_tool_delta(step, payload, prose);
    } else if is_sign_of_life(payload) {
        lemma_start_message(step, prose);
    } else if kind == "response.output_item.added"@ {
        lemma_output_item_added(step, payload, prose);
    } else if kind == "response.output_text.delta"@ {
        lemma_text_delta_brings_no_thinking(step, payload);
    } else if kind == "response.output_item.done"@ {
        lemma_output_item_done(step, payload, prose);
    } else if is_end(payload) {
        lemma_finish_brings_no_thinking(step, payload, verdict);
    }
}

/// The thinking that a call brings for a block: a piece of a reasoning summary
/// goes to the open thinking block of its output, or else to the next block; a
/// part of a summary that begins while that block is open adds an empty line.
pub open spec fn thinking_brought(state: State, call: Call, index: nat) -> Seq<char> {
    match call {
        Call::Accept { payload } => {
            let piece = payload.text_at("delta"@);
            let is_open = state.thinking matches Some(thinking) && thinking.output_index
                == spec_output_index(payload);
            let block = if is_open {
                state.thinking->0.index
            } else {
                state.next_index
            };
            if !is_taken(state, payload, event_verdict(payload)) || index != block {
                Seq::empty()
            } else if event_kind(payload) == "response.reasoning_summary_text.delta"@ {
                piece
            } else if event_kind(payload) == "response.reasoning_summary_part.added"@ && is_open {
                seq!['\n', '\n']
            } else {
                Seq::empty()
            }
        },
        _ => Seq::empty(),
    }
}

/// The thinking that a run of calls brings for a block.
pub open spec fn all_thinking_brought(start: State, calls: Seq<Call>, index: nat) -> Seq<char>
    decreases calls.len(),
{
    if calls.len() == 0 {
        Seq::empty()
    } else {
        all_thinking_brought(start, calls.drop_last(), index) + thinking_brought(
            start.session(calls.drop_last()).state,
            calls.last(),
            index,
        )
    }
}

pub proof fn lemma_end_of_thinking(state: State, prose: Prose)
    ensures
        has_none(end_of_thinking(state), prose),
        has_none(start_of_message(state), prose),
        has_none(end_of_thinking(state) + start_of_message(state), prose),
{
}

proof fn lemma_thinking_call(state: State, call: Call, index: nat)
    ensures
        received(state.called(call).events, Prose::Thinking, index) == thinking_brought(
            state,
            call,
            index,
        ),
{
    let prose = Prose::Thinking;
    let still = state.still();
    let quiet = still.with_metadata(None);
    match call {
        Call::Accept { payload } => {
            let verdict = event_verdict(payload);
            let kind = event_kind(payload);
            if !is_taken(state, payload, verdict) {
                lemma_untaken(state, payload, verdict);
                lemma_none(state.called(call).events, prose, index);
            } else if kind == "response.reasoning_summary_text.delta"@ {
                reveal(is_answer);
                lemma_thinking_piece(state, payload, verdict, state.called(call), index);
            } else if kind == "response.reasoning_summary_part.added"@ {
                reveal(is_answer);
                law_summary_parts_are_set_off(state, payload, verdict, state.called(call));
                let events = state.called(call).events;
                let none = Seq::<Event>::empty();
                if events.len() > 0 {
                    assert(events =~= none.push(events[0]));
                    lemma_push(none, events[0], prose, index);
                    assert(Seq::<char>::empty() + seq!['\n', '\n'] =~= seq!['\n', '\n']);
                }
                reveal_strlit("response.reasoning_summary_part.added");
                reveal_strlit("response.reasoning_summary_text.delta");
                assert("response.reasoning_summary_part.added"@[27]
                    != "response.reasoning_summary_text.delta"@[27]);
            } else {
                lemma_dispatch_without_thinking(still, payload, verdict);
                lemma_none(state.called(call).events, prose, index);
            }
        },
        Call::Ping => {
            lemma_start_message(still, prose);
            lemma_none(state.called(call).events, prose, index);
        },
        Call::EndAfterToolCall => {
            lemma_close_thinking(quiet, prose);
            lemma_start_message(quiet.close_thinking(), prose);
            lemma_none(state.called(call).events, prose, index);
        },
        Call::Fail { .. } => {
            lemma_close_open_blocks(quiet, prose);
            lemma_start_message(quiet.close_open_blocks(), prose);
            lemma_none(state.called(call).events, prose, index);
        },
        Call::TakeMetadata => {
            lemma_none(state.called(call).events, prose, index);
        },
    }
}

/// What is not taken sends nothing.
pub proof fn lemma_untaken(state: State, payload: JsonModel, verdict: VerdictModel)
    requires
        !is_taken(state, payload, verdict),
    ensures
        state.accepted(payload, verdict).step.events == Seq::<Event>::empty(),
{
}

proof fn lemma_thinking_piece(
    state: State,
    payload: JsonModel,
    verdict: VerdictModel,
    taken: Step,
    index: nat,
)
    requires
        is_answer(state, payload, verdict, taken),
        is_taken(state, payload, verdict),
        event_kind(payload) == "response.reasoning_summary_text.delta"@,
        verdict == event_verdict(payload),
    ensures
        received(taken.events, Prose::Thinking, index)
            == thinking_brought(state, Call::Accept { payload }, index),
{
    let prose = Prose::Thinking;
    let events = taken.events;
    let piece = payload.text_at("delta"@);
    let none = Seq::<Event>::empty();
    assert(Seq::<char>::empty() + piece =~= piece);
    assert(Seq::<char>::empty() + Seq::<char>::empty() =~= Seq::<char>::empty());
    if piece.len() == 0 {
        law_empty_pieces_bring_nothing(state, payload, verdict, taken);
        assert(events == none);
        assert(piece =~= Seq::empty());
    } else {
        law_thinking_is_sent(state, payload, verdict, taken);
        if state.thinking matches Some(thinking) && thinking.output_index == spec_output_index(
            payload,
        ) {
            assert(events =~= none.push(events[0]));
            lemma_push(none, events[0], prose, index);
        } else {
            let head = end_of_thinking(state) + start_of_message(state);
            let start = events[head.len() as int];
            let last = events.last();
            assert(events =~= head.push(start).push(last));
            lemma_end_of_thinking(state, prose);
            lemma_none(head, prose, index);
            lemma_push(head, start, prose, index);
            lemma_push(head.push(start), last, prose, index);
        }
    }
}

/// Over a session the thinking that a client has received in a block, as one, is
/// what the reasoning summaries brought for it: their pieces in order, with an
/// empty line where a new part begins while the block is open.
pub proof fn law_thinking_is_received(start: State, calls: Seq<Call>, index: nat)
    ensures
        received(start.session(calls).events, Prose::Thinking, index) == all_thinking_brought(
            start,
            calls,
            index,
        ),
    decreases calls.len(),
{
    if calls.len() > 0 {
        law_thinking_is_received(start, calls.drop_last(), index);
        let before = start.session(calls.drop_last());
        lemma_thinking_call(before.state, calls.last(), index);
        lemma_concat(
            before.events,
            before.state.called(calls.last()).events,
            Prose::Thinking,
            index,
        );
    }
}

} // verus!

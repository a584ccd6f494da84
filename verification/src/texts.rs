//! The text that a client has received in each block over a whole response,
//! against the pieces that the upstream events brought for it.

use crate::answers::{
    end_of_thinking, is_taken, law_empty_pieces_bring_nothing, law_message_is_opened,
    law_text_is_sent, named_output, start_of_message,
};
use crate::completion::{
    ends_of, ends_output, law_response_end_is_answered, law_stop_reason, law_text_is_ended,
    response_body, waiting_texts,
};
use crate::consistency::law_session_is_consistent;
use crate::downstream::{ContentBlockModel, DeltaModel, Event};
use crate::index_map::{ascending, is_ascending, lemma_ascending};
use crate::json::JsonModel;
use crate::kinds::{is_answer, is_end, is_sign_of_life, law_kinds_are_told_apart};
use crate::laws::plain;
use crate::model::{deferred_events, BlockModel, DeferredModel, State, Step, WebSearchModel};
use crate::progress::{all_deferred_events, all_search_events, law_call_keeps_progress};
use crate::protocol::{
    adds_block, after, agrees, block_fits, is_unclaimed, lemma_new_agrees, lemma_session_is_legal,
    replaces_nothing, session_replaces_nothing, tracks, Call, Client,
};
use crate::received::{
    has_none, lemma_concat, lemma_end_of_thinking, lemma_none, lemma_output_item_added,
    lemma_output_item_done, lemma_push, lemma_reasoning_delta_brings_no_text, lemma_start_message,
    lemma_tool_delta, lemma_untaken, received, Prose,
};
use crate::upstream::{
    event_kind, event_verdict, nested_str, spec_output_index, IncompleteResponsePolicy,
    VerdictModel,
};
use vstd::prelude::*;

verus! {

/// The block that a piece of text goes to: that of the text which is open at the
/// output that the piece names, or at the first output where it names none, or
/// else the next block. Where a tool call is open there, it goes nowhere.
pub open spec fn block_of_piece(state: State, payload: JsonModel) -> Option<nat> {
    let output_index: usize = match named_output(state, payload) {
        Some(index) => index,
        None => 0,
    };
    if !state.blocks.contains_key(output_index) {
        Some(state.next_index)
    } else {
        match state.blocks[output_index] {
            BlockModel::Text { index, .. } => Some(index),
            BlockModel::Tool { .. } => None,
        }
    }
}

/// The text that a call brings for a block.
pub open spec fn text_brought(state: State, call: Call, index: nat) -> Seq<char> {
    match call {
        Call::Accept { payload } => if is_taken(state, payload, event_verdict(payload))
            && event_kind(payload) == "response.output_text.delta"@ && block_of_piece(
            state,
            payload,
        ) == Some(index) {
            payload.text_at("delta"@)
        } else {
            Seq::empty()
        },
        _ => Seq::empty(),
    }
}

/// The text that a run of calls brings for a block.
pub open spec fn all_text_brought(start: State, calls: Seq<Call>, index: nat) -> Seq<char>
    decreases calls.len(),
{
    if calls.len() == 0 {
        Seq::empty()
    } else {
        all_text_brought(start, calls.drop_last(), index) + text_brought(
            start.session(calls.drop_last()).state,
            calls.last(),
            index,
        )
    }
}

/// Whether the text of a block waits for web searches.
spec fn waits(state: State, index: nat) -> bool {
    ||| exists|k: usize| #[trigger]
        state.blocks.contains_key(k) && state.blocks[k].is_deferred() && state.blocks[k].index()
            == index
    ||| exists|i: int|
        0 <= i < state.deferred_text.len() && (#[trigger] state.deferred_text[i]).index == index
}

/// Whether what is kept and what was sent of the texts match what was brought
/// for each block.
spec fn texts_match(state: State, events: Seq<Event>, brought: spec_fn(nat) -> Seq<char>) -> bool {
    &&& forall|k: usize| #[trigger]
        state.blocks.contains_key(k) && state.blocks[k] is Text ==> state.blocks[k]->Text_text
            == brought(state.blocks[k].index())
    &&& forall|i: int|
        0 <= i < state.deferred_text.len() ==> (#[trigger] state.deferred_text[i]).text == brought(
            state.deferred_text[i].index,
        )
    &&& forall|n: nat| #[trigger]
        received(events, Prose::Text, n) == if waits(state, n) {
            Seq::empty()
        } else {
            brought(n)
        }
    &&& forall|n: nat| n >= state.next_index ==> #[trigger] brought(n) == Seq::<char>::empty()
}

/// The same texts are open and wait.
spec fn same_texts(before: State, after: State) -> bool {
    &&& after.deferred_text == before.deferred_text
    &&& before.next_index <= after.next_index
    &&& forall|k: usize| #[trigger]
        before.blocks.contains_key(k) && before.blocks[k] is Text ==> after.blocks.contains_key(k)
            && after.blocks[k] == before.blocks[k]
    &&& forall|k: usize| #[trigger]
        after.blocks.contains_key(k) && after.blocks[k] is Text ==> before.blocks.contains_key(k)
            && after.blocks[k] == before.blocks[k]
}

proof fn lemma_same_waits(before: State, after: State, index: nat)
    requires
        same_texts(before, after),
    ensures
        waits(after, index) == waits(before, index),
{
    if exists|k: usize| #[trigger]
        before.blocks.contains_key(k) && before.blocks[k].is_deferred() && before.blocks[k].index()
            == index {
        let k = choose|k: usize| #[trigger]
            before.blocks.contains_key(k) && before.blocks[k].is_deferred()
                && before.blocks[k].index() == index;
        assert(after.blocks.contains_key(k));
    }
    if exists|k: usize| #[trigger]
        after.blocks.contains_key(k) && after.blocks[k].is_deferred() && after.blocks[k].index()
            == index {
        let k = choose|k: usize| #[trigger]
            after.blocks.contains_key(k) && after.blocks[k].is_deferred()
                && after.blocks[k].index() == index;
        assert(before.blocks.contains_key(k));
    }
}

/// A step that neither brings nor changes a text.
proof fn lemma_aside(
    state: State,
    events: Seq<Event>,
    taken: Step,
    brought: spec_fn(nat) -> Seq<char>,
)
    requires
        texts_match(state, events, brought),
        same_texts(state, taken.state),
        has_none(taken.events, Prose::Text),
    ensures
        texts_match(taken.state, events + taken.events, brought),
{
    assert forall|n: nat| #[trigger]
        received(events + taken.events, Prose::Text, n) == if waits(taken.state, n) {
            Seq::empty()
        } else {
            brought(n)
        } by {
        lemma_concat(events, taken.events, Prose::Text, n);
        lemma_none(taken.events, Prose::Text, n);
        lemma_same_waits(state, taken.state, n);
        assert(received(events + taken.events, Prose::Text, n) =~= received(
            events,
            Prose::Text,
            n,
        ));
    }
}

proof fn lemma_reasoning_delta(step: Step, payload: JsonModel)
    ensures
        same_texts(step.state, step.reasoning_delta(payload).state),
{
}

proof fn lemma_tool_delta_keeps_texts(step: Step, payload: JsonModel)
    ensures
        same_texts(step.state, step.tool_delta(payload).step.state),
{
}

proof fn lemma_reasoning_done_keeps_texts(step: Step, output_index: usize, item: JsonModel)
    ensures
        same_texts(step.state, step.reasoning_done(output_index, item).state),
{
}

proof fn lemma_block_done_keeps_texts(step: Step, output_index: usize, item: Option<JsonModel>)
    requires
        !(step.state.blocks.contains_key(output_index) && step.state.blocks[output_index] is Text),
    ensures
        same_texts(step.state, step.block_done(output_index, item).state),
{
}

proof fn lemma_output_item_added_keeps_texts(step: Step, payload: JsonModel)
    requires
        adds_block(payload) ==> !step.state.blocks.contains_key(spec_output_index(payload)),
        !(payload.get("item"@) matches Some(item) && item.text_at("type"@) == "message"@),
    ensures
        same_texts(step.state, step.output_item_added(payload).state),
{
}

/// Whether an event is about a text: a piece of one, its beginning or its end.
spec fn is_about_text(state: State, payload: JsonModel) -> bool {
    ||| event_kind(payload) == "response.output_text.delta"@
    ||| event_kind(payload) == "response.output_item.added"@ && (payload.get(
        "item"@,
    ) matches Some(item) && item.text_at("type"@) == "message"@)
    ||| ends_output(payload) && state.blocks.contains_key(spec_output_index(payload))
        && state.blocks[spec_output_index(payload)] is Text
    ||| is_end(payload)
}

proof fn lemma_dispatch_aside(state: State, payload: JsonModel, verdict: VerdictModel)
    requires
        replaces_nothing(state, payload),
        !is_about_text(state, payload),
    ensures
        ({
            let taken = state.still().dispatch(payload, verdict).step;
            same_texts(state, taken.state) && has_none(taken.events, Prose::Text)
        }),
{
    let still = state.still();
    let kind = event_kind(payload);
    let prose = Prose::Text;
    if kind == "response.function_call_arguments.delta"@ {
        lemma_tool_delta_keeps_texts(still, payload);
        lemma_tool_delta(still, payload, prose);
    } else if is_sign_of_life(payload) {
        lemma_start_message(still, prose);
    } else if kind == "response.output_item.added"@ {
        lemma_output_item_added_keeps_texts(still, payload);
        lemma_output_item_added(still, payload, prose);
    } else if kind == "response.reasoning_summary_part.added"@ {
        assert(has_none(still.summary_part(payload).events, prose));
    } else if kind == "response.reasoning_summary_text.delta"@ {
        lemma_reasoning_delta(still, payload);
        lemma_reasoning_delta_brings_no_text(still, payload);
    } else if kind == "response.output_text.annotation.added"@ {
        assert(same_texts(state, state.with_citation(payload)));
    } else if kind == "response.function_call_arguments.done"@ {
        assert(same_texts(state, state.with_arguments(payload)));
    } else if kind == "response.output_item.done"@ {
        let output_index = spec_output_index(payload);
        lemma_output_item_done(still, payload, prose);
        if nested_str(payload, "item"@, "type"@) == Some("reasoning"@) {
            lemma_reasoning_done_keeps_texts(still, output_index, payload.get("item"@)->0);
        } else if nested_str(payload, "item"@, "type"@) == Some("web_search_call"@) {
            assert(same_texts(state, still.web_search_done(payload.get("item"@)->0).state));
        } else {
            lemma_block_done_keeps_texts(still, output_index, payload.get("item"@));
        }
    }
}

/// The text that is open at an output, or else the one that would begin there.
spec fn text_at_output(state: State, output_index: usize) -> BlockModel {
    if state.blocks.contains_key(output_index) {
        state.blocks[output_index]
    } else {
        BlockModel::Text {
            index: state.next_index,
            text: Seq::empty(),
            deferred: state.web_searches.len() > 0,
        }
    }
}

spec fn output_of_piece(state: State, payload: JsonModel) -> usize {
    match named_output(state, payload) {
        Some(index) => index,
        None => 0,
    }
}

proof fn lemma_piece(
    state: State,
    payload: JsonModel,
    verdict: VerdictModel,
    taken: Step,
)
    requires
        is_answer(state, payload, verdict, taken),
        event_kind(payload) == "response.output_text.delta"@,
        payload.text_at("delta"@).len() > 0,
    ensures
        ({
            let delta = payload.text_at("delta"@);
            let output_index = output_of_piece(state, payload);
            match text_at_output(state, output_index) {
                BlockModel::Tool { .. } => same_texts(state, taken.state) && has_none(
                    taken.events,
                    Prose::Text,
                ),
                BlockModel::Text { index, text, deferred } => {
                    &&& taken.state.deferred_text == state.deferred_text
                    &&& taken.state.next_index == state.next_index + if state.blocks.contains_key(
                        output_index,
                    ) {
                        0nat
                    } else {
                        1nat
                    }
                    &&& taken.state.blocks == state.blocks.insert(
                        output_index,
                        BlockModel::Text { index, text: text + delta, deferred },
                    )
                    &&& deferred ==> has_none(taken.events, Prose::Text)
                    &&& !deferred ==> taken.events.len() > 0 && has_none(
                        taken.events.drop_last(),
                        Prose::Text,
                    ) && taken.events.last() == (Event::BlockDelta {
                        index,
                        delta: DeltaModel::Text(delta),
                    })
                },
            }
        }),
{
    law_text_is_sent(state, payload, verdict, taken);
    let delta = payload.text_at("delta"@);
    let output_index = output_of_piece(state, payload);
    lemma_end_of_thinking(state, Prose::Text);
    assert(plain(taken.state).blocks == taken.state.blocks);
    assert(plain(taken.state).deferred_text == taken.state.deferred_text);
    assert(plain(taken.state).next_index == taken.state.next_index);
    assert(Seq::<char>::empty() + delta =~= delta);
    let head = end_of_thinking(state);
    let opening = start_of_message(state);
    if !state.blocks.contains_key(output_index) {
        let index = state.next_index;
        if state.web_searches.len() == 0 {
            let start = Event::BlockStart { index, block: ContentBlockModel::Text };
            assert(taken.events.drop_last() =~= (head + opening).push(start));
        } else {
            assert(taken.events =~= head);
        }
    } else if state.blocks[output_index] is Text {
        if state.blocks[output_index].is_deferred() {
            assert(taken.events =~= head);
        } else {
            assert(taken.events.drop_last() =~= head);
        }
    }
}

/// What is known of the blocks from the agreement with the client: no two open
/// or waiting texts share an index, and each index was given out before.
spec fn are_apart(state: State) -> bool {
    &&& forall|k: usize| #[trigger]
        state.blocks.contains_key(k) ==> state.blocks[k].index() < state.next_index
    &&& forall|j: usize, k: usize| #[trigger]
        state.blocks.contains_key(j) && #[trigger] state.blocks.contains_key(k) && j != k
            ==> state.blocks[j].index() != state.blocks[k].index()
    &&& forall|i: int|
        0 <= i < state.deferred_text.len() ==> (#[trigger] state.deferred_text[i]).index
            < state.next_index
    &&& forall|i: int, j: int|
        0 <= i < j < state.deferred_text.len() ==> (#[trigger] state.deferred_text[i]).index != (
        #[trigger] state.deferred_text[j]).index
    &&& forall|k: usize, i: int|
        #![trigger state.blocks.contains_key(k), state.deferred_text[i]]
        state.blocks.contains_key(k) && 0 <= i < state.deferred_text.len()
            ==> state.blocks[k].index() != state.deferred_text[i].index
}

proof fn lemma_apart(state: State, client: Client)
    requires
        tracks(state, client),
    ensures
        are_apart(state),
{
    assert forall|k: usize| #[trigger] state.blocks.contains_key(k) implies state.blocks[k].index()
        < state.next_index by {
        assert(block_fits(state.blocks[k], state.next_index, client));
    }
    assert forall|k: usize, i: int|
        #![trigger state.blocks.contains_key(k), state.deferred_text[i]]
        state.blocks.contains_key(k) && 0 <= i < state.deferred_text.len()
            implies state.blocks[k].index() != state.deferred_text[i].index by {
        assert(block_fits(state.blocks[k], state.next_index, client));
        assert(!client.seen.contains(state.deferred_text[i].index));
        if state.blocks[k].is_deferred() {
            assert(is_unclaimed(
                state.blocks[k].index(),
                state.web_searches,
                state.deferred_text,
            ));
        } else {
            assert(client.open.contains_key(state.blocks[k].index()));
            assert(client.seen.contains(state.blocks[k].index()));
        }
    }
}

/// A piece goes to a text: where, and what is sent for it.
spec fn is_piece_case(
    state: State,
    taken: Step,
    output_index: usize,
    delta: Seq<char>,
) -> bool {
    match text_at_output(state, output_index) {
        BlockModel::Tool { .. } => false,
        BlockModel::Text { index, text, deferred } => {
            &&& taken.state.deferred_text == state.deferred_text
            &&& taken.state.next_index == state.next_index + if state.blocks.contains_key(
                output_index,
            ) {
                0nat
            } else {
                1nat
            }
            &&& taken.state.blocks == state.blocks.insert(
                output_index,
                BlockModel::Text { index, text: text + delta, deferred },
            )
            &&& deferred ==> has_none(taken.events, Prose::Text)
            &&& !deferred ==> taken.events.len() > 0 && has_none(
                taken.events.drop_last(),
                Prose::Text,
            ) && taken.events.last() == (Event::BlockDelta {
                index,
                delta: DeltaModel::Text(delta),
            })
        },
    }
}

proof fn lemma_piece_blocks(
    state: State,
    taken: Step,
    output_index: usize,
    delta: Seq<char>,
    before: spec_fn(nat) -> Seq<char>,
    after: spec_fn(nat) -> Seq<char>,
    events: Seq<Event>,
)
    requires
        texts_match(state, events, before),
        are_apart(state),
        is_piece_case(state, taken, output_index, delta),
        forall|n: nat| #[trigger]
            after(n) == before(n) + if n == text_at_output(state, output_index).index() {
                delta
            } else {
                Seq::empty()
            },
    ensures
        forall|k: usize| #[trigger]
            taken.state.blocks.contains_key(k) && taken.state.blocks[k] is Text
                ==> taken.state.blocks[k]->Text_text == after(taken.state.blocks[k].index()),
        forall|i: int|
            0 <= i < taken.state.deferred_text.len() ==> (
            #[trigger] taken.state.deferred_text[i]).text == after(
                taken.state.deferred_text[i].index,
            ),
        forall|n: nat|
            n >= taken.state.next_index ==> #[trigger] after(n) == Seq::<char>::empty(),
{
    let index = text_at_output(state, output_index).index();
    let text = text_at_output(state, output_index)->Text_text;
    assert(text == before(index)) by {
        if state.blocks.contains_key(output_index) {
            assert(state.blocks[output_index] is Text);
        }
    }
    assert forall|k: usize| #[trigger]
        taken.state.blocks.contains_key(k) && taken.state.blocks[k] is Text
        implies taken.state.blocks[k]->Text_text == after(taken.state.blocks[k].index()) by {
        if k != output_index {
            assert(state.blocks.contains_key(k));
            let other = state.blocks[k].index();
            assert(other != index);
            assert(after(other) =~= before(other));
        }
    }
    assert forall|i: int| 0 <= i < taken.state.deferred_text.len() implies (
    #[trigger] taken.state.deferred_text[i]).text == after(taken.state.deferred_text[i].index) by {
        let other = state.deferred_text[i].index;
        assert(other != index);
        assert(after(other) =~= before(other));
    }
    assert forall|n: nat| n >= taken.state.next_index implies #[trigger] after(n) == Seq::<
        char,
    >::empty() by {
        assert(n != index);
        assert(before(n) == Seq::<char>::empty());
        assert(after(n) =~= Seq::empty());
    }
}

proof fn lemma_piece_waits(
    state: State,
    taken: Step,
    output_index: usize,
    delta: Seq<char>,
    n: nat,
)
    requires
        are_apart(state),
        is_piece_case(state, taken, output_index, delta),
    ensures
        ({
            let block = text_at_output(state, output_index);
            &&& n != block.index() ==> waits(taken.state, n) == waits(state, n)
            &&& n == block.index() ==> waits(taken.state, n) == block.is_deferred()
            &&& n == block.index() && !block.is_deferred() ==> !waits(state, n)
            &&& n == block.index() && block.is_deferred() ==> waits(state, n) || n
                == state.next_index
        }),
{
    let index = text_at_output(state, output_index).index();
    assert(taken.state.blocks.contains_key(output_index));
    assert(state.blocks.contains_key(output_index) ==> state.blocks[output_index].index()
        == index);
    if exists|k: usize| #[trigger]
        state.blocks.contains_key(k) && state.blocks[k].is_deferred() && state.blocks[k].index()
            == n {
        let k = choose|k: usize| #[trigger]
            state.blocks.contains_key(k) && state.blocks[k].is_deferred()
                && state.blocks[k].index() == n;
        assert(taken.state.blocks.contains_key(k));
    }
    if exists|k: usize| #[trigger]
        taken.state.blocks.contains_key(k) && taken.state.blocks[k].is_deferred()
            && taken.state.blocks[k].index() == n {
        let k = choose|k: usize| #[trigger]
            taken.state.blocks.contains_key(k) && taken.state.blocks[k].is_deferred()
                && taken.state.blocks[k].index() == n;
        if k != output_index {
            assert(state.blocks.contains_key(k));
        }
    }
    if exists|i: int|
        0 <= i < state.deferred_text.len() && (#[trigger] state.deferred_text[i]).index == n {
        let i = choose|i: int|
            0 <= i < state.deferred_text.len() && (#[trigger] state.deferred_text[i]).index == n;
        assert(taken.state.deferred_text[i].index == n);
    }
}

proof fn lemma_match_piece(
    state: State,
    events: Seq<Event>,
    taken: Step,
    output_index: usize,
    delta: Seq<char>,
    before: spec_fn(nat) -> Seq<char>,
    after: spec_fn(nat) -> Seq<char>,
)
    requires
        texts_match(state, events, before),
        are_apart(state),
        is_piece_case(state, taken, output_index, delta),
        forall|n: nat| #[trigger]
            after(n) == before(n) + if n == text_at_output(state, output_index).index() {
                delta
            } else {
                Seq::empty()
            },
    ensures
        texts_match(taken.state, events + taken.events, after),
{
    lemma_piece_blocks(state, taken, output_index, delta, before, after, events);
    let block = text_at_output(state, output_index);
    let index = block.index();
    assert forall|n: nat| #[trigger]
        received(events + taken.events, Prose::Text, n) == if waits(taken.state, n) {
            Seq::empty()
        } else {
            after(n)
        } by {
        lemma_piece_waits(state, taken, output_index, delta, n);
        lemma_concat(events, taken.events, Prose::Text, n);
        let earlier = received(events, Prose::Text, n);
        if n == state.next_index {
            assert(before(n) == Seq::<char>::empty());
        }
        assert(after(n) == before(n) + if n == index {
            delta
        } else {
            Seq::empty()
        });
        if block.is_deferred() {
            lemma_none(taken.events, Prose::Text, n);
            assert(received(events + taken.events, Prose::Text, n) =~= earlier);
        } else {
            lemma_none(taken.events.drop_last(), Prose::Text, n);
            assert(received(events + taken.events, Prose::Text, n) =~= earlier + if n == index {
                delta
            } else {
                Seq::empty()
            });
        }
        if n != index {
            assert(after(n) =~= before(n));
        }
    }
}

proof fn lemma_kinds_apart()
    ensures
        "response.output_item.added"@ != "response.output_text.delta"@,
        "response.output_item.done"@ != "response.output_text.delta"@,
        "response.output_item.done"@ != "response.output_item.added"@,
        "response.completed"@ != "response.output_text.delta"@,
        "response.incomplete"@ != "response.output_text.delta"@,
        "response.done"@ != "response.output_text.delta"@,
{
    reveal_strlit("response.output_item.added");
    reveal_strlit("response.output_text.delta");
    reveal_strlit("response.output_item.done");
    reveal_strlit("response.completed");
    reveal_strlit("response.incomplete");
    reveal_strlit("response.done");
    assert("response.output_item.added"@[16] == 'i');
    assert("response.output_text.delta"@[16] == 't');
    assert("response.output_text.delta"@.len() == 26);
    assert("response.output_item.added"@.len() == 26);
    assert("response.output_item.done"@.len() == 25);
    assert("response.completed"@.len() == 18);
    assert("response.incomplete"@.len() == 19);
    assert("response.done"@.len() == 13);
}

proof fn lemma_opened(
    state: State,
    payload: JsonModel,
    verdict: VerdictModel,
    taken: Step,
    item: JsonModel,
)
    requires
        is_answer(state, payload, verdict, taken),
        event_kind(payload) == "response.output_item.added"@,
        payload.get("item"@) == Some(item),
        item.text_at("type"@) == "message"@,
    ensures
        ({
            &&& opens_text(state, taken.state, spec_output_index(payload))
            &&& has_none(taken.events, Prose::Text)
        }),
{
    law_message_is_opened(state, payload, verdict, taken, item);
    assert(plain(taken.state).blocks == taken.state.blocks);
    assert(plain(taken.state).deferred_text == taken.state.deferred_text);
    assert(plain(taken.state).next_index == taken.state.next_index);
    lemma_end_of_thinking(state, Prose::Text);
    let index = state.next_index;
    if state.web_searches.len() == 0 {
        let begin = Event::BlockStart { index, block: ContentBlockModel::Text };
        assert(taken.events =~= (end_of_thinking(state) + start_of_message(state)).push(begin));
    } else {
        assert(taken.events =~= end_of_thinking(state));
    }
}

/// An empty text begins at an output.
spec fn opens_text(before: State, after: State, output_index: usize) -> bool {
    &&& after.blocks == before.blocks.insert(
        output_index,
        BlockModel::Text {
            index: before.next_index,
            text: Seq::empty(),
            deferred: before.web_searches.len() > 0,
        },
    )
    &&& after.deferred_text == before.deferred_text
    &&& after.next_index == before.next_index + 1
}

proof fn lemma_opened_waits(before: State, after: State, output_index: usize, n: nat)
    requires
        opens_text(before, after, output_index),
        !before.blocks.contains_key(output_index),
        n != before.next_index,
    ensures
        waits(after, n) == waits(before, n),
{
    if exists|k: usize| #[trigger]
        before.blocks.contains_key(k) && before.blocks[k].is_deferred() && before.blocks[k].index()
            == n {
        let k = choose|k: usize| #[trigger]
            before.blocks.contains_key(k) && before.blocks[k].is_deferred()
                && before.blocks[k].index() == n;
        assert(after.blocks.contains_key(k));
    }
    if exists|k: usize| #[trigger]
        after.blocks.contains_key(k) && after.blocks[k].is_deferred() && after.blocks[k].index()
            == n {
        let k = choose|k: usize| #[trigger]
            after.blocks.contains_key(k) && after.blocks[k].is_deferred()
                && after.blocks[k].index() == n;
        assert(before.blocks.contains_key(k));
    }
}

proof fn lemma_match_opened(
    state: State,
    events: Seq<Event>,
    taken: Step,
    output_index: usize,
    brought: spec_fn(nat) -> Seq<char>,
)
    requires
        texts_match(state, events, brought),
        are_apart(state),
        opens_text(state, taken.state, output_index),
        has_none(taken.events, Prose::Text),
        !state.blocks.contains_key(output_index),
    ensures
        texts_match(taken.state, events + taken.events, brought),
{
    let index = state.next_index;
    assert(brought(index) == Seq::<char>::empty());
    assert forall|k: usize| #[trigger]
        taken.state.blocks.contains_key(k) && taken.state.blocks[k] is Text
        implies taken.state.blocks[k]->Text_text == brought(taken.state.blocks[k].index()) by {
        if k != output_index {
            assert(state.blocks.contains_key(k));
        }
    }
    assert forall|n: nat| #[trigger]
        received(events + taken.events, Prose::Text, n) == if waits(taken.state, n) {
            Seq::empty()
        } else {
            brought(n)
        } by {
        lemma_concat(events, taken.events, Prose::Text, n);
        lemma_none(taken.events, Prose::Text, n);
        assert(received(events + taken.events, Prose::Text, n) =~= received(
            events,
            Prose::Text,
            n,
        ));
        if n != index {
            lemma_opened_waits(state, taken.state, output_index, n);
        }
    }
}

/// The text at an output ends.
spec fn ends_text(before: State, after: State, output_index: usize) -> bool {
    &&& before.blocks.contains_key(output_index)
    &&& after.blocks == before.blocks.remove(output_index)
    &&& after.next_index == before.next_index
    &&& match before.blocks[output_index] {
        BlockModel::Text { index, text, deferred: true } => after.deferred_text
            == before.deferred_text.push(DeferredModel { index, text }),
        _ => after.deferred_text == before.deferred_text,
    }
}

proof fn lemma_ended(
    state: State,
    payload: JsonModel,
    verdict: VerdictModel,
    taken: Step,
)
    requires
        is_answer(state, payload, verdict, taken),
        ends_output(payload),
        state.blocks.contains_key(spec_output_index(payload)),
        state.blocks[spec_output_index(payload)] is Text,
    ensures
        ({
            &&& ends_text(state, taken.state, spec_output_index(payload))
            &&& has_none(taken.events, Prose::Text)
        }),
{
    law_text_is_ended(state, payload, verdict, taken);
    assert(plain(taken.state).blocks == taken.state.blocks);
    assert(plain(taken.state).deferred_text == taken.state.deferred_text);
    assert(plain(taken.state).next_index == taken.state.next_index);
}

proof fn lemma_match_ended(
    state: State,
    events: Seq<Event>,
    taken: Step,
    output_index: usize,
    brought: spec_fn(nat) -> Seq<char>,
)
    requires
        texts_match(state, events, brought),
        ends_text(state, taken.state, output_index),
        has_none(taken.events, Prose::Text),
    ensures
        texts_match(taken.state, events + taken.events, brought),
{
    let waiting = state.deferred_text;
    assert forall|k: usize| #[trigger]
        taken.state.blocks.contains_key(k) && taken.state.blocks[k] is Text
        implies taken.state.blocks[k]->Text_text == brought(taken.state.blocks[k].index()) by {
        assert(state.blocks.contains_key(k));
    }
    assert forall|i: int| 0 <= i < taken.state.deferred_text.len() implies (
    #[trigger] taken.state.deferred_text[i]).text == brought(
        taken.state.deferred_text[i].index,
    ) by {
        if i < waiting.len() {
            assert(waiting[i] == taken.state.deferred_text[i]);
        }
    }
    assert forall|n: nat| #[trigger]
        received(events + taken.events, Prose::Text, n) == if waits(taken.state, n) {
            Seq::empty()
        } else {
            brought(n)
        } by {
        lemma_concat(events, taken.events, Prose::Text, n);
        lemma_none(taken.events, Prose::Text, n);
        assert(received(events + taken.events, Prose::Text, n) =~= received(
            events,
            Prose::Text,
            n,
        ));
        lemma_ended_waits(state, taken.state, output_index, n);
    }
}

proof fn lemma_ended_waits(before: State, after: State, output_index: usize, n: nat)
    requires
        before.blocks.contains_key(output_index),
        after.blocks == before.blocks.remove(output_index),
        match before.blocks[output_index] {
            BlockModel::Text { index, text, deferred: true } => after.deferred_text
                == before.deferred_text.push(DeferredModel { index, text }),
            _ => after.deferred_text == before.deferred_text,
        },
    ensures
        waits(after, n) == waits(before, n),
{
    let waiting = before.deferred_text;
    if exists|k: usize| #[trigger]
        before.blocks.contains_key(k) && before.blocks[k].is_deferred() && before.blocks[k].index()
            == n {
        let k = choose|k: usize| #[trigger]
            before.blocks.contains_key(k) && before.blocks[k].is_deferred()
                && before.blocks[k].index() == n;
        if k == output_index {
            assert(after.deferred_text[waiting.len() as int].index == n);
        } else {
            assert(after.blocks.contains_key(k));
        }
        assert(waits(after, n));
    } else if exists|i: int| 0 <= i < waiting.len() && (#[trigger] waiting[i]).index == n {
        let i = choose|i: int| 0 <= i < waiting.len() && (#[trigger] waiting[i]).index == n;
        assert(after.deferred_text[i] == waiting[i]);
        assert(waits(after, n));
    }
    if exists|k: usize| #[trigger]
        after.blocks.contains_key(k) && after.blocks[k].is_deferred() && after.blocks[k].index()
            == n {
        let k = choose|k: usize| #[trigger]
            after.blocks.contains_key(k) && after.blocks[k].is_deferred()
                && after.blocks[k].index() == n;
        assert(before.blocks.contains_key(k));
        assert(waits(before, n));
    } else if exists|i: int|
        0 <= i < after.deferred_text.len() && (#[trigger] after.deferred_text[i]).index == n {
        let i = choose|i: int|
            0 <= i < after.deferred_text.len() && (#[trigger] after.deferred_text[i]).index == n;
        if i < waiting.len() {
            assert(waiting[i] == after.deferred_text[i]);
        }
        assert(waits(before, n));
    }
}

/// How a call bears on the texts.
spec fn text_case(state: State, call: Call, taken: Step) -> bool {
    let payload = call->payload;
    let output_index = spec_output_index(payload);
    let brings_none = forall|n: nat| #[trigger]
        text_brought(state, call, n) == Seq::<char>::empty();
    ||| {
        &&& same_texts(state, taken.state)
        &&& has_none(taken.events, Prose::Text)
        &&& brings_none
    }
    ||| {
        &&& opens_text(state, taken.state, output_index)
        &&& !state.blocks.contains_key(output_index)
        &&& has_none(taken.events, Prose::Text)
        &&& brings_none
    }
    ||| {
        &&& ends_text(state, taken.state, output_index)
        &&& has_none(taken.events, Prose::Text)
        &&& brings_none
    }
    ||| {
        let output_index = output_of_piece(state, payload);
        let delta = payload.text_at("delta"@);
        &&& is_piece_case(state, taken, output_index, delta)
        &&& forall|n: nat| #[trigger]
            text_brought(state, call, n) == if n == text_at_output(state, output_index).index() {
                delta
            } else {
                Seq::empty()
            }
    }
}

proof fn lemma_match_case(
    state: State,
    events: Seq<Event>,
    call: Call,
    taken: Step,
    before: spec_fn(nat) -> Seq<char>,
    after: spec_fn(nat) -> Seq<char>,
)
    requires
        texts_match(state, events, before),
        are_apart(state),
        text_case(state, call, taken),
        forall|n: nat| #[trigger] after(n) == before(n) + text_brought(state, call, n),
    ensures
        texts_match(taken.state, events + taken.events, after),
{
    let payload = call->payload;
    let output_index = spec_output_index(payload);
    let brings_none = forall|n: nat| #[trigger]
        text_brought(state, call, n) == Seq::<char>::empty();
    if brings_none {
        assert forall|n: nat| #[trigger] after(n) == before(n) by {
            assert(text_brought(state, call, n) == Seq::<char>::empty());
            assert(after(n) =~= before(n));
        }
        assert(texts_match(state, events, after));
    }
    if brings_none && same_texts(state, taken.state) && has_none(taken.events, Prose::Text) {
        lemma_aside(state, events, taken, after);
    } else if brings_none && opens_text(state, taken.state, output_index)
        && !state.blocks.contains_key(output_index) && has_none(taken.events, Prose::Text) {
        lemma_match_opened(state, events, taken, output_index, after);
    } else if brings_none && ends_text(state, taken.state, output_index) && has_none(
        taken.events,
        Prose::Text,
    ) {
        lemma_match_ended(state, events, taken, output_index, after);
    } else {
        lemma_match_piece(
            state,
            events,
            taken,
            output_of_piece(state, payload),
            payload.text_at("delta"@),
            before,
            after,
        );
    }
}

proof fn lemma_accept_case(state: State, payload: JsonModel)
    requires
        replaces_nothing(state, payload),
        !state.finished,
        !state.called(Call::Accept { payload }).state.finished,
    ensures
        text_case(state, Call::Accept { payload }, state.called(Call::Accept { payload })),
{
    let verdict = event_verdict(payload);
    let kind = event_kind(payload);
    let taken = state.accepted(payload, verdict).step;
    lemma_kinds_apart();
    reveal(is_answer);
    if !is_taken(state, payload, verdict) {
        lemma_untaken_keeps_texts(state, payload, verdict);
    } else if kind == "response.output_text.delta"@ {
        if payload.text_at("delta"@).len() > 0 {
            lemma_piece(state, payload, verdict, taken);
        } else {
            lemma_empty_piece(state, payload, verdict, taken);
            assert(payload.text_at("delta"@) =~= Seq::empty());
        }
    } else if kind == "response.output_item.added"@ && (payload.get("item"@) matches Some(item)
        && item.text_at("type"@) == "message"@) {
        lemma_opened(state, payload, verdict, taken, payload.get("item"@)->0);
    } else if ends_output(payload) && state.blocks.contains_key(spec_output_index(payload))
        && state.blocks[spec_output_index(payload)] is Text {
        lemma_ended(state, payload, verdict, taken);
    } else if is_end(payload) {
        law_stop_reason(state, payload, verdict, taken);
    } else {
        lemma_dispatch_aside(state, payload, verdict);
    }
}

proof fn lemma_empty_piece(
    state: State,
    payload: JsonModel,
    verdict: VerdictModel,
    taken: Step,
)
    requires
        is_answer(state, payload, verdict, taken),
        event_kind(payload) == "response.output_text.delta"@,
        payload.text_at("delta"@).len() == 0,
    ensures
        same_texts(state, taken.state),
        has_none(taken.events, Prose::Text),
{
    law_empty_pieces_bring_nothing(state, payload, verdict, taken);
    assert(plain(taken.state).blocks == taken.state.blocks);
    assert(plain(taken.state).deferred_text == taken.state.deferred_text);
    assert(plain(taken.state).next_index == taken.state.next_index);
    lemma_end_of_thinking(state, Prose::Text);
}

proof fn lemma_call_case(state: State, call: Call)
    requires
        call matches Call::Accept { payload } ==> replaces_nothing(state, payload),
        !state.finished,
        !state.called(call).state.finished,
    ensures
        text_case(state, call, state.called(call)),
{
    match call {
        Call::Accept { payload } => {
            lemma_accept_case(state, payload);
        },
        Call::Ping => {
            lemma_start_message(state.still(), Prose::Text);
        },
        _ => {},
    }
}

proof fn lemma_untaken_keeps_texts(state: State, payload: JsonModel, verdict: VerdictModel)
    requires
        !state.finished,
        !is_taken(state, payload, verdict),
    ensures
        same_texts(state, state.accepted(payload, verdict).step.state),
        has_none(state.accepted(payload, verdict).step.events, Prose::Text),
{
    lemma_untaken(state, payload, verdict);
    if event_kind(payload) == "response.function_call_arguments.delta"@ {
        lemma_tool_delta_keeps_texts(state.still(), payload);
    }
    law_kinds_are_told_apart(state.still(), payload, verdict);
}

spec fn brought_by(start: State, calls: Seq<Call>) -> spec_fn(nat) -> Seq<char> {
    |n: nat| all_text_brought(start, calls, n)
}

proof fn lemma_session(start: State, calls: Seq<Call>)
    requires
        agrees(start, Client::fresh()),
        start.blocks == Map::<usize, BlockModel>::empty(),
        start.deferred_text.len() == 0,
        session_replaces_nothing(start, calls),
        !start.session(calls).state.finished,
    ensures
        texts_match(
            start.session(calls).state,
            start.session(calls).events,
            brought_by(start, calls),
        ),
        are_apart(start.session(calls).state),
    decreases calls.len(),
{
    lemma_session_is_legal(start, calls, Client::fresh());
    lemma_apart(start.session(calls).state, after(Client::fresh(), start.session(calls)));
    if calls.len() > 0 {
        let before = start.session(calls.drop_last());
        let taken = before.state.called(calls.last());
        law_call_keeps_progress(before.state, calls.last());
        lemma_session(start, calls.drop_last());
        lemma_call_case(before.state, calls.last());
        lemma_match_case(
            before.state,
            before.events,
            calls.last(),
            taken,
            brought_by(start, calls.drop_last()),
            brought_by(start, calls),
        );
    }
}

proof fn lemma_deferred_events(deferred: DeferredModel, n: nat)
    ensures
        received(deferred_events(deferred), Prose::Text, n) == if deferred.index == n {
            deferred.text
        } else {
            Seq::empty()
        },
{
    let prose = Prose::Text;
    let none = Seq::<Event>::empty();
    let events = deferred_events(deferred);
    let begin = events[0];
    let end = events.last();
    lemma_push(none, begin, prose, n);
    if deferred.text.len() > 0 {
        assert(events =~= none.push(begin).push(events[1]).push(end));
        lemma_push(none.push(begin), events[1], prose, n);
        lemma_push(none.push(begin).push(events[1]), end, prose, n);
        assert(Seq::<char>::empty() + Seq::<char>::empty() + deferred.text
            + Seq::<char>::empty() =~= deferred.text);
    } else {
        assert(events =~= none.push(begin).push(end));
        lemma_push(none.push(begin), end, prose, n);
        assert(deferred.text =~= Seq::empty());
    }
    assert(received(events, prose, n) =~= if deferred.index == n {
        deferred.text
    } else {
        Seq::empty()
    });
}

/// No two texts are for one block.
spec fn are_distinct_texts(texts: Seq<DeferredModel>) -> bool {
    forall|i: int, j: int|
        0 <= i < j < texts.len() ==> (#[trigger] texts[i]).index != (#[trigger] texts[j]).index
}

proof fn lemma_no_deferred_text(texts: Seq<DeferredModel>, n: nat)
    requires
        forall|i: int| 0 <= i < texts.len() ==> (#[trigger] texts[i]).index != n,
    ensures
        received(all_deferred_events(texts), Prose::Text, n) == Seq::<char>::empty(),
    decreases texts.len(),
{
    if texts.len() > 0 {
        let rest = texts.drop_first();
        assert(texts[0].index != n);
        assert forall|i: int| 0 <= i < rest.len() implies (#[trigger] rest[i]).index != n by {
            assert(rest[i] == texts[i + 1]);
        }
        lemma_no_deferred_text(rest, n);
        lemma_deferred_events(texts.first(), n);
        lemma_concat(
            deferred_events(texts.first()),
            all_deferred_events(rest),
            Prose::Text,
            n,
        );
        assert(received(all_deferred_events(texts), Prose::Text, n) =~= Seq::empty());
    }
}

proof fn lemma_one_deferred_text(texts: Seq<DeferredModel>, i: int)
    requires
        are_distinct_texts(texts),
        0 <= i < texts.len(),
    ensures
        received(all_deferred_events(texts), Prose::Text, texts[i].index) == texts[i].text,
    decreases texts.len(),
{
    let rest = texts.drop_first();
    let n = texts[i].index;
    assert(are_distinct_texts(rest)) by {
        assert forall|a: int, b: int| 0 <= a < b < rest.len() implies (#[trigger] rest[a]).index
            != (#[trigger] rest[b]).index by {
            assert(rest[a] == texts[a + 1]);
            assert(rest[b] == texts[b + 1]);
        }
    }
    lemma_deferred_events(texts.first(), n);
    lemma_concat(deferred_events(texts.first()), all_deferred_events(rest), Prose::Text, n);
    if i == 0 {
        assert forall|j: int| 0 <= j < rest.len() implies (#[trigger] rest[j]).index != n by {
            assert(rest[j] == texts[j + 1]);
        }
        lemma_no_deferred_text(rest, n);
    } else {
        assert(texts[0].index != texts[i].index);
        assert(rest[i - 1] == texts[i]);
        lemma_one_deferred_text(rest, i - 1);
    }
    assert(received(all_deferred_events(texts), Prose::Text, n) =~= texts[i].text);
}

/// The texts that wait among the open outputs are those of the open outputs that
/// wait.
proof fn lemma_waiting_come_from(blocks: Map<usize, BlockModel>, order: Seq<usize>, j: int)
    requires
        0 <= j < waiting_texts(blocks, order).len(),
    ensures
        exists|i: int|
            0 <= i < order.len() && #[trigger] blocks[order[i]] == (BlockModel::Text {
                index: waiting_texts(blocks, order)[j].index,
                text: waiting_texts(blocks, order)[j].text,
                deferred: true,
            }),
    decreases order.len(),
{
    let rest = order.drop_last();
    let earlier = waiting_texts(blocks, rest);
    if j < earlier.len() {
        lemma_waiting_come_from(blocks, rest, j);
        let i = choose|i: int|
            0 <= i < rest.len() && #[trigger] blocks[rest[i]] == (BlockModel::Text {
                index: earlier[j].index,
                text: earlier[j].text,
                deferred: true,
            });
        assert(blocks[order[i]] == blocks[rest[i]]);
        assert(waiting_texts(blocks, order)[j] == earlier[j]);
    } else {
        let last = order.len() - 1;
        assert(blocks[order[last]] == blocks[order.last()]);
    }
}

proof fn lemma_waiting_has(blocks: Map<usize, BlockModel>, order: Seq<usize>, i: int)
    requires
        0 <= i < order.len(),
        blocks[order[i]].is_deferred(),
    ensures
        exists|j: int|
            0 <= j < waiting_texts(blocks, order).len() && (#[trigger] waiting_texts(
                blocks,
                order,
            )[j]).index == blocks[order[i]].index(),
    decreases order.len(),
{
    let rest = order.drop_last();
    let earlier = waiting_texts(blocks, rest);
    if i < rest.len() {
        assert(rest[i] == order[i]);
        lemma_waiting_has(blocks, rest, i);
        let j = choose|j: int|
            0 <= j < earlier.len() && (#[trigger] earlier[j]).index == blocks[order[i]].index();
        assert(waiting_texts(blocks, order)[j] == earlier[j]);
    } else {
        assert(waiting_texts(blocks, order)[earlier.len() as int].index
            == blocks[order[i]].index());
    }
}

proof fn lemma_waiting_distinct(state: State, order: Seq<usize>)
    requires
        are_apart(state),
        is_ascending(order),
        forall|i: int| 0 <= i < order.len() ==> state.blocks.contains_key(#[trigger] order[i]),
    ensures
        are_distinct_texts(waiting_texts(state.blocks, order)),
    decreases order.len(),
{
    let blocks = state.blocks;
    if order.len() > 0 {
        let rest = order.drop_last();
        let last = order.last();
        let earlier = waiting_texts(blocks, rest);
        let texts = waiting_texts(blocks, order);
        assert forall|i: int| 0 <= i < rest.len() implies state.blocks.contains_key(
            #[trigger] rest[i],
        ) by {
            assert(rest[i] == order[i]);
        }
        lemma_waiting_distinct(state, rest);
        assert forall|a: int, b: int| 0 <= a < b < texts.len() implies (#[trigger] texts[a]).index
            != (#[trigger] texts[b]).index by {
            assert(texts[a] == earlier[a]);
            if b < earlier.len() {
                assert(texts[b] == earlier[b]);
            } else {
                lemma_waiting_come_from(blocks, rest, a);
                let i = choose|i: int|
                    0 <= i < rest.len() && #[trigger] blocks[rest[i]] == (BlockModel::Text {
                        index: earlier[a].index,
                        text: earlier[a].text,
                        deferred: true,
                    });
                assert(order[i] < order[order.len() - 1]);
                assert(state.blocks.contains_key(order[i]));
                assert(state.blocks.contains_key(order[order.len() - 1]));
            }
        }
    }
}

proof fn lemma_ends_have_no_text(blocks: Map<usize, BlockModel>, order: Seq<usize>)
    ensures
        has_none(ends_of(blocks, order), Prose::Text),
    decreases order.len(),
{
    if order.len() > 0 {
        lemma_ends_have_no_text(blocks, order.drop_last());
    }
}

proof fn lemma_searches_have_no_text(state: State, searches: Seq<WebSearchModel>)
    ensures
        has_none(all_search_events(state, searches), Prose::Text),
    decreases searches.len(),
{
    if searches.len() > 0 {
        lemma_searches_have_no_text(state, searches.drop_first());
        assert(has_none(state.search_events(searches.first()), Prose::Text));
    }
}

proof fn lemma_body_received(state: State, order: Seq<usize>, n: nat)
    ensures
        received(response_body(state, order), Prose::Text, n) == received(
            all_deferred_events(state.deferred_text + waiting_texts(state.blocks, order)),
            Prose::Text,
            n,
        ),
{
    let prose = Prose::Text;
    let texts = all_deferred_events(state.deferred_text + waiting_texts(state.blocks, order));
    let searches = all_search_events(state, state.web_searches);
    let closed = end_of_thinking(state) + ends_of(state.blocks, order);
    lemma_end_of_thinking(state, prose);
    lemma_ends_have_no_text(state.blocks, order);
    lemma_searches_have_no_text(state, state.web_searches);
    let body = response_body(state, order);
    let none = Seq::<char>::empty();
    if state.web_searches.len() > 0 {
        let head = closed + start_of_message(state) + searches;
        lemma_none(head, prose, n);
        lemma_concat(head, texts, prose, n);
        assert(body =~= head + texts);
    } else {
        let head = closed + searches;
        lemma_none(head, prose, n);
        lemma_concat(head, texts, prose, n);
        lemma_none(start_of_message(state), prose, n);
        lemma_concat(head + texts, start_of_message(state), prose, n);
        assert(body =~= head + texts + start_of_message(state));
    }
    assert(received(body, prose, n) =~= received(texts, prose, n));
}

proof fn lemma_flushed(state: State, order: Seq<usize>, n: nat)
    requires
        are_apart(state),
        is_ascending(order),
        order.to_set() == state.blocks.dom(),
    ensures
        ({
            let texts = state.deferred_text + waiting_texts(state.blocks, order);
            let flushed = received(all_deferred_events(texts), Prose::Text, n);
            &&& !waits(state, n) ==> flushed == Seq::<char>::empty()
            &&& forall|k: usize| #[trigger]
                state.blocks.contains_key(k) && state.blocks[k].is_deferred()
                    && state.blocks[k].index() == n ==> flushed == state.blocks[k]->Text_text
            &&& forall|i: int|
                0 <= i < state.deferred_text.len() && (#[trigger] state.deferred_text[i]).index
                    == n ==> flushed == state.deferred_text[i].text
        }),
{
    let ended = state.deferred_text;
    let open = waiting_texts(state.blocks, order);
    let texts = ended + open;
    let flushed = received(all_deferred_events(texts), Prose::Text, n);
    assert forall|i: int| 0 <= i < order.len() implies state.blocks.contains_key(
        #[trigger] order[i],
    ) by {
        assert(order.to_set().contains(order[i]));
    }
    lemma_waiting_distinct(state, order);
    assert forall|j: int| 0 <= j < open.len() implies exists|k: usize| #[trigger]
        state.blocks.contains_key(k) && state.blocks[k] == (BlockModel::Text {
            index: (#[trigger] open[j]).index,
            text: open[j].text,
            deferred: true,
        }) by {
        lemma_waiting_come_from(state.blocks, order, j);
        let i = choose|i: int|
            0 <= i < order.len() && #[trigger] state.blocks[order[i]] == (BlockModel::Text {
                index: open[j].index,
                text: open[j].text,
                deferred: true,
            });
        assert(state.blocks.contains_key(order[i]));
    }
    assert(are_distinct_texts(texts)) by {
        assert forall|a: int, b: int| 0 <= a < b < texts.len() implies (#[trigger] texts[a]).index
            != (#[trigger] texts[b]).index by {
            if b < ended.len() {
                assert(texts[a] == ended[a] && texts[b] == ended[b]);
            } else if a < ended.len() {
                let j = b - ended.len();
                assert(texts[a] == ended[a] && texts[b] == open[j]);
                let k = choose|k: usize| #[trigger]
                    state.blocks.contains_key(k) && state.blocks[k] == (BlockModel::Text {
                        index: open[j].index,
                        text: open[j].text,
                        deferred: true,
                    });
                assert(state.blocks[k].index() != ended[a].index);
            } else {
                assert(texts[a] == open[a - ended.len()]);
                assert(texts[b] == open[b - ended.len()]);
            }
        }
    }
    if !waits(state, n) {
        assert forall|i: int| 0 <= i < texts.len() implies (#[trigger] texts[i]).index != n by {
            if i < ended.len() {
                assert(texts[i] == ended[i]);
            } else {
                let j = i - ended.len();
                assert(texts[i] == open[j]);
                let k = choose|k: usize| #[trigger]
                    state.blocks.contains_key(k) && state.blocks[k] == (BlockModel::Text {
                        index: open[j].index,
                        text: open[j].text,
                        deferred: true,
                    });
                assert(state.blocks[k].is_deferred());
            }
        }
        lemma_no_deferred_text(texts, n);
    }
    assert forall|i: int| 0 <= i < ended.len() && (#[trigger] ended[i]).index == n
        implies flushed == ended[i].text by {
        assert(texts[i] == ended[i]);
        lemma_one_deferred_text(texts, i);
    }
    assert forall|k: usize| #[trigger]
        state.blocks.contains_key(k) && state.blocks[k].is_deferred() && state.blocks[k].index()
        == n implies flushed == state.blocks[k]->Text_text by {
        assert(order.to_set().contains(k));
        let i = choose|i: int| 0 <= i < order.len() && order[i] == k;
        lemma_waiting_has(state.blocks, order, i);
        let j = choose|j: int| 0 <= j < open.len() && (#[trigger] open[j]).index == n;
        let other = choose|other: usize| #[trigger]
            state.blocks.contains_key(other) && state.blocks[other] == (BlockModel::Text {
                index: open[j].index,
                text: open[j].text,
                deferred: true,
            });
        assert(other == k);
        assert(texts[ended.len() + j] == open[j]);
        lemma_one_deferred_text(texts, ended.len() + j);
    }
}

proof fn lemma_end_received(
    state: State,
    payload: JsonModel,
    verdict: VerdictModel,
    taken: Step,
    order: Seq<usize>,
    n: nat,
)
    requires
        is_answer(state, payload, verdict, taken),
        is_end(payload),
        is_ascending(order),
        order.to_set() == state.blocks.dom(),
    ensures
        received(taken.events, Prose::Text, n) == received(
            all_deferred_events(state.deferred_text + waiting_texts(state.blocks, order)),
            Prose::Text,
            n,
        ),
{
    law_response_end_is_answered(state, payload, verdict, taken, order);
    lemma_after_body(
        taken.events,
        response_body(state, order),
        n,
    );
    lemma_body_received(state, order, n);
}

proof fn lemma_after_body(events: Seq<Event>, body: Seq<Event>, n: nat)
    requires
        events.len() == body.len() + 2,
        events.take(body.len() as int) == body,
        events[body.len() as int] is MessageDelta,
        events.last() is MessageStop,
    ensures
        received(events, Prose::Text, n) == received(body, Prose::Text, n),
{
    let usage = events[body.len() as int];
    assert forall|i: int| 0 <= i < body.len() implies events[i] == body[i] by {
        assert(events.take(body.len() as int)[i] == body[i]);
    }
    assert(events =~= body.push(usage).push(events.last()));
    lemma_push(body, usage, Prose::Text, n);
    lemma_push(body.push(usage), events.last(), Prose::Text, n);
    assert(received(events, Prose::Text, n) =~= received(body, Prose::Text, n));
}

proof fn lemma_one_more_call(start: State, calls: Seq<Call>, call: Call)
    ensures
        start.session(calls.push(call)).events == start.session(calls).events + start.session(
            calls,
        ).state.called(call).events,
{
    assert(calls.push(call).drop_last() =~= calls);
}

/// Over a session that ends with its response the text that a client has
/// received in a block, as one, is what the pieces of text brought for it, in
/// their order, be it that they were sent at once or waited for web searches.
/// This is so where no message or tool call was added at an index that had one
/// open.
pub proof fn law_text_is_received(
    message_id: Seq<char>,
    model: Seq<char>,
    estimated_input_tokens: u64,
    policy: IncompleteResponsePolicy,
    collects: bool,
    calls: Seq<Call>,
    payload: JsonModel,
    index: nat,
)
    requires
        is_end(payload),
        ({
            let start = State::configured(
                message_id,
                model,
                estimated_input_tokens,
                policy,
                collects,
            );
            &&& session_replaces_nothing(start, calls)
            &&& is_taken(start.session(calls).state, payload, event_verdict(payload))
        }),
    ensures
        ({
            let start = State::configured(
                message_id,
                model,
                estimated_input_tokens,
                policy,
                collects,
            );
            let session = start.session(calls.push(Call::Accept { payload }));
            received(session.events, Prose::Text, index) == all_text_brought(start, calls, index)
        }),
{
    let start = State::configured(message_id, model, estimated_input_tokens, policy, collects);
    lemma_new_agrees(start);
    law_session_is_consistent(
        message_id,
        model,
        estimated_input_tokens,
        policy,
        collects,
        calls,
    );
    lemma_whole_session(start, calls, payload, index);
}

proof fn lemma_whole_session(start: State, calls: Seq<Call>, payload: JsonModel, index: nat)
    requires
        agrees(start, Client::fresh()),
        start.blocks == Map::<usize, BlockModel>::empty(),
        start.deferred_text.len() == 0,
        session_replaces_nothing(start, calls),
        is_end(payload),
        is_taken(start.session(calls).state, payload, event_verdict(payload)),
        start.session(calls).state.blocks.dom().finite(),
    ensures
        received(
            start.session(calls.push(Call::Accept { payload })).events,
            Prose::Text,
            index,
        ) == all_text_brought(start, calls, index),
{
    let before = start.session(calls);
    let state = before.state;
    let order = ascending(state.blocks.dom());
    lemma_session(start, calls);
    lemma_ascending(state.blocks.dom());
    let taken = state.called(Call::Accept { payload });
    assert(is_answer(state, payload, event_verdict(payload), taken)) by {
        reveal(is_answer);
    }
    lemma_end_received(state, payload, event_verdict(payload), taken, order, index);
    lemma_flushed(state, order, index);
    lemma_one_more_call(start, calls, Call::Accept { payload });
    lemma_concat(
        before.events,
        state.called(Call::Accept { payload }).events,
        Prose::Text,
        index,
    );
    lemma_end_matches(
        state,
        before.events,
        brought_by(start, calls),
        received(
            all_deferred_events(state.deferred_text + waiting_texts(state.blocks, order)),
            Prose::Text,
            index,
        ),
        index,
    );
}

proof fn lemma_end_matches(
    state: State,
    events: Seq<Event>,
    brought: spec_fn(nat) -> Seq<char>,
    flushed: Seq<char>,
    index: nat,
)
    requires
        texts_match(state, events, brought),
        !waits(state, index) ==> flushed == Seq::<char>::empty(),
        forall|k: usize| #[trigger]
            state.blocks.contains_key(k) && state.blocks[k].is_deferred()
                && state.blocks[k].index() == index ==> flushed == state.blocks[k]->Text_text,
        forall|i: int|
            0 <= i < state.deferred_text.len() && (#[trigger] state.deferred_text[i]).index
                == index ==> flushed == state.deferred_text[i].text,
    ensures
        received(events, Prose::Text, index) + flushed == brought(index),
{
    let earlier = received(events, Prose::Text, index);
    if waits(state, index) {
        if exists|k: usize| #[trigger]
            state.blocks.contains_key(k) && state.blocks[k].is_deferred()
                && state.blocks[k].index() == index {
            let k = choose|k: usize| #[trigger]
                state.blocks.contains_key(k) && state.blocks[k].is_deferred()
                    && state.blocks[k].index() == index;
            assert(state.blocks[k] is Text);
        }
        assert(flushed == brought(index));
        assert(earlier + flushed =~= flushed);
    } else {
        assert(earlier + flushed =~= earlier);
    }
}

} // verus!

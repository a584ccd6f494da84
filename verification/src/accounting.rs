//! Every block of a message is opened and closed: the account of the indices
//! that are given out over a whole session.

use crate::consistency::law_session_is_consistent;
use crate::downstream::Event;
use crate::index_map::{ascending, is_ascending, lemma_ascending};
use crate::json::JsonModel;
use crate::kinds::{is_end, law_kinds_are_told_apart};
use crate::model::{deferred_events, BlockModel, DeferredModel, State, Step, WebSearchModel};
use crate::progress::law_call_keeps_progress;
use crate::protocol::{
    adds_block, after, agrees, is_legal, is_tight, law_call_keeps_protocol,
    law_connection_end_closes_every_block, law_failure_closes_every_block,
    law_response_end_closes_every_block, law_session_keeps_blocks_known, lemma_legal_concat,
    lemma_new_agrees, lemma_session_is_legal, replaces_nothing, session_replaces_nothing, Call,
    Client, OpenBlock,
};
use crate::upstream::{
    addressed_index, event_kind, event_verdict, nested_str, spec_output_index,
    IncompleteResponsePolicy, VerdictModel,
};
use vstd::prelude::*;

verus! {

/// Whether an event opens the block of an index.
pub open spec fn starts_at(event: Event, index: nat) -> bool {
    event matches Event::BlockStart { index: started, .. } && started == index
}

/// Whether some event opens the block of an index.
pub open spec fn is_started(events: Seq<Event>, index: nat) -> bool {
    exists|i: int| 0 <= i < events.len() && starts_at(#[trigger] events[i], index)
}

/// Whether an index is kept for a block that is sent later: one of an open text
/// that waits, of a web search, or of a text that waits and is whole.
pub open spec fn is_kept(state: State, index: nat) -> bool {
    ||| exists|k: usize| #[trigger]
        state.blocks.contains_key(k) && state.blocks[k].is_deferred() && state.blocks[k].index()
            == index
    ||| exists|i: int|
        0 <= i < state.web_searches.len() && ((#[trigger] state.web_searches[i]).index == index
            || state.web_searches[i].result_index == index)
    ||| exists|i: int|
        0 <= i < state.deferred_text.len() && (#[trigger] state.deferred_text[i]).index == index
}

/// Whether the block of an index was opened, in earlier events or on the way of
/// a step, or will be.
spec fn is_accounted(earlier: Seq<Event>, step: Step, index: nat) -> bool {
    is_started(earlier, index) || is_started(step.events, index) || is_kept(step.state, index)
}

/// Whether that holds of every index that was given out.
spec fn are_accounted(earlier: Seq<Event>, step: Step) -> bool {
    forall|n: nat| n < step.state.next_index ==> #[trigger] is_accounted(earlier, step, n)
}

/// Whether one run of events goes on with another.
spec fn extends(before: Seq<Event>, after: Seq<Event>) -> bool {
    &&& before.len() <= after.len()
    &&& forall|i: int| 0 <= i < before.len() ==> after[i] == #[trigger] before[i]
}

proof fn lemma_extends_further(first: Seq<Event>, second: Seq<Event>, third: Seq<Event>)
    requires
        extends(first, second),
        extends(second, third),
    ensures
        extends(first, third),
{
    assert forall|i: int| 0 <= i < first.len() implies third[i] == #[trigger] first[i] by {
        assert(second[i] == first[i]);
    }
}

proof fn lemma_started_extends(before: Seq<Event>, after: Seq<Event>, index: nat)
    requires
        extends(before, after),
        is_started(before, index),
    ensures
        is_started(after, index),
{
    let i = choose|i: int| 0 <= i < before.len() && starts_at(#[trigger] before[i], index);
    assert(starts_at(after[i], index));
}

/// A step that gives out no index and gives up none that is kept.
proof fn lemma_frame(earlier: Seq<Event>, before: Step, after: Step)
    requires
        are_accounted(earlier, before),
        extends(before.events, after.events),
        after.state.next_index == before.state.next_index,
        after.state.web_searches == before.state.web_searches,
        after.state.deferred_text == before.state.deferred_text,
        forall|k: usize| #[trigger]
            before.state.blocks.contains_key(k) && before.state.blocks[k].is_deferred()
                ==> after.state.blocks.contains_key(k) && after.state.blocks[k].is_deferred()
                && after.state.blocks[k].index() == before.state.blocks[k].index(),
    ensures
        are_accounted(earlier, after),
{
    assert forall|n: nat| n < after.state.next_index implies #[trigger] is_accounted(
        earlier,
        after,
        n,
    ) by {
        assert(is_accounted(earlier, before, n));
        if is_started(before.events, n) {
            lemma_started_extends(before.events, after.events, n);
        }
    }
}

/// A step that opens the block of the next index at once.
proof fn lemma_open(earlier: Seq<Event>, before: Step, after: Step)
    requires
        are_accounted(earlier, before),
        extends(before.events, after.events),
        after.state.next_index == before.state.next_index + 1,
        is_started(after.events, before.state.next_index),
        after.state.web_searches == before.state.web_searches,
        after.state.deferred_text == before.state.deferred_text,
        forall|k: usize| #[trigger]
            before.state.blocks.contains_key(k) && before.state.blocks[k].is_deferred()
                ==> after.state.blocks.contains_key(k) && after.state.blocks[k]
                == before.state.blocks[k],
    ensures
        are_accounted(earlier, after),
{
    assert forall|n: nat| n < after.state.next_index implies #[trigger] is_accounted(
        earlier,
        after,
        n,
    ) by {
        if n < before.state.next_index {
            assert(is_accounted(earlier, before, n));
            if is_started(before.events, n) {
                lemma_started_extends(before.events, after.events, n);
            }
        }
    }
}

proof fn lemma_close_thinking(earlier: Seq<Event>, step: Step)
    requires
        are_accounted(earlier, step),
    ensures
        are_accounted(earlier, step.close_thinking()),
        step.close_thinking().state.blocks == step.state.blocks,
{
    lemma_frame(earlier, step, step.close_thinking());
}

proof fn lemma_open_text_block(earlier: Seq<Event>, step: Step, output_index: usize)
    requires
        are_accounted(earlier, step),
        !step.state.blocks.contains_key(output_index),
    ensures
        are_accounted(earlier, step.open_text_block(output_index)),
{
    let opened = step.open_text_block(output_index);
    let index = step.state.next_index;
    if step.state.web_searches.len() > 0 {
        assert forall|n: nat| n < opened.state.next_index implies #[trigger] is_accounted(
            earlier,
            opened,
            n,
        ) by {
            if n == index {
                assert(opened.state.blocks.contains_key(output_index));
            } else {
                assert(is_accounted(earlier, step, n));
                if exists|k: usize| #[trigger]
                    step.state.blocks.contains_key(k) && step.state.blocks[k].is_deferred()
                        && step.state.blocks[k].index() == n {
                    let k = choose|k: usize| #[trigger]
                        step.state.blocks.contains_key(k) && step.state.blocks[k].is_deferred()
                            && step.state.blocks[k].index() == n;
                    assert(opened.state.blocks.contains_key(k));
                }
            }
        }
    } else {
        assert(starts_at(opened.events.last(), index));
        lemma_open(earlier, step, opened);
    }
}

proof fn lemma_open_tool_block(
    earlier: Seq<Event>,
    step: Step,
    output_index: usize,
    call_id: Seq<char>,
    name: Seq<char>,
)
    requires
        are_accounted(earlier, step),
        !step.state.blocks.contains_key(output_index),
    ensures
        are_accounted(earlier, step.open_tool_block(output_index, call_id, name)),
{
    let opened = step.open_tool_block(output_index, call_id, name);
    assert(starts_at(opened.events.last(), step.state.next_index));
    lemma_open(earlier, step, opened);
}

proof fn lemma_output_item_added(earlier: Seq<Event>, step: Step, payload: JsonModel)
    requires
        are_accounted(earlier, step),
        adds_block(payload) ==> !step.state.blocks.contains_key(spec_output_index(payload)),
    ensures
        are_accounted(earlier, step.output_item_added(payload)),
{
    match payload.get("item"@) {
        None => {},
        Some(item) => {
            let output_index = spec_output_index(payload);
            let kind = item.text_at("type"@);
            let noted = match step.state.metadata {
                Some(metadata) if kind == "message"@ || kind == "function_call"@ => {
                    step.with_metadata(Some(metadata.opened(output_index)))
                },
                _ => step,
            };
            lemma_frame(earlier, step, noted);
            if kind == "reasoning"@ {
                lemma_frame(earlier, noted, step.output_item_added(payload));
            } else if kind == "message"@ {
                lemma_close_thinking(earlier, noted);
                let ready = noted.close_thinking();
                let named = Step {
                    state: State {
                        item_ids: match item.str_at("id"@) {
                            Some(id) => ready.state.item_ids.insert(id, output_index),
                            None => ready.state.item_ids,
                        },
                        ..ready.state
                    },
                    ..ready
                };
                lemma_frame(earlier, ready, named);
                lemma_open_text_block(earlier, named, output_index);
            } else if kind == "function_call"@ {
                lemma_close_thinking(earlier, noted);
                lemma_open_tool_block(
                    earlier,
                    noted.close_thinking(),
                    output_index,
                    item.text_at("call_id"@),
                    item.text_at("name"@),
                );
            } else if kind == "web_search_call"@ {
                lemma_frame(earlier, noted, step.output_item_added(payload));
            }
        },
    }
}

proof fn lemma_reasoning_delta(earlier: Seq<Event>, step: Step, payload: JsonModel)
    requires
        are_accounted(earlier, step),
    ensures
        are_accounted(earlier, step.reasoning_delta(payload)),
{
    let output_index = spec_output_index(payload);
    let delta = payload.text_at("delta"@);
    if delta.len() > 0 {
        let seen = step.semantic();
        lemma_frame(earlier, step, seen);
        match step.state.thinking {
            Some(thinking) if thinking.output_index == output_index => {
                lemma_frame(earlier, seen, step.reasoning_delta(payload));
            },
            _ => {
                lemma_close_thinking(earlier, seen);
                let ready = seen.close_thinking();
                let opened = ready.open_thinking(output_index);
                assert(starts_at(opened.events.last(), ready.state.next_index));
                lemma_open(earlier, ready, opened);
                lemma_frame(earlier, opened, step.reasoning_delta(payload));
            },
        }
    }
}

proof fn lemma_text_delta(earlier: Seq<Event>, step: Step, payload: JsonModel)
    requires
        are_accounted(earlier, step),
    ensures
        are_accounted(earlier, step.text_delta(payload)),
{
    lemma_close_thinking(earlier, step);
    let ready = step.close_thinking();
    let delta = payload.text_at("delta"@);
    if delta.len() > 0 {
        let address = ready.state.text_address(payload);
        let output_index = match address {
            Some(index) => index,
            None => 0,
        };
        lemma_frame(earlier, ready, ready.semantic());
        if !ready.state.blocks.contains_key(output_index) {
            lemma_open_text_block(earlier, ready.semantic(), output_index);
        }
        let open = if ready.state.blocks.contains_key(output_index) {
            ready.semantic()
        } else {
            ready.semantic().open_text_block(output_index)
        };
        lemma_frame(earlier, open, open.append_text(output_index, address is Some, delta));
    }
}

proof fn lemma_tool_piece(
    earlier: Seq<Event>,
    step: Step,
    output_index: usize,
    index: nat,
    call_id: Seq<char>,
    name: Seq<char>,
    args: Seq<char>,
    buffered: bool,
    emitted_args: bool,
    delta: Seq<char>,
)
    requires
        are_accounted(earlier, step),
        step.state.blocks.contains_key(output_index),
        step.state.blocks[output_index] is Tool,
    ensures
        are_accounted(
            earlier,
            step.tool_piece(
                output_index,
                index,
                call_id,
                name,
                args,
                buffered,
                emitted_args,
                delta,
            ).step,
        ),
{
    lemma_frame(
        earlier,
        step,
        step.tool_piece(
            output_index,
            index,
            call_id,
            name,
            args,
            buffered,
            emitted_args,
            delta,
        ).step,
    );
}

proof fn lemma_tool_delta(earlier: Seq<Event>, step: Step, payload: JsonModel)
    requires
        are_accounted(earlier, step),
    ensures
        are_accounted(earlier, step.tool_delta(payload).step),
{
    let delta = payload.text_at("delta"@);
    match addressed_index(payload) {
        Some(output_index) if delta.len() > 0 => {
            let seen = step.semantic();
            lemma_frame(earlier, step, seen);
            if seen.state.blocks.contains_key(output_index) {
                match seen.state.blocks[output_index] {
                    BlockModel::Text { .. } => {},
                    BlockModel::Tool {
                        index,
                        call_id,
                        name,
                        args,
                        had_delta: _,
                        buffered,
                        emitted_args,
                    } => {
                        lemma_tool_piece(
                            earlier,
                            seen,
                            output_index,
                            index,
                            call_id,
                            name,
                            args + delta,
                            buffered,
                            emitted_args,
                            delta,
                        );
                    },
                }
            }
        },
        _ => {},
    }
}

proof fn lemma_reasoning_done(
    earlier: Seq<Event>,
    step: Step,
    output_index: usize,
    item: JsonModel,
)
    requires
        are_accounted(earlier, step),
    ensures
        are_accounted(earlier, step.reasoning_done(output_index, item)),
{
    let known = Step { state: step.state.with_reasoning(output_index, item), ..step };
    lemma_frame(earlier, step, known);
    lemma_close_thinking(earlier, known);
    let ready = known.close_thinking();
    let signed = ready.signature_only(output_index);
    if ready.state.replay_at(output_index) is None {
        lemma_frame(earlier, ready, signed);
    } else {
        let index = ready.state.next_index;
        assert(starts_at(signed.events[signed.events.len() - 3], index));
        lemma_open(earlier, ready, signed);
    }
}

proof fn lemma_web_search_done(earlier: Seq<Event>, step: Step, item: JsonModel)
    requires
        are_accounted(earlier, step),
    ensures
        are_accounted(earlier, step.web_search_done(item)),
{
    lemma_close_thinking(earlier, step);
    let ready = step.close_thinking().semantic();
    lemma_frame(earlier, step.close_thinking(), ready);
    let done = step.web_search_done(item);
    let searches = ready.state.web_searches;
    assert forall|n: nat| n < done.state.next_index implies #[trigger] is_accounted(
        earlier,
        done,
        n,
    ) by {
        if n >= ready.state.next_index {
            let last = searches.len() as int;
            assert(done.state.web_searches[last].index == ready.state.next_index);
            assert(done.state.web_searches[last].result_index == ready.state.next_index + 1);
            assert(is_kept(done.state, n));
        } else {
            assert(is_accounted(earlier, ready, n));
            assert(done.events == ready.events);
            if exists|i: int|
                0 <= i < searches.len() && ((#[trigger] searches[i]).index == n
                    || searches[i].result_index == n) {
                let i = choose|i: int|
                    0 <= i < searches.len() && ((#[trigger] searches[i]).index == n
                        || searches[i].result_index == n);
                assert(done.state.web_searches[i] == searches[i]);
                assert(is_kept(done.state, n));
            } else if is_kept(ready.state, n) {
                assert(done.state.blocks == ready.state.blocks);
                assert(done.state.deferred_text == ready.state.deferred_text);
                assert(is_kept(done.state, n));
            }
        }
    }
}

/// An open output is closed: one that waits is kept among the whole texts.
proof fn lemma_close(earlier: Seq<Event>, before: Step, after: Step, output_index: usize)
    requires
        are_accounted(earlier, before),
        before.state.blocks.contains_key(output_index),
        extends(before.events, after.events),
        after.state.next_index == before.state.next_index,
        after.state.web_searches == before.state.web_searches,
        after.state.blocks == before.state.blocks.remove(output_index),
        match before.state.blocks[output_index] {
            BlockModel::Text { index, text, deferred: true } => after.state.deferred_text
                == before.state.deferred_text.push(DeferredModel { index, text }),
            _ => after.state.deferred_text == before.state.deferred_text,
        },
    ensures
        are_accounted(earlier, after),
{
    let waiting = before.state.deferred_text;
    assert forall|n: nat| n < after.state.next_index implies #[trigger] is_accounted(
        earlier,
        after,
        n,
    ) by {
        assert(is_accounted(earlier, before, n));
        if is_started(before.events, n) {
            lemma_started_extends(before.events, after.events, n);
        } else if exists|k: usize| #[trigger]
            before.state.blocks.contains_key(k) && before.state.blocks[k].is_deferred()
                && before.state.blocks[k].index() == n {
            let k = choose|k: usize| #[trigger]
                before.state.blocks.contains_key(k) && before.state.blocks[k].is_deferred()
                    && before.state.blocks[k].index() == n;
            if k == output_index {
                assert(after.state.deferred_text[waiting.len() as int].index == n);
            } else {
                assert(after.state.blocks.contains_key(k));
            }
        } else if exists|i: int| 0 <= i < waiting.len() && (#[trigger] waiting[i]).index == n {
            let i = choose|i: int| 0 <= i < waiting.len() && (#[trigger] waiting[i]).index == n;
            assert(after.state.deferred_text[i] == waiting[i]);
        }
    }
}

proof fn lemma_block_done(
    earlier: Seq<Event>,
    step: Step,
    output_index: usize,
    item: Option<JsonModel>,
)
    requires
        are_accounted(earlier, step),
    ensures
        are_accounted(earlier, step.block_done(output_index, item)),
{
    if step.state.blocks.contains_key(output_index) {
        lemma_close(earlier, step, step.block_done(output_index, item), output_index);
    }
}

proof fn lemma_output_item_done(earlier: Seq<Event>, step: Step, payload: JsonModel)
    requires
        are_accounted(earlier, step),
    ensures
        are_accounted(earlier, step.output_item_done(payload)),
{
    let output_index = spec_output_index(payload);
    lemma_reasoning_done(earlier, step, output_index, payload.get("item"@)->0);
    lemma_web_search_done(earlier, step, payload.get("item"@)->0);
    lemma_block_done(earlier, step, output_index, payload.get("item"@));
}

proof fn lemma_close_blocks(earlier: Seq<Event>, step: Step, order: Seq<usize>)
    requires
        are_accounted(earlier, step),
        is_ascending(order),
        order.to_set() == step.state.blocks.dom(),
    ensures
        are_accounted(earlier, step.close_blocks(order)),
        step.close_blocks(order).state.blocks == Map::<usize, BlockModel>::empty(),
    decreases order.len(),
{
    if order.len() == 0 {
        assert(order.to_set() =~= Set::empty());
        assert(step.state.blocks =~= Map::empty());
    } else {
        let first = order.first();
        let rest = order.drop_first();
        assert(order.to_set().contains(first));
        let closed = step.close_block(first);
        lemma_close(earlier, step, closed, first);
        assert forall|k: usize|
            rest.to_set().contains(k) <==> closed.state.blocks.dom().contains(k) by {
            if rest.contains(k) {
                let i = choose|i: int| 0 <= i < rest.len() && rest[i] == k;
                assert(order[i + 1] == k && order[0] < order[i + 1]);
                assert(order.to_set().contains(k));
            }
            if closed.state.blocks.dom().contains(k) {
                assert(order.to_set().contains(k));
                let i = choose|i: int| 0 <= i < order.len() && order[i] == k;
                assert(rest[i - 1] == k);
            }
        }
        assert(rest.to_set() =~= closed.state.blocks.dom());
        lemma_close_blocks(earlier, closed, rest);
    }
}

proof fn lemma_close_open_blocks(earlier: Seq<Event>, step: Step)
    requires
        are_accounted(earlier, step),
        step.state.blocks.dom().finite(),
    ensures
        are_accounted(earlier, step.close_open_blocks()),
        step.close_open_blocks().state.blocks == Map::<usize, BlockModel>::empty(),
{
    lemma_close_thinking(earlier, step);
    let ready = step.close_thinking();
    lemma_ascending(ready.state.blocks.dom());
    lemma_close_blocks(earlier, ready, ascending(ready.state.blocks.dom()));
}

/// Web searches that are sent: the blocks of each are opened.
proof fn lemma_flush_searches(step: Step, searches: Seq<WebSearchModel>)
    ensures
        extends(step.events, step.flush_searches(searches).events),
        step.flush_searches(searches).state == step.state || step.flush_searches(searches).state
            == step.start_message().state,
        forall|i: int|
            0 <= i < searches.len() ==> is_started(
                step.flush_searches(searches).events,
                (#[trigger] searches[i]).index,
            ) && is_started(step.flush_searches(searches).events, searches[i].result_index),
    decreases searches.len(),
{
    if searches.len() > 0 {
        let first = searches.first();
        let rest = searches.drop_first();
        let opened = step.start_message();
        let sent = opened.emit_all(step.state.search_events(first));
        let count = opened.events.len() as int;
        assert(starts_at(sent.events[count], first.index));
        assert(starts_at(sent.events[count + 3], first.result_index));
        lemma_flush_searches(sent, rest);
        let flushed = step.flush_searches(searches);
        lemma_extends_further(step.events, sent.events, flushed.events);
        lemma_started_extends(sent.events, flushed.events, first.index);
        lemma_started_extends(sent.events, flushed.events, first.result_index);
        assert forall|i: int| 0 <= i < searches.len() implies is_started(
            flushed.events,
            (#[trigger] searches[i]).index,
        ) && is_started(flushed.events, searches[i].result_index) by {
            if i > 0 {
                assert(rest[i - 1] == searches[i]);
            }
        }
    }
}

/// Texts that are sent: the block of each is opened.
proof fn lemma_flush_texts(step: Step, texts: Seq<DeferredModel>)
    ensures
        extends(step.events, step.flush_texts(texts).events),
        step.flush_texts(texts).state == step.state,
        forall|i: int|
            0 <= i < texts.len() ==> is_started(
                step.flush_texts(texts).events,
                (#[trigger] texts[i]).index,
            ),
    decreases texts.len(),
{
    if texts.len() > 0 {
        let first = texts.first();
        let rest = texts.drop_first();
        let sent = step.emit_all(deferred_events(first));
        assert(starts_at(sent.events[step.events.len() as int], first.index));
        lemma_flush_texts(sent, rest);
        let flushed = step.flush_texts(texts);
        lemma_extends_further(step.events, sent.events, flushed.events);
        lemma_started_extends(sent.events, flushed.events, first.index);
        assert forall|i: int| 0 <= i < texts.len() implies is_started(
            flushed.events,
            (#[trigger] texts[i]).index,
        ) by {
            if i > 0 {
                assert(rest[i - 1] == texts[i]);
            }
        }
    }
}

/// Once nothing is open and all that waits was sent, the block of every index
/// that was given out has been opened.
proof fn lemma_emit_web_searches(earlier: Seq<Event>, step: Step)
    requires
        are_accounted(earlier, step),
        step.state.blocks == Map::<usize, BlockModel>::empty(),
    ensures
        step.emit_web_searches().state.next_index == step.state.next_index,
        forall|n: nat|
            n < step.state.next_index ==> is_started(earlier, n) || #[trigger] is_started(
                step.emit_web_searches().events,
                n,
            ),
{
    let searches = step.state.web_searches;
    let texts = step.state.deferred_text;
    let cleared = Step {
        state: State {
            web_searches: Seq::empty(),
            deferred_text: Seq::empty(),
            ..step.state
        },
        ..step
    };
    lemma_flush_searches(cleared, searches);
    let searched = cleared.flush_searches(searches);
    lemma_flush_texts(searched, texts);
    let flushed = searched.flush_texts(texts);
    assert forall|n: nat| n < step.state.next_index implies is_started(earlier, n)
        || #[trigger] is_started(flushed.events, n) by {
        assert(is_accounted(earlier, step, n));
        if is_started(step.events, n) {
            lemma_started_extends(step.events, searched.events, n);
            lemma_started_extends(searched.events, flushed.events, n);
        } else if exists|i: int|
            0 <= i < searches.len() && ((#[trigger] searches[i]).index == n
                || searches[i].result_index == n) {
            lemma_started_extends(searched.events, flushed.events, n);
        }
    }
}

proof fn lemma_finish(earlier: Seq<Event>, step: Step, payload: JsonModel, verdict: VerdictModel)
    requires
        are_accounted(earlier, step),
        step.state.blocks.dom().finite(),
    ensures
        ({
            let finished = step.finish(payload, verdict);
            &&& forall|n: nat|
                n < finished.state.next_index ==> is_started(earlier, n) || #[trigger] is_started(
                    finished.events,
                    n,
                )
            &&& finished.events.len() >= 2
            &&& finished.events[finished.events.len() - 2] is MessageDelta
            &&& finished.events.last() is MessageStop
        }),
{
    let noted = step.with_metadata(
        match step.state.metadata {
            Some(metadata) if metadata.open_blocks == Set::<usize>::empty() => Some(
                metadata.terminated(verdict.complete, nested_str(payload, "response"@, "id"@)),
            ),
            _ => None,
        },
    );
    lemma_frame(earlier, step, noted);
    lemma_close_thinking(earlier, noted);
    lemma_close_open_blocks(earlier, noted.close_thinking());
    let closed = noted.close_thinking().close_open_blocks();
    lemma_emit_web_searches(earlier, closed);
    let flushed = closed.emit_web_searches();
    let finished = step.finish(payload, verdict);
    assert(extends(flushed.events, finished.events));
    assert(finished.state.next_index == closed.state.next_index);
    assert forall|n: nat| n < finished.state.next_index implies is_started(earlier, n)
        || #[trigger] is_started(finished.events, n) by {
        if is_started(flushed.events, n) {
            lemma_started_extends(flushed.events, finished.events, n);
        }
    }
}

proof fn lemma_dispatch(
    earlier: Seq<Event>,
    step: Step,
    payload: JsonModel,
    verdict: VerdictModel,
)
    requires
        are_accounted(earlier, step),
        replaces_nothing(step.state, payload),
        !is_end(payload),
    ensures
        are_accounted(earlier, step.dispatch(payload, verdict).step),
{
    let kind = event_kind(payload);
    if kind == "response.function_call_arguments.delta"@ {
        lemma_tool_delta(earlier, step, payload);
    } else if kind == "codex.rate_limits"@ || kind == "keepalive"@ || kind == "response.created"@
        || kind == "response.in_progress"@ {
        lemma_frame(earlier, step, step.ping());
    } else if kind == "response.output_item.added"@ {
        lemma_output_item_added(earlier, step, payload);
    } else if kind == "response.reasoning_summary_part.added"@ {
        lemma_frame(earlier, step, step.summary_part(payload));
    } else if kind == "response.reasoning_summary_text.delta"@ {
        lemma_reasoning_delta(earlier, step, payload);
    } else if kind == "response.output_text.delta"@ {
        lemma_text_delta(earlier, step, payload);
    } else if kind == "response.output_text.annotation.added"@ {
        lemma_frame(
            earlier,
            step,
            Step { state: step.state.with_citation(payload), ..step },
        );
    } else if kind == "response.function_call_arguments.done"@ {
        lemma_frame(
            earlier,
            step,
            Step { state: step.state.with_arguments(payload), ..step },
        );
    } else if kind == "response.output_item.done"@ {
        lemma_output_item_done(earlier, step, payload);
    }
}

proof fn lemma_call(earlier: Seq<Event>, state: State, call: Call)
    requires
        are_accounted(earlier, state.still()),
        call matches Call::Accept { payload } ==> replaces_nothing(state, payload),
        !state.finished,
        !state.called(call).state.finished,
    ensures
        are_accounted(earlier, state.called(call)),
{
    let still = state.still();
    match call {
        Call::Accept { payload } => {
            let verdict = event_verdict(payload);
            if is_end(payload) {
                law_kinds_are_told_apart(still, payload, verdict);
                assert(still.finish(payload, verdict).state.finished);
                lemma_frame(earlier, still, still.with_metadata(None));
            } else {
                lemma_dispatch(earlier, still, payload, verdict);
                lemma_frame(earlier, still, still.with_metadata(None));
            }
        },
        Call::Ping => {
            lemma_frame(earlier, still, still.ping());
        },
        Call::TakeMetadata => {
            lemma_frame(earlier, still, still.with_metadata(None));
        },
        _ => {},
    }
}

/// What was started on the way of a step was started as a whole.
proof fn lemma_concat(earlier: Seq<Event>, taken: Step)
    requires
        are_accounted(earlier, taken),
    ensures
        are_accounted(
            Seq::empty(),
            (Step { state: taken.state, events: earlier + taken.events }),
        ),
{
    let whole = Step { state: taken.state, events: earlier + taken.events };
    assert forall|n: nat| n < whole.state.next_index implies #[trigger] is_accounted(
        Seq::empty(),
        whole,
        n,
    ) by {
        assert(is_accounted(earlier, taken, n));
        if !is_kept(taken.state, n) {
            lemma_started_concat(earlier, taken.events, n);
        }
    }
}

proof fn lemma_started_concat(earlier: Seq<Event>, later: Seq<Event>, index: nat)
    requires
        is_started(earlier, index) || is_started(later, index),
    ensures
        is_started(earlier + later, index),
{
    if is_started(earlier, index) {
        lemma_started_extends(earlier, earlier + later, index);
    } else {
        let i = choose|i: int| 0 <= i < later.len() && starts_at(#[trigger] later[i], index);
        assert((earlier + later)[earlier.len() + i] == later[i]);
    }
}

proof fn lemma_session(start: State, calls: Seq<Call>)
    requires
        start.next_index == 0,
        session_replaces_nothing(start, calls),
        !start.session(calls).state.finished,
    ensures
        are_accounted(Seq::empty(), start.session(calls)),
    decreases calls.len(),
{
    if calls.len() > 0 {
        let before = start.session(calls.drop_last());
        law_call_keeps_progress(before.state, calls.last());
        lemma_session(start, calls.drop_last());
        assert(are_accounted(before.events, before.state.still())) by {
            assert forall|n: nat| n < before.state.next_index implies #[trigger] is_accounted(
                before.events,
                before.state.still(),
                n,
            ) by {
                assert(is_accounted(Seq::empty(), before, n));
            }
        }
        lemma_call(before.events, before.state, calls.last());
        lemma_concat(before.events, before.state.called(calls.last()));
    }
}

/// What a client has seen opened is what was opened.
proof fn lemma_seen(client: Client, events: Seq<Event>, index: nat)
    requires
        client.receive_all(events) is Some,
    ensures
        client.receive_all(events)->0.seen.contains(index) <==> client.seen.contains(index)
            || is_started(events, index),
    decreases events.len(),
{
    if events.len() > 0 {
        let rest = events.drop_last();
        lemma_seen(client, rest, index);
        if is_started(rest, index) {
            lemma_started_extends(rest, events, index);
        }
        if is_started(events, index) && !is_started(rest, index) {
            let i = choose|i: int|
                0 <= i < events.len() && starts_at(#[trigger] events[i], index);
            assert(i == events.len() - 1) by {
                if i < rest.len() {
                    assert(starts_at(rest[i], index));
                }
            }
        }
        if starts_at(events.last(), index) {
            assert(starts_at(events[events.len() - 1], index));
        }
    }
}

/// Whether a call ends a message in a regular way: with its response, with the
/// connection after a complete tool call, or in an error. The one other way is a
/// piece of a `Read` call that is repaired.
pub open spec fn is_regular_end(call: Call) -> bool {
    match call {
        Call::Accept { payload } => is_end(payload),
        _ => true,
    }
}

/// A session whose last call ends the message in a regular way leaves the client
/// with no open block, where no message or tool call was added at an index that
/// had one open.
pub proof fn law_session_closes_every_block(
    message_id: Seq<char>,
    model: Seq<char>,
    estimated_input_tokens: u64,
    policy: IncompleteResponsePolicy,
    collects: bool,
    calls: Seq<Call>,
)
    requires
        ({
            let start = State::configured(
                message_id,
                model,
                estimated_input_tokens,
                policy,
                collects,
            );
            &&& calls.len() > 0
            &&& session_replaces_nothing(start, calls)
            &&& is_regular_end(calls.last())
            &&& !start.session(calls.drop_last()).state.finished
            &&& start.session(calls).state.finished
        }),
    ensures
        ({
            let start = State::configured(
                message_id,
                model,
                estimated_input_tokens,
                policy,
                collects,
            );
            let session = start.session(calls);
            &&& is_legal(Client::fresh(), session)
            &&& after(Client::fresh(), session).open == Map::<nat, OpenBlock>::empty()
        }),
{
    let start = State::configured(message_id, model, estimated_input_tokens, policy, collects);
    lemma_new_agrees(start);
    lemma_session_end(start, calls);
}

proof fn lemma_session_end(start: State, calls: Seq<Call>)
    requires
        agrees(start, Client::fresh()),
        is_tight(start, Client::fresh()),
        calls.len() > 0,
        session_replaces_nothing(start, calls),
        is_regular_end(calls.last()),
        !start.session(calls.drop_last()).state.finished,
        start.session(calls).state.finished,
    ensures
        is_legal(Client::fresh(), start.session(calls)),
        after(Client::fresh(), start.session(calls)).open == Map::<nat, OpenBlock>::empty(),
        calls.last() is Accept ==> forall|n: nat| #[trigger]
            after(Client::fresh(), start.session(calls)).seen.contains(n) ==> n < start.session(
                calls,
            ).state.next_index,
{
    let fresh = Client::fresh();
    let before = start.session(calls.drop_last());
    let client = after(fresh, before);
    lemma_session_is_legal(start, calls.drop_last(), fresh);
    law_session_keeps_blocks_known(start, calls.drop_last(), fresh);
    law_call_keeps_protocol(before.state, calls.last(), client);
    lemma_legal_concat(fresh, before, before.state.called(calls.last()));
    match calls.last() {
        Call::Accept { payload } => {
            law_response_end_closes_every_block(
                before.state,
                payload,
                event_verdict(payload),
                client,
            );
        },
        Call::EndAfterToolCall => {
            law_connection_end_closes_every_block(before.state, client);
        },
        Call::Fail { message, error_type } => {
            law_failure_closes_every_block(before.state, message, error_type, client);
        },
        Call::Ping => {},
        Call::TakeMetadata => {},
    }
}

/// Over a session that ends with its response, the blocks that were opened are
/// those of the indices from zero up to the number that was given out, each
/// once, each closed once, with its pieces in between. The last two events are
/// the usage and the stop of the message. This is so where no message or tool
/// call was added at an index that had one open.
pub proof fn law_whole_response_opens_and_closes_each_block(
    message_id: Seq<char>,
    model: Seq<char>,
    estimated_input_tokens: u64,
    policy: IncompleteResponsePolicy,
    collects: bool,
    calls: Seq<Call>,
    payload: JsonModel,
)
    requires
        ({
            let start = State::configured(
                message_id,
                model,
                estimated_input_tokens,
                policy,
                collects,
            );
            &&& calls.len() > 0
            &&& session_replaces_nothing(start, calls)
            &&& calls.last() == (Call::Accept { payload })
            &&& is_end(payload)
            &&& !start.session(calls.drop_last()).state.finished
            &&& start.session(calls).state.finished
        }),
    ensures
        ({
            let start = State::configured(
                message_id,
                model,
                estimated_input_tokens,
                policy,
                collects,
            );
            let session = start.session(calls);
            let last = session.events.len() - 1;
            &&& is_legal(Client::fresh(), session)
            &&& after(Client::fresh(), session).open == Map::<nat, OpenBlock>::empty()
            &&& forall|n: nat| #[trigger]
                is_started(session.events, n) <==> n < session.state.next_index
            &&& last >= 1
            &&& session.events[last - 1] is MessageDelta
            &&& session.events[last] is MessageStop
        }),
{
    let start = State::configured(message_id, model, estimated_input_tokens, policy, collects);
    let before = start.session(calls.drop_last());
    let session = start.session(calls);
    let verdict = event_verdict(payload);
    lemma_new_agrees(start);
    lemma_session_end(start, calls);
    lemma_session(start, calls.drop_last());
    law_session_is_consistent(
        message_id,
        model,
        estimated_input_tokens,
        policy,
        collects,
        calls.drop_last(),
    );
    law_kinds_are_told_apart(before.state.still(), payload, verdict);
    let finished = before.state.still().finish(payload, verdict);
    assert(before.state.called(calls.last()) == finished);
    assert(are_accounted(before.events, before.state.still())) by {
        assert forall|n: nat| n < before.state.next_index implies #[trigger] is_accounted(
            before.events,
            before.state.still(),
            n,
        ) by {
            assert(is_accounted(Seq::empty(), before, n));
        }
    }
    lemma_finish(before.events, before.state.still(), payload, verdict);
    assert forall|n: nat| #[trigger]
        is_started(session.events, n) <==> n < session.state.next_index by {
        lemma_seen(Client::fresh(), session.events, n);
        if n < session.state.next_index {
            assert(is_started(before.events, n) || is_started(finished.events, n));
            lemma_started_concat(before.events, finished.events, n);
        }
    }
}

} // verus!

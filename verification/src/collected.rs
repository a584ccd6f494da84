//! What is collected of a response for its continuation, in terms of what the
//! events say.

use crate::answers::{named_output, reasoning_after, signed_replay};
use crate::completion::{ends_output, final_arguments};
use crate::consistency::{is_consistent, is_sound_block};
use crate::index_map::ascending;
use crate::items::{ItemModel, PartModel};
use crate::json::JsonModel;
use crate::kinds::{
    is_answer, is_end, is_sign_of_life, law_pieces_are_no_failure, lemma_answer_to_added,
    lemma_answer_to_annotation, lemma_answer_to_arguments, lemma_answer_to_done,
    lemma_answer_to_end, lemma_answer_to_part, lemma_answer_to_sign_of_life, lemma_answer_to_text,
    lemma_answer_to_thinking,
};
use crate::laws::is_piece;
use crate::model::{
    deferred_events, DeferredModel, MetadataModel, State, Step, WebSearchModel,
    BUFFERED_TOOL_MAX_ARGS_BYTES,
};
use crate::protocol::Call;
use crate::read_args::{repaired_args, sanitized_args};
use crate::text::byte_len;
use crate::upstream::{event_kind, event_verdict, nested_str, spec_output_index, VerdictModel};
use vstd::prelude::*;

verus! {

/// Whether an item is collected at an index, as far as metadata is collected,
/// and the open thinking block is not the one of that index.
pub open spec fn has_collected(state: State, index: usize, item: ItemModel) -> bool {
    &&& state.metadata matches Some(metadata) ==> metadata.output_items.contains_key(index)
        && metadata.output_items[index] == item
    &&& state.thinking matches Some(thinking) ==> thinking.output_index != index
}

spec fn keeps(before: Step, after: Step, index: usize, item: ItemModel) -> bool {
    has_collected(before.state, index, item) ==> has_collected(after.state, index, item)
}

proof fn lemma_close_thinking(step: Step, index: usize, item: ItemModel)
    ensures
        keeps(step, step.close_thinking(), index, item),
{
}

proof fn lemma_output_item_added(step: Step, payload: JsonModel, index: usize, item: ItemModel)
    ensures
        keeps(step, step.output_item_added(payload), index, item),
{
}

proof fn lemma_reasoning_delta(step: Step, payload: JsonModel, index: usize, item: ItemModel)
    requires
        spec_output_index(payload) != index,
    ensures
        keeps(step, step.reasoning_delta(payload), index, item),
{
    lemma_close_thinking(step.semantic(), index, item);
}

proof fn lemma_text_delta(step: Step, payload: JsonModel, index: usize, item: ItemModel)
    ensures
        keeps(step, step.text_delta(payload), index, item),
{
    lemma_close_thinking(step, index, item);
}

proof fn lemma_tool_delta(step: Step, payload: JsonModel, index: usize, item: ItemModel)
    requires
        spec_output_index(payload) != index,
    ensures
        keeps(step, step.tool_delta(payload).step, index, item),
{
}

proof fn lemma_reasoning_done(
    step: Step,
    output_index: usize,
    reasoning: JsonModel,
    index: usize,
    item: ItemModel,
)
    requires
        output_index != index,
    ensures
        keeps(step, step.reasoning_done(output_index, reasoning), index, item),
{
}

proof fn lemma_block_done(
    step: Step,
    output_index: usize,
    ended: Option<JsonModel>,
    index: usize,
    item: ItemModel,
)
    requires
        output_index != index,
    ensures
        keeps(step, step.block_done(output_index, ended), index, item),
{
}

proof fn lemma_output_item_done(step: Step, payload: JsonModel, index: usize, item: ItemModel)
    requires
        spec_output_index(payload) != index,
    ensures
        keeps(step, step.output_item_done(payload), index, item),
{
    let output_index = spec_output_index(payload);
    lemma_reasoning_done(step, output_index, payload.get("item"@)->0, index, item);
    lemma_close_thinking(step, index, item);
    lemma_block_done(step, output_index, payload.get("item"@), index, item);
}

/// Steps that change neither the metadata nor the open thinking block.
spec fn is_aside(before: Step, after: Step) -> bool {
    after.state.metadata == before.state.metadata && after.state.thinking == before.state.thinking
}

proof fn lemma_close_blocks(step: Step, order: Seq<usize>)
    ensures
        is_aside(step, step.close_blocks(order)),
    decreases order.len(),
{
    if order.len() > 0 {
        lemma_close_blocks(step.close_block(order.first()), order.drop_first());
    }
}

proof fn lemma_flush_searches(step: Step, searches: Seq<WebSearchModel>)
    ensures
        is_aside(step, step.flush_searches(searches)),
    decreases searches.len(),
{
    if searches.len() > 0 {
        let sent = step.start_message().emit_all(step.state.search_events(searches.first()));
        lemma_flush_searches(sent, searches.drop_first());
    }
}

proof fn lemma_flush_texts(step: Step, texts: Seq<DeferredModel>)
    ensures
        is_aside(step, step.flush_texts(texts)),
    decreases texts.len(),
{
    if texts.len() > 0 {
        lemma_flush_texts(step.emit_all(deferred_events(texts.first())), texts.drop_first());
    }
}

/// The end of a response, once its metadata was noted, changes the metadata only
/// by the end of the open thinking block.
proof fn lemma_ending(step: Step)
    ensures
        step.close_thinking().close_open_blocks().emit_web_searches().start_message().state.metadata
            == step.close_thinking().state.metadata,
        step.close_thinking().close_open_blocks().emit_web_searches().start_message().state.thinking
            is None,
{
    let ready = step.close_thinking();
    assert(ready.close_thinking() == ready);
    lemma_close_blocks(ready, ascending(ready.state.blocks.dom()));
    let closed = ready.close_open_blocks();
    let cleared = Step {
        state: State {
            web_searches: Seq::empty(),
            deferred_text: Seq::empty(),
            ..closed.state
        },
        ..closed
    };
    lemma_flush_searches(cleared, closed.state.web_searches);
    lemma_flush_texts(
        cleared.flush_searches(closed.state.web_searches),
        closed.state.deferred_text,
    );
}

proof fn lemma_finish(
    step: Step,
    payload: JsonModel,
    verdict: VerdictModel,
    index: usize,
    item: ItemModel,
)
    ensures
        keeps(step, step.finish(payload, verdict), index, item),
{
    let noted = step.with_metadata(
        match step.state.metadata {
            Some(metadata) if metadata.open_blocks == Set::<usize>::empty() => Some(
                metadata.terminated(verdict.complete, nested_str(payload, "response"@, "id"@)),
            ),
            _ => None,
        },
    );
    lemma_close_thinking(noted, index, item);
    lemma_ending(noted);
}

proof fn lemma_dispatch(
    step: Step,
    payload: JsonModel,
    verdict: VerdictModel,
    index: usize,
    item: ItemModel,
)
    requires
        spec_output_index(payload) != index,
    ensures
        keeps(step, step.dispatch(payload, verdict).step, index, item),
{
    let kind = event_kind(payload);
    if kind == "response.function_call_arguments.delta"@ {
        lemma_tool_delta(step, payload, index, item);
    } else if kind == "response.output_item.added"@ {
        lemma_output_item_added(step, payload, index, item);
    } else if kind == "response.reasoning_summary_text.delta"@ {
        lemma_reasoning_delta(step, payload, index, item);
    } else if kind == "response.output_text.delta"@ {
        lemma_text_delta(step, payload, index, item);
    } else if kind == "response.output_item.done"@ {
        lemma_output_item_done(step, payload, index, item);
    } else if is_end(payload) {
        lemma_finish(step, payload, verdict, index, item);
    } else if kind == "response.output_text.annotation.added"@ {
        assert(is_aside(step, Step { state: step.state.with_citation(payload), ..step }));
    } else if kind == "response.function_call_arguments.done"@ {
        assert(is_aside(step, Step { state: step.state.with_arguments(payload), ..step }));
    } else if kind == "response.reasoning_summary_part.added"@ {
        assert(is_aside(step, step.summary_part(payload)));
    } else {
        assert(is_aside(step, step.ping()));
    }
}

/// What was collected of an output stays as it is: an event changes it only for
/// the output that it names, or for that of the thinking block which it ends.
pub proof fn law_collected_items_stay(
    state: State,
    payload: JsonModel,
    verdict: VerdictModel,
    index: usize,
    item: ItemModel,
)
    requires
        has_collected(state, index, item),
        spec_output_index(payload) != index,
    ensures
        has_collected(state.accepted(payload, verdict).step.state, index, item),
{
    lemma_dispatch(state.still(), payload, verdict, index, item);
}

/// Whether a call does not name an output: it hands over no event, or one about
/// another output.
pub open spec fn is_about_others(call: Call, index: usize) -> bool {
    call matches Call::Accept { payload } ==> spec_output_index(payload) != index
}

/// What was collected of an output is reported, whatever is done with other
/// outputs, as far as anything is reported.
pub proof fn law_session_keeps_collected_items(
    state: State,
    calls: Seq<Call>,
    index: usize,
    item: ItemModel,
)
    requires
        has_collected(state, index, item),
        forall|i: int| 0 <= i < calls.len() ==> is_about_others(#[trigger] calls[i], index),
    ensures
        has_collected(state.session(calls).state, index, item),
    decreases calls.len(),
{
    if calls.len() > 0 {
        law_session_keeps_collected_items(state, calls.drop_last(), index, item);
        let before = state.session(calls.drop_last()).state;
        let quiet = before.still().with_metadata(None);
        match calls.last() {
            Call::Accept { payload } => {
                assert(is_about_others(calls[calls.len() - 1], index));
                law_collected_items_stay(before, payload, event_verdict(payload), index, item);
            },
            Call::EndAfterToolCall => {
                lemma_close_thinking(quiet, index, item);
            },
            Call::Fail { .. } => {
                lemma_close_thinking(quiet, index, item);
                let ready = quiet.close_thinking();
                lemma_close_blocks(ready, ascending(ready.state.blocks.dom()));
            },
            _ => {},
        }
    }
}

/// What is collected once the open thinking block has ended: its reasoning, where
/// its identifier and its content are known.
pub open spec fn items_after_thinking(state: State) -> Map<usize, ItemModel> {
    let items = state.metadata->0.output_items;
    match state.thinking {
        Some(thinking) => match signed_replay(state, thinking.output_index) {
            Some(replay) => items.insert(
                thinking.output_index,
                ItemModel::Reasoning {
                    id: replay.id,
                    encrypted_content: replay.encrypted_content,
                },
            ),
            None => items,
        },
        None => items,
    }
}

/// From the event with which a message or a tool call begins, until it ends, its
/// output counts as open.
pub proof fn law_open_outputs_are_noted(
    state: State,
    payload: JsonModel,
    verdict: VerdictModel,
    taken: Step,
    item: JsonModel,
    metadata: MetadataModel,
)
    requires
        is_answer(state, payload, verdict, taken),
        state.metadata == Some(metadata),
        event_kind(payload) == "response.output_item.added"@,
        payload.get("item"@) == Some(item),
        item.text_at("type"@) == "message"@ || item.text_at("type"@) == "function_call"@,
    ensures
        taken.state.metadata == Some(
            MetadataModel {
                output_items: items_after_thinking(state),
                open_blocks: metadata.open_blocks.insert(spec_output_index(payload)),
                text_overrides: metadata.text_overrides.remove(spec_output_index(payload)),
                ..metadata
            },
        ),
{
    lemma_answer_to_added(state, payload, verdict, taken);
    reveal_strlit("message");
    reveal_strlit("function_call");
    reveal_strlit("reasoning");
    assert("message"@.len() == 7);
    assert("function_call"@.len() == 13);
    assert("reasoning"@.len() == 9);
}

proof fn lemma_thinking_is_collected(state: State)
    requires
        state.metadata is Some,
    ensures
        ({
            let ended = state.still().close_thinking().state;
            &&& ended.metadata == Some(
                MetadataModel { output_items: items_after_thinking(state), ..state.metadata->0 },
            )
            &&& ended.blocks == state.blocks
            &&& ended.item_ids == state.item_ids
            &&& ended.web_searches == state.web_searches
        }),
{
}

proof fn lemma_append_text(
    step: Step,
    output_index: usize,
    addressed: bool,
    delta: Seq<char>,
    metadata: MetadataModel,
)
    requires
        step.state.metadata == Some(metadata),
        step.state.blocks[output_index] is Text,
        metadata.open_blocks.contains(output_index),
    ensures
        ({
            let after = step.append_text(output_index, addressed, delta).state;
            let before = step.state.blocks[output_index]->Text_text;
            let kept = if metadata.text_overrides.contains_key(output_index) {
                metadata.text_overrides[output_index]
            } else {
                before
            };
            let text = after.blocks[output_index]->Text_text;
            let now = after.metadata->0;
            &&& after.metadata is Some
            &&& now.output_items == metadata.output_items
            &&& now.open_blocks == metadata.open_blocks
            &&& now.finished == metadata.finished
            &&& now.continuation_eligible == metadata.continuation_eligible
            &&& now.response_id == metadata.response_id
            &&& (if now.text_overrides.contains_key(output_index) {
                now.text_overrides[output_index]
            } else {
                text
            }) == if addressed {
                kept + delta
            } else {
                kept
            }
            &&& now.text_overrides.remove(output_index) == metadata.text_overrides.remove(
                output_index,
            )
        }),
{
}

/// A piece of text that names its output is collected. One that does not is
/// left out: from the first such piece on, what is collected parts from what is
/// sent.
pub proof fn law_collected_text_follows_its_pieces(
    state: State,
    payload: JsonModel,
    verdict: VerdictModel,
    taken: Step,
    metadata: MetadataModel,
    output_index: usize,
)
    requires
        is_answer(state, payload, verdict, taken),
        state.metadata == Some(metadata),
        event_kind(payload) == "response.output_text.delta"@,
        payload.text_at("delta"@).len() > 0,
        output_index == match named_output(state, payload) {
            Some(index) => index,
            None => 0,
        },
        state.blocks.contains_key(output_index),
        state.blocks[output_index] is Text,
        metadata.open_blocks.contains(output_index),
    ensures
        ({
            let before = state.blocks[output_index]->Text_text;
            let after = taken.state;
            let kept = if metadata.text_overrides.contains_key(output_index) {
                metadata.text_overrides[output_index]
            } else {
                before
            };
            let text = after.blocks[output_index]->Text_text;
            let now = after.metadata->0;
            &&& after.metadata is Some
            &&& now.output_items == items_after_thinking(state)
            &&& now.open_blocks == metadata.open_blocks
            &&& now.finished == metadata.finished
            &&& now.continuation_eligible == metadata.continuation_eligible
            &&& now.response_id == metadata.response_id
            &&& (if now.text_overrides.contains_key(output_index) {
                now.text_overrides[output_index]
            } else {
                text
            }) == if named_output(state, payload) is Some {
                kept + payload.text_at("delta"@)
            } else {
                kept
            }
            &&& now.text_overrides.remove(output_index) == metadata.text_overrides.remove(
                output_index,
            )
        }),
{
    lemma_answer_to_text(state, payload, verdict, taken);
    let ready = state.still().close_thinking();
    let addressed = named_output(state, payload) is Some;
    let delta = payload.text_at("delta"@);
    lemma_thinking_is_collected(state);
    assert(taken == ready.semantic().append_text(
        output_index,
        addressed,
        delta,
    ));
    lemma_append_text(ready.semantic(), output_index, addressed, delta, ready.state.metadata->0);
}

/// A message that ends is collected as a message of the assistant with the text
/// that was collected of it, unless that is empty. It no longer counts as open.
pub proof fn law_ended_message_is_collected(
    state: State,
    payload: JsonModel,
    verdict: VerdictModel,
    taken: Step,
    metadata: MetadataModel,
)
    requires
        is_answer(state, payload, verdict, taken),
        state.metadata == Some(metadata),
        ends_output(payload),
        state.blocks.contains_key(spec_output_index(payload)),
        state.blocks[spec_output_index(payload)] is Text,
    ensures
        ({
            let output_index = spec_output_index(payload);
            let text = if metadata.text_overrides.contains_key(output_index) {
                metadata.text_overrides[output_index]
            } else {
                state.blocks[output_index]->Text_text
            };
            let item = ItemModel::Message {
                role: seq!['a', 's', 's', 'i', 's', 't', 'a', 'n', 't'],
                content: seq![PartModel::OutputText { text }],
            };
            taken.state.metadata == Some(
                if metadata.open_blocks.contains(output_index) {
                    MetadataModel {
                        output_items: if text.len() > 0 {
                            metadata.output_items.insert(output_index, item)
                        } else {
                            metadata.output_items
                        },
                        open_blocks: metadata.open_blocks.remove(output_index),
                        text_overrides: metadata.text_overrides.remove(output_index),
                        ..metadata
                    }
                } else {
                    metadata
                },
            )
        }),
{
    lemma_answer_to_done(state, payload, verdict, taken);
    reveal_strlit("assistant");
    assert("assistant"@ =~= seq!['a', 's', 's', 'i', 's', 't', 'a', 'n', 't']);
}

/// A tool call that ends is collected with its identifier, its name and its
/// arguments: those that came whole before, where the end gives others, and else
/// the final ones, cleaned up where the tool is `Read`. An end that names no item
/// leaves them as they came. It no longer counts as open.
pub proof fn law_ended_call_is_collected(
    state: State,
    payload: JsonModel,
    verdict: VerdictModel,
    taken: Step,
    metadata: MetadataModel,
)
    requires
        is_consistent(state),
        is_answer(state, payload, verdict, taken),
        state.metadata == Some(metadata),
        ends_output(payload),
        state.blocks.contains_key(spec_output_index(payload)),
        state.blocks[spec_output_index(payload)] is Tool,
    ensures
        ({
            let output_index = spec_output_index(payload);
            let block = state.blocks[output_index];
            let whole = final_arguments(block, payload.get("item"@));
            let kept = if block->args.len() > 0 {
                block->args
            } else {
                whole
            };
            let item = ItemModel::FunctionCall {
                call_id: block->call_id,
                name: block->name,
                arguments: if payload.get("item"@) is None {
                    block->args
                } else if kept.len() > 0 {
                    sanitized_args(block->name, kept)
                } else {
                    kept
                },
            };
            taken.state.metadata == Some(
                if metadata.open_blocks.contains(output_index) {
                    MetadataModel {
                        output_items: metadata.output_items.insert(output_index, item),
                        open_blocks: metadata.open_blocks.remove(output_index),
                        ..metadata
                    }
                } else {
                    metadata
                },
            )
        }),
{
    lemma_answer_to_done(state, payload, verdict, taken);
    assert(is_sound_block(state.blocks[spec_output_index(payload)]));
}

/// A piece of text for an output that does not count as open is not collected.
pub proof fn law_untracked_text_is_not_collected(
    state: State,
    payload: JsonModel,
    verdict: VerdictModel,
    taken: Step,
    metadata: MetadataModel,
)
    requires
        is_answer(state, payload, verdict, taken),
        state.metadata == Some(metadata),
        event_kind(payload) == "response.output_text.delta"@,
        !metadata.open_blocks.contains(
            match named_output(state, payload) {
                Some(index) => index,
                None => 0,
            },
        ),
    ensures
        taken.state.metadata == Some(
            MetadataModel { output_items: items_after_thinking(state), ..metadata },
        ),
{
    lemma_answer_to_text(state, payload, verdict, taken);
    lemma_thinking_is_collected(state);
    lemma_untracked_text(state, payload);
}

proof fn lemma_untracked_text(state: State, payload: JsonModel)
    requires
        state.metadata is Some,
        !state.metadata->0.open_blocks.contains(
            match named_output(state, payload) {
                Some(index) => index,
                None => 0,
            },
        ),
    ensures
        state.still().text_delta(payload).state.metadata
            == state.still().close_thinking().state.metadata,
{
    lemma_thinking_is_collected(state);
    let ready = state.still().close_thinking();
    assert(ready.state.text_address(payload) == named_output(state, payload));
}

/// What a reasoning item leaves when it ends: its own thinking block, or the
/// signature that is sent for it, collects it where its identifier and its
/// content are known.
pub proof fn law_ended_reasoning_is_collected(
    state: State,
    payload: JsonModel,
    verdict: VerdictModel,
    taken: Step,
    metadata: MetadataModel,
    item: JsonModel,
)
    requires
        is_answer(state, payload, verdict, taken),
        state.metadata == Some(metadata),
        event_kind(payload) == "response.output_item.done"@,
        payload.get("item"@) == Some(item),
        item.str_at("type"@) == Some("reasoning"@),
    ensures
        ({
            let output_index = spec_output_index(payload);
            let known = State {
                reasoning: state.reasoning.insert(
                    output_index,
                    reasoning_after(state, output_index, item),
                ),
                ..state
            };
            taken.state.metadata == Some(
                MetadataModel {
                    output_items: match signed_replay(known, output_index) {
                        Some(replay) => items_after_thinking(known).insert(
                            output_index,
                            ItemModel::Reasoning {
                                id: replay.id,
                                encrypted_content: replay.encrypted_content,
                            },
                        ),
                        None => items_after_thinking(known),
                    },
                    ..metadata
                },
            )
        }),
{
    lemma_answer_to_done(state, payload, verdict, taken);
    let output_index = spec_output_index(payload);
    lemma_reasoning_is_collected(state, output_index, item);
}

proof fn lemma_reasoning_is_collected(state: State, output_index: usize, item: JsonModel)
    requires
        state.metadata is Some,
    ensures
        ({
            let known = State {
                reasoning: state.reasoning.insert(
                    output_index,
                    reasoning_after(state, output_index, item),
                ),
                ..state
            };
            state.still().reasoning_done(output_index, item).state.metadata == Some(
                MetadataModel {
                    output_items: match signed_replay(known, output_index) {
                        Some(replay) => items_after_thinking(known).insert(
                            output_index,
                            ItemModel::Reasoning {
                                id: replay.id,
                                encrypted_content: replay.encrypted_content,
                            },
                        ),
                        None => items_after_thinking(known),
                    },
                    ..state.metadata->0
                },
            )
        }),
{
    let known = State {
        reasoning: state.reasoning.insert(
            output_index,
            reasoning_after(state, output_index, item),
        ),
        ..state
    };
    assert(state.with_reasoning(output_index, item) == known);
    lemma_thinking_is_collected(known);
    if known.thinking matches Some(thinking) && thinking.output_index == output_index {
        match signed_replay(known, output_index) {
            Some(replay) => {
                let item = ItemModel::Reasoning {
                    id: replay.id,
                    encrypted_content: replay.encrypted_content,
                };
                assert(items_after_thinking(known).insert(output_index, item)
                    =~= items_after_thinking(known));
            },
            None => {},
        }
    }
}

/// What collects nothing new: a web search that ends and a piece of reasoning
/// that begins a block only end the open thinking block. A piece of reasoning
/// for the open block, a part of a summary, a citation, the whole arguments of a
/// call, a sign of life and the beginning of any item but a message or a tool
/// call leave what is collected as it is.
pub proof fn law_other_events_collect_nothing(
    state: State,
    payload: JsonModel,
    verdict: VerdictModel,
    taken: Step,
    metadata: MetadataModel,
)
    requires
        is_answer(state, payload, verdict, taken),
        state.metadata == Some(metadata),
    ensures
        ({
            let kind = event_kind(payload);
            let after = taken.state.metadata;
            let ended = Some(
                MetadataModel { output_items: items_after_thinking(state), ..metadata },
            );
            let begins_block = payload.get("item"@) matches Some(item) && (item.text_at("type"@)
                == "message"@ || item.text_at("type"@) == "function_call"@);
            let is_open = state.thinking matches Some(thinking) && thinking.output_index
                == spec_output_index(payload);
            let is_empty = payload.text_at("delta"@).len() == 0;
            &&& kind == "response.output_item.done"@ && nested_str(payload, "item"@, "type"@)
                == Some("web_search_call"@) ==> after == ended
            &&& kind == "response.reasoning_summary_text.delta"@ ==> after == if is_open
                || is_empty {
                Some(metadata)
            } else {
                ended
            }
            &&& kind == "response.reasoning_summary_part.added"@ || kind
                == "response.output_text.annotation.added"@ || kind
                == "response.function_call_arguments.done"@ || is_sign_of_life(payload)
                ==> after == Some(metadata)
            &&& kind == "response.output_item.added"@ && !begins_block ==> after == Some(metadata)
            &&& ends_output(payload) && !state.blocks.contains_key(spec_output_index(payload))
                ==> after == Some(metadata)
        }),
{
    let kind = event_kind(payload);
    if kind == "response.output_item.done"@ {
        lemma_answer_to_done(state, payload, verdict, taken);
    }
    if kind == "response.reasoning_summary_text.delta"@ {
        lemma_answer_to_thinking(state, payload, verdict, taken);
    }
    if kind == "response.reasoning_summary_part.added"@ {
        lemma_answer_to_part(state, payload, verdict, taken);
    }
    if kind == "response.output_text.annotation.added"@ {
        lemma_answer_to_annotation(state, payload, verdict, taken);
    }
    if kind == "response.function_call_arguments.done"@ {
        lemma_answer_to_arguments(state, payload, verdict, taken);
    }
    if kind == "response.output_item.added"@ {
        lemma_answer_to_added(state, payload, verdict, taken);
    }
    if is_sign_of_life(payload) {
        lemma_answer_to_sign_of_life(state, payload, verdict, taken);
    }
    reveal_strlit("web_search_call");
    reveal_strlit("reasoning");
    assert("web_search_call"@.len() == 15);
    assert("reasoning"@.len() == 9);
    lemma_thinking_is_collected(state);
    lemma_thinking_is_collected(State { semantic_output: true, ..state });
    assert(state.with_citation(payload).metadata == state.metadata);
    assert(state.with_arguments(payload).metadata == state.metadata);
    assert(state.still().summary_part(payload).state.metadata == state.metadata);
    assert(state.still().ping().state.metadata == state.metadata);
}

/// The pieces of a tool call leave what is collected as it is, except that the
/// repair of a `Read` call collects that call and ends the response, which is
/// then not one that can be continued unless it was so before. Arguments beyond
/// the limit give up the metadata.
pub proof fn law_pieces_and_metadata(
    state: State,
    payload: JsonModel,
    output_index: usize,
    metadata: MetadataModel,
)
    requires
        is_consistent(state),
        is_piece(payload, output_index),
        !state.finished,
        state.metadata == Some(metadata),
    ensures
        ({
            let after = state.accepted(payload, event_verdict(payload)).step.state.metadata;
            let block = state.blocks[output_index];
            let args = block->args + payload.text_at("delta"@);
            if !(state.blocks.contains_key(output_index) && block is Tool) {
                after == Some(metadata)
            } else if byte_len(args) > BUFFERED_TOOL_MAX_ARGS_BYTES {
                after is None
            } else if block->name == "Read"@ && repaired_args("Read"@, args) is Some {
                let item = ItemModel::FunctionCall {
                    call_id: block->call_id,
                    name: "Read"@,
                    arguments: repaired_args("Read"@, args)->0,
                };
                after == Some(
                    MetadataModel {
                        finished: true,
                        output_items: if metadata.open_blocks.contains(output_index) {
                            metadata.output_items.insert(output_index, item)
                        } else {
                            metadata.output_items
                        },
                        open_blocks: metadata.open_blocks.remove(output_index),
                        ..metadata
                    },
                )
            } else {
                after == Some(metadata)
            }
        }),
{
    law_pieces_are_no_failure(payload);
    if state.blocks.contains_key(output_index) {
        assert(is_sound_block(state.blocks[output_index]));
    }
    if !metadata.open_blocks.contains(output_index) {
        assert(metadata.open_blocks.remove(output_index) =~= metadata.open_blocks);
    }
}

/// A response that ends with every output closed is reported: with all that was
/// collected, the identifier that the response gives, and whether it is complete.
pub proof fn law_ended_response_is_reported(
    state: State,
    payload: JsonModel,
    verdict: VerdictModel,
    taken: Step,
    metadata: MetadataModel,
)
    requires
        is_answer(state, payload, verdict, taken),
        state.metadata == Some(metadata),
        is_end(payload),
        metadata.open_blocks == Set::<usize>::empty(),
    ensures
        ({
            let after = taken.state;
            &&& after.metadata == Some(
                MetadataModel {
                    output_items: items_after_thinking(state),
                    finished: true,
                    continuation_eligible: verdict.complete,
                    response_id: nested_str(payload, "response"@, "id"@),
                    ..metadata
                },
            )
            &&& after.finish_report() is Some
            &&& after.finish_report()->0.continuation_eligible == verdict.complete
            &&& after.finish_report()->0.response_id == nested_str(payload, "response"@, "id"@)
        }),
{
    lemma_answer_to_end(state, payload, verdict, taken);
    let noted = State {
        metadata: Some(
            metadata.terminated(verdict.complete, nested_str(payload, "response"@, "id"@)),
        ),
        ..state
    };
    lemma_ending(noted.still());
    lemma_thinking_is_collected(noted);
}

/// Before the end, or where nothing is collected, nothing is reported.
pub proof fn law_nothing_is_reported_early(state: State)
    ensures
        state.finish_report() is Some <==> state.metadata is Some && state.metadata->0.finished,
        state.finish_report() is Some ==> state.finish_report()->0.continuation_eligible
            == state.metadata->0.continuation_eligible && state.finish_report()->0.response_id
            == state.metadata->0.response_id,
{
}

} // verus!

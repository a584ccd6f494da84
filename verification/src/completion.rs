//! What the end of an output, of the response or of the connection is answered
//! with, in terms of what was sent and kept before.

use crate::answers::{
    end_of_thinking, reasoning_after, signed_replay, start_of_message, without_thinking,
};
use crate::consistency::{is_consistent, is_sound_block};
use crate::downstream::{
    ContentBlockModel, DeltaModel, Event, StopReason, Usage, WebSearchResultModel,
};
use crate::index_map::{ascending, is_ascending, lemma_ascending_unique};
use crate::json::JsonModel;
use crate::json_text::json_written;
use crate::kinds::{
    is_answer, is_end, lemma_answer_to_annotation, lemma_answer_to_arguments, lemma_answer_to_done,
    lemma_answer_to_end, lemma_answer_to_piece,
};
use crate::laws::{is_piece, plain};
use crate::model::{deferred_events, BlockModel, DeferredModel, State, Step, WebSearchModel};
use crate::progress::{all_deferred_events, all_search_events, law_searches_precede_texts};
use crate::protocol::{Client, OpenBlock};
use crate::read_args::{repaired_args, sanitized_args};
use crate::upstream::{
    addressed_index, event_kind, event_verdict, nested_str, search_query, spec_output_index,
    IncompleteResponsePolicy, VerdictModel,
};
use vstd::prelude::*;

verus! {

/// The usage of a message whose tokens were not counted.
pub open spec fn uncounted_usage(state: State) -> Usage {
    Usage {
        input_tokens: 0,
        output_tokens: 0,
        cache_creation_input_tokens: 0,
        cache_read_input_tokens: 0,
        web_search_requests: state.web_search_requests as u64,
    }
}

/// A piece of a call of `Read` is kept behind the pieces before it. Nothing is
/// sent, unless the stream of the arguments has stalled and they can be repaired:
/// then they are sent whole, and the message ends with the use of the tool.
pub proof fn law_read_pieces_are_kept(
    state: State,
    payload: JsonModel,
    taken: Step,
    output_index: usize,
)
    requires
        is_consistent(state),
        is_piece(payload, output_index),
        is_answer(state, payload, event_verdict(payload), taken),
        state.blocks.contains_key(output_index),
        state.blocks[output_index] matches BlockModel::Tool { name, .. } && name == "Read"@,
    ensures
        ({
            let block = state.blocks[output_index];
            let index = block.index();
            let args = block->args + payload.text_at("delta"@);
            match repaired_args("Read"@, args) {
                None => {
                    &&& taken.events == Seq::<Event>::empty()
                    &&& taken.state == (State {
                        semantic_output: true,
                        blocks: state.blocks.insert(
                            output_index,
                            BlockModel::Tool {
                                index,
                                call_id: block->call_id,
                                name: block->name,
                                args,
                                had_delta: true,
                                buffered: true,
                                emitted_args: false,
                            },
                        ),
                        ..state
                    })
                },
                Some(repaired) => {
                    &&& taken.events == seq![
                        Event::BlockDelta { index, delta: DeltaModel::InputJson(repaired) },
                        Event::BlockStop { index },
                    ] + start_of_message(state) + seq![
                        Event::MessageDelta {
                            stop_reason: StopReason::ToolUse,
                            usage: uncounted_usage(state),
                        },
                        Event::MessageStop,
                    ]
                    &&& plain(taken.state) == plain(
                        State {
                            message_started: true,
                            semantic_output: true,
                            blocks: state.blocks.remove(output_index),
                            finished: true,
                            ..state
                        },
                    )
                },
            }
        }),
{
    lemma_answer_to_piece(state, payload, event_verdict(payload), taken);
    let block = state.blocks[output_index];
    assert(is_sound_block(block));
    let delta = payload.text_at("delta"@);
    let step = state.still().semantic();
    assert(taken == step.tool_piece(
        output_index,
        block->Tool_index,
        block->call_id,
        block->name,
        block->args + delta,
        true,
        false,
        delta,
    ).step);
    lemma_read_piece(
        step,
        output_index,
        block->Tool_index,
        block->call_id,
        block->args + delta,
        delta,
    );
}

proof fn lemma_read_piece(
    step: Step,
    output_index: usize,
    index: nat,
    call_id: Seq<char>,
    args: Seq<char>,
    delta: Seq<char>,
)
    requires
        step.events == Seq::<Event>::empty(),
        step.tool_piece(output_index, index, call_id, "Read"@, args, true, false, delta).error
            is None,
    ensures
        ({
            let taken = step.tool_piece(
                output_index,
                index,
                call_id,
                "Read"@,
                args,
                true,
                false,
                delta,
            ).step;
            match repaired_args("Read"@, args) {
                None => {
                    &&& taken.events == Seq::<Event>::empty()
                    &&& taken.state == (State {
                        blocks: step.state.blocks.insert(
                            output_index,
                            BlockModel::Tool {
                                index,
                                call_id,
                                name: "Read"@,
                                args,
                                had_delta: true,
                                buffered: true,
                                emitted_args: false,
                            },
                        ),
                        ..step.state
                    })
                },
                Some(repaired) => {
                    &&& taken.events == seq![
                        Event::BlockDelta { index, delta: DeltaModel::InputJson(repaired) },
                        Event::BlockStop { index },
                    ] + start_of_message(step.state) + seq![
                        Event::MessageDelta {
                            stop_reason: StopReason::ToolUse,
                            usage: uncounted_usage(step.state),
                        },
                        Event::MessageStop,
                    ]
                    &&& plain(taken.state) == plain(
                        State {
                            message_started: true,
                            blocks: step.state.blocks.remove(output_index),
                            finished: true,
                            ..step.state
                        },
                    )
                },
            }
        }),
{
    let block = BlockModel::Tool {
        index,
        call_id,
        name: "Read"@,
        args,
        had_delta: true,
        buffered: true,
        emitted_args: false,
    };
    assert(step.state.blocks.insert(output_index, block).remove(output_index)
        =~= step.state.blocks.remove(output_index));
}

/// A piece of a call of another tool changes nothing but for the arguments of
/// its call. A piece for an output without a tool call is dropped.
pub proof fn law_pieces_change_their_call_only(
    state: State,
    payload: JsonModel,
    taken: Step,
    output_index: usize,
)
    requires
        is_consistent(state),
        is_piece(payload, output_index),
        is_answer(state, payload, event_verdict(payload), taken),
        state.blocks.contains_key(output_index) ==> (
        state.blocks[output_index] matches BlockModel::Tool { name, .. } ==> name != "Read"@),
    ensures
        ({
            let seen = State { semantic_output: true, ..state };
            if state.blocks.contains_key(output_index) && state.blocks[output_index] is Tool {
                let block = state.blocks[output_index];
                plain(taken.state) == plain(
                    State {
                        blocks: state.blocks.insert(
                            output_index,
                            BlockModel::Tool {
                                index: block.index(),
                                call_id: block->call_id,
                                name: block->name,
                                args: block->args + payload.text_at("delta"@),
                                had_delta: true,
                                buffered: false,
                                emitted_args: true,
                            },
                        ),
                        ..seen
                    },
                )
            } else {
                taken == seen.still()
            }
        }),
{
    lemma_answer_to_piece(state, payload, event_verdict(payload), taken);
    if state.blocks.contains_key(output_index) {
        assert(is_sound_block(state.blocks[output_index]));
    }
}

/// The whole arguments of a tool call are kept where no piece came before. They
/// are not sent yet, and nothing else changes.
pub proof fn law_whole_arguments_are_kept(
    state: State,
    payload: JsonModel,
    verdict: VerdictModel,
    taken: Step,
)
    requires
        is_answer(state, payload, verdict, taken),
        event_kind(payload) == "response.function_call_arguments.done"@,
    ensures
        ({
            let output_index = addressed_index(payload)->0;
            let block = state.blocks[output_index];
            &&& taken.events == Seq::<Event>::empty()
            &&& if addressed_index(payload) is Some && payload.str_at("arguments"@) is Some
                && state.blocks.contains_key(output_index) && block is Tool && block->args.len()
                == 0 {
                taken.state == (State {
                    blocks: state.blocks.insert(
                        output_index,
                        BlockModel::Tool {
                            index: block.index(),
                            call_id: block->call_id,
                            name: block->name,
                            args: payload.text_at("arguments"@),
                            had_delta: block->had_delta,
                            buffered: block->buffered,
                            emitted_args: block->emitted_args,
                        },
                    ),
                    ..state
                })
            } else {
                taken.state == state
            }
        }),
{
    lemma_answer_to_arguments(state, payload, verdict, taken);
}

/// A page that a text cites is noted, with its title or else its address for
/// one, unless its address was noted before. Nothing is sent for it, and nothing
/// else changes.
pub proof fn law_citations_are_noted(
    state: State,
    payload: JsonModel,
    verdict: VerdictModel,
    taken: Step,
)
    requires
        is_answer(state, payload, verdict, taken),
        event_kind(payload) == "response.output_text.annotation.added"@,
    ensures
        ({
            let url = nested_str(payload, "annotation"@, "url"@);
            let title = nested_str(payload, "annotation"@, "title"@);
            let is_citation = nested_str(payload, "annotation"@, "type"@) == Some(
                "url_citation"@,
            );
            let is_known = exists|i: int|
                0 <= i < state.web_search_results.len()
                    && (#[trigger] state.web_search_results[i]).url == url->0;
            &&& taken.events == Seq::<Event>::empty()
            &&& if is_citation && url is Some && !is_known {
                taken.state == (State {
                    web_search_results: state.web_search_results.push(
                        WebSearchResultModel {
                            title: if title is Some && title->0.len() > 0 {
                                title->0
                            } else {
                                url->0
                            },
                            url: url->0,
                        },
                    ),
                    ..state
                })
            } else {
                taken.state == state
            }
        }),
{
    lemma_answer_to_annotation(state, payload, verdict, taken);
}

proof fn lemma_item_types()
    ensures
        "reasoning"@ != "web_search_call"@,
{
    reveal_strlit("reasoning");
    reveal_strlit("web_search_call");
    assert("reasoning"@.len() == 9);
    assert("web_search_call"@.len() == 15);
}

proof fn lemma_close_thinking(step: Step)
    ensures
        step.close_thinking().events == step.events + end_of_thinking(step.state),
        plain(step.close_thinking().state) == plain(without_thinking(step.state)),
{
}

proof fn lemma_signature_only(step: Step, output_index: usize)
    ensures
        ({
            let done = step.signature_only(output_index);
            let index = step.state.next_index;
            let known = State {
                reasoning: step.state.reasoning.remove(output_index),
                ..step.state
            };
            match signed_replay(step.state, output_index) {
                None => done.events == step.events && plain(done.state) == plain(known),
                Some(replay) => {
                    &&& done.events == step.events + start_of_message(step.state) + seq![
                        Event::BlockStart { index, block: ContentBlockModel::Thinking },
                        Event::BlockDelta {
                            index,
                            delta: DeltaModel::Signature(replay.signature()),
                        },
                        Event::BlockStop { index },
                    ]
                    &&& plain(done.state) == plain(
                        State {
                            message_started: true,
                            semantic_output: true,
                            next_index: index + 1,
                            ..known
                        },
                    )
                },
            }
        }),
{
}

proof fn lemma_reasoning_done(state: State, output_index: usize, item: JsonModel)
    ensures
        ({
            let done = state.still().reasoning_done(output_index, item);
            let known = State {
                reasoning: state.reasoning.insert(
                    output_index,
                    reasoning_after(state, output_index, item),
                ),
                ..state
            };
            reasoning_is_done(known, done, output_index)
        }),
{
    let known = State {
        reasoning: state.reasoning.insert(
            output_index,
            reasoning_after(state, output_index, item),
        ),
        ..state
    };
    assert(state.with_reasoning(output_index, item) == known);
    lemma_close_thinking(known.still());
    assert(Seq::<Event>::empty() + end_of_thinking(known) =~= end_of_thinking(known));
    let ready = known.still().close_thinking();
    lemma_signature_only(ready, output_index);
    assert(start_of_message(ready.state) == start_of_message(known));
}

/// How the end of a reasoning item is answered, in a state where all that the
/// item says is known: the open thinking block ends, and where that was not the
/// block of the item, the signature of the item is sent in a block of its own.
pub open spec fn reasoning_is_done(known: State, done: Step, output_index: usize) -> bool {
    let ended = without_thinking(known);
    let index = known.next_index;
    if known.thinking matches Some(thinking) && thinking.output_index == output_index {
        done.events == end_of_thinking(known) && plain(done.state) == plain(ended)
    } else {
        let left = State { reasoning: ended.reasoning.remove(output_index), ..ended };
        match signed_replay(ended, output_index) {
            None => done.events == end_of_thinking(known) && plain(done.state) == plain(left),
            Some(replay) => {
                &&& done.events == end_of_thinking(known) + start_of_message(known) + seq![
                    Event::BlockStart { index, block: ContentBlockModel::Thinking },
                    Event::BlockDelta { index, delta: DeltaModel::Signature(replay.signature()) },
                    Event::BlockStop { index },
                ]
                &&& plain(done.state) == plain(
                    State {
                        message_started: true,
                        semantic_output: true,
                        next_index: index + 1,
                        ..left
                    },
                )
            },
        }
    }
}

/// The end of a reasoning item is answered with the end of its thinking block,
/// or with its signature in a block of its own.
pub proof fn law_reasoning_is_signed(
    state: State,
    payload: JsonModel,
    verdict: VerdictModel,
    taken: Step,
    item: JsonModel,
)
    requires
        is_answer(state, payload, verdict, taken),
        event_kind(payload) == "response.output_item.done"@,
        payload.get("item"@) == Some(item),
        item.str_at("type"@) == Some("reasoning"@),
    ensures
        ({
            let output_index = spec_output_index(payload);
            let known = State {
                reasoning: state.reasoning.insert(
                    output_index,
                    reasoning_after(state, output_index, item),
                ),
                ..state
            };
            reasoning_is_done(known, taken, output_index)
        }),
{
    lemma_answer_to_done(state, payload, verdict, taken);
    lemma_reasoning_done(state, spec_output_index(payload), item);
}

/// The end of a web search is content, but is sent later: two blocks are kept
/// for it, and what it searched for.
pub proof fn law_search_is_kept(
    state: State,
    payload: JsonModel,
    verdict: VerdictModel,
    taken: Step,
    item: JsonModel,
)
    requires
        is_answer(state, payload, verdict, taken),
        event_kind(payload) == "response.output_item.done"@,
        payload.get("item"@) == Some(item),
        item.str_at("type"@) == Some("web_search_call"@),
    ensures
        ({
            let index = state.next_index;
            let ready = without_thinking(state);
            &&& taken.events == end_of_thinking(state)
            &&& plain(taken.state) == plain(
                State {
                    semantic_output: true,
                    next_index: index + 2,
                    web_searches: state.web_searches.push(
                        WebSearchModel {
                            index,
                            result_index: index + 1,
                            id: "srvtoolu_"@ + item.text_at("id"@),
                            query: search_query(item),
                        },
                    ),
                    ..ready
                },
            )
        }),
{
    lemma_answer_to_done(state, payload, verdict, taken);
    lemma_item_types();
    lemma_close_thinking(state.still());
}

/// Whether an event ends the output that is open at its index, be it a text or a
/// tool call.
pub open spec fn ends_output(payload: JsonModel) -> bool {
    &&& event_kind(payload) == "response.output_item.done"@
    &&& nested_str(payload, "item"@, "type"@) != Some("reasoning"@)
    &&& nested_str(payload, "item"@, "type"@) != Some("web_search_call"@)
}

/// The end of a text ends its block. A text that waits for web searches is kept,
/// whole, behind those that ended before it. An end of what is not open does
/// nothing.
pub proof fn law_text_is_ended(
    state: State,
    payload: JsonModel,
    verdict: VerdictModel,
    taken: Step,
)
    requires
        is_answer(state, payload, verdict, taken),
        ends_output(payload),
        !(state.blocks.contains_key(spec_output_index(payload))
            && state.blocks[spec_output_index(payload)] is Tool),
    ensures
        ({
            let output_index = spec_output_index(payload);
            let left = State { blocks: state.blocks.remove(output_index), ..state };
            if !state.blocks.contains_key(output_index) {
                taken == state.still()
            } else {
                match state.blocks[output_index] {
                    BlockModel::Text { index, text, deferred } => if deferred {
                        &&& taken.events == Seq::<Event>::empty()
                        &&& plain(taken.state) == plain(
                            State {
                                deferred_text: state.deferred_text.push(
                                    DeferredModel { index, text },
                                ),
                                ..left
                            },
                        )
                    } else {
                        &&& taken.events == seq![Event::BlockStop { index }]
                        &&& plain(taken.state) == plain(left)
                    },
                    _ => true,
                }
            }
        }),
{
    lemma_answer_to_done(state, payload, verdict, taken);
}

/// The arguments of a tool call, once the call has ended: its pieces where any
/// came, else those that the end gives, else those that came whole before.
pub open spec fn final_arguments(block: BlockModel, item: Option<JsonModel>) -> Seq<char> {
    let given = match item {
        Some(item) => item.text_at("arguments"@),
        None => Seq::empty(),
    };
    if block->had_delta || given.len() == 0 {
        block->args
    } else {
        given
    }
}

/// The end of a tool call ends its block. What was not passed on piece by piece
/// is sent before, whole and in one piece: the final arguments, cleaned up where
/// the tool is `Read`. What was passed on is not sent again.
pub proof fn law_tool_call_is_ended(
    state: State,
    payload: JsonModel,
    verdict: VerdictModel,
    taken: Step,
)
    requires
        is_consistent(state),
        is_answer(state, payload, verdict, taken),
        ends_output(payload),
        state.blocks.contains_key(spec_output_index(payload)),
        state.blocks[spec_output_index(payload)] is Tool,
    ensures
        ({
            let output_index = spec_output_index(payload);
            let block = state.blocks[output_index];
            let index = block.index();
            let whole = final_arguments(block, payload.get("item"@));
            let was_passed_on = block->had_delta && block->name != "Read"@;
            &&& taken.events == if was_passed_on || whole.len() == 0 {
                seq![Event::BlockStop { index }]
            } else {
                seq![
                    Event::BlockDelta {
                        index,
                        delta: DeltaModel::InputJson(sanitized_args(block->name, whole)),
                    },
                    Event::BlockStop { index },
                ]
            }
            &&& plain(taken.state) == plain(
                State {
                    semantic_output: true,
                    blocks: state.blocks.remove(output_index),
                    ..state
                },
            )
        }),
{
    lemma_answer_to_done(state, payload, verdict, taken);
    assert(is_sound_block(state.blocks[spec_output_index(payload)]));
}

/// Why a message stops that ends with its response: at the limit of its output
/// tokens where that is tolerated, else for the use of a tool where a tool call
/// began, else because the turn is over. The reason comes last but for the stop
/// itself, and with it the number of web searches.
pub proof fn law_stop_reason(
    state: State,
    payload: JsonModel,
    verdict: VerdictModel,
    taken: Step,
)
    requires
        is_answer(state, payload, verdict, taken),
        is_end(payload),
    ensures
        ({
            let events = taken.events;
            let last = events.len() - 1;
            let tolerated = state.policy == IncompleteResponsePolicy::AllowMaxOutputTokens
                && verdict.max_output_tokens;
            &&& last >= 1
            &&& events[last] is MessageStop
            &&& events[last - 1] is MessageDelta
            &&& tolerated ==> events[last - 1]->stop_reason == StopReason::MaxTokens
            &&& !tolerated && state.saw_tool_use ==> events[last - 1]->stop_reason
                == StopReason::ToolUse
            &&& !tolerated && !state.saw_tool_use ==> events[last - 1]->stop_reason
                == StopReason::EndTurn
            &&& taken.state.finished
        }),
{
    lemma_answer_to_end(state, payload, verdict, taken);
}

/// The connection that ends after a tool call, with no output open, ends the
/// message: the open thinking block ends, and the reason is the use of the tool.
pub proof fn law_connection_end_is_answered(state: State)
    requires
        !state.finished,
        state.saw_tool_use,
        state.blocks == Map::<usize, BlockModel>::empty(),
    ensures
        state.ended_after_tool_call().events == end_of_thinking(state) + start_of_message(state)
            + seq![
            Event::MessageDelta {
                stop_reason: StopReason::ToolUse,
                usage: uncounted_usage(state),
            },
            Event::MessageStop,
        ],
        state.ended_after_tool_call().state == (State {
            message_started: true,
            finished: true,
            metadata: None,
            ..without_thinking(state)
        }),
{
}

/// The connection that ends before a tool call, or with an output open, does
/// nothing.
pub proof fn law_connection_end_waits(state: State)
    requires
        !state.saw_tool_use || state.blocks != Map::<usize, BlockModel>::empty(),
    ensures
        state.ended_after_tool_call() == state.still(),
{
}

/// A web search is shown in two blocks: its call, with the query as its input,
/// and its result, which answers to the identifier of the call and has all the
/// pages that were cited.
pub proof fn law_searches_are_shown(state: State, search: WebSearchModel)
    ensures
        ({
            let events = state.search_events(search);
            let input = JsonModel::Object(seq![("query"@, JsonModel::Str(search.query))]);
            &&& events.len() == 5
            &&& events[0] == (Event::BlockStart {
                index: search.index,
                block: ContentBlockModel::ServerToolUse { id: search.id },
            })
            &&& events[1] == (Event::BlockDelta {
                index: search.index,
                delta: DeltaModel::InputJson(json_written(input)),
            })
            &&& events[2] == (Event::BlockStop { index: search.index })
            &&& events[3] == (Event::BlockStart {
                index: search.result_index,
                block: ContentBlockModel::WebSearchToolResult {
                    tool_use_id: search.id,
                    results: state.web_search_results,
                },
            })
            &&& events[4] == (Event::BlockStop { index: search.result_index })
        }),
{
    let none = Seq::<(Seq<char>, JsonModel)>::empty();
    let entry = ("query"@, JsonModel::Str(search.query));
    assert(none.push(entry) =~= seq![entry]);
}

/// A text that waited for web searches is received whole: just before its block
/// ends, the client has in it the text that was kept, no more and no less.
pub proof fn law_kept_text_is_received(client: Client, deferred: DeferredModel)
    requires
        client.started,
        !client.stopping,
        !client.ended,
        !client.seen.contains(deferred.index),
    ensures
        ({
            let events = deferred_events(deferred);
            let inside = client.receive_all(events.drop_last());
            &&& inside is Some
            &&& inside->0.open == client.open.insert(deferred.index, OpenBlock::Text(deferred.text))
            &&& events.last() == (Event::BlockStop { index: deferred.index })
        }),
{
    let events = deferred_events(deferred);
    let opened = events.take(1);
    assert(opened.drop_last() =~= Seq::empty());
    assert(client.receive_all(Seq::empty()) == Some(client));
    let start = client.receive_all(opened)->0;
    assert(Seq::<char>::empty() + deferred.text =~= deferred.text);
    if deferred.text.len() > 0 {
        assert(events.drop_last().drop_last() =~= opened);
        assert(start.open[deferred.index] == OpenBlock::Text(Seq::empty()));
        assert(start.open.insert(deferred.index, OpenBlock::Text(deferred.text))
            =~= client.open.insert(deferred.index, OpenBlock::Text(deferred.text)));
    } else {
        assert(events.drop_last() =~= opened);
        assert(deferred.text =~= Seq::empty());
    }
}

/// The ends of some open outputs, in order: each that does not wait ends its
/// block.
pub open spec fn ends_of(blocks: Map<usize, BlockModel>, order: Seq<usize>) -> Seq<Event>
    decreases order.len(),
{
    if order.len() == 0 {
        Seq::empty()
    } else {
        let block = blocks[order.last()];
        let earlier = ends_of(blocks, order.drop_last());
        if block.is_deferred() {
            earlier
        } else {
            earlier.push(Event::BlockStop { index: block.index() })
        }
    }
}

/// The texts that wait among some open outputs, in order.
pub open spec fn waiting_texts(blocks: Map<usize, BlockModel>, order: Seq<usize>) -> Seq<
    DeferredModel,
>
    decreases order.len(),
{
    if order.len() == 0 {
        Seq::empty()
    } else {
        let earlier = waiting_texts(blocks, order.drop_last());
        match blocks[order.last()] {
            BlockModel::Text { index, text, deferred: true } => earlier.push(
                DeferredModel { index, text },
            ),
            _ => earlier,
        }
    }
}

proof fn lemma_close_blocks_last(step: Step, order: Seq<usize>)
    requires
        order.len() > 0,
    ensures
        step.close_blocks(order) == step.close_blocks(order.drop_last()).close_block(order.last()),
    decreases order.len(),
{
    if order.len() == 1 {
        assert(order.drop_last() =~= Seq::empty());
        assert(order.drop_first() =~= Seq::empty());
        let closed = step.close_block(order.first());
        assert(closed.close_blocks(order.drop_first()) == closed);
        assert(step.close_blocks(order.drop_last()) == step);
    } else {
        lemma_close_blocks_last(step.close_block(order.first()), order.drop_first());
        assert(order.drop_first().drop_last() =~= order.drop_last().drop_first());
        assert(order.drop_last().first() == order.first());
        assert(order.drop_first().last() == order.last());
    }
}

proof fn lemma_close_blocks(step: Step, order: Seq<usize>)
    requires
        is_ascending(order),
    ensures
        ({
            let closed = step.close_blocks(order);
            &&& closed.events == step.events + ends_of(step.state.blocks, order)
            &&& closed.state == (State {
                blocks: closed.state.blocks,
                deferred_text: step.state.deferred_text + waiting_texts(step.state.blocks, order),
                ..step.state
            })
            &&& forall|k: usize| #[trigger]
                closed.state.blocks.contains_key(k) <==> step.state.blocks.contains_key(k)
                    && !order.contains(k)
            &&& forall|k: usize|
                closed.state.blocks.contains_key(k) ==> #[trigger] closed.state.blocks[k]
                    == step.state.blocks[k]
            &&& forall|k: usize|
                !order.contains(k) ==> #[trigger] closed.state.blocks[k] == step.state.blocks[k]
        }),
    decreases order.len(),
{
    let blocks = step.state.blocks;
    if order.len() > 0 {
        let rest = order.drop_last();
        let last = order.last();
        lemma_close_blocks(step, rest);
        lemma_close_blocks_last(step, order);
        let before = step.close_blocks(rest);
        assert(!rest.contains(last)) by {
            if rest.contains(last) {
                let i = choose|i: int| 0 <= i < rest.len() && rest[i] == last;
                assert(order[i] < order[order.len() - 1]);
            }
        }
        assert(before.state.blocks[last] == blocks[last]);
        assert forall|k: usize| order.contains(k) <==> rest.contains(k) || k == last by {
            if order.contains(k) {
                let i = choose|i: int| 0 <= i < order.len() && order[i] == k;
                if i < rest.len() {
                    assert(rest[i] == k);
                }
            }
            if rest.contains(k) {
                let i = choose|i: int| 0 <= i < rest.len() && rest[i] == k;
                assert(order[i] == k);
            }
            if k == last {
                assert(order[order.len() - 1] == k);
            }
        }
    }
}

proof fn lemma_flush_states(step: Step)
    ensures
        ({
            let flushed = step.emit_web_searches().state;
            flushed == (State {
                web_searches: Seq::empty(),
                deferred_text: Seq::empty(),
                message_started: flushed.message_started,
                ..step.state
            }) && flushed.message_started == (step.state.message_started
                || step.state.web_searches.len() > 0)
        }),
{
    let cleared = Step {
        state: State {
            web_searches: Seq::empty(),
            deferred_text: Seq::empty(),
            ..step.state
        },
        ..step
    };
    lemma_flush_searches_state(cleared, step.state.web_searches);
    lemma_flush_texts_state(
        cleared.flush_searches(step.state.web_searches),
        step.state.deferred_text,
    );
}

proof fn lemma_flush_searches_state(step: Step, searches: Seq<WebSearchModel>)
    ensures
        step.flush_searches(searches).state == (State {
            message_started: step.state.message_started || searches.len() > 0,
            ..step.state
        }),
    decreases searches.len(),
{
    if searches.len() > 0 {
        let sent = step.start_message().emit_all(step.state.search_events(searches.first()));
        lemma_flush_searches_state(sent, searches.drop_first());
    }
}

proof fn lemma_flush_texts_state(step: Step, texts: Seq<DeferredModel>)
    ensures
        step.flush_texts(texts).state == step.state,
    decreases texts.len(),
{
    if texts.len() > 0 {
        lemma_flush_texts_state(step.emit_all(deferred_events(texts.first())), texts.drop_first());
    }
}

proof fn lemma_flush_events(step: Step)
    ensures
        step.emit_web_searches().events == step.events + if step.state.web_searches.len() > 0 {
            start_of_message(step.state)
        } else {
            Seq::empty()
        } + all_search_events(step.state, step.state.web_searches) + all_deferred_events(
            step.state.deferred_text,
        ),
{
    let searches = step.state.web_searches;
    if searches.len() > 0 {
        let started = step.start_message();
        let cleared = Step {
            state: State {
                web_searches: Seq::empty(),
                deferred_text: Seq::empty(),
                ..step.state
            },
            ..step
        };
        let cleared_started = Step {
            state: State {
                web_searches: Seq::empty(),
                deferred_text: Seq::empty(),
                ..started.state
            },
            ..started
        };
        assert(cleared.start_message() == cleared_started);
        assert(cleared_started.start_message() == cleared_started);
        assert(cleared.state.search_events(searches.first())
            == cleared_started.state.search_events(searches.first()));
        assert(cleared.flush_searches(searches) == cleared_started.flush_searches(searches));
        law_searches_precede_texts(started);
        lemma_same_searches(started.state, step.state, searches);
        assert(started.events =~= step.events + start_of_message(step.state));
    } else {
        let started = Step { state: State { message_started: true, ..step.state }, ..step };
        law_searches_precede_texts(started);
        lemma_same_searches(started.state, step.state, searches);
        let cleared = Step {
            state: State {
                web_searches: Seq::empty(),
                deferred_text: Seq::empty(),
                ..step.state
            },
            ..step
        };
        let cleared_started = Step {
            state: State {
                web_searches: Seq::empty(),
                deferred_text: Seq::empty(),
                ..started.state
            },
            ..started
        };
        lemma_same_texts(cleared, cleared_started, step.state.deferred_text);
    }
}

proof fn lemma_same_searches(one: State, other: State, searches: Seq<WebSearchModel>)
    requires
        one.web_search_results == other.web_search_results,
    ensures
        all_search_events(one, searches) == all_search_events(other, searches),
    decreases searches.len(),
{
    if searches.len() > 0 {
        assert(one.search_events(searches.first()) == other.search_events(searches.first()));
        lemma_same_searches(one, other, searches.drop_first());
    }
}

proof fn lemma_same_texts(one: Step, other: Step, texts: Seq<DeferredModel>)
    requires
        one.events == other.events,
    ensures
        one.flush_texts(texts).events == other.flush_texts(texts).events,
    decreases texts.len(),
{
    if texts.len() > 0 {
        lemma_same_texts(
            one.emit_all(deferred_events(texts.first())),
            other.emit_all(deferred_events(texts.first())),
            texts.drop_first(),
        );
    }
}

/// What the end of a response is answered with, before the end of the message:
/// the end of all that is open, in the order of the outputs, the web searches,
/// and the texts that waited for them in the order in which they ended. The
/// message starts before, or else after.
pub open spec fn response_body(state: State, order: Seq<usize>) -> Seq<Event> {
    let closed = end_of_thinking(state) + ends_of(state.blocks, order);
    let searches = all_search_events(state, state.web_searches);
    let texts = all_deferred_events(state.deferred_text + waiting_texts(state.blocks, order));
    if state.web_searches.len() > 0 {
        closed + start_of_message(state) + searches + texts
    } else {
        closed + searches + texts + start_of_message(state)
    }
}

/// The state after the end of a response: nothing is open or waits.
pub open spec fn settled(state: State) -> State {
    State {
        message_started: true,
        blocks: Map::empty(),
        web_searches: Seq::empty(),
        deferred_text: Seq::empty(),
        ..without_thinking(state)
    }
}

proof fn lemma_body(state: State, ready: Step, order: Seq<usize>)
    requires
        ready.events == end_of_thinking(state),
        plain(ready.state) == plain(without_thinking(state)),
        is_ascending(order),
        order.to_set() == state.blocks.dom(),
    ensures
        ({
            let ended = ready.close_open_blocks().emit_web_searches().start_message();
            &&& ended.events == response_body(state, order)
            &&& plain(ended.state) == plain(settled(state))
        }),
{
    assert(ready.state.thinking is None);
    lemma_settled(ready, order);
    let closed = ready.close_open_blocks();
    lemma_flush_states(closed);
    lemma_flush_events(closed);
    lemma_same_searches(closed.state, state, state.web_searches);
    assert(start_of_message(closed.state) == start_of_message(state));
    let flushed = closed.emit_web_searches();
    assert(flushed.start_message().events =~= response_body(state, order));
}

proof fn lemma_finish_events(
    state: State,
    payload: JsonModel,
    verdict: VerdictModel,
    order: Seq<usize>,
)
    requires
        is_ascending(order),
        order.to_set() == state.blocks.dom(),
    ensures
        ({
            let taken = state.still().finish(payload, verdict);
            let body = response_body(state, order);
            &&& taken.events.len() == body.len() + 2
            &&& taken.events.take(body.len() as int) == body
            &&& taken.events[body.len() as int] is MessageDelta
            &&& taken.events.last() is MessageStop
            &&& plain(taken.state) == plain(State { finished: true, ..settled(state) })
        }),
{
    let noted = state.still().with_metadata(
        match state.metadata {
            Some(metadata) if metadata.open_blocks == Set::<usize>::empty() => Some(
                metadata.terminated(verdict.complete, nested_str(payload, "response"@, "id"@)),
            ),
            _ => None,
        },
    );
    lemma_close_thinking(noted);
    assert(noted.close_thinking().events =~= end_of_thinking(state));
    lemma_body(state, noted.close_thinking(), order);
    let body = response_body(state, order);
    let events = state.still().finish(payload, verdict).events;
    assert(events.take(body.len() as int) =~= body);
}

/// The end of a response is answered with the end of all that is open, with all
/// that waits, and with the end of the message. Nothing is open or waits
/// afterwards.
pub proof fn law_response_end_is_answered(
    state: State,
    payload: JsonModel,
    verdict: VerdictModel,
    taken: Step,
    order: Seq<usize>,
)
    requires
        is_answer(state, payload, verdict, taken),
        is_end(payload),
        is_ascending(order),
        order.to_set() == state.blocks.dom(),
    ensures
        ({
            let body = response_body(state, order);
            &&& taken.events.len() == body.len() + 2
            &&& taken.events.take(body.len() as int) == body
            &&& taken.events[body.len() as int] is MessageDelta
            &&& taken.events.last() is MessageStop
            &&& plain(taken.state) == plain(State { finished: true, ..settled(state) })
        }),
{
    lemma_answer_to_end(state, payload, verdict, taken);
    lemma_finish_events(state, payload, verdict, order);
}

/// Closing all that is open, where no thinking block is.
proof fn lemma_settled(ready: Step, order: Seq<usize>)
    requires
        ready.state.thinking is None,
        is_ascending(order),
        order.to_set() == ready.state.blocks.dom(),
    ensures
        ready.close_open_blocks().events == ready.events + ends_of(ready.state.blocks, order),
        ready.close_open_blocks().state == (State {
            blocks: Map::empty(),
            deferred_text: ready.state.deferred_text + waiting_texts(ready.state.blocks, order),
            ..ready.state
        }),
{
    let chosen = ascending(ready.state.blocks.dom());
    assert(is_ascending(order) && order.to_set() == ready.state.blocks.dom());
    lemma_ascending_unique(order, chosen);
    lemma_close_blocks(ready, order);
    let closed = ready.close_blocks(order);
    assert forall|k: usize| !(#[trigger] closed.state.blocks.contains_key(k)) by {
        if ready.state.blocks.contains_key(k) {
            assert(order.to_set().contains(k));
        }
    }
    assert(closed.state.blocks =~= Map::empty());
}

/// A failure of the stream is answered with the end of all that is open, in the
/// order of the outputs, and with the error. What waits is given up.
pub proof fn law_failure_is_answered(
    state: State,
    message: Seq<char>,
    error_type: Seq<char>,
    order: Seq<usize>,
)
    requires
        !state.finished,
        is_ascending(order),
        order.to_set() == state.blocks.dom(),
    ensures
        state.failed(message, error_type).events == end_of_thinking(state) + ends_of(
            state.blocks,
            order,
        ) + start_of_message(state) + seq![Event::Error { error_type, message }],
        state.failed(message, error_type).state == (State {
            message_started: true,
            blocks: Map::empty(),
            deferred_text: state.deferred_text + waiting_texts(state.blocks, order),
            finished: true,
            metadata: None,
            ..without_thinking(state)
        }),
{
    let quiet = state.still().with_metadata(None);
    lemma_close_thinking(quiet);
    let ready = quiet.close_thinking();
    assert(ready.close_thinking() == ready);
    lemma_settled(ready, order);
    assert(ready.state.metadata is None);
}

} // verus!

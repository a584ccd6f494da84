//! What each upstream event is answered with, in terms of what the event says.

use crate::downstream::{ContentBlockModel, DeltaModel, Event};
use crate::json::JsonModel;
use crate::kinds::{
    is_answer, is_end, is_sign_of_life, lemma_answer_to_added, lemma_answer_to_part,
    lemma_answer_to_piece, lemma_answer_to_sign_of_life, lemma_answer_to_text,
    lemma_answer_to_thinking,
};
use crate::laws::plain;
use crate::model::{BlockModel, State, Step, ThinkingModel};
use crate::reasoning::{PendingModel, ReplayModel};
use crate::upstream::{event_kind, spec_output_index, VerdictModel};
use vstd::prelude::*;

verus! {

/// Whether an event is taken: the message goes on, and the event is not refused.
pub open spec fn is_taken(state: State, payload: JsonModel, verdict: VerdictModel) -> bool {
    !state.finished && state.accepted(payload, verdict).error is None
}

/// The start of the message, where it has not been sent.
pub open spec fn start_of_message(state: State) -> Seq<Event> {
    if state.message_started {
        Seq::empty()
    } else {
        seq![
            Event::MessageStart {
                id: state.message_id,
                model: state.model,
                input_tokens: state.estimated_input_tokens,
            },
        ]
    }
}

/// The end of the thinking block, where one is open. It is signed where the
/// identifier and the content of the reasoning are known.
pub open spec fn end_of_thinking(state: State) -> Seq<Event> {
    match state.thinking {
        None => Seq::empty(),
        Some(thinking) => {
            let stop = Event::BlockStop { index: thinking.index };
            match signed_replay(state, thinking.output_index) {
                Some(replay) => seq![
                    Event::BlockDelta {
                        index: thinking.index,
                        delta: DeltaModel::Signature(replay.signature()),
                    },
                    stop,
                ],
                None => seq![stop],
            }
        },
    }
}

/// The reasoning at an output index, where its identifier and its content are
/// known.
pub open spec fn signed_replay(state: State, output_index: usize) -> Option<ReplayModel> {
    if state.reasoning.contains_key(output_index) && state.reasoning[output_index].id is Some
        && state.reasoning[output_index].encrypted_content is Some {
        Some(
            ReplayModel {
                id: state.reasoning[output_index].id->0,
                encrypted_content: state.reasoning[output_index].encrypted_content->0,
            },
        )
    } else {
        None
    }
}

/// The state without an open thinking block, and without the reasoning that it
/// was signed with.
pub open spec fn without_thinking(state: State) -> State {
    match state.thinking {
        None => state,
        Some(thinking) => State {
            thinking: None,
            reasoning: state.reasoning.remove(thinking.output_index),
            ..state
        },
    }
}

/// A sign of life is answered with a ping, after the start of the message.
pub proof fn law_signs_of_life_are_answered(
    state: State,
    payload: JsonModel,
    verdict: VerdictModel,
    taken: Step,
)
    requires
        is_answer(state, payload, verdict, taken),
        is_sign_of_life(payload),
    ensures
        taken.events == start_of_message(state).push(Event::Ping),
        taken.state == (State { message_started: true, ..state }),
{
    lemma_answer_to_sign_of_life(state, payload, verdict, taken);
}

/// A keep-alive is a ping, after the start of the message.
pub proof fn law_pings_are_sent(state: State)
    requires
        !state.finished,
    ensures
        state.pinged().events == start_of_message(state).push(Event::Ping),
        state.pinged().state == (State { message_started: true, ..state }),
{
}

/// An event of a kind that is not known does nothing.
pub proof fn law_unknown_kinds_do_nothing(
    state: State,
    payload: JsonModel,
    verdict: VerdictModel,
    taken: Step,
)
    requires
        is_answer(state, payload, verdict, taken),
        !is_sign_of_life(payload),
        !is_end(payload),
        event_kind(payload) != "response.output_item.added"@,
        event_kind(payload) != "response.output_item.done"@,
        event_kind(payload) != "response.reasoning_summary_part.added"@,
        event_kind(payload) != "response.reasoning_summary_text.delta"@,
        event_kind(payload) != "response.output_text.delta"@,
        event_kind(payload) != "response.output_text.annotation.added"@,
        event_kind(payload) != "response.function_call_arguments.delta"@,
        event_kind(payload) != "response.function_call_arguments.done"@,
    ensures
        taken == state.still(),
{
    reveal(is_answer);
}

/// A tool call that begins is one block under the next index, a use of the tool
/// with the identifier and the name that the item gives. The open thinking block
/// ends before it. Only the calls of `Read` are held back.
pub proof fn law_tool_call_is_opened(
    state: State,
    payload: JsonModel,
    verdict: VerdictModel,
    taken: Step,
    item: JsonModel,
)
    requires
        is_answer(state, payload, verdict, taken),
        event_kind(payload) == "response.output_item.added"@,
        payload.get("item"@) == Some(item),
        item.text_at("type"@) == "function_call"@,
    ensures
        ({
            let id = item.text_at("call_id"@);
            let name = item.text_at("name"@);
            let ready = without_thinking(state);
            &&& taken.events == end_of_thinking(state) + start_of_message(state) + seq![
                Event::BlockStart {
                    index: state.next_index,
                    block: ContentBlockModel::ToolUse { id, name },
                },
            ]
            &&& plain(taken.state) == plain(
                State {
                    message_started: true,
                    saw_tool_use: true,
                    next_index: state.next_index + 1,
                    blocks: state.blocks.insert(
                        spec_output_index(payload),
                        BlockModel::Tool {
                            index: state.next_index,
                            call_id: id,
                            name,
                            args: Seq::empty(),
                            had_delta: false,
                            buffered: name == "Read"@,
                            emitted_args: false,
                        },
                    ),
                    ..ready
                },
            )
        }),
{
    lemma_answer_to_added(state, payload, verdict, taken);
    lemma_item_types();
}

proof fn lemma_item_types()
    ensures
        "function_call"@ != "message"@,
        "function_call"@ != "reasoning"@,
        "function_call"@ != "web_search_call"@,
        "message"@ != "reasoning"@,
        "message"@ != "web_search_call"@,
        "reasoning"@ != "web_search_call"@,
{
    reveal_strlit("function_call");
    reveal_strlit("message");
    reveal_strlit("reasoning");
    reveal_strlit("web_search_call");
    assert("function_call"@.len() == 13);
    assert("message"@.len() == 7);
    assert("reasoning"@.len() == 9);
    assert("web_search_call"@.len() == 15);
}

proof fn lemma_close_thinking(state: State)
    ensures
        state.still().close_thinking().events == end_of_thinking(state),
        plain(state.still().close_thinking().state) == plain(without_thinking(state)),
{
}

proof fn lemma_open_text_block(step: Step, output_index: usize)
    ensures
        ({
            let opened = step.open_text_block(output_index);
            let waits = step.state.web_searches.len() > 0;
            let index = step.state.next_index;
            &&& opened.events == step.events + if waits {
                Seq::empty()
            } else {
                start_of_message(step.state) + seq![
                    Event::BlockStart { index, block: ContentBlockModel::Text },
                ]
            }
            &&& opened.state == (State {
                message_started: step.state.message_started || !waits,
                next_index: index + 1,
                blocks: step.state.blocks.insert(
                    output_index,
                    BlockModel::Text { index, text: Seq::empty(), deferred: waits },
                ),
                ..step.state
            })
        }),
{
}

proof fn lemma_message_added(state: State, output_index: usize, item: JsonModel)
    ensures
        ({
            let taken = state.still().message_added(output_index, item);
            let waits = state.web_searches.len() > 0;
            let ready = without_thinking(state);
            &&& taken.events == end_of_thinking(state) + if waits {
                Seq::empty()
            } else {
                start_of_message(state) + seq![
                    Event::BlockStart { index: state.next_index, block: ContentBlockModel::Text },
                ]
            }
            &&& plain(taken.state) == plain(
                State {
                    message_started: state.message_started || !waits,
                    next_index: state.next_index + 1,
                    blocks: state.blocks.insert(
                        output_index,
                        BlockModel::Text {
                            index: state.next_index,
                            text: Seq::empty(),
                            deferred: waits,
                        },
                    ),
                    item_ids: match item.str_at("id"@) {
                        Some(id) => state.item_ids.insert(id, output_index),
                        None => state.item_ids,
                    },
                    ..ready
                },
            )
        }),
{
    lemma_close_thinking(state);
    let ready = state.still().close_thinking();
    let named = Step {
        state: State {
            item_ids: match item.str_at("id"@) {
                Some(id) => ready.state.item_ids.insert(id, output_index),
                None => ready.state.item_ids,
            },
            ..ready.state
        },
        ..ready
    };
    lemma_open_text_block(named, output_index);
}

/// A message that begins is one empty text block under the next index. While
/// web searches wait, the block waits too. The identifier of the item names the
/// output from now on.
pub proof fn law_message_is_opened(
    state: State,
    payload: JsonModel,
    verdict: VerdictModel,
    taken: Step,
    item: JsonModel,
)
    requires
        is_answer(state, payload, verdict, taken),
        event_kind(payload) == "response.output_item.added"@,
        payload.get("item"@) == Some(item),
        item.text_at("type"@) == "message"@,
    ensures
        ({
            let output_index = spec_output_index(payload);
            let waits = state.web_searches.len() > 0;
            let ready = without_thinking(state);
            &&& taken.events == end_of_thinking(state) + if waits {
                Seq::empty()
            } else {
                start_of_message(state) + seq![
                    Event::BlockStart { index: state.next_index, block: ContentBlockModel::Text },
                ]
            }
            &&& plain(taken.state) == plain(
                State {
                    message_started: state.message_started || !waits,
                    next_index: state.next_index + 1,
                    blocks: state.blocks.insert(
                        output_index,
                        BlockModel::Text {
                            index: state.next_index,
                            text: Seq::empty(),
                            deferred: waits,
                        },
                    ),
                    item_ids: match item.str_at("id"@) {
                        Some(id) => state.item_ids.insert(id, output_index),
                        None => state.item_ids,
                    },
                    ..ready
                },
            )
        }),
{
    lemma_answer_to_added(state, payload, verdict, taken);
    lemma_item_types();
    let output_index = spec_output_index(payload);
    let noted = match state.metadata {
        Some(metadata) => State { metadata: Some(metadata.opened(output_index)), ..state },
        None => state,
    };
    assert(taken == noted.still().message_added(output_index, item));
    lemma_message_added(noted, output_index, item);
}

/// What is known of a reasoning item, once another of its events was seen: what
/// that event says, and else what was known before.
pub open spec fn reasoning_after(state: State, output_index: usize, item: JsonModel) -> PendingModel {
    let before = if state.reasoning.contains_key(output_index) {
        state.reasoning[output_index]
    } else {
        PendingModel { id: None, encrypted_content: None }
    };
    PendingModel {
        id: if item.str_at("id"@) is Some {
            item.str_at("id"@)
        } else {
            before.id
        },
        encrypted_content: if item.str_at("encrypted_content"@) is Some {
            item.str_at("encrypted_content"@)
        } else {
            before.encrypted_content
        },
    }
}

/// A reasoning item that begins is noted; nothing is sent for it.
pub proof fn law_reasoning_is_noted(
    state: State,
    payload: JsonModel,
    verdict: VerdictModel,
    taken: Step,
    item: JsonModel,
)
    requires
        is_answer(state, payload, verdict, taken),
        event_kind(payload) == "response.output_item.added"@,
        payload.get("item"@) == Some(item),
        item.text_at("type"@) == "reasoning"@,
    ensures
        ({
            let output_index = spec_output_index(payload);
            &&& taken.events == Seq::<Event>::empty()
            &&& taken.state == (State {
                reasoning: state.reasoning.insert(
                    output_index,
                    reasoning_after(state, output_index, item),
                ),
                ..state
            })
        }),
{
    lemma_answer_to_added(state, payload, verdict, taken);
    lemma_item_types();
}

/// A web search that begins is counted; nothing is sent for it. An item of any
/// other type does nothing when it begins.
pub proof fn law_search_is_counted(
    state: State,
    payload: JsonModel,
    verdict: VerdictModel,
    taken: Step,
    item: JsonModel,
)
    requires
        is_answer(state, payload, verdict, taken),
        event_kind(payload) == "response.output_item.added"@,
        payload.get("item"@) == Some(item),
        item.text_at("type"@) != "message"@,
        item.text_at("type"@) != "function_call"@,
        item.text_at("type"@) != "reasoning"@,
    ensures
        ({
            let one: nat = if item.text_at("type"@) == "web_search_call"@ {
                1
            } else {
                0
            };
            &&& taken.events == Seq::<Event>::empty()
            &&& taken.state == (State {
                web_search_requests: state.web_search_requests + one,
                ..state
            })
        }),
{
    lemma_answer_to_added(state, payload, verdict, taken);
    lemma_item_types();
}

/// A piece of a reasoning summary is sent as it comes, as thinking. It goes to
/// the open thinking block where that is the block of its output. Else that
/// block ends, and a new one begins under the next index.
pub proof fn law_thinking_is_sent(
    state: State,
    payload: JsonModel,
    verdict: VerdictModel,
    taken: Step,
)
    requires
        is_answer(state, payload, verdict, taken),
        event_kind(payload) == "response.reasoning_summary_text.delta"@,
        payload.text_at("delta"@).len() > 0,
    ensures
        ({
            let output_index = spec_output_index(payload);
            let piece = DeltaModel::Thinking(payload.text_at("delta"@));
            let ready = without_thinking(state);
            let index = state.next_index;
            match state.thinking {
                Some(thinking) if thinking.output_index == output_index => {
                    &&& taken.events == seq![
                        Event::BlockDelta { index: thinking.index, delta: piece },
                    ]
                    &&& taken.state == (State { semantic_output: true, ..state })
                },
                _ => {
                    &&& taken.events == end_of_thinking(state) + start_of_message(state) + seq![
                        Event::BlockStart { index, block: ContentBlockModel::Thinking },
                        Event::BlockDelta { index, delta: piece },
                    ]
                    &&& plain(taken.state) == plain(
                        State {
                            message_started: true,
                            semantic_output: true,
                            next_index: index + 1,
                            thinking: Some(ThinkingModel { output_index, index }),
                            ..ready
                        },
                    )
                },
            }
        }),
{
    lemma_answer_to_thinking(state, payload, verdict, taken);
}

/// A part of a reasoning summary that begins while the thinking block of its
/// output is open is set off by an empty line. Else it does nothing.
pub proof fn law_summary_parts_are_set_off(
    state: State,
    payload: JsonModel,
    verdict: VerdictModel,
    taken: Step,
)
    requires
        is_answer(state, payload, verdict, taken),
        event_kind(payload) == "response.reasoning_summary_part.added"@,
    ensures
        ({
            &&& taken.state == state
            &&& taken.events == match state.thinking {
                Some(thinking) if thinking.output_index == spec_output_index(payload) => seq![
                    Event::BlockDelta {
                        index: thinking.index,
                        delta: DeltaModel::Thinking(seq!['\n', '\n']),
                    },
                ],
                _ => Seq::empty(),
            }
        }),
{
    lemma_answer_to_part(state, payload, verdict, taken);
    reveal_strlit("\n\n");
    assert("\n\n"@ =~= seq!['\n', '\n']);
}

/// The output that a piece of text names: by its index, or else by the
/// identifier of a message that began before.
pub open spec fn named_output(state: State, payload: JsonModel) -> Option<usize> {
    match payload.u64_at("output_index"@) {
        Some(index) => Some(index as usize),
        None => match payload.str_at("item_id"@) {
            Some(id) if state.item_ids.contains_key(id) => Some(state.item_ids[id]),
            _ => None,
        },
    }
}

proof fn lemma_append_text(step: Step, output_index: usize, addressed: bool, delta: Seq<char>)
    ensures
        ({
            let appended = step.append_text(output_index, addressed, delta);
            match step.state.blocks[output_index] {
                BlockModel::Tool { .. } => appended == step,
                BlockModel::Text { index, text, deferred } => {
                    &&& appended.events == step.events + if deferred {
                        Seq::empty()
                    } else {
                        seq![Event::BlockDelta { index, delta: DeltaModel::Text(delta) }]
                    }
                    &&& plain(appended.state) == plain(
                        State {
                            blocks: step.state.blocks.insert(
                                output_index,
                                BlockModel::Text { index, text: text + delta, deferred },
                            ),
                            ..step.state
                        },
                    )
                },
            }
        }),
{
}

#[verifier::rlimit(40)]
proof fn lemma_text_delta(state: State, payload: JsonModel)
    requires
        payload.text_at("delta"@).len() > 0,
    ensures
        ({
            let taken = state.still().text_delta(payload);
            let output_index: usize = match named_output(state, payload) {
                Some(index) => index,
                None => 0,
            };
            let delta = payload.text_at("delta"@);
            let ready = State { semantic_output: true, ..without_thinking(state) };
            let waits = state.web_searches.len() > 0;
            if !state.blocks.contains_key(output_index) {
                let index = state.next_index;
                &&& taken.events == end_of_thinking(state) + if waits {
                    Seq::empty()
                } else {
                    start_of_message(state) + seq![
                        Event::BlockStart { index, block: ContentBlockModel::Text },
                        Event::BlockDelta { index, delta: DeltaModel::Text(delta) },
                    ]
                }
                &&& plain(taken.state) == plain(
                    State {
                        message_started: state.message_started || !waits,
                        next_index: index + 1,
                        blocks: state.blocks.insert(
                            output_index,
                            BlockModel::Text { index, text: delta, deferred: waits },
                        ),
                        ..ready
                    },
                )
            } else {
                match state.blocks[output_index] {
                    BlockModel::Tool { .. } => {
                        &&& taken.events == end_of_thinking(state)
                        &&& plain(taken.state) == plain(ready)
                    },
                    BlockModel::Text { index, text, deferred } => {
                        &&& taken.events == end_of_thinking(state) + if deferred {
                            Seq::empty()
                        } else {
                            seq![Event::BlockDelta { index, delta: DeltaModel::Text(delta) }]
                        }
                        &&& plain(taken.state) == plain(
                            State {
                                blocks: state.blocks.insert(
                                    output_index,
                                    BlockModel::Text { index, text: text + delta, deferred },
                                ),
                                ..ready
                            },
                        )
                    },
                }
            }
        }),
{
    lemma_close_thinking(state);
    let ready = state.still().close_thinking();
    assert(plain(ready.state).item_ids == ready.state.item_ids);
    assert(plain(ready.state).blocks == ready.state.blocks);
    assert(plain(ready.state).web_searches == ready.state.web_searches);
    assert(plain(ready.state).next_index == ready.state.next_index);
    assert(ready.state.text_address(payload) == named_output(state, payload));
    let addressed = named_output(state, payload) is Some;
    let output_index: usize = match named_output(state, payload) {
        Some(index) => index,
        None => 0,
    };
    let delta = payload.text_at("delta"@);
    if !state.blocks.contains_key(output_index) {
        lemma_open_text_block(ready.semantic(), output_index);
        let opened = ready.semantic().open_text_block(output_index);
        let index = state.next_index;
        let deferred = state.web_searches.len() > 0;
        lemma_append_text(opened, output_index, addressed, delta);
        assert(Seq::<char>::empty() + delta =~= delta);
        let before = BlockModel::Text { index, text: Seq::empty(), deferred };
        let block = BlockModel::Text { index, text: delta, deferred };
        assert(state.blocks.insert(output_index, before).insert(output_index, block)
            =~= state.blocks.insert(output_index, block));
        assert(state.still().text_delta(payload) == opened.append_text(
            output_index,
            addressed,
            delta,
        ));
    } else {
        lemma_append_text(ready.semantic(), output_index, addressed, delta);
        assert(state.still().text_delta(payload) == ready.semantic().append_text(
            output_index,
            addressed,
            delta,
        ));
    }
}

/// A piece of text goes to the text that is open at the output that it names, or
/// else at the first output; where none is open, a text begins there under the
/// next index. The piece is sent as it comes, unless the text waits for web
/// searches: then it is kept behind the pieces before it. A piece for a tool call
/// is dropped. In any case the open thinking block ends.
pub proof fn law_text_is_sent(
    state: State,
    payload: JsonModel,
    verdict: VerdictModel,
    taken: Step,
)
    requires
        is_answer(state, payload, verdict, taken),
        event_kind(payload) == "response.output_text.delta"@,
        payload.text_at("delta"@).len() > 0,
    ensures
        ({
            let output_index: usize = match named_output(state, payload) {
                Some(index) => index,
                None => 0,
            };
            let delta = payload.text_at("delta"@);
            let ready = State { semantic_output: true, ..without_thinking(state) };
            let waits = state.web_searches.len() > 0;
            if !state.blocks.contains_key(output_index) {
                let index = state.next_index;
                &&& taken.events == end_of_thinking(state) + if waits {
                    Seq::empty()
                } else {
                    start_of_message(state) + seq![
                        Event::BlockStart { index, block: ContentBlockModel::Text },
                        Event::BlockDelta { index, delta: DeltaModel::Text(delta) },
                    ]
                }
                &&& plain(taken.state) == plain(
                    State {
                        message_started: state.message_started || !waits,
                        next_index: index + 1,
                        blocks: state.blocks.insert(
                            output_index,
                            BlockModel::Text { index, text: delta, deferred: waits },
                        ),
                        ..ready
                    },
                )
            } else {
                match state.blocks[output_index] {
                    BlockModel::Tool { .. } => {
                        &&& taken.events == end_of_thinking(state)
                        &&& plain(taken.state) == plain(ready)
                    },
                    BlockModel::Text { index, text, deferred } => {
                        &&& taken.events == end_of_thinking(state) + if deferred {
                            Seq::empty()
                        } else {
                            seq![Event::BlockDelta { index, delta: DeltaModel::Text(delta) }]
                        }
                        &&& plain(taken.state) == plain(
                            State {
                                blocks: state.blocks.insert(
                                    output_index,
                                    BlockModel::Text { index, text: text + delta, deferred },
                                ),
                                ..ready
                            },
                        )
                    },
                }
            }
        }),
{
    lemma_answer_to_text(state, payload, verdict, taken);
    lemma_text_delta(state, payload);
}

/// An empty piece of text only ends the open thinking block. Empty pieces of a
/// reasoning summary or of a tool call do nothing.
pub proof fn law_empty_pieces_bring_nothing(
    state: State,
    payload: JsonModel,
    verdict: VerdictModel,
    taken: Step,
)
    requires
        is_answer(state, payload, verdict, taken),
        payload.text_at("delta"@).len() == 0,
    ensures
        ({
            let kind = event_kind(payload);
            &&& kind == "response.output_text.delta"@ ==> taken.events == end_of_thinking(state)
                && plain(taken.state) == plain(without_thinking(state))
            &&& kind == "response.reasoning_summary_text.delta"@ || kind
                == "response.function_call_arguments.delta"@ ==> taken == state.still()
        }),
{
    let kind = event_kind(payload);
    if kind == "response.output_text.delta"@ {
        lemma_answer_to_text(state, payload, verdict, taken);
    }
    if kind == "response.reasoning_summary_text.delta"@ {
        lemma_answer_to_thinking(state, payload, verdict, taken);
    }
    if kind == "response.function_call_arguments.delta"@ {
        lemma_answer_to_piece(state, payload, verdict, taken);
    }
}

} // verus!

//! The protocol that a client of the downstream events relies on, and the proof
//! that the translator keeps to it.

use crate::downstream::{ContentBlockModel, DeltaModel, Event, StopReason};
use crate::index_map::{ascending, is_ascending, lemma_ascending};
use crate::json::JsonModel;
use crate::kinds::{is_end, law_kinds_are_told_apart};
use crate::model::{
    deferred_events, BlockModel, DeferredModel, MetadataModel, Outcome, State, Step, WebSearchModel,
};
use crate::progress::law_call_keeps_progress;
use crate::sse::{lemma_wire_concat, wire};
use crate::upstream::{
    addressed_index, event_kind, event_verdict, nested_str, response_usage, spec_output_index,
    CodexUsage, IncompleteResponsePolicy, VerdictModel,
};
use vstd::prelude::*;

verus! {

/// A block that the client has open.
pub enum OpenBlock {
    /// A text, with what has come of it.
    Text(Seq<char>),
    Thinking,
    Tool,
    SearchResult,
}

/// What a client knows of the message.
#[verifier::ext_equal]
pub struct Client {
    pub started: bool,
    pub open: Map<nat, OpenBlock>,
    /// The indices of all blocks so far.
    pub seen: Set<nat>,
    /// The message is about to stop.
    pub stopping: bool,
    /// Nothing more may come.
    pub ended: bool,
}

impl Client {
    /// A client that has received nothing.
    pub open spec fn fresh() -> Client {
        Client {
            started: false,
            open: Map::empty(),
            seen: Set::empty(),
            stopping: false,
            ended: false,
        }
    }

    /// The block that a start opens.
    pub open spec fn opened(block: ContentBlockModel) -> OpenBlock {
        match block {
            ContentBlockModel::Text => OpenBlock::Text(Seq::empty()),
            ContentBlockModel::Thinking => OpenBlock::Thinking,
            ContentBlockModel::ToolUse { .. } => OpenBlock::Tool,
            ContentBlockModel::ServerToolUse { .. } => OpenBlock::Tool,
            ContentBlockModel::WebSearchToolResult { .. } => OpenBlock::SearchResult,
        }
    }

    /// The block once a piece was added, where the block takes such a piece.
    pub open spec fn extended(block: OpenBlock, delta: DeltaModel) -> Option<OpenBlock> {
        match (block, delta) {
            (OpenBlock::Text(text), DeltaModel::Text(more)) => Some(OpenBlock::Text(text + more)),
            (OpenBlock::Thinking, DeltaModel::Thinking(_)) => Some(block),
            (OpenBlock::Thinking, DeltaModel::Signature(_)) => Some(block),
            (OpenBlock::Tool, DeltaModel::InputJson(_)) => Some(block),
            _ => None,
        }
    }

    /// What the client knows after an event, or `None` where the event may not
    /// come: the message starts once and before all else, a block is opened
    /// under an index that no block had, pieces and the end of a block come
    /// while it is open, the usage comes last but for the stop, and nothing
    /// follows a stop or an error.
    pub open spec fn receive(self, event: Event) -> Option<Client> {
        if self.ended {
            None
        } else {
            match event {
                Event::MessageStart { .. } => if self.started {
                    None
                } else {
                    Some(Client { started: true, ..self })
                },
                Event::MessageStop => if self.stopping {
                    Some(Client { ended: true, ..self })
                } else {
                    None
                },
                _ => if !self.started || self.stopping {
                    None
                } else {
                    self.receive_inside(event)
                },
            }
        }
    }

    /// What the client knows after an event between the start and the stop of
    /// the message.
    pub open spec fn receive_inside(self, event: Event) -> Option<Client> {
        match event {
            Event::BlockStart { index, block } => if self.seen.contains(index) {
                None
            } else {
                Some(
                    Client {
                        open: self.open.insert(index, Client::opened(block)),
                        seen: self.seen.insert(index),
                        ..self
                    },
                )
            },
            Event::BlockDelta { index, delta } => if !self.open.contains_key(index) {
                None
            } else {
                match Client::extended(self.open[index], delta) {
                    Some(block) => Some(Client { open: self.open.insert(index, block), ..self }),
                    None => None,
                }
            },
            Event::BlockStop { index } => if self.open.contains_key(index) {
                Some(Client { open: self.open.remove(index), ..self })
            } else {
                None
            },
            Event::MessageDelta { .. } => Some(Client { stopping: true, ..self }),
            Event::Error { .. } => Some(Client { ended: true, ..self }),
            _ => Some(self),
        }
    }

    /// What the client knows after a run of events, or `None` where one of them
    /// may not come.
    pub open spec fn receive_all(self, events: Seq<Event>) -> Option<Client>
        decreases events.len(),
    {
        if events.len() == 0 {
            Some(self)
        } else {
            match self.receive_all(events.drop_last()) {
                Some(client) => client.receive(events.last()),
                None => None,
            }
        }
    }
}

proof fn lemma_push(client: Client, events: Seq<Event>, event: Event)
    ensures
        client.receive_all(events.push(event)) == match client.receive_all(events) {
            Some(later) => later.receive(event),
            None => None,
        },
{
    assert(events.push(event).drop_last() =~= events);
}

/// Events that come in two runs come as one.
pub proof fn lemma_receive_concat(client: Client, first: Seq<Event>, second: Seq<Event>)
    ensures
        client.receive_all(first + second) == match client.receive_all(first) {
            Some(later) => later.receive_all(second),
            None => None,
        },
    decreases second.len(),
{
    if second.len() == 0 {
        assert(first + second =~= first);
    } else {
        lemma_receive_concat(client, first, second.drop_last());
        assert((first + second).drop_last() =~= first + second.drop_last());
        assert((first + second).last() == second.last());
    }
}

/// Whether an open output and what the client has of it fit: a deferred one is
/// not known to the client, any other one is open there with the same text.
pub open spec fn block_fits(block: BlockModel, next_index: nat, client: Client) -> bool {
    &&& block.index() < next_index
    &&& match block {
        BlockModel::Text { index, text, deferred } => if deferred {
            !client.seen.contains(index)
        } else {
            client.open.contains_key(index) && client.open[index] == OpenBlock::Text(text)
        },
        BlockModel::Tool { index, .. } => client.open.contains_key(index) && client.open[index]
            is Tool,
    }
}

/// Whether the blocks kept for web searches are ones that the client does not
/// know, no two alike.
pub open spec fn searches_fit(
    searches: Seq<WebSearchModel>,
    next_index: nat,
    client: Client,
) -> bool {
    &&& forall|i: int|
        0 <= i < searches.len() ==> {
            &&& (#[trigger] searches[i]).index < searches[i].result_index < next_index
            &&& !client.seen.contains(searches[i].index)
            &&& !client.seen.contains(searches[i].result_index)
        }
    &&& forall|i: int, j: int|
        0 <= i < j < searches.len() ==> (#[trigger] searches[i]).result_index < (
        #[trigger] searches[j]).index
}

/// Whether the blocks kept for deferred texts are ones that the client does not
/// know, no two alike, and none that is kept for a search.
pub open spec fn texts_fit(
    texts: Seq<DeferredModel>,
    searches: Seq<WebSearchModel>,
    next_index: nat,
    client: Client,
) -> bool {
    &&& forall|i: int|
        0 <= i < texts.len() ==> (#[trigger] texts[i]).index < next_index && !client.seen.contains(
            texts[i].index,
        )
    &&& forall|i: int, j: int|
        0 <= i < j < texts.len() ==> (#[trigger] texts[i]).index != (#[trigger] texts[j]).index
    &&& forall|i: int, j: int|
        0 <= i < texts.len() && 0 <= j < searches.len() ==> (#[trigger] texts[i]).index != (
        #[trigger] searches[j]).index && texts[i].index != searches[j].result_index
}

/// Whether a block that is not sent yet is one that nothing else is kept for.
pub open spec fn is_unclaimed(
    index: nat,
    searches: Seq<WebSearchModel>,
    texts: Seq<DeferredModel>,
) -> bool {
    &&& forall|i: int|
        0 <= i < searches.len() ==> (#[trigger] searches[i]).index != index
            && searches[i].result_index != index
    &&& forall|i: int| 0 <= i < texts.len() ==> (#[trigger] texts[i]).index != index
}

/// Whether the open outputs fit what the client has.
pub open spec fn blocks_fit(state: State, client: Client) -> bool {
    &&& state.blocks.dom().finite()
    &&& forall|k: usize| #[trigger]
        state.blocks.contains_key(k) ==> block_fits(state.blocks[k], state.next_index, client)
    &&& forall|j: usize, k: usize| #[trigger]
        state.blocks.contains_key(j) && #[trigger] state.blocks.contains_key(k) && j != k
            ==> state.blocks[j].index() != state.blocks[k].index()
    &&& forall|k: usize| #[trigger]
        state.blocks.contains_key(k) && state.blocks[k].is_deferred() ==> is_unclaimed(
            state.blocks[k].index(),
            state.web_searches,
            state.deferred_text,
        ) && state.web_searches.len() > 0
}

/// Whether what a running translator keeps fits what the client has.
pub open spec fn tracks(state: State, client: Client) -> bool {
    &&& client.open.dom().subset_of(client.seen)
    &&& forall|n: nat| #[trigger] client.seen.contains(n) ==> n < state.next_index && client.started
    &&& state.thinking matches Some(thinking) ==> client.open.contains_key(thinking.index)
        && client.open[thinking.index] is Thinking
    &&& blocks_fit(state, client)
    &&& searches_fit(state.web_searches, state.next_index, client)
    &&& texts_fit(state.deferred_text, state.web_searches, state.next_index, client)
    &&& state.deferred_text.len() > 0 ==> state.web_searches.len() > 0
}

/// Whether a translator and its client agree on the message.
pub open spec fn agrees(state: State, client: Client) -> bool {
    &&& client.started == state.message_started
    &&& client.ended == state.finished
    &&& !state.finished ==> !client.stopping && tracks(state, client)
}

/// Whether the translator still has each block that the client has open.
pub open spec fn is_tight(state: State, client: Client) -> bool {
    forall|n: nat| #[trigger]
        client.open.contains_key(n) ==> {
            ||| state.thinking matches Some(thinking) && thinking.index == n
            ||| exists|k: usize| #[trigger]
                state.blocks.contains_key(k) && !state.blocks[k].is_deferred()
                    && state.blocks[k].index() == n
        }
}

/// Whether the client may receive what a step has sent, and agrees with the
/// state after it.
pub open spec fn is_legal(client: Client, step: Step) -> bool {
    client.receive_all(step.events) matches Some(later) && agrees(step.state, later)
}

/// What the client knows after a step.
pub open spec fn after(client: Client, step: Step) -> Client {
    client.receive_all(step.events)->0
}

/// Whether a step leaves each open block of the client with the translator.
pub open spec fn keeps_tight(client: Client, step: Step) -> bool {
    is_tight(step.state, after(client, step))
}

/// A legal step that has not ended the message.
spec fn runs(client: Client, step: Step) -> bool {
    is_legal(client, step) && !step.state.finished
}

proof fn lemma_start_message(client: Client, step: Step)
    requires
        runs(client, step),
    ensures
        runs(client, step.start_message()),
        step.start_message().state == (State { message_started: true, ..step.state }),
        after(client, step.start_message()) == (Client { started: true, ..after(client, step) }),
{
    if !step.state.message_started {
        lemma_push(
            client,
            step.events,
            Event::MessageStart {
                id: step.state.message_id,
                model: step.state.model,
                input_tokens: step.state.estimated_input_tokens,
            },
        );
    }
}

proof fn lemma_ping(client: Client, step: Step)
    requires
        runs(client, step),
    ensures
        runs(client, step.ping()),
        keeps_tight(client, step) ==> keeps_tight(client, step.ping()),
{
    lemma_start_message(client, step);
    lemma_push(client, step.start_message().events, Event::Ping);
}

/// Opening a block under the next index.
proof fn lemma_open(client: Client, step: Step, block: ContentBlockModel)
    requires
        runs(client, step),
    ensures
        ({
            let index = step.state.next_index;
            let opened = step.start_message().emit(Event::BlockStart { index, block });
            let later = after(client, step);
            &&& client.receive_all(opened.events) == Some(
                Client {
                    started: true,
                    open: later.open.insert(index, Client::opened(block)),
                    seen: later.seen.insert(index),
                    ..later
                },
            )
        }),
{
    let index = step.state.next_index;
    lemma_start_message(client, step);
    lemma_push(client, step.start_message().events, Event::BlockStart { index, block });
}

proof fn lemma_close_thinking(client: Client, step: Step)
    requires
        runs(client, step),
    ensures
        runs(client, step.close_thinking()),
        step.close_thinking().state.thinking is None,
        step.close_thinking().state.blocks == step.state.blocks,
        step.close_thinking().state.next_index == step.state.next_index,
        step.close_thinking().state.web_searches == step.state.web_searches,
        step.close_thinking().state.deferred_text == step.state.deferred_text,
        keeps_tight(client, step) ==> keeps_tight(client, step.close_thinking()),
{
    match step.state.thinking {
        None => {},
        Some(thinking) => {
            let before = after(client, step);
            let stop = Event::BlockStop { index: thinking.index };
            match step.state.replay_at(thinking.output_index) {
                Some(replay) => {
                    let signature = Event::BlockDelta {
                        index: thinking.index,
                        delta: DeltaModel::Signature(replay.signature()),
                    };
                    lemma_push(client, step.events, signature);
                    lemma_push(client, step.events.push(signature), stop);
                    assert(before.open.insert(thinking.index, OpenBlock::Thinking)
                        =~= before.open);
                },
                None => {
                    lemma_push(client, step.events, stop);
                },
            }
            let closed = step.close_thinking();
            let later = after(client, closed);
            assert(client.receive_all(closed.events) is Some);
            assert(later.open =~= before.open.remove(thinking.index));
            assert forall|k: usize| #[trigger] closed.state.blocks.contains_key(k) implies block_fits(
                closed.state.blocks[k],
                closed.state.next_index,
                later,
            ) by {
                assert(step.state.blocks.contains_key(k));
            }
            assert(later.open.dom().subset_of(later.seen));
            if keeps_tight(client, step) {
                assert forall|n: nat| #[trigger] later.open.contains_key(n) implies exists|
                    k: usize,
                | #[trigger]
                    closed.state.blocks.contains_key(k) && !closed.state.blocks[k].is_deferred()
                        && closed.state.blocks[k].index() == n by {
                    assert(before.open.contains_key(n));
                    let k = choose|k: usize| #[trigger]
                        step.state.blocks.contains_key(k) && !step.state.blocks[k].is_deferred()
                            && step.state.blocks[k].index() == n;
                    assert(closed.state.blocks.contains_key(k));
                }
            }
        },
    }
}

/// What a block of its own, kept or opened under the next index, leaves of the
/// agreement.
proof fn lemma_replace_block(
    before: State,
    after: State,
    old_client: Client,
    new_client: Client,
    output_index: usize,
    block: BlockModel,
)
    requires
        tracks(before, old_client),
        after.blocks == before.blocks.insert(output_index, block),
        after.next_index == before.next_index + 1,
        after.thinking == before.thinking,
        after.web_searches == before.web_searches,
        after.deferred_text == before.deferred_text,
        block.index() == before.next_index,
        block.is_deferred() ==> before.web_searches.len() > 0 && new_client == old_client,
        !block.is_deferred() ==> {
            &&& new_client.started
            &&& new_client.seen == old_client.seen.insert(before.next_index)
            &&& exists|opened: OpenBlock| #[trigger]
                old_client.open.insert(before.next_index, opened) == new_client.open
        },
        block_fits(block, after.next_index, new_client),
    ensures
        tracks(after, new_client),
        is_tight(before, old_client) && !before.blocks.contains_key(output_index) ==> is_tight(
            after,
            new_client,
        ),
{
    assert forall|k: usize| #[trigger] after.blocks.contains_key(k) implies block_fits(
        after.blocks[k],
        after.next_index,
        new_client,
    ) && (after.blocks[k].is_deferred() ==> is_unclaimed(
        after.blocks[k].index(),
        after.web_searches,
        after.deferred_text,
    ) && after.web_searches.len() > 0) by {
        if k != output_index {
            assert(before.blocks.contains_key(k));
        }
    }
    assert forall|j: usize, k: usize| #[trigger]
        after.blocks.contains_key(j) && #[trigger] after.blocks.contains_key(k) && j
            != k implies after.blocks[j].index() != after.blocks[k].index() by {
        if j != output_index {
            assert(before.blocks.contains_key(j));
        }
        if k != output_index {
            assert(before.blocks.contains_key(k));
        }
    }
    assert(new_client.open.dom().subset_of(new_client.seen));
    if is_tight(before, old_client) && !before.blocks.contains_key(output_index) {
        assert forall|n: nat| #[trigger] new_client.open.contains_key(n) implies {
            ||| after.thinking matches Some(thinking) && thinking.index == n
            ||| exists|k: usize| #[trigger]
                after.blocks.contains_key(k) && !after.blocks[k].is_deferred()
                    && after.blocks[k].index() == n
        } by {
            if n == before.next_index && !block.is_deferred() {
                assert(after.blocks.contains_key(output_index));
            } else {
                assert(old_client.open.contains_key(n));
                if !(before.thinking matches Some(thinking) && thinking.index == n) {
                    let k = choose|k: usize| #[trigger]
                        before.blocks.contains_key(k) && !before.blocks[k].is_deferred()
                            && before.blocks[k].index() == n;
                    assert(after.blocks.contains_key(k));
                }
            }
        }
    }
}

proof fn lemma_open_text_block(client: Client, step: Step, output_index: usize)
    requires
        runs(client, step),
    ensures
        runs(client, step.open_text_block(output_index)),
        keeps_tight(client, step) && !step.state.blocks.contains_key(output_index) ==> keeps_tight(
            client,
            step.open_text_block(output_index),
        ),
{
    let opened = step.open_text_block(output_index);
    let index = step.state.next_index;
    let before = after(client, step);
    let deferred = step.state.web_searches.len() > 0;
    let block = BlockModel::Text { index, text: Seq::empty(), deferred };
    if !deferred {
        lemma_open(client, step, ContentBlockModel::Text);
        assert(opened.events =~= step.start_message().emit(
            Event::BlockStart { index, block: ContentBlockModel::Text },
        ).events);
        assert(before.open.insert(index, OpenBlock::Text(Seq::empty())) == after(
            client,
            opened,
        ).open);
    }
    lemma_replace_block(
        step.state,
        opened.state,
        before,
        after(client, opened),
        output_index,
        block,
    );
}

proof fn lemma_open_tool_block(
    client: Client,
    step: Step,
    output_index: usize,
    call_id: Seq<char>,
    name: Seq<char>,
)
    requires
        runs(client, step),
    ensures
        runs(client, step.open_tool_block(output_index, call_id, name)),
        keeps_tight(client, step) && !step.state.blocks.contains_key(output_index) ==> keeps_tight(
            client,
            step.open_tool_block(output_index, call_id, name),
        ),
{
    let opened = step.open_tool_block(output_index, call_id, name);
    let index = step.state.next_index;
    let before = after(client, step);
    let shown = ContentBlockModel::ToolUse { id: call_id, name };
    lemma_open(client, step, shown);
    assert(opened.events =~= step.start_message().emit(
        Event::BlockStart { index, block: shown },
    ).events);
    assert(before.open.insert(index, OpenBlock::Tool) == after(client, opened).open);
    lemma_replace_block(
        step.state,
        opened.state,
        before,
        after(client, opened),
        output_index,
        opened.state.blocks[output_index],
    );
}

/// A change of the state that touches nothing that the client could know.
proof fn lemma_unseen_change(client: Client, step: Step, changed: Step)
    requires
        runs(client, step),
        changed.events == step.events,
        changed.state.message_started == step.state.message_started,
        changed.state.finished == step.state.finished,
        changed.state.blocks == step.state.blocks,
        changed.state.next_index == step.state.next_index,
        changed.state.thinking == step.state.thinking,
        changed.state.web_searches == step.state.web_searches,
        changed.state.deferred_text == step.state.deferred_text,
    ensures
        runs(client, changed),
        keeps_tight(client, step) ==> keeps_tight(client, changed),
{
}

proof fn lemma_open_thinking(client: Client, step: Step, output_index: usize)
    requires
        runs(client, step),
        step.state.thinking is None,
    ensures
        runs(client, step.open_thinking(output_index)),
        step.open_thinking(output_index).state.thinking is Some,
        keeps_tight(client, step) ==> keeps_tight(client, step.open_thinking(output_index)),
{
    let opened = step.open_thinking(output_index);
    let index = step.state.next_index;
    let before = after(client, step);
    lemma_open(client, step, ContentBlockModel::Thinking);
    assert(opened.events =~= step.start_message().emit(
        Event::BlockStart { index, block: ContentBlockModel::Thinking },
    ).events);
    let later = after(client, opened);
    assert forall|k: usize| #[trigger] opened.state.blocks.contains_key(k) implies block_fits(
        opened.state.blocks[k],
        opened.state.next_index,
        later,
    ) by {
        assert(step.state.blocks.contains_key(k));
    }
    assert(later.open.dom().subset_of(later.seen));
    if keeps_tight(client, step) {
        assert forall|n: nat| #[trigger] later.open.contains_key(n) && n != index implies exists|
            k: usize,
        | #[trigger]
            opened.state.blocks.contains_key(k) && !opened.state.blocks[k].is_deferred()
                && opened.state.blocks[k].index() == n by {
            assert(before.open.contains_key(n));
            let k = choose|k: usize| #[trigger]
                step.state.blocks.contains_key(k) && !step.state.blocks[k].is_deferred()
                    && step.state.blocks[k].index() == n;
            assert(opened.state.blocks.contains_key(k));
        }
    }
}

/// A piece for the open thinking block.
proof fn lemma_thinking_piece(client: Client, step: Step, text: Seq<char>)
    requires
        runs(client, step),
        step.state.thinking is Some,
    ensures
        ({
            let event = Event::BlockDelta {
                index: step.state.thinking->0.index,
                delta: DeltaModel::Thinking(text),
            };
            &&& runs(client, step.emit(event))
            &&& keeps_tight(client, step) ==> keeps_tight(client, step.emit(event))
        }),
{
    let index = step.state.thinking->0.index;
    let event = Event::BlockDelta { index, delta: DeltaModel::Thinking(text) };
    let before = after(client, step);
    lemma_push(client, step.events, event);
    assert(before.open.insert(index, OpenBlock::Thinking) =~= before.open);
    assert(after(client, step.emit(event)) =~= before);
}

proof fn lemma_summary_part(client: Client, step: Step, payload: JsonModel)
    requires
        runs(client, step),
    ensures
        runs(client, step.summary_part(payload)),
        keeps_tight(client, step) ==> keeps_tight(client, step.summary_part(payload)),
{
    if step.state.thinking is Some {
        lemma_thinking_piece(client, step, "\n\n"@);
    }
}

proof fn lemma_reasoning_delta(client: Client, step: Step, payload: JsonModel)
    requires
        runs(client, step),
    ensures
        runs(client, step.reasoning_delta(payload)),
        keeps_tight(client, step) ==> keeps_tight(client, step.reasoning_delta(payload)),
{
    let output_index = spec_output_index(payload);
    let delta = payload.text_at("delta"@);
    if delta.len() > 0 {
        let seen = step.semantic();
        lemma_unseen_change(client, step, seen);
        match step.state.thinking {
            Some(thinking) if thinking.output_index == output_index => {
                lemma_thinking_piece(client, seen, delta);
            },
            _ => {
                lemma_close_thinking(client, seen);
                lemma_open_thinking(client, seen.close_thinking(), output_index);
                lemma_thinking_piece(
                    client,
                    seen.close_thinking().open_thinking(output_index),
                    delta,
                );
            },
        }
    }
}

/// Whether the item of an event is one that a block is opened for at once.
pub open spec fn adds_block(payload: JsonModel) -> bool {
    payload.get("item"@) matches Some(item) && (item.text_at("type"@) == "message"@
        || item.text_at("type"@) == "function_call"@)
}

/// An event does not open a block for an output that has one open.
pub open spec fn replaces_nothing(state: State, payload: JsonModel) -> bool {
    event_kind(payload) == "response.output_item.added"@ && adds_block(payload)
        ==> !state.blocks.contains_key(spec_output_index(payload))
}

proof fn lemma_output_item_added(client: Client, step: Step, payload: JsonModel)
    requires
        runs(client, step),
    ensures
        runs(client, step.output_item_added(payload)),
        keeps_tight(client, step) && (adds_block(payload) ==> !step.state.blocks.contains_key(
            spec_output_index(payload),
        )) ==> keeps_tight(client, step.output_item_added(payload)),
{
    match payload.get("item"@) {
        None => {},
        Some(item) => {
            let output_index = spec_output_index(payload);
            let kind = item.text_at("type"@);
            let noted = match step.state.metadata {
                Some(metadata) if kind == "message"@ || kind == "function_call"@ => {
                    step.with_metadata(Some(metadata.opened(output_index)))
                },
                _ => step,
            };
            lemma_unseen_change(client, step, noted);
            if kind == "reasoning"@ {
                lemma_unseen_change(client, noted, step.output_item_added(payload));
            } else if kind == "message"@ {
                lemma_close_thinking(client, noted);
                let ready = noted.close_thinking();
                let named = Step {
                    state: State {
                        item_ids: match item.str_at("id"@) {
                            Some(id) => ready.state.item_ids.insert(id, output_index),
                            None => ready.state.item_ids,
                        },
                        ..ready.state
                    },
                    ..ready
                };
                lemma_unseen_change(client, ready, named);
                lemma_open_text_block(client, named, output_index);
            } else if kind == "function_call"@ {
                lemma_close_thinking(client, noted);
                lemma_open_tool_block(
                    client,
                    noted.close_thinking(),
                    output_index,
                    item.text_at("call_id"@),
                    item.text_at("name"@),
                );
            } else if kind == "web_search_call"@ {
                lemma_unseen_change(client, noted, step.output_item_added(payload));
            }
        },
    }
}

/// What an open output that changes in place leaves of the agreement.
proof fn lemma_update_block(
    before: State,
    after: State,
    old_client: Client,
    new_client: Client,
    output_index: usize,
)
    requires
        tracks(before, old_client),
        before.blocks.contains_key(output_index),
        after.blocks.contains_key(output_index),
        after.blocks == before.blocks.insert(output_index, after.blocks[output_index]),
        after.next_index == before.next_index,
        after.thinking == before.thinking,
        after.web_searches == before.web_searches,
        after.deferred_text == before.deferred_text,
        after.blocks[output_index].index() == before.blocks[output_index].index(),
        after.blocks[output_index].is_deferred() == before.blocks[output_index].is_deferred(),
        new_client.started == old_client.started,
        new_client.seen == old_client.seen,
        new_client.open.dom() == old_client.open.dom(),
        forall|n: nat|
            n != after.blocks[output_index].index() && old_client.open.contains_key(n)
                ==> #[trigger] new_client.open[n] == old_client.open[n],
        block_fits(after.blocks[output_index], after.next_index, new_client),
        before.blocks[output_index].is_deferred() ==> new_client == old_client,
    ensures
        tracks(after, new_client),
        is_tight(before, old_client) ==> is_tight(after, new_client),
{
    assert forall|k: usize| #[trigger] after.blocks.contains_key(k) implies block_fits(
        after.blocks[k],
        after.next_index,
        new_client,
    ) && (after.blocks[k].is_deferred() ==> is_unclaimed(
        after.blocks[k].index(),
        after.web_searches,
        after.deferred_text,
    ) && after.web_searches.len() > 0) by {
        assert(before.blocks.contains_key(k));
        if k != output_index {
            assert(before.blocks[k].index() != before.blocks[output_index].index());
        }
    }
    assert forall|j: usize, k: usize| #[trigger]
        after.blocks.contains_key(j) && #[trigger] after.blocks.contains_key(k) && j
            != k implies after.blocks[j].index() != after.blocks[k].index() by {
        assert(before.blocks.contains_key(j) && before.blocks.contains_key(k));
    }
    assert(after.blocks.dom() =~= before.blocks.dom());
    if before.thinking is Some {
        assert(old_client.open.contains_key(before.thinking->0.index));
        assert(new_client.open.contains_key(before.thinking->0.index));
        assert(block_fits(before.blocks[output_index], before.next_index, old_client));
    }
    if is_tight(before, old_client) {
        assert forall|n: nat| #[trigger] new_client.open.contains_key(n) implies {
            ||| after.thinking matches Some(thinking) && thinking.index == n
            ||| exists|k: usize| #[trigger]
                after.blocks.contains_key(k) && !after.blocks[k].is_deferred()
                    && after.blocks[k].index() == n
        } by {
            assert(old_client.open.contains_key(n));
            if !(before.thinking matches Some(thinking) && thinking.index == n) {
                let k = choose|k: usize| #[trigger]
                    before.blocks.contains_key(k) && !before.blocks[k].is_deferred()
                        && before.blocks[k].index() == n;
                assert(after.blocks.contains_key(k));
            }
        }
    }
}

proof fn lemma_append_text(
    client: Client,
    step: Step,
    output_index: usize,
    addressed: bool,
    delta: Seq<char>,
)
    requires
        runs(client, step),
        step.state.blocks.contains_key(output_index),
    ensures
        runs(client, step.append_text(output_index, addressed, delta)),
        keeps_tight(client, step) ==> keeps_tight(
            client,
            step.append_text(output_index, addressed, delta),
        ),
{
    match step.state.blocks[output_index] {
        BlockModel::Tool { .. } => {},
        BlockModel::Text { index, text, deferred } => {
            let appended = step.append_text(output_index, addressed, delta);
            let before = after(client, step);
            assert(block_fits(step.state.blocks[output_index], step.state.next_index, before));
            if !deferred {
                let event = Event::BlockDelta { index, delta: DeltaModel::Text(delta) };
                assert(before.seen.contains(index));
                lemma_push(client, step.events, event);
                assert(after(client, appended).open.dom() =~= before.open.dom());
            }
            lemma_update_block(
                step.state,
                appended.state,
                before,
                after(client, appended),
                output_index,
            );
        },
    }
}

proof fn lemma_text_delta(client: Client, step: Step, payload: JsonModel)
    requires
        runs(client, step),
    ensures
        runs(client, step.text_delta(payload)),
        keeps_tight(client, step) ==> keeps_tight(client, step.text_delta(payload)),
{
    lemma_close_thinking(client, step);
    let ready = step.close_thinking();
    let delta = payload.text_at("delta"@);
    if delta.len() > 0 {
        let address = ready.state.text_address(payload);
        let output_index = match address {
            Some(index) => index,
            None => 0,
        };
        let seen = ready.semantic();
        lemma_unseen_change(client, ready, seen);
        if ready.state.blocks.contains_key(output_index) {
            lemma_append_text(client, seen, output_index, address is Some, delta);
        } else {
            lemma_open_text_block(client, seen, output_index);
            lemma_append_text(
                client,
                seen.open_text_block(output_index),
                output_index,
                address is Some,
                delta,
            );
        }
    }
}

/// The open output at an index ends, and with it the client's block.
proof fn lemma_stop_block(client: Client, step: Step, output_index: usize)
    requires
        runs(client, step),
        step.state.blocks.contains_key(output_index),
        !step.state.blocks[output_index].is_deferred(),
    ensures
        ({
            let stop = Event::BlockStop { index: step.state.blocks[output_index].index() };
            let stopped = step.without_block(output_index).emit(stop);
            &&& runs(client, stopped)
            &&& keeps_tight(client, step) ==> keeps_tight(client, stopped)
        }),
{
    let index = step.state.blocks[output_index].index();
    let stop = Event::BlockStop { index };
    let stopped = step.without_block(output_index).emit(stop);
    let before = after(client, step);
    assert(block_fits(step.state.blocks[output_index], step.state.next_index, before));
    assert(before.seen.contains(index));
    lemma_push(client, step.events, stop);
    let later = after(client, stopped);
    assert forall|k: usize| #[trigger] stopped.state.blocks.contains_key(k) implies block_fits(
        stopped.state.blocks[k],
        stopped.state.next_index,
        later,
    ) by {
        assert(step.state.blocks.contains_key(k));
        assert(step.state.blocks[k].index() != index);
    }
    assert forall|j: usize, k: usize| #[trigger]
        stopped.state.blocks.contains_key(j) && #[trigger] stopped.state.blocks.contains_key(k)
            && j != k implies stopped.state.blocks[j].index() != stopped.state.blocks[k].index() by {
        assert(step.state.blocks.contains_key(j) && step.state.blocks.contains_key(k));
    }
    assert forall|k: usize| #[trigger]
        stopped.state.blocks.contains_key(k)
            && stopped.state.blocks[k].is_deferred() implies is_unclaimed(
        stopped.state.blocks[k].index(),
        stopped.state.web_searches,
        stopped.state.deferred_text,
    ) && stopped.state.web_searches.len() > 0 by {
        assert(step.state.blocks.contains_key(k));
    }
    assert(later.open.dom().subset_of(later.seen));
    if keeps_tight(client, step) {
        assert forall|n: nat| #[trigger] later.open.contains_key(n) implies {
            ||| stopped.state.thinking matches Some(thinking) && thinking.index == n
            ||| exists|k: usize| #[trigger]
                stopped.state.blocks.contains_key(k) && !stopped.state.blocks[k].is_deferred()
                    && stopped.state.blocks[k].index() == n
        } by {
            assert(before.open.contains_key(n));
            if !(step.state.thinking matches Some(thinking) && thinking.index == n) {
                let k = choose|k: usize| #[trigger]
                    step.state.blocks.contains_key(k) && !step.state.blocks[k].is_deferred()
                        && step.state.blocks[k].index() == n;
                assert(stopped.state.blocks.contains_key(k));
            }
        }
    }
}

/// A deferred output ends: its text waits for the web searches.
proof fn lemma_defer_block(client: Client, step: Step, output_index: usize)
    requires
        runs(client, step),
        step.state.blocks.contains_key(output_index),
        step.state.blocks[output_index].is_deferred(),
    ensures
        ({
            let block = step.state.blocks[output_index];
            let removed = step.without_block(output_index);
            let deferred = Step {
                state: State {
                    deferred_text: step.state.deferred_text.push(
                        DeferredModel { index: block.index(), text: block->Text_text },
                    ),
                    ..removed.state
                },
                ..removed
            };
            &&& runs(client, deferred)
            &&& keeps_tight(client, step) ==> keeps_tight(client, deferred)
        }),
{
    let block = step.state.blocks[output_index];
    let removed = step.without_block(output_index);
    let texts = step.state.deferred_text.push(
        DeferredModel { index: block.index(), text: block->Text_text },
    );
    let deferred = Step { state: State { deferred_text: texts, ..removed.state }, ..removed };
    let now = after(client, step);
    assert(block_fits(block, step.state.next_index, now));
    assert(is_unclaimed(block.index(), step.state.web_searches, step.state.deferred_text));
    assert forall|k: usize| #[trigger] deferred.state.blocks.contains_key(k) implies block_fits(
        deferred.state.blocks[k],
        deferred.state.next_index,
        now,
    ) && (deferred.state.blocks[k].is_deferred() ==> is_unclaimed(
        deferred.state.blocks[k].index(),
        deferred.state.web_searches,
        deferred.state.deferred_text,
    ) && deferred.state.web_searches.len() > 0) by {
        assert(step.state.blocks.contains_key(k));
        assert(step.state.blocks[k].index() != block.index());
    }
    assert forall|j: usize, k: usize| #[trigger]
        deferred.state.blocks.contains_key(j) && #[trigger] deferred.state.blocks.contains_key(k)
            && j != k implies deferred.state.blocks[j].index()
        != deferred.state.blocks[k].index() by {
        assert(step.state.blocks.contains_key(j) && step.state.blocks.contains_key(k));
    }
    assert(blocks_fit(deferred.state, now));
    assert(texts_fit(texts, step.state.web_searches, step.state.next_index, now));
    if keeps_tight(client, step) {
        assert forall|n: nat| #[trigger] now.open.contains_key(n) implies {
            ||| deferred.state.thinking matches Some(thinking) && thinking.index == n
            ||| exists|k: usize| #[trigger]
                deferred.state.blocks.contains_key(k) && !deferred.state.blocks[k].is_deferred()
                    && deferred.state.blocks[k].index() == n
        } by {
            if !(step.state.thinking matches Some(thinking) && thinking.index == n) {
                let k = choose|k: usize| #[trigger]
                    step.state.blocks.contains_key(k) && !step.state.blocks[k].is_deferred()
                        && step.state.blocks[k].index() == n;
                assert(deferred.state.blocks.contains_key(k));
            }
        }
    }
}

/// Arguments for the open tool call at an index.
proof fn lemma_tool_arguments(
    client: Client,
    step: Step,
    output_index: usize,
    arguments: Seq<char>,
)
    requires
        runs(client, step),
        step.state.blocks.contains_key(output_index),
        step.state.blocks[output_index] is Tool,
    ensures
        ({
            let event = Event::BlockDelta {
                index: step.state.blocks[output_index].index(),
                delta: DeltaModel::InputJson(arguments),
            };
            &&& runs(client, step.emit(event))
            &&& after(client, step.emit(event)) == after(client, step)
        }),
{
    let index = step.state.blocks[output_index].index();
    let event = Event::BlockDelta { index, delta: DeltaModel::InputJson(arguments) };
    let before = after(client, step);
    assert(block_fits(step.state.blocks[output_index], step.state.next_index, before));
    assert(before.seen.contains(index));
    lemma_push(client, step.events, event);
    assert(before.open.insert(index, OpenBlock::Tool) =~= before.open);
    assert(after(client, step.emit(event)) =~= before);
}

proof fn lemma_emit_finish(
    client: Client,
    step: Step,
    stop_reason: StopReason,
    usage: Option<CodexUsage>,
)
    requires
        runs(client, step),
        step.state.message_started,
    ensures
        is_legal(client, step.emit_finish(stop_reason, usage)),
        step.emit_finish(stop_reason, usage).state.finished,
        after(client, step.emit_finish(stop_reason, usage)).open == after(client, step).open,
        after(client, step.emit_finish(stop_reason, usage)).seen == after(client, step).seen,
{
    let finished = step.emit_finish(stop_reason, usage);
    let delta = finished.events[step.events.len() as int];
    lemma_push(client, step.events, delta);
    lemma_push(client, step.events.push(delta), Event::MessageStop);
    assert(finished.events =~= step.events.push(delta).push(Event::MessageStop));
}

proof fn lemma_finish_repaired(
    client: Client,
    step: Step,
    output_index: usize,
    index: nat,
    call_id: Seq<char>,
    name: Seq<char>,
    arguments: Seq<char>,
)
    requires
        runs(client, step),
        step.state.blocks.contains_key(output_index),
        step.state.blocks[output_index] is Tool,
        step.state.blocks[output_index].index() == index,
    ensures
        is_legal(
            client,
            step.finish_repaired(output_index, index, call_id, name, arguments),
        ),
        step.finish_repaired(output_index, index, call_id, name, arguments).state.finished,
{
    let piece = Event::BlockDelta { index, delta: DeltaModel::InputJson(arguments) };
    let stop = Event::BlockStop { index };
    lemma_tool_arguments(client, step, output_index, arguments);
    lemma_stop_block(client, step.emit(piece), output_index);
    let stopped = step.emit(piece).without_block(output_index).emit(stop);
    let closed = step.without_block(output_index).capture_tool_output(
        output_index,
        call_id,
        name,
        arguments,
    );
    let noted = match closed.state.metadata {
        Some(metadata) => closed.with_metadata(Some(MetadataModel { finished: true, ..metadata })),
        None => closed,
    };
    let passed = noted.emit(piece).emit(stop);
    assert(passed.events == stopped.events);
    lemma_unseen_change(client, stopped, passed);
    lemma_start_message(client, passed);
    lemma_emit_finish(client, passed.start_message(), StopReason::ToolUse, None);
}

/// A legal outcome: what was sent is legal, and nothing but the end of the
/// message lets a block of the client go astray.
spec fn is_legal_outcome(client: Client, step: Step, outcome: Outcome) -> bool {
    &&& is_legal(client, outcome.step)
    &&& keeps_tight(client, step) && !outcome.step.state.finished ==> keeps_tight(
        client,
        outcome.step,
    )
}

proof fn lemma_tool_piece(
    client: Client,
    step: Step,
    output_index: usize,
    index: nat,
    call_id: Seq<char>,
    name: Seq<char>,
    args: Seq<char>,
    buffered: bool,
    emitted_args: bool,
    delta: Seq<char>,
)
    requires
        runs(client, step),
        step.state.blocks.contains_key(output_index),
        step.state.blocks[output_index] is Tool,
        step.state.blocks[output_index].index() == index,
    ensures
        is_legal_outcome(
            client,
            step,
            step.tool_piece(
                output_index,
                index,
                call_id,
                name,
                args,
                buffered,
                emitted_args,
                delta,
            ),
        ),
{
    let oversized = crate::text::byte_len(args) > crate::model::BUFFERED_TOOL_MAX_ARGS_BYTES;
    let taken = Step {
        state: State {
            blocks: step.state.blocks.insert(
                output_index,
                BlockModel::Tool {
                    index,
                    call_id,
                    name,
                    args,
                    had_delta: true,
                    buffered,
                    emitted_args: emitted_args || !buffered,
                },
            ),
            metadata: if oversized {
                None
            } else {
                step.state.metadata
            },
            ..step.state
        },
        ..step
    };
    let now = after(client, step);
    assert(block_fits(step.state.blocks[output_index], step.state.next_index, now));
    lemma_update_block(step.state, taken.state, now, now, output_index);
    if !buffered {
        lemma_tool_arguments(client, taken, output_index, delta);
    } else if !oversized {
        match crate::read_args::repaired_args(name, args) {
            Some(repaired) => {
                lemma_finish_repaired(
                    client,
                    taken,
                    output_index,
                    index,
                    call_id,
                    name,
                    repaired,
                );
            },
            None => {},
        }
    }
}

proof fn lemma_tool_delta(client: Client, step: Step, payload: JsonModel)
    requires
        runs(client, step),
    ensures
        is_legal_outcome(client, step, step.tool_delta(payload)),
{
    let delta = payload.text_at("delta"@);
    match addressed_index(payload) {
        Some(output_index) if delta.len() > 0 => {
            let seen = step.semantic();
            lemma_unseen_change(client, step, seen);
            if seen.state.blocks.contains_key(output_index) {
                match seen.state.blocks[output_index] {
                    BlockModel::Text { .. } => {},
                    BlockModel::Tool {
                        index,
                        call_id,
                        name,
                        args,
                        had_delta: _,
                        buffered,
                        emitted_args,
                    } => {
                        lemma_tool_piece(
                            client,
                            seen,
                            output_index,
                            index,
                            call_id,
                            name,
                            args + delta,
                            buffered,
                            emitted_args,
                            delta,
                        );
                    },
                }
            }
        },
        _ => {},
    }
}

proof fn lemma_with_arguments(client: Client, step: Step, payload: JsonModel)
    requires
        runs(client, step),
    ensures
        ({
            let changed = Step { state: step.state.with_arguments(payload), ..step };
            &&& runs(client, changed)
            &&& keeps_tight(client, step) ==> keeps_tight(client, changed)
        }),
{
    let changed = Step { state: step.state.with_arguments(payload), ..step };
    let now = after(client, step);
    match (addressed_index(payload), payload.str_at("arguments"@)) {
        (Some(output_index), Some(arguments)) => {
            if step.state.blocks.contains_key(output_index) {
                assert(block_fits(step.state.blocks[output_index], step.state.next_index, now));
                match step.state.blocks[output_index] {
                    BlockModel::Tool { args, .. } if args.len() == 0 => {
                        lemma_update_block(step.state, changed.state, now, now, output_index);
                    },
                    _ => {},
                }
            }
        },
        _ => {},
    }
}

proof fn lemma_signature_only(client: Client, step: Step, output_index: usize)
    requires
        runs(client, step),
    ensures
        runs(client, step.signature_only(output_index)),
        keeps_tight(client, step) ==> keeps_tight(client, step.signature_only(output_index)),
{
    let done = step.signature_only(output_index);
    match step.state.replay_at(output_index) {
        None => {
            lemma_unseen_change(client, step, done);
        },
        Some(replay) => {
            let index = step.state.next_index;
            let before = after(client, step);
            let start = Event::BlockStart { index, block: ContentBlockModel::Thinking };
            let piece = Event::BlockDelta {
                index,
                delta: DeltaModel::Signature(replay.signature()),
            };
            let stop = Event::BlockStop { index };
            lemma_open(client, step, ContentBlockModel::Thinking);
            let opened = step.start_message().emit(start);
            lemma_push(client, opened.events, piece);
            lemma_push(client, opened.events.push(piece), stop);
            assert(done.events =~= opened.events.push(piece).push(stop));
            let later = after(client, done);
            assert(!before.seen.contains(index));
            assert(later.open =~= before.open);
            assert forall|k: usize| #[trigger] done.state.blocks.contains_key(k) implies block_fits(
                done.state.blocks[k],
                done.state.next_index,
                later,
            ) by {
                assert(step.state.blocks.contains_key(k));
            }
            assert(blocks_fit(done.state, later));
            if keeps_tight(client, step) {
                assert forall|n: nat| #[trigger] later.open.contains_key(n) implies {
                    ||| done.state.thinking matches Some(thinking) && thinking.index == n
                    ||| exists|k: usize| #[trigger]
                        done.state.blocks.contains_key(k) && !done.state.blocks[k].is_deferred()
                            && done.state.blocks[k].index() == n
                } by {
                    assert(before.open.contains_key(n));
                    if !(step.state.thinking matches Some(thinking) && thinking.index == n) {
                        let k = choose|k: usize| #[trigger]
                            step.state.blocks.contains_key(k)
                                && !step.state.blocks[k].is_deferred()
                                && step.state.blocks[k].index() == n;
                        assert(done.state.blocks.contains_key(k));
                    }
                }
            }
        },
    }
}

proof fn lemma_reasoning_done(client: Client, step: Step, output_index: usize, item: JsonModel)
    requires
        runs(client, step),
    ensures
        runs(client, step.reasoning_done(output_index, item)),
        keeps_tight(client, step) ==> keeps_tight(
            client,
            step.reasoning_done(output_index, item),
        ),
{
    let known = Step { state: step.state.with_reasoning(output_index, item), ..step };
    lemma_unseen_change(client, step, known);
    lemma_close_thinking(client, known);
    lemma_signature_only(client, known.close_thinking(), output_index);
}

proof fn lemma_web_search_done(client: Client, step: Step, item: JsonModel)
    requires
        runs(client, step),
    ensures
        runs(client, step.web_search_done(item)),
        keeps_tight(client, step) ==> keeps_tight(client, step.web_search_done(item)),
{
    lemma_close_thinking(client, step);
    let ready = step.close_thinking().semantic();
    lemma_unseen_change(client, step.close_thinking(), ready);
    let done = step.web_search_done(item);
    let now = after(client, ready);
    assert forall|k: usize| #[trigger] done.state.blocks.contains_key(k) implies block_fits(
        done.state.blocks[k],
        done.state.next_index,
        now,
    ) && (done.state.blocks[k].is_deferred() ==> is_unclaimed(
        done.state.blocks[k].index(),
        done.state.web_searches,
        done.state.deferred_text,
    )) by {
        assert(ready.state.blocks.contains_key(k));
    }
    assert forall|j: usize, k: usize| #[trigger]
        done.state.blocks.contains_key(j) && #[trigger] done.state.blocks.contains_key(k) && j
            != k implies done.state.blocks[j].index() != done.state.blocks[k].index() by {
        assert(ready.state.blocks.contains_key(j) && ready.state.blocks.contains_key(k));
    }
    assert(searches_fit(done.state.web_searches, done.state.next_index, now));
    assert(texts_fit(
        done.state.deferred_text,
        done.state.web_searches,
        done.state.next_index,
        now,
    ));
}

proof fn lemma_block_done(
    client: Client,
    step: Step,
    output_index: usize,
    item: Option<JsonModel>,
)
    requires
        runs(client, step),
    ensures
        runs(client, step.block_done(output_index, item)),
        keeps_tight(client, step) ==> keeps_tight(client, step.block_done(output_index, item)),
{
    let done = step.block_done(output_index, item);
    if step.state.blocks.contains_key(output_index) {
        match step.state.blocks[output_index] {
            BlockModel::Text { index, text, deferred } => {
                let removed = step.without_block(output_index);
                if deferred {
                    lemma_defer_block(client, step, output_index);
                    let kept = Step {
                        state: State {
                            deferred_text: step.state.deferred_text.push(
                                DeferredModel { index, text },
                            ),
                            ..removed.state
                        },
                        ..removed
                    };
                    lemma_unseen_change(client, kept, done);
                } else {
                    lemma_stop_block(client, step, output_index);
                    lemma_unseen_change(
                        client,
                        removed.emit(Event::BlockStop { index }),
                        done,
                    );
                }
            },
            BlockModel::Tool { index, .. } => {
                let stop = Event::BlockStop { index };
                if done.events.len() == step.events.len() + 2 {
                    let piece = done.events[step.events.len() as int];
                    let arguments = piece->BlockDelta_delta->InputJson_0;
                    assert(piece == Event::BlockDelta {
                        index,
                        delta: DeltaModel::InputJson(arguments),
                    });
                    lemma_tool_arguments(client, step, output_index, arguments);
                    let passed = step.emit(piece);
                    lemma_stop_block(client, passed, output_index);
                    let stopped = passed.without_block(output_index).emit(stop);
                    assert(stopped.events =~= done.events);
                    lemma_unseen_change(client, stopped, done);
                } else {
                    lemma_stop_block(client, step, output_index);
                    let stopped = step.without_block(output_index).emit(stop);
                    assert(stopped.events =~= done.events);
                    lemma_unseen_change(client, stopped, done);
                }
            },
        }
    }
}

proof fn lemma_output_item_done(client: Client, step: Step, payload: JsonModel)
    requires
        runs(client, step),
    ensures
        runs(client, step.output_item_done(payload)),
        keeps_tight(client, step) ==> keeps_tight(client, step.output_item_done(payload)),
{
    let output_index = spec_output_index(payload);
    let kind = nested_str(payload, "item"@, "type"@);
    if kind == Some("reasoning"@) {
        lemma_reasoning_done(client, step, output_index, payload.get("item"@)->0);
    } else if kind == Some("web_search_call"@) {
        lemma_web_search_done(client, step, payload.get("item"@)->0);
    } else {
        lemma_block_done(client, step, output_index, payload.get("item"@));
    }
}

proof fn lemma_close_block(client: Client, step: Step, output_index: usize)
    requires
        runs(client, step),
        step.state.blocks.contains_key(output_index),
    ensures
        runs(client, step.close_block(output_index)),
        step.close_block(output_index).state.blocks == step.state.blocks.remove(output_index),
        step.close_block(output_index).state.thinking == step.state.thinking,
        keeps_tight(client, step) ==> keeps_tight(client, step.close_block(output_index)),
{
    if step.state.blocks[output_index].is_deferred() {
        lemma_defer_block(client, step, output_index);
    } else {
        lemma_stop_block(client, step, output_index);
    }
}

proof fn lemma_close_blocks(client: Client, step: Step, order: Seq<usize>)
    requires
        runs(client, step),
        is_ascending(order),
        order.to_set() == step.state.blocks.dom(),
    ensures
        runs(client, step.close_blocks(order)),
        step.close_blocks(order).state.blocks == Map::<usize, BlockModel>::empty(),
        step.close_blocks(order).state.thinking == step.state.thinking,
        keeps_tight(client, step) ==> keeps_tight(client, step.close_blocks(order)),
    decreases order.len(),
{
    if order.len() == 0 {
        assert(order.to_set() =~= Set::empty());
        assert(step.state.blocks =~= Map::empty());
    } else {
        let first = order.first();
        let rest = order.drop_first();
        assert(order.to_set().contains(first));
        lemma_close_block(client, step, first);
        let closed = step.close_block(first);
        assert forall|k: usize|
            rest.to_set().contains(k) <==> closed.state.blocks.dom().contains(k) by {
            if rest.contains(k) {
                let i = choose|i: int| 0 <= i < rest.len() && rest[i] == k;
                assert(order[i + 1] == k && order[0] < order[i + 1]);
                assert(order.to_set().contains(k));
            }
            if closed.state.blocks.dom().contains(k) {
                assert(order.to_set().contains(k));
                let i = choose|i: int| 0 <= i < order.len() && order[i] == k;
                assert(rest[i - 1] == k);
            }
        }
        assert(rest.to_set() =~= closed.state.blocks.dom());
        lemma_close_blocks(client, closed, rest);
    }
}

proof fn lemma_close_open_blocks(client: Client, step: Step)
    requires
        runs(client, step),
    ensures
        runs(client, step.close_open_blocks()),
        step.close_open_blocks().state.blocks == Map::<usize, BlockModel>::empty(),
        step.close_open_blocks().state.thinking is None,
        keeps_tight(client, step) ==> after(client, step.close_open_blocks()).open =~= Map::<
            nat,
            OpenBlock,
        >::empty(),
{
    lemma_close_thinking(client, step);
    let ready = step.close_thinking();
    lemma_ascending(ready.state.blocks.dom());
    lemma_close_blocks(client, ready, ascending(ready.state.blocks.dom()));
    let closed = step.close_open_blocks();
    if keeps_tight(client, step) {
        let later = after(client, closed);
        assert forall|n: nat| !(#[trigger] later.open.contains_key(n)) by {
            if later.open.contains_key(n) {
                assert(closed.state.thinking is None);
                assert(exists|k: usize| #[trigger] closed.state.blocks.contains_key(k));
            }
        }
        assert(later.open =~= Map::empty());
    }
}

/// The events of a web search, for a client that does not know its blocks.
proof fn lemma_search_events(client: Client, state: State, search: WebSearchModel)
    requires
        client.started,
        !client.stopping,
        !client.ended,
        client.open.dom().subset_of(client.seen),
        !client.seen.contains(search.index),
        !client.seen.contains(search.result_index),
        search.index != search.result_index,
    ensures
        client.receive_all(state.search_events(search)) == Some(
            Client {
                seen: client.seen.insert(search.index).insert(search.result_index),
                ..client
            },
        ),
{
    let events = state.search_events(search);
    let none = Seq::<Event>::empty();
    assert(events =~= none.push(events[0]).push(events[1]).push(events[2]).push(events[3]).push(
        events[4],
    ));
    let c1 = client.receive(events[0])->0;
    let c2 = c1.receive(events[1])->0;
    assert(c2 =~= c1);
    let c3 = c2.receive(events[2])->0;
    assert(c3.open =~= client.open);
    let c4 = c3.receive(events[3])->0;
    let c5 = c4.receive(events[4])->0;
    assert(c5.open =~= client.open);
    lemma_push(client, none, events[0]);
    lemma_push(client, none.push(events[0]), events[1]);
    lemma_push(client, none.push(events[0]).push(events[1]), events[2]);
    lemma_push(client, none.push(events[0]).push(events[1]).push(events[2]), events[3]);
    lemma_push(
        client,
        none.push(events[0]).push(events[1]).push(events[2]).push(events[3]),
        events[4],
    );
}

/// The events of a deferred text, for a client that does not know its block.
proof fn lemma_deferred_events(client: Client, deferred: DeferredModel)
    requires
        client.started,
        !client.stopping,
        !client.ended,
        client.open.dom().subset_of(client.seen),
        !client.seen.contains(deferred.index),
    ensures
        client.receive_all(deferred_events(deferred)) == Some(
            Client { seen: client.seen.insert(deferred.index), ..client },
        ),
{
    let events = deferred_events(deferred);
    let none = Seq::<Event>::empty();
    let c1 = client.receive(events[0])->0;
    lemma_push(client, none, events[0]);
    lemma_push(client, none.push(events[0]), events[1]);
    if deferred.text.len() > 0 {
        assert(events =~= none.push(events[0]).push(events[1]).push(events[2]));
        let c2 = c1.receive(events[1])->0;
        let c3 = c2.receive(events[2])->0;
        assert(c3.open =~= client.open);
        lemma_push(client, none.push(events[0]).push(events[1]), events[2]);
    } else {
        assert(events =~= none.push(events[0]).push(events[1]));
        let c2 = c1.receive(events[1])->0;
        assert(c2.open =~= client.open);
    }
}

/// A state in which nothing waits to be sent.
spec fn is_drained(state: State) -> bool {
    &&& state.blocks == Map::<usize, BlockModel>::empty()
    &&& state.thinking is None
    &&& state.web_searches.len() == 0
    &&& state.deferred_text.len() == 0
}

proof fn lemma_flush_searches(
    client: Client,
    step: Step,
    searches: Seq<WebSearchModel>,
    texts: Seq<DeferredModel>,
)
    requires
        runs(client, step),
        is_drained(step.state),
        searches_fit(searches, step.state.next_index, after(client, step)),
        texts_fit(texts, searches, step.state.next_index, after(client, step)),
    ensures
        runs(client, step.flush_searches(searches)),
        is_drained(step.flush_searches(searches).state),
        step.flush_searches(searches).state.next_index == step.state.next_index,
        texts_fit(
            texts,
            Seq::empty(),
            step.state.next_index,
            after(client, step.flush_searches(searches)),
        ),
        after(client, step.flush_searches(searches)).open == after(client, step).open,
        searches.len() > 0 || step.state.message_started ==> step.flush_searches(
            searches,
        ).state.message_started,
    decreases searches.len(),
{
    if searches.len() > 0 {
        let search = searches.first();
        let rest = searches.drop_first();
        lemma_start_message(client, step);
        let started = step.start_message();
        let before = after(client, started);
        assert(search == searches[0]);
        lemma_search_events(before, step.state, search);
        let sent = started.emit_all(step.state.search_events(search));
        lemma_receive_concat(client, started.events, step.state.search_events(search));
        let later = after(client, sent);
        assert(tracks(sent.state, later)) by {
            assert(blocks_fit(sent.state, later));
        }
        assert forall|i: int| 0 <= i < rest.len() implies {
            &&& (#[trigger] rest[i]).index < rest[i].result_index < step.state.next_index
            &&& !later.seen.contains(rest[i].index)
            &&& !later.seen.contains(rest[i].result_index)
        } by {
            assert(rest[i] == searches[i + 1]);
            assert(searches[0].result_index < searches[i + 1].index);
        }
        assert forall|i: int, j: int| 0 <= i < j < rest.len() implies (
        #[trigger] rest[i]).result_index < (#[trigger] rest[j]).index by {
            assert(rest[i] == searches[i + 1] && rest[j] == searches[j + 1]);
        }
        assert forall|i: int| 0 <= i < texts.len() implies (#[trigger] texts[i]).index
            < step.state.next_index && !later.seen.contains(texts[i].index) by {
            assert(texts[i].index != searches[0].index && texts[i].index
                != searches[0].result_index);
        }
        assert forall|i: int, j: int| 0 <= i < texts.len() && 0 <= j < rest.len() implies (
        #[trigger] texts[i]).index != (#[trigger] rest[j]).index && texts[i].index
            != rest[j].result_index by {
            assert(rest[j] == searches[j + 1]);
        }
        lemma_flush_searches(client, sent, rest, texts);
    }
}

proof fn lemma_flush_texts(client: Client, step: Step, texts: Seq<DeferredModel>)
    requires
        runs(client, step),
        is_drained(step.state),
        texts_fit(texts, Seq::empty(), step.state.next_index, after(client, step)),
        texts.len() > 0 ==> step.state.message_started,
    ensures
        runs(client, step.flush_texts(texts)),
        after(client, step.flush_texts(texts)).open == after(client, step).open,
    decreases texts.len(),
{
    if texts.len() > 0 {
        let rest = texts.drop_first();
        let before = after(client, step);
        assert(texts.first() == texts[0]);
        lemma_deferred_events(before, texts[0]);
        let sent = step.emit_all(deferred_events(texts[0]));
        lemma_receive_concat(client, step.events, deferred_events(texts[0]));
        let later = after(client, sent);
        assert(tracks(sent.state, later)) by {
            assert(blocks_fit(sent.state, later));
        }
        assert forall|i: int| 0 <= i < rest.len() implies (#[trigger] rest[i]).index
            < step.state.next_index && !later.seen.contains(rest[i].index) by {
            assert(rest[i] == texts[i + 1]);
            assert(texts[0].index != texts[i + 1].index);
        }
        assert forall|i: int, j: int| 0 <= i < j < rest.len() implies (#[trigger] rest[i]).index
            != (#[trigger] rest[j]).index by {
            assert(rest[i] == texts[i + 1] && rest[j] == texts[j + 1]);
        }
        lemma_flush_texts(client, sent, rest);
    }
}

proof fn lemma_emit_web_searches(client: Client, step: Step)
    requires
        runs(client, step),
        step.state.blocks == Map::<usize, BlockModel>::empty(),
        step.state.thinking is None,
    ensures
        runs(client, step.emit_web_searches()),
        after(client, step.emit_web_searches()).open == after(client, step).open,
{
    let cleared = Step {
        state: State {
            web_searches: Seq::empty(),
            deferred_text: Seq::empty(),
            ..step.state
        },
        ..step
    };
    let searches = step.state.web_searches;
    let texts = step.state.deferred_text;
    assert(tracks(cleared.state, after(client, cleared))) by {
        assert(blocks_fit(cleared.state, after(client, cleared)));
    }
    lemma_flush_searches(client, cleared, searches, texts);
    lemma_flush_texts(client, cleared.flush_searches(searches), texts);
}

proof fn lemma_finish(client: Client, step: Step, payload: JsonModel, verdict: VerdictModel)
    requires
        runs(client, step),
    ensures
        is_legal(client, step.finish(payload, verdict)),
        step.finish(payload, verdict).state.finished,
        keeps_tight(client, step) ==> after(client, step.finish(payload, verdict)).open == Map::<
            nat,
            OpenBlock,
        >::empty(),
        forall|n: nat| #[trigger]
            after(client, step.finish(payload, verdict)).seen.contains(n) ==> n
                < step.finish(payload, verdict).state.next_index,
{
    let noted = step.with_metadata(
        match step.state.metadata {
            Some(metadata) if metadata.open_blocks == Set::<usize>::empty() => Some(
                metadata.terminated(verdict.complete, nested_str(payload, "response"@, "id"@)),
            ),
            _ => None,
        },
    );
    lemma_unseen_change(client, step, noted);
    lemma_close_thinking(client, noted);
    let quiet = noted.close_thinking();
    lemma_close_open_blocks(client, quiet);
    let closed = quiet.close_open_blocks();
    lemma_emit_web_searches(client, closed);
    let flushed = closed.emit_web_searches();
    lemma_start_message(client, flushed);
    let usage = match payload.get("response"@) {
        Some(response) => Some(response_usage(response)),
        None => None,
    };
    let stop_reason = if step.state.policy == IncompleteResponsePolicy::AllowMaxOutputTokens
        && verdict.max_output_tokens {
        StopReason::MaxTokens
    } else if step.state.saw_tool_use {
        StopReason::ToolUse
    } else {
        StopReason::EndTurn
    };
    lemma_emit_finish(client, flushed.start_message(), stop_reason, usage);
    assert(tracks(flushed.state, after(client, flushed)));
    assert(after(client, step.finish(payload, verdict)).seen == after(client, flushed).seen);
}

proof fn lemma_dispatch(client: Client, step: Step, payload: JsonModel, verdict: VerdictModel)
    requires
        runs(client, step),
    ensures
        is_legal(client, step.dispatch(payload, verdict).step),
        keeps_tight(client, step) && replaces_nothing(step.state, payload) && !step.dispatch(
            payload,
            verdict,
        ).step.state.finished ==> keeps_tight(client, step.dispatch(payload, verdict).step),
{
    let kind = event_kind(payload);
    if kind == "response.function_call_arguments.delta"@ {
        lemma_tool_delta(client, step, payload);
    } else if kind == "codex.rate_limits"@ || kind == "keepalive"@ || kind == "response.created"@
        || kind == "response.in_progress"@ {
        lemma_ping(client, step);
    } else if kind == "response.output_item.added"@ {
        lemma_output_item_added(client, step, payload);
    } else if kind == "response.reasoning_summary_part.added"@ {
        lemma_summary_part(client, step, payload);
    } else if kind == "response.reasoning_summary_text.delta"@ {
        lemma_reasoning_delta(client, step, payload);
    } else if kind == "response.output_text.delta"@ {
        lemma_text_delta(client, step, payload);
    } else if kind == "response.output_text.annotation.added"@ {
        lemma_unseen_change(client, step, step.dispatch(payload, verdict).step);
    } else if kind == "response.function_call_arguments.done"@ {
        lemma_with_arguments(client, step, payload);
    } else if kind == "response.output_item.done"@ {
        lemma_output_item_done(client, step, payload);
    } else if kind == "response.completed"@ || kind == "response.incomplete"@ || kind
        == "response.done"@ {
        lemma_finish(client, step, payload, verdict);
    }
}

/// A call of the translator, other than the builders and the getters.
pub enum Call {
    Accept { payload: JsonModel },
    Ping,
    EndAfterToolCall,
    Fail { message: Seq<char>, error_type: Seq<char> },
    TakeMetadata,
}

impl State {
    /// What a call does.
    pub open spec fn called(self, call: Call) -> Step {
        match call {
            Call::Accept { payload } => self.accepted(payload, event_verdict(payload)).step,
            Call::Ping => self.pinged(),
            Call::EndAfterToolCall => self.ended_after_tool_call(),
            Call::Fail { message, error_type } => self.failed(message, error_type),
            Call::TakeMetadata => self.still().with_metadata(None),
        }
    }

    /// A translator that has not seen an event, as the builders make it.
    pub open spec fn configured(
        message_id: Seq<char>,
        model: Seq<char>,
        estimated_input_tokens: u64,
        policy: IncompleteResponsePolicy,
        collects: bool,
    ) -> State {
        let initial = State::initial(message_id, model, estimated_input_tokens);
        State {
            policy,
            metadata: if collects {
                Some(MetadataModel::empty())
            } else {
                None
            },
            ..initial
        }
    }

    /// What a run of calls does: the last state, and all that was sent.
    pub open spec fn session(self, calls: Seq<Call>) -> Step
        decreases calls.len(),
    {
        if calls.len() == 0 {
            self.still()
        } else {
            let before = self.session(calls.drop_last());
            let last = before.state.called(calls.last());
            Step { state: last.state, events: before.events + last.events }
        }
    }
}

/// What an upstream event makes the translator send is what a client that
/// agreed with it may receive, and they agree afterwards. In particular the
/// client has received the text of each output that is open and not deferred.
pub proof fn law_accept_keeps_protocol(
    state: State,
    payload: JsonModel,
    verdict: VerdictModel,
    client: Client,
)
    requires
        agrees(state, client),
    ensures
        is_legal(client, state.accepted(payload, verdict).step),
{
    assert(runs(client, state.still()) || state.finished);
    if !state.finished {
        lemma_dispatch(client, state.still(), payload, verdict);
        lemma_unseen_change(client, state.still(), state.still().with_metadata(None));
    }
}

/// Every call of the translator keeps to the protocol.
pub proof fn law_call_keeps_protocol(state: State, call: Call, client: Client)
    requires
        agrees(state, client),
    ensures
        is_legal(client, state.called(call)),
{
    match call {
        Call::Accept { payload } => {
            law_accept_keeps_protocol(state, payload, event_verdict(payload), client);
        },
        Call::Ping => {
            if !state.finished {
                lemma_ping(client, state.still());
            }
        },
        Call::EndAfterToolCall => {
            if state.called(call) != state.still() {
                let quiet = state.still().with_metadata(None);
                lemma_unseen_change(client, state.still(), quiet);
                lemma_close_thinking(client, quiet);
                lemma_start_message(client, quiet.close_thinking());
                lemma_emit_finish(
                    client,
                    quiet.close_thinking().start_message(),
                    StopReason::ToolUse,
                    None,
                );
            }
        },
        Call::Fail { message, error_type } => {
            if !state.finished {
                let quiet = state.still().with_metadata(None);
                lemma_unseen_change(client, state.still(), quiet);
                lemma_close_open_blocks(client, quiet);
                lemma_start_message(client, quiet.close_open_blocks());
                lemma_push(
                    client,
                    quiet.close_open_blocks().start_message().events,
                    Event::Error { error_type, message },
                );
            }
        },
        Call::TakeMetadata => {
            if !state.finished {
                assert(client.receive_all(state.still().events) == Some(client));
                lemma_unseen_change(client, state.still(), state.still().with_metadata(None));
            }
        },
    }
}

/// A new translator agrees with a client that has received nothing.
pub proof fn lemma_new_agrees(start: State)
    requires
        !start.message_started,
        !start.finished,
        start.blocks == Map::<usize, BlockModel>::empty(),
        start.thinking is None,
        start.web_searches.len() == 0,
        start.deferred_text.len() == 0,
    ensures
        agrees(start, Client::fresh()),
        is_tight(start, Client::fresh()),
{
    assert(blocks_fit(start, Client::fresh()));
    assert(tracks(start, Client::fresh()));
}

/// What is legal after what was legal is legal as a whole.
pub proof fn lemma_legal_concat(client: Client, before: Step, taken: Step)
    requires
        is_legal(client, before),
        is_legal(after(client, before), taken),
    ensures
        is_legal(client, (Step { state: taken.state, events: before.events + taken.events })),
        after(client, (Step { state: taken.state, events: before.events + taken.events })) == after(
            after(client, before),
            taken,
        ),
{
    lemma_receive_concat(client, before.events, taken.events);
}

/// Whatever is done with a new translator, all that it ever sends keeps to the
/// protocol: the message starts once and first, every block is opened under a
/// new index, pieces and ends go to open blocks, and nothing follows the end.
pub proof fn law_session_keeps_protocol(
    message_id: Seq<char>,
    model: Seq<char>,
    estimated_input_tokens: u64,
    policy: IncompleteResponsePolicy,
    collects: bool,
    calls: Seq<Call>,
)
    ensures
        is_legal(
            Client::fresh(),
            State::configured(
                message_id,
                model,
                estimated_input_tokens,
                policy,
                collects,
            ).session(calls),
        ),
{
    let start = State::configured(message_id, model, estimated_input_tokens, policy, collects);
    lemma_new_agrees(start);
    lemma_session_is_legal(start, calls, Client::fresh());
}

/// A session that starts in agreement with a client is legal for it.
pub proof fn lemma_session_is_legal(start: State, calls: Seq<Call>, client: Client)
    requires
        agrees(start, client),
    ensures
        is_legal(client, start.session(calls)),
    decreases calls.len(),
{
    if calls.len() > 0 {
        lemma_session_is_legal(start, calls.drop_last(), client);
        let before = start.session(calls.drop_last());
        law_call_keeps_protocol(before.state, calls.last(), after(client, before));
        lemma_legal_concat(client, before, before.state.called(calls.last()));
    } else {
        assert(client.receive_all(Seq::empty()) == Some(client));
    }
}

/// The bytes that a run of calls returns, one call after the other.
pub open spec fn session_bytes(state: State, calls: Seq<Call>) -> Seq<u8>
    decreases calls.len(),
{
    if calls.len() == 0 {
        Seq::empty()
    } else {
        session_bytes(state, calls.drop_last()) + wire(
            state.session(calls.drop_last()).state.called(calls.last()).events,
        )
    }
}

/// However its events are spread over calls, a session returns their bytes in
/// one piece.
pub proof fn law_session_bytes_are_whole_frames(state: State, calls: Seq<Call>)
    ensures
        session_bytes(state, calls) == wire(state.session(calls).events),
    decreases calls.len(),
{
    if calls.len() > 0 {
        let before = state.session(calls.drop_last());
        law_session_bytes_are_whole_frames(state, calls.drop_last());
        lemma_wire_concat(before.events, before.state.called(calls.last()).events);
    }
}

/// As long as no message or tool call is added at an index where one is open,
/// and the message goes on, the translator keeps each block that the client has
/// open.
pub proof fn law_open_blocks_stay_known(
    state: State,
    payload: JsonModel,
    verdict: VerdictModel,
    client: Client,
)
    requires
        agrees(state, client),
        is_tight(state, client),
        replaces_nothing(state, payload),
        !state.accepted(payload, verdict).step.state.finished,
    ensures
        keeps_tight(client, state.accepted(payload, verdict).step),
{
    assert(client.receive_all(state.still().events) == Some(client));
    if !state.finished {
        lemma_dispatch(client, state.still(), payload, verdict);
        lemma_unseen_change(client, state.still(), state.still().with_metadata(None));
    }
}

/// Whether no event in a run of calls opens a block for an output that has one
/// open.
pub open spec fn session_replaces_nothing(start: State, calls: Seq<Call>) -> bool
    decreases calls.len(),
{
    calls.len() > 0 ==> {
        &&& session_replaces_nothing(start, calls.drop_last())
        &&& calls.last() matches Call::Accept { payload } ==> replaces_nothing(
            start.session(calls.drop_last()).state,
            payload,
        )
    }
}

proof fn lemma_call_stays_tight(state: State, call: Call, client: Client)
    requires
        agrees(state, client),
        is_tight(state, client),
        call matches Call::Accept { payload } ==> replaces_nothing(state, payload),
        !state.finished,
        !state.called(call).state.finished,
    ensures
        keeps_tight(client, state.called(call)),
{
    let still = state.still();
    assert(client.receive_all(still.events) == Some(client));
    match call {
        Call::Accept { payload } => {
            law_open_blocks_stay_known(state, payload, event_verdict(payload), client);
        },
        Call::Ping => {
            lemma_ping(client, still);
        },
        Call::TakeMetadata => {
            lemma_unseen_change(client, still, still.with_metadata(None));
        },
        _ => {},
    }
}

/// As long as no message or tool call is added at an index where one is open,
/// and the message goes on, the translator keeps each block that the client has
/// open, over a whole session.
pub proof fn law_session_keeps_blocks_known(start: State, calls: Seq<Call>, client: Client)
    requires
        agrees(start, client),
        is_tight(start, client),
        session_replaces_nothing(start, calls),
        !start.session(calls).state.finished,
    ensures
        keeps_tight(client, start.session(calls)),
    decreases calls.len(),
{
    lemma_session_is_legal(start, calls, client);
    if calls.len() > 0 {
        let before = start.session(calls.drop_last());
        law_call_keeps_progress(before.state, calls.last());
        law_session_keeps_blocks_known(start, calls.drop_last(), client);
        lemma_session_is_legal(start, calls.drop_last(), client);
        law_call_keeps_protocol(before.state, calls.last(), after(client, before));
        lemma_call_stays_tight(before.state, calls.last(), after(client, before));
        lemma_legal_concat(client, before, before.state.called(calls.last()));
    } else {
        assert(client.receive_all(start.session(calls).events) == Some(client));
    }
}

/// A message that ends with its response leaves no block open: each that was
/// still open is closed before. The blocks have the indices that were given out.
pub proof fn law_response_end_closes_every_block(
    state: State,
    payload: JsonModel,
    verdict: VerdictModel,
    client: Client,
)
    requires
        agrees(state, client),
        is_tight(state, client),
        !state.finished,
        is_end(payload),
        state.accepted(payload, verdict).error is None,
    ensures
        after(client, state.accepted(payload, verdict).step).open == Map::<nat, OpenBlock>::empty(),
        forall|n: nat| #[trigger]
            after(client, state.accepted(payload, verdict).step).seen.contains(n) ==> n
                < state.accepted(payload, verdict).step.state.next_index,
{
    assert(client.receive_all(state.still().events) == Some(client));
    law_kinds_are_told_apart(state.still(), payload, verdict);
    lemma_finish(client, state.still(), payload, verdict);
}

/// A message that ends in an error leaves no block open: each that was still
/// open is closed before.
pub proof fn law_failure_closes_every_block(
    state: State,
    message: Seq<char>,
    error_type: Seq<char>,
    client: Client,
)
    requires
        agrees(state, client),
        is_tight(state, client),
        !state.finished,
    ensures
        after(client, state.failed(message, error_type)).open == Map::<nat, OpenBlock>::empty(),
{
    let quiet = state.still().with_metadata(None);
    assert(client.receive_all(state.still().events) == Some(client));
    lemma_unseen_change(client, state.still(), quiet);
    lemma_close_open_blocks(client, quiet);
    lemma_start_message(client, quiet.close_open_blocks());
    lemma_push(
        client,
        quiet.close_open_blocks().start_message().events,
        Event::Error { error_type, message },
    );
}

/// A message that ends with the connection, after a complete tool call, leaves
/// no block open.
pub proof fn law_connection_end_closes_every_block(state: State, client: Client)
    requires
        agrees(state, client),
        is_tight(state, client),
        !state.finished,
        state.ended_after_tool_call().state.finished,
    ensures
        after(client, state.ended_after_tool_call()).open == Map::<nat, OpenBlock>::empty(),
{
    let quiet = state.still().with_metadata(None);
    assert(client.receive_all(state.still().events) == Some(client));
    lemma_unseen_change(client, state.still(), quiet);
    lemma_close_thinking(client, quiet);
    let closed = quiet.close_thinking();
    let later = after(client, closed);
    assert forall|n: nat| !(#[trigger] later.open.contains_key(n)) by {
        if later.open.contains_key(n) {
            assert(exists|k: usize| #[trigger] closed.state.blocks.contains_key(k));
        }
    }
    assert(later.open =~= Map::empty());
    lemma_start_message(client, closed);
    lemma_emit_finish(client, closed.start_message(), StopReason::ToolUse, None);
}

} // verus!

//! What the translator does, as a function from state and event to state and
//! downstream events.

use crate::downstream::{ContentBlockModel, DeltaModel, Event, StopReason, WebSearchResultModel};
use crate::index_map::ascending;
use crate::items::{assistant_text, replay_item, FinishModel, ItemModel};
use crate::json::JsonModel;
use crate::json_text::json_written;
use crate::read_args::{repaired_args, sanitized_args};
use crate::reasoning::{PendingModel, ReplayModel};
use crate::text::byte_len;
use crate::upstream::{
    addressed_index, event_kind, mapped_usage, nested_str, response_usage, search_query,
    server_tool_use_id, spec_output_index, CodexUsage, IncompleteResponsePolicy, VerdictModel,
};
use vstd::prelude::*;

verus! {

/// The most bytes of arguments that are kept of one tool call.
pub const BUFFERED_TOOL_MAX_ARGS_BYTES: usize = 1_048_576;

/// An open output of the response: the content block that it fills.
pub enum BlockModel {
    /// A text. A deferred one is sent only after the web searches.
    Text { index: nat, text: Seq<char>, deferred: bool },
    /// A tool call. A buffered one is sent only when its arguments are whole.
    Tool {
        index: nat,
        call_id: Seq<char>,
        name: Seq<char>,
        args: Seq<char>,
        had_delta: bool,
        buffered: bool,
        emitted_args: bool,
    },
}

/// A web search, and the two blocks that are kept for it.
pub struct WebSearchModel {
    pub index: nat,
    pub result_index: nat,
    pub id: Seq<char>,
    pub query: Seq<char>,
}

/// The open thinking block, and the output that fills it.
pub struct ThinkingModel {
    pub output_index: usize,
    pub index: nat,
}

/// A text that waits for the web searches.
pub struct DeferredModel {
    pub index: nat,
    pub text: Seq<char>,
}

/// What is collected of the response for its continuation.
#[verifier::ext_equal]
pub struct MetadataModel {
    pub output_items: Map<usize, ItemModel>,
    pub open_blocks: Set<usize>,
    pub text_overrides: Map<usize, Seq<char>>,
    pub response_id: Option<Seq<char>>,
    pub continuation_eligible: bool,
    pub finished: bool,
}

/// The state of a translator.
#[verifier::ext_equal]
pub struct State {
    pub message_id: Seq<char>,
    pub model: Seq<char>,
    pub message_started: bool,
    pub blocks: Map<usize, BlockModel>,
    pub item_ids: Map<Seq<char>, usize>,
    /// The index of the next content block.
    pub next_index: nat,
    pub thinking: Option<ThinkingModel>,
    pub reasoning: Map<usize, PendingModel>,
    pub saw_tool_use: bool,
    pub web_search_requests: nat,
    pub web_searches: Seq<WebSearchModel>,
    pub web_search_results: Seq<WebSearchResultModel>,
    pub deferred_text: Seq<DeferredModel>,
    pub semantic_output: bool,
    pub estimated_input_tokens: u64,
    pub policy: IncompleteResponsePolicy,
    pub metadata: Option<MetadataModel>,
    pub finished: bool,
}

/// A state, and the downstream events that were sent on the way to it.
#[verifier::ext_equal]
pub struct Step {
    pub state: State,
    pub events: Seq<Event>,
}

/// Where a call ends: a step, or one that an error cut short.
pub struct Outcome {
    pub step: Step,
    pub error: Option<Seq<char>>,
}

impl BlockModel {
    /// The content block that the output fills.
    pub open spec fn index(self) -> nat {
        match self {
            BlockModel::Text { index, .. } => index,
            BlockModel::Tool { index, .. } => index,
        }
    }

    /// Whether the block waits for the web searches.
    pub open spec fn is_deferred(self) -> bool {
        match self {
            BlockModel::Text { deferred, .. } => deferred,
            BlockModel::Tool { .. } => false,
        }
    }
}

impl MetadataModel {
    /// Nothing collected yet.
    pub open spec fn empty() -> MetadataModel {
        MetadataModel {
            output_items: Map::empty(),
            open_blocks: Set::empty(),
            text_overrides: Map::empty(),
            response_id: None,
            continuation_eligible: false,
            finished: false,
        }
    }

    /// A message or a tool call was opened at an output index.
    pub open spec fn opened(self, output_index: usize) -> MetadataModel {
        MetadataModel {
            open_blocks: self.open_blocks.insert(output_index),
            text_overrides: self.text_overrides.remove(output_index),
            ..self
        }
    }

    /// A reasoning item was closed.
    pub open spec fn with_replay(self, output_index: usize, replay: ReplayModel) -> MetadataModel {
        MetadataModel {
            output_items: self.output_items.insert(output_index, replay_item(replay)),
            ..self
        }
    }

    /// A piece of text came, after `text`. One that names its output belongs to
    /// the collected text. One that does not is left out of it: from the first
    /// such piece on, the collected text parts from the one that is sent.
    pub open spec fn with_text(
        self,
        output_index: usize,
        addressed: bool,
        text: Seq<char>,
        delta: Seq<char>,
    ) -> MetadataModel {
        if !self.open_blocks.contains(output_index) {
            self
        } else if addressed {
            if self.text_overrides.contains_key(output_index) {
                MetadataModel {
                    text_overrides: self.text_overrides.insert(
                        output_index,
                        self.text_overrides[output_index] + delta,
                    ),
                    ..self
                }
            } else {
                self
            }
        } else if self.text_overrides.contains_key(output_index) {
            self
        } else {
            MetadataModel {
                text_overrides: self.text_overrides.insert(output_index, text),
                ..self
            }
        }
    }

    /// A text was closed.
    pub open spec fn closed_text(self, output_index: usize, text: Seq<char>) -> MetadataModel {
        if !self.open_blocks.contains(output_index) {
            self
        } else {
            let kept = if self.text_overrides.contains_key(output_index) {
                self.text_overrides[output_index]
            } else {
                text
            };
            MetadataModel {
                open_blocks: self.open_blocks.remove(output_index),
                text_overrides: self.text_overrides.remove(output_index),
                output_items: if kept.len() > 0 {
                    self.output_items.insert(output_index, assistant_text(kept))
                } else {
                    self.output_items
                },
                ..self
            }
        }
    }

    /// A tool call was closed.
    pub open spec fn closed_tool(
        self,
        output_index: usize,
        call_id: Seq<char>,
        name: Seq<char>,
        arguments: Seq<char>,
    ) -> MetadataModel {
        if !self.open_blocks.contains(output_index) {
            self
        } else {
            MetadataModel {
                open_blocks: self.open_blocks.remove(output_index),
                output_items: self.output_items.insert(
                    output_index,
                    ItemModel::FunctionCall { call_id, name, arguments },
                ),
                ..self
            }
        }
    }

    /// The response has ended.
    pub open spec fn terminated(
        self,
        complete: bool,
        response_id: Option<Seq<char>>,
    ) -> MetadataModel {
        MetadataModel {
            finished: true,
            continuation_eligible: complete,
            response_id,
            ..self
        }
    }

    /// What the continuation is told.
    pub open spec fn report(self) -> FinishModel {
        FinishModel {
            continuation_eligible: self.continuation_eligible,
            response_id: self.response_id,
            output_items: ascending(self.output_items.dom()).map_values(
                |index: usize| self.output_items[index],
            ),
        }
    }
}

impl State {
    /// A translator that has not seen an event.
    pub open spec fn initial(
        message_id: Seq<char>,
        model: Seq<char>,
        estimated_input_tokens: u64,
    ) -> State {
        State {
            message_id,
            model,
            message_started: false,
            blocks: Map::empty(),
            item_ids: Map::empty(),
            next_index: 0,
            thinking: None,
            reasoning: Map::empty(),
            saw_tool_use: false,
            web_search_requests: 0,
            web_searches: Seq::empty(),
            web_search_results: Seq::empty(),
            deferred_text: Seq::empty(),
            semantic_output: false,
            estimated_input_tokens,
            policy: IncompleteResponsePolicy::Error,
            metadata: None,
            finished: false,
        }
    }

    /// Whether the counters have room for what one event can add to them.
    pub open spec fn has_room(self) -> bool {
        self.next_index + 2 <= usize::MAX && self.web_search_requests + 1 <= usize::MAX
    }

    /// The replay of a reasoning item, where it is known.
    pub open spec fn replay_at(self, output_index: usize) -> Option<ReplayModel> {
        if self.reasoning.contains_key(output_index) {
            self.reasoning[output_index].replay()
        } else {
            None
        }
    }

    /// The same state with an item of reasoning taken in.
    pub open spec fn with_reasoning(self, output_index: usize, item: JsonModel) -> State {
        let known = if self.reasoning.contains_key(output_index) {
            self.reasoning[output_index]
        } else {
            PendingModel::unknown()
        };
        State { reasoning: self.reasoning.insert(output_index, known.captured(item)), ..self }
    }

    /// The same state with a closed reasoning item noted, where metadata is
    /// collected.
    pub open spec fn with_replay(self, output_index: usize, replay: ReplayModel) -> State {
        match self.metadata {
            Some(metadata) => State {
                metadata: Some(metadata.with_replay(output_index, replay)),
                ..self
            },
            None => self,
        }
    }

    /// The same state with a closed tool call noted, where metadata is
    /// collected.
    pub open spec fn with_tool_output(
        self,
        output_index: usize,
        call_id: Seq<char>,
        name: Seq<char>,
        arguments: Seq<char>,
    ) -> State {
        match self.metadata {
            Some(metadata) => State {
                metadata: Some(metadata.closed_tool(output_index, call_id, name, arguments)),
                ..self
            },
            None => self,
        }
    }

    /// The output that a piece of text names, by its index or by the identifier
    /// of its item.
    pub open spec fn text_address(self, payload: JsonModel) -> Option<usize> {
        match addressed_index(payload) {
            Some(index) => Some(index),
            None => match payload.str_at("item_id"@) {
                Some(id) => if self.item_ids.contains_key(id) {
                    Some(self.item_ids[id])
                } else {
                    None
                },
                None => None,
            },
        }
    }

    /// The same state with the whole arguments of a tool call, where none had
    /// come before.
    pub open spec fn with_arguments(self, payload: JsonModel) -> State {
        match (addressed_index(payload), payload.str_at("arguments"@)) {
            (Some(output_index), Some(arguments)) => if self.blocks.contains_key(output_index) {
                match self.blocks[output_index] {
                    BlockModel::Tool {
                        index,
                        call_id,
                        name,
                        args,
                        had_delta,
                        buffered,
                        emitted_args,
                    } => if args.len() == 0 {
                        State {
                            blocks: self.blocks.insert(
                                output_index,
                                BlockModel::Tool {
                                    index,
                                    call_id,
                                    name,
                                    args: arguments,
                                    had_delta,
                                    buffered,
                                    emitted_args,
                                },
                            ),
                            ..self
                        }
                    } else {
                        self
                    },
                    BlockModel::Text { .. } => self,
                }
            } else {
                self
            },
            _ => self,
        }
    }

    /// The same state with a page that a text cites, unless it is known.
    pub open spec fn with_citation(self, payload: JsonModel) -> State {
        match payload.get("annotation"@) {
            None => self,
            Some(annotation) => match annotation.str_at("url"@) {
                None => self,
                Some(url) => if annotation.str_at("type"@) != Some("url_citation"@) || exists|
                    i: int,
                |
                    0 <= i < self.web_search_results.len()
                        && #[trigger] self.web_search_results[i].url == url {
                    self
                } else {
                    let title = annotation.text_at("title"@);
                    State {
                        web_search_results: self.web_search_results.push(
                            WebSearchResultModel {
                                title: if title.len() > 0 {
                                    title
                                } else {
                                    url
                                },
                                url,
                            },
                        ),
                        ..self
                    }
                },
            },
        }
    }

    /// What the collected metadata says, where the response has ended.
    pub open spec fn finish_report(self) -> Option<FinishModel> {
        match self.metadata {
            Some(metadata) => if metadata.finished {
                Some(metadata.report())
            } else {
                None
            },
            None => None,
        }
    }

    /// The events that flush one web search: its call, then the pages found.
    pub open spec fn search_events(self, search: WebSearchModel) -> Seq<Event> {
        seq![
            Event::BlockStart {
                index: search.index,
                block: ContentBlockModel::ServerToolUse { id: search.id },
            },
            Event::BlockDelta {
                index: search.index,
                delta: DeltaModel::InputJson(
                    json_written(
                        JsonModel::object().with("query"@, JsonModel::Str(search.query)),
                    ),
                ),
            },
            Event::BlockStop { index: search.index },
            Event::BlockStart {
                index: search.result_index,
                block: ContentBlockModel::WebSearchToolResult {
                    tool_use_id: search.id,
                    results: self.web_search_results,
                },
            },
            Event::BlockStop { index: search.result_index },
        ]
    }
}

/// The events that flush one deferred text.
pub open spec fn deferred_events(deferred: DeferredModel) -> Seq<Event> {
    let start = Event::BlockStart { index: deferred.index, block: ContentBlockModel::Text };
    let stop = Event::BlockStop { index: deferred.index };
    if deferred.text.len() > 0 {
        seq![
            start,
            Event::BlockDelta { index: deferred.index, delta: DeltaModel::Text(deferred.text) },
            stop,
        ]
    } else {
        seq![start, stop]
    }
}

/// Why a tool call with too many bytes of arguments is refused.
pub open spec fn oversized_args_error(name: Seq<char>) -> Seq<char> {
    "Buffered "@ + name + " tool arguments exceeded safe limits"@
}

impl Step {
    pub open spec fn emit(self, event: Event) -> Step {
        Step { events: self.events.push(event), ..self }
    }

    pub open spec fn emit_all(self, events: Seq<Event>) -> Step {
        Step { events: self.events + events, ..self }
    }

    pub open spec fn with_metadata(self, metadata: Option<MetadataModel>) -> Step {
        Step { state: State { metadata, ..self.state }, ..self }
    }

    /// The output at an index is no longer open.
    pub open spec fn without_block(self, output_index: usize) -> Step {
        Step {
            state: State { blocks: self.state.blocks.remove(output_index), ..self.state },
            ..self
        }
    }

    /// The first thing that is sent is the start of the message.
    pub open spec fn start_message(self) -> Step {
        if self.state.message_started {
            self
        } else {
            Step { state: State { message_started: true, ..self.state }, ..self }.emit(
                Event::MessageStart {
                    id: self.state.message_id,
                    model: self.state.model,
                    input_tokens: self.state.estimated_input_tokens,
                },
            )
        }
    }

    pub open spec fn ping(self) -> Step {
        self.start_message().emit(Event::Ping)
    }

    /// Ends the open thinking block, with its signature where the reasoning can
    /// be replayed.
    pub open spec fn close_thinking(self) -> Step {
        match self.state.thinking {
            None => self,
            Some(thinking) => {
                let closed = Step {
                    state: State {
                        thinking: None,
                        reasoning: self.state.reasoning.remove(thinking.output_index),
                        ..self.state
                    },
                    ..self
                };
                let signed = match self.state.replay_at(thinking.output_index) {
                    Some(replay) => closed.emit(
                        Event::BlockDelta {
                            index: thinking.index,
                            delta: DeltaModel::Signature(replay.signature()),
                        },
                    ).keep_replay(thinking.output_index, replay),
                    None => closed,
                };
                signed.emit(Event::BlockStop { index: thinking.index })
            },
        }
    }

    pub open spec fn keep_replay(self, output_index: usize, replay: ReplayModel) -> Step {
        Step { state: self.state.with_replay(output_index, replay), ..self }
    }

    /// Opens the block of a text. While web searches wait, the block is kept
    /// back.
    pub open spec fn open_text_block(self, output_index: usize) -> Step {
        let index = self.state.next_index;
        let deferred = self.state.web_searches.len() > 0;
        let opened = Step {
            state: State {
                next_index: index + 1,
                blocks: self.state.blocks.insert(
                    output_index,
                    BlockModel::Text { index, text: Seq::empty(), deferred },
                ),
                ..self.state
            },
            ..self
        };
        if deferred {
            opened
        } else {
            opened.start_message().emit(
                Event::BlockStart { index, block: ContentBlockModel::Text },
            )
        }
    }

    /// Opens the block of a tool call.
    pub open spec fn open_tool_block(
        self,
        output_index: usize,
        call_id: Seq<char>,
        name: Seq<char>,
    ) -> Step {
        let index = self.state.next_index;
        Step {
            state: State {
                saw_tool_use: true,
                next_index: index + 1,
                blocks: self.state.blocks.insert(
                    output_index,
                    BlockModel::Tool {
                        index,
                        call_id,
                        name,
                        args: Seq::empty(),
                        had_delta: false,
                        buffered: name == "Read"@,
                        emitted_args: false,
                    },
                ),
                ..self.state
            },
            ..self
        }.start_message().emit(
            Event::BlockStart { index, block: ContentBlockModel::ToolUse { id: call_id, name } },
        )
    }

    /// An output of the response begins.
    pub open spec fn output_item_added(self, payload: JsonModel) -> Step {
        match payload.get("item"@) {
            None => self,
            Some(item) => {
                let output_index = spec_output_index(payload);
                let kind = item.text_at("type"@);
                let noted = match self.state.metadata {
                    Some(metadata) if kind == "message"@ || kind == "function_call"@ => {
                        self.with_metadata(Some(metadata.opened(output_index)))
                    },
                    _ => self,
                };
                if kind == "reasoning"@ {
                    Step { state: noted.state.with_reasoning(output_index, item), ..noted }
                } else if kind == "message"@ {
                    noted.message_added(output_index, item)
                } else if kind == "function_call"@ {
                    noted.close_thinking().open_tool_block(
                        output_index,
                        item.text_at("call_id"@),
                        item.text_at("name"@),
                    )
                } else if kind == "web_search_call"@ {
                    Step {
                        state: State {
                            web_search_requests: noted.state.web_search_requests + 1,
                            ..noted.state
                        },
                        ..noted
                    }
                } else {
                    noted
                }
            },
        }
    }

    /// A message begins. Its identifier names the output from now on.
    pub open spec fn message_added(self, output_index: usize, item: JsonModel) -> Step {
        let ready = self.close_thinking();
        Step {
            state: State {
                item_ids: match item.str_at("id"@) {
                    Some(id) => ready.state.item_ids.insert(id, output_index),
                    None => ready.state.item_ids,
                },
                ..ready.state
            },
            ..ready
        }.open_text_block(output_index)
    }

    /// Opens the thinking block of an output.
    pub open spec fn open_thinking(self, output_index: usize) -> Step {
        let index = self.state.next_index;
        Step {
            state: State {
                next_index: index + 1,
                thinking: Some(ThinkingModel { output_index, index }),
                ..self.state
            },
            ..self
        }.start_message().emit(
            Event::BlockStart { index, block: ContentBlockModel::Thinking },
        )
    }

    pub open spec fn semantic(self) -> Step {
        Step { state: State { semantic_output: true, ..self.state }, ..self }
    }

    /// A piece of a reasoning summary comes.
    pub open spec fn reasoning_delta(self, payload: JsonModel) -> Step {
        let output_index = spec_output_index(payload);
        let delta = payload.text_at("delta"@);
        if delta.len() == 0 {
            self
        } else {
            let open = match self.state.thinking {
                Some(thinking) if thinking.output_index == output_index => self.semantic(),
                _ => self.semantic().close_thinking().open_thinking(output_index),
            };
            open.emit(
                Event::BlockDelta {
                    index: open.state.thinking->0.index,
                    delta: DeltaModel::Thinking(delta),
                },
            )
        }
    }

    /// A new part of a reasoning summary begins.
    pub open spec fn summary_part(self, payload: JsonModel) -> Step {
        match self.state.thinking {
            Some(thinking) if thinking.output_index == spec_output_index(payload) => self.emit(
                Event::BlockDelta {
                    index: thinking.index,
                    delta: DeltaModel::Thinking("\n\n"@),
                },
            ),
            _ => self,
        }
    }

    /// Adds a piece to the text that is open at an output index.
    pub open spec fn append_text(
        self,
        output_index: usize,
        addressed: bool,
        delta: Seq<char>,
    ) -> Step {
        match self.state.blocks[output_index] {
            BlockModel::Tool { .. } => self,
            BlockModel::Text { index, text, deferred } => {
                let appended = Step {
                    state: State {
                        blocks: self.state.blocks.insert(
                            output_index,
                            BlockModel::Text { index, text: text + delta, deferred },
                        ),
                        metadata: match self.state.metadata {
                            Some(metadata) => Some(
                                metadata.with_text(output_index, addressed, text, delta),
                            ),
                            None => None,
                        },
                        ..self.state
                    },
                    ..self
                };
                if deferred {
                    appended
                } else {
                    appended.emit(Event::BlockDelta { index, delta: DeltaModel::Text(delta) })
                }
            },
        }
    }

    /// A piece of text comes.
    pub open spec fn text_delta(self, payload: JsonModel) -> Step {
        let ready = self.close_thinking();
        let delta = payload.text_at("delta"@);
        if delta.len() == 0 {
            ready
        } else {
            let address = ready.state.text_address(payload);
            let output_index = match address {
                Some(index) => index,
                None => 0,
            };
            let open = if ready.state.blocks.contains_key(output_index) {
                ready.semantic()
            } else {
                ready.semantic().open_text_block(output_index)
            };
            open.append_text(output_index, address is Some, delta)
        }
    }

    pub open spec fn capture_tool_output(
        self,
        output_index: usize,
        call_id: Seq<char>,
        name: Seq<char>,
        arguments: Seq<char>,
    ) -> Step {
        Step { state: self.state.with_tool_output(output_index, call_id, name, arguments), ..self }
    }

    /// Ends the message.
    pub open spec fn emit_finish(self, stop_reason: StopReason, usage: Option<CodexUsage>) -> Step {
        let sent = self.emit(
            Event::MessageDelta {
                stop_reason,
                usage: mapped_usage(usage, self.state.web_search_requests),
            },
        ).emit(Event::MessageStop);
        Step { state: State { finished: true, ..sent.state }, ..sent }
    }

    /// Ends the message with a repaired call of a tool.
    pub open spec fn finish_repaired(
        self,
        output_index: usize,
        index: nat,
        call_id: Seq<char>,
        name: Seq<char>,
        arguments: Seq<char>,
    ) -> Step {
        let closed = self.without_block(output_index).capture_tool_output(
            output_index,
            call_id,
            name,
            arguments,
        );
        let noted = match closed.state.metadata {
            Some(metadata) => closed.with_metadata(
                Some(MetadataModel { finished: true, ..metadata }),
            ),
            None => closed,
        };
        noted.emit(
            Event::BlockDelta { index, delta: DeltaModel::InputJson(arguments) },
        ).emit(Event::BlockStop { index }).start_message().emit_finish(StopReason::ToolUse, None)
    }

    /// A piece of the arguments of a tool call comes.
    pub open spec fn tool_delta(self, payload: JsonModel) -> Outcome {
        let delta = payload.text_at("delta"@);
        match addressed_index(payload) {
            Some(output_index) if delta.len() > 0 => {
                let seen = self.semantic();
                if !seen.state.blocks.contains_key(output_index) {
                    Outcome { step: seen, error: None }
                } else {
                    match seen.state.blocks[output_index] {
                        BlockModel::Text { .. } => Outcome { step: seen, error: None },
                        BlockModel::Tool {
                            index,
                            call_id,
                            name,
                            args,
                            had_delta: _,
                            buffered,
                            emitted_args,
                        } => seen.tool_piece(
                            output_index,
                            index,
                            call_id,
                            name,
                            args + delta,
                            buffered,
                            emitted_args,
                            delta,
                        ),
                    }
                }
            },
            _ => Outcome { step: self, error: None },
        }
    }

    /// A piece of the arguments of the open tool call comes; with it they are
    /// `args`. They are passed on at once, or kept until they are whole. Kept
    /// arguments are limited in size, and repaired where their stream stalls.
    pub open spec fn tool_piece(
        self,
        output_index: usize,
        index: nat,
        call_id: Seq<char>,
        name: Seq<char>,
        args: Seq<char>,
        buffered: bool,
        emitted_args: bool,
        delta: Seq<char>,
    ) -> Outcome {
        let oversized = byte_len(args) > BUFFERED_TOOL_MAX_ARGS_BYTES;
        let taken = Step {
            state: State {
                blocks: self.state.blocks.insert(
                    output_index,
                    BlockModel::Tool {
                        index,
                        call_id,
                        name,
                        args,
                        had_delta: true,
                        buffered,
                        emitted_args: emitted_args || !buffered,
                    },
                ),
                metadata: if oversized {
                    None
                } else {
                    self.state.metadata
                },
                ..self.state
            },
            ..self
        };
        if !buffered {
            Outcome {
                step: taken.emit(
                    Event::BlockDelta { index, delta: DeltaModel::InputJson(delta) },
                ),
                error: None,
            }
        } else if oversized {
            Outcome { step: taken, error: Some(oversized_args_error(name)) }
        } else {
            match repaired_args(name, args) {
                Some(repaired) => Outcome {
                    step: taken.finish_repaired(output_index, index, call_id, name, repaired),
                    error: None,
                },
                None => Outcome { step: taken, error: None },
            }
        }
    }

    /// Sends the signature of a reasoning item that had no summary.
    pub open spec fn signature_only(self, output_index: usize) -> Step {
        let index = self.state.next_index;
        let known = Step {
            state: State {
                reasoning: self.state.reasoning.remove(output_index),
                ..self.state
            },
            ..self
        };
        match self.state.replay_at(output_index) {
            None => known,
            Some(replay) => Step {
                state: State { semantic_output: true, next_index: index + 1, ..known.state },
                ..known
            }.start_message().emit(
                Event::BlockStart { index, block: ContentBlockModel::Thinking },
            ).emit(
                Event::BlockDelta { index, delta: DeltaModel::Signature(replay.signature()) },
            ).emit(Event::BlockStop { index }).keep_replay(output_index, replay),
        }
    }

    /// A reasoning item ends.
    pub open spec fn reasoning_done(self, output_index: usize, item: JsonModel) -> Step {
        let known = Step { state: self.state.with_reasoning(output_index, item), ..self };
        let had_summary = self.state.thinking matches Some(thinking) && thinking.output_index
            == output_index;
        if had_summary {
            known.close_thinking()
        } else {
            known.close_thinking().signature_only(output_index)
        }
    }

    /// A web search ends. It is sent at the end, with the pages that were cited.
    pub open spec fn web_search_done(self, item: JsonModel) -> Step {
        let ready = self.close_thinking().semantic();
        let index = ready.state.next_index;
        Step {
            state: State {
                next_index: index + 2,
                web_searches: ready.state.web_searches.push(
                    WebSearchModel {
                        index,
                        result_index: index + 1,
                        id: server_tool_use_id(item.text_at("id"@)),
                        query: search_query(item),
                    },
                ),
                ..ready.state
            },
            ..ready
        }
    }

    /// The text that is open at an output index ends.
    pub open spec fn text_done(
        self,
        output_index: usize,
        index: nat,
        text: Seq<char>,
        deferred: bool,
    ) -> Step {
        let noted = match self.state.metadata {
            Some(metadata) => self.with_metadata(
                Some(metadata.closed_text(output_index, text)),
            ),
            None => self,
        };
        if deferred {
            Step {
                state: State {
                    deferred_text: noted.state.deferred_text.push(DeferredModel { index, text }),
                    ..noted.state
                },
                ..noted
            }
        } else {
            noted.emit(Event::BlockStop { index })
        }
    }

    /// The tool call that is open at an output index ends. `item` is the item
    /// that the event names, if any.
    pub open spec fn tool_done(
        self,
        output_index: usize,
        index: nat,
        call_id: Seq<char>,
        name: Seq<char>,
        args: Seq<char>,
        had_delta: bool,
        buffered: bool,
        emitted_args: bool,
        item: Option<JsonModel>,
    ) -> Step {
        let settled = had_delta || emitted_args;
        let given = match item {
            Some(item) => item.text_at("arguments"@),
            None => Seq::empty(),
        };
        let whole = if given.len() > 0 && (args.len() == 0 || !settled) {
            given
        } else {
            args
        };
        let sent = if whole.len() > 0 {
            sanitized_args(name, whole)
        } else {
            whole
        };
        let kept = if item is None {
            args
        } else if !settled && args.len() > 0 && given.len() > 0 && given != args {
            sanitized_args(name, args)
        } else {
            sent
        };
        let seen = self.semantic();
        let passed = if whole.len() > 0 && (buffered || !emitted_args) {
            seen.emit(Event::BlockDelta { index, delta: DeltaModel::InputJson(sent) })
        } else {
            seen
        };
        passed.emit(Event::BlockStop { index }).capture_tool_output(
            output_index,
            call_id,
            name,
            kept,
        )
    }

    /// An output of the response ends.
    pub open spec fn output_item_done(self, payload: JsonModel) -> Step {
        let output_index = spec_output_index(payload);
        let kind = nested_str(payload, "item"@, "type"@);
        if kind == Some("reasoning"@) {
            self.reasoning_done(output_index, payload.get("item"@)->0)
        } else if kind == Some("web_search_call"@) {
            self.web_search_done(payload.get("item"@)->0)
        } else {
            self.block_done(output_index, payload.get("item"@))
        }
    }

    /// The text or tool call that is open at an output index ends.
    pub open spec fn block_done(self, output_index: usize, item: Option<JsonModel>) -> Step {
        if !self.state.blocks.contains_key(output_index) {
            self
        } else {
            match self.state.blocks[output_index] {
                BlockModel::Text { index, text, deferred } => self.without_block(
                    output_index,
                ).text_done(output_index, index, text, deferred),
                BlockModel::Tool {
                    index,
                    call_id,
                    name,
                    args,
                    had_delta,
                    buffered,
                    emitted_args,
                } => self.without_block(output_index).tool_done(
                    output_index,
                    index,
                    call_id,
                    name,
                    args,
                    had_delta,
                    buffered,
                    emitted_args,
                    item,
                ),
            }
        }
    }

    /// Closes the output that is open at an index.
    pub open spec fn close_block(self, output_index: usize) -> Step {
        let removed = self.without_block(output_index);
        match self.state.blocks[output_index] {
            BlockModel::Text { index, text, deferred: true } => Step {
                state: State {
                    deferred_text: removed.state.deferred_text.push(DeferredModel { index, text }),
                    ..removed.state
                },
                ..removed
            },
            block => removed.emit(Event::BlockStop { index: block.index() }),
        }
    }

    /// Closes the outputs at some indices, in order.
    pub open spec fn close_blocks(self, output_indices: Seq<usize>) -> Step
        decreases output_indices.len(),
    {
        if output_indices.len() == 0 {
            self
        } else {
            self.close_block(output_indices.first()).close_blocks(output_indices.drop_first())
        }
    }

    /// Closes everything that is open: the thinking block, then the outputs in
    /// the ascending order of their indices.
    pub open spec fn close_open_blocks(self) -> Step {
        let ready = self.close_thinking();
        ready.close_blocks(ascending(ready.state.blocks.dom()))
    }

    /// Sends some web searches.
    pub open spec fn flush_searches(self, searches: Seq<WebSearchModel>) -> Step
        decreases searches.len(),
    {
        if searches.len() == 0 {
            self
        } else {
            self.start_message().emit_all(self.state.search_events(searches.first())).flush_searches(
                searches.drop_first(),
            )
        }
    }

    /// Sends some deferred texts.
    pub open spec fn flush_texts(self, texts: Seq<DeferredModel>) -> Step
        decreases texts.len(),
    {
        if texts.len() == 0 {
            self
        } else {
            self.emit_all(deferred_events(texts.first())).flush_texts(texts.drop_first())
        }
    }

    /// Sends the web searches, and after them the texts that waited for them.
    pub open spec fn emit_web_searches(self) -> Step {
        Step {
            state: State {
                web_searches: Seq::empty(),
                deferred_text: Seq::empty(),
                ..self.state
            },
            ..self
        }.flush_searches(self.state.web_searches).flush_texts(self.state.deferred_text)
    }

    /// The response ends.
    pub open spec fn finish(self, payload: JsonModel, verdict: VerdictModel) -> Step {
        let noted = self.with_metadata(
            match self.state.metadata {
                Some(metadata) if metadata.open_blocks == Set::<usize>::empty() => Some(
                    metadata.terminated(
                        verdict.complete,
                        nested_str(payload, "response"@, "id"@),
                    ),
                ),
                _ => None,
            },
        );
        let usage = match payload.get("response"@) {
            Some(response) => Some(response_usage(response)),
            None => None,
        };
        let stop_reason = if self.state.policy == IncompleteResponsePolicy::AllowMaxOutputTokens
            && verdict.max_output_tokens {
            StopReason::MaxTokens
        } else if self.state.saw_tool_use {
            StopReason::ToolUse
        } else {
            StopReason::EndTurn
        };
        noted.close_thinking().close_open_blocks().emit_web_searches().start_message().emit_finish(
            stop_reason,
            usage,
        )
    }

    /// What an event does that is not refused.
    pub open spec fn dispatch(self, payload: JsonModel, verdict: VerdictModel) -> Outcome {
        let kind = event_kind(payload);
        if kind == "response.function_call_arguments.delta"@ {
            self.tool_delta(payload)
        } else {
            Outcome {
                step: if kind == "codex.rate_limits"@ || kind == "keepalive"@ || kind
                    == "response.created"@ || kind == "response.in_progress"@ {
                    self.ping()
                } else if kind == "response.output_item.added"@ {
                    self.output_item_added(payload)
                } else if kind == "response.reasoning_summary_part.added"@ {
                    self.summary_part(payload)
                } else if kind == "response.reasoning_summary_text.delta"@ {
                    self.reasoning_delta(payload)
                } else if kind == "response.output_text.delta"@ {
                    self.text_delta(payload)
                } else if kind == "response.output_text.annotation.added"@ {
                    Step { state: self.state.with_citation(payload), ..self }
                } else if kind == "response.function_call_arguments.done"@ {
                    Step { state: self.state.with_arguments(payload), ..self }
                } else if kind == "response.output_item.done"@ {
                    self.output_item_done(payload)
                } else if kind == "response.completed"@ || kind == "response.incomplete"@ || kind
                    == "response.done"@ {
                    self.finish(payload, verdict)
                } else {
                    self
                },
                error: None,
            }
        }
    }
}

impl State {
    /// The step that has sent nothing yet.
    pub open spec fn still(self) -> Step {
        Step { state: self, events: Seq::empty() }
    }

    /// What an upstream event does, given how it is judged as a whole.
    pub open spec fn accepted(self, payload: JsonModel, verdict: VerdictModel) -> Outcome {
        let tolerated = self.policy == IncompleteResponsePolicy::AllowMaxOutputTokens
            && verdict.max_output_tokens;
        if self.finished {
            Outcome { step: self.still(), error: None }
        } else if !tolerated && verdict.failure is Some {
            Outcome { step: self.still().with_metadata(None), error: verdict.failure }
        } else {
            self.still().dispatch(payload, verdict)
        }
    }

    /// What a keep-alive does.
    pub open spec fn pinged(self) -> Step {
        if self.finished {
            self.still()
        } else {
            self.still().ping()
        }
    }

    /// What the end of the connection does after a tool call that is complete.
    pub open spec fn ended_after_tool_call(self) -> Step {
        if self.finished || !self.saw_tool_use || self.blocks != Map::<usize, BlockModel>::empty() {
            self.still()
        } else {
            self.still().with_metadata(None).close_thinking().start_message().emit_finish(
                StopReason::ToolUse,
                None,
            )
        }
    }

    /// What a failure of the stream does.
    pub open spec fn failed(self, message: Seq<char>, error_type: Seq<char>) -> Step {
        if self.finished {
            self.still()
        } else {
            let sent = self.still().with_metadata(None).close_open_blocks().start_message().emit(
                Event::Error { error_type, message },
            );
            Step { state: State { finished: true, ..sent.state }, ..sent }
        }
    }
}

} // verus!

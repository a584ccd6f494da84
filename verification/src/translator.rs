//! The translator.

use crate::downstream::{
    copy_results, events_view, results_view, ContentBlock, Delta, Downstream, StopReason,
    WebSearchResult,
};
use crate::index_map::{ascending, is_ascending, IndexMap};
use crate::items::{
    assistant_text_item, reasoning_input_item, FinishMetadata, ResponsesInputItem,
};
use crate::json::{Json, JsonModel};
use crate::json_text::write_json;
use crate::model::{
    deferred_events, BlockModel, DeferredModel, MetadataModel, State, Step, ThinkingModel,
    WebSearchModel, BUFFERED_TOOL_MAX_ARGS_BYTES,
};
use crate::read_args::{repair_whitespace_stalled_read_args, sanitize_read_args};
use crate::reasoning::{encode_reasoning_signature, PendingReasoning, ReasoningReplay};
use crate::sse::wire;
use crate::text::{count_bytes, join, same_text, text_view};
use crate::traffic::{deliver, downstream_records, TrafficCapture};
use crate::upstream::{
    event_verdict, find_index, find_nested_str, judge_event, map_codex_usage_to_anthropic,
    nested_str, output_index, parse_codex_usage, server_tool_use_id_from_codex_web_search_id,
    web_search_query, CodexUsage, EventVerdict, IncompleteResponsePolicy,
};
use std::collections::HashSet;
use vstd::hash_map::StringHashMap;
use vstd::prelude::*;
use vstd::string::StringExecFns;

verus! {

/// An open output of the response.
enum LiveBlock {
    Text { index: usize, text: String, deferred: bool },
    Tool {
        index: usize,
        call_id: String,
        name: String,
        args_accum: String,
        had_delta: bool,
        buffer_until_done: bool,
        emitted_args: bool,
    },
}

impl View for LiveBlock {
    type V = BlockModel;

    closed spec fn view(&self) -> BlockModel {
        match *self {
            LiveBlock::Text { index, text, deferred } => BlockModel::Text {
                index: index as nat,
                text: text@,
                deferred,
            },
            LiveBlock::Tool {
                index,
                call_id,
                name,
                args_accum,
                had_delta,
                buffer_until_done,
                emitted_args,
            } => BlockModel::Tool {
                index: index as nat,
                call_id: call_id@,
                name: name@,
                args: args_accum@,
                had_delta,
                buffered: buffer_until_done,
                emitted_args,
            },
        }
    }
}

/// A web search that waits for the end of the response.
struct LiveWebSearch {
    index: usize,
    result_index: usize,
    id: String,
    query: String,
}

impl View for LiveWebSearch {
    type V = WebSearchModel;

    closed spec fn view(&self) -> WebSearchModel {
        WebSearchModel {
            index: self.index as nat,
            result_index: self.result_index as nat,
            id: self.id@,
            query: self.query@,
        }
    }
}

/// A text that waits for the web searches.
struct DeferredText {
    index: usize,
    text: String,
}

impl View for DeferredText {
    type V = DeferredModel;

    closed spec fn view(&self) -> DeferredModel {
        DeferredModel { index: self.index as nat, text: self.text@ }
    }
}

/// The open thinking block.
#[derive(Clone, Copy)]
struct LiveThinking {
    output_index: usize,
    anthropic_index: usize,
}

impl View for LiveThinking {
    type V = ThinkingModel;

    closed spec fn view(&self) -> ThinkingModel {
        ThinkingModel { output_index: self.output_index, index: self.anthropic_index as nat }
    }
}

/// What is collected of the response for its continuation.
struct LiveFinishMetadata {
    output_items: IndexMap<ResponsesInputItem>,
    open_blocks: HashSet<usize>,
    text_overrides: IndexMap<String>,
    response_id: Option<String>,
    continuation_eligible: bool,
    finished: bool,
}

impl View for LiveFinishMetadata {
    type V = MetadataModel;

    closed spec fn view(&self) -> MetadataModel {
        MetadataModel {
            output_items: self.output_items@,
            open_blocks: self.open_blocks@,
            text_overrides: self.text_overrides@,
            response_id: text_view(self.response_id),
            continuation_eligible: self.continuation_eligible,
            finished: self.finished,
        }
    }
}

impl LiveFinishMetadata {
    fn new() -> (metadata: LiveFinishMetadata)
        ensures
            metadata@ == MetadataModel::empty(),
    {
        LiveFinishMetadata {
            output_items: IndexMap::new(),
            open_blocks: HashSet::new(),
            text_overrides: IndexMap::new(),
            response_id: None,
            continuation_eligible: false,
            finished: false,
        }
    }

    fn note_opened(&mut self, output_index: usize)
        ensures
            final(self)@ == old(self)@.opened(output_index),
    {
        self.open_blocks.insert(output_index);
        self.text_overrides.remove(output_index);
    }

    fn note_replay(&mut self, output_index: usize, replay: ReasoningReplay)
        ensures
            final(self)@ == old(self)@.with_replay(output_index, replay@),
    {
        self.output_items.insert(output_index, reasoning_input_item(replay));
    }

    fn note_text(&mut self, output_index: usize, addressed: bool, text: &str, delta: &str)
        ensures
            final(self)@ == old(self)@.with_text(output_index, addressed, text@, delta@),
    {
        let ghost before = self@;
        if self.open_blocks.contains(&output_index) {
            if addressed {
                match self.text_overrides.remove(output_index) {
                    Some(captured) => {
                        let mut captured = captured;
                        captured.append(delta);
                        self.text_overrides.insert(output_index, captured);
                        assert(self@.text_overrides =~= before.with_text(
                            output_index,
                            addressed,
                            text@,
                            delta@,
                        ).text_overrides);
                    },
                    None => {
                        assert(self@.text_overrides =~= before.text_overrides);
                    },
                }
            } else if !self.text_overrides.contains_key(output_index) {
                self.text_overrides.insert(output_index, text.to_string());
            }
        }
    }

    fn note_closed_text(&mut self, output_index: usize, text: &str)
        ensures
            final(self)@ == old(self)@.closed_text(output_index, text@),
    {
        let ghost before = self@;
        if self.open_blocks.remove(&output_index) {
            let kept = match self.text_overrides.remove(output_index) {
                Some(kept) => kept,
                None => text.to_string(),
            };
            if !kept.as_str().is_empty() {
                self.output_items.insert(output_index, assistant_text_item(kept));
            }
        } else {
            assert(self@.open_blocks =~= before.open_blocks);
        }
    }

    fn note_closed_tool(
        &mut self,
        output_index: usize,
        call_id: String,
        name: String,
        arguments: String,
    )
        ensures
            final(self)@ == old(self)@.closed_tool(output_index, call_id@, name@, arguments@),
    {
        let ghost before = self@;
        if self.open_blocks.remove(&output_index) {
            self.output_items.insert(
                output_index,
                ResponsesInputItem::FunctionCall { call_id, name, arguments },
            );
        } else {
            assert(self@.open_blocks =~= before.open_blocks);
        }
    }

    fn note_terminated(&mut self, complete: bool, response_id: Option<String>)
        ensures
            final(self)@ == old(self)@.terminated(complete, text_view(response_id)),
    {
        self.finished = true;
        self.continuation_eligible = complete;
        self.response_id = response_id;
    }

    fn report(self) -> (report: FinishMetadata)
        ensures
            self@.output_items.dom().finite(),
            report@ == self@.report(),
    {
        let report = FinishMetadata {
            continuation_eligible: self.continuation_eligible,
            response_id: self.response_id,
            output_items: self.output_items.into_values(),
        };
        assert(report@.output_items =~= self@.report().output_items);
        report
    }
}

/// Translates the events of one upstream response, as they come, into the
/// events of one downstream message.
pub struct LiveStreamTranslator {
    message_id: String,
    model: String,
    message_started: bool,
    blocks_by_output_index: IndexMap<LiveBlock>,
    item_id_to_output_index: StringHashMap<usize>,
    anthropic_index: usize,
    thinking: Option<LiveThinking>,
    reasoning_by_output_index: IndexMap<PendingReasoning>,
    saw_tool_use: bool,
    web_search_requests: usize,
    web_searches: Vec<LiveWebSearch>,
    web_search_results: Vec<WebSearchResult>,
    deferred_text: Vec<DeferredText>,
    semantic_output_started: bool,
    // Seeds the client's live token counter until the provider returns
    // authoritative usage at the end of the message.
    estimated_input_tokens: u64,
    incomplete_response_policy: IncompleteResponsePolicy,
    finish_metadata: Option<LiveFinishMetadata>,
    finished: bool,
}

impl View for LiveStreamTranslator {
    type V = State;

    closed spec fn view(&self) -> State {
        State {
            message_id: self.message_id@,
            model: self.model@,
            message_started: self.message_started,
            blocks: self.blocks_by_output_index@,
            item_ids: self.item_id_to_output_index@,
            next_index: self.anthropic_index as nat,
            thinking: match self.thinking {
                Some(thinking) => Some(thinking@),
                None => None,
            },
            reasoning: self.reasoning_by_output_index@,
            saw_tool_use: self.saw_tool_use,
            web_search_requests: self.web_search_requests as nat,
            web_searches: self.web_searches@.map_values(|search: LiveWebSearch| search@),
            web_search_results: results_view(self.web_search_results@),
            deferred_text: self.deferred_text@.map_values(|deferred: DeferredText| deferred@),
            semantic_output: self.semantic_output_started,
            estimated_input_tokens: self.estimated_input_tokens,
            policy: self.incomplete_response_policy,
            metadata: match self.finish_metadata {
                Some(metadata) => Some(metadata@),
                None => None,
            },
            finished: self.finished,
        }
    }
}

/// What an optional value stands for.
spec fn json_view(value: Option<&Json>) -> Option<JsonModel> {
    match value {
        Some(value) => Some(value@),
        None => None,
    }
}

/// The error of a result.
spec fn error_view<T>(result: Result<T, String>) -> Option<Seq<char>> {
    match result {
        Ok(_) => None,
        Err(error) => Some(error@),
    }
}

/// A piece of arguments replaces its block, so it does not matter whether the
/// block was taken out before.
proof fn lemma_piece_replaces_block(
    step: Step,
    output_index: usize,
    index: nat,
    call_id: Seq<char>,
    name: Seq<char>,
    args: Seq<char>,
    buffered: bool,
    emitted_args: bool,
    delta: Seq<char>,
)
    ensures
        step.without_block(output_index).tool_piece(
            output_index,
            index,
            call_id,
            name,
            args,
            buffered,
            emitted_args,
            delta,
        ) == step.tool_piece(
            output_index,
            index,
            call_id,
            name,
            args,
            buffered,
            emitted_args,
            delta,
        ),
{
    let block = BlockModel::Tool {
        index,
        call_id,
        name,
        args,
        had_delta: true,
        buffered,
        emitted_args: emitted_args || !buffered,
    };
    assert(step.state.blocks.remove(output_index).insert(output_index, block)
        =~= step.state.blocks.insert(output_index, block));
}

impl LiveStreamTranslator {
    /// This translator, once it has sent `out`.
    closed spec fn at(self, out: Seq<Downstream>) -> Step {
        Step { state: self@, events: events_view(out) }
    }

    /// A translator for a message.
    pub fn new(message_id: &str, model: &str) -> (translator: Self)
        ensures
            translator@ == State::initial(message_id@, model@, 0),
    {
        Self::with_estimated_input_tokens(message_id, model, 0)
    }

    /// A translator for a message, with an estimate of the input tokens that the
    /// message starts with.
    pub fn with_estimated_input_tokens(
        message_id: &str,
        model: &str,
        estimated_input_tokens: u64,
    ) -> (translator: Self)
        ensures
            translator@ == State::initial(message_id@, model@, estimated_input_tokens),
    {
        let translator = Self {
            message_id: message_id.to_string(),
            model: model.to_string(),
            message_started: false,
            blocks_by_output_index: IndexMap::new(),
            item_id_to_output_index: StringHashMap::new(),
            anthropic_index: 0,
            thinking: None,
            reasoning_by_output_index: IndexMap::new(),
            saw_tool_use: false,
            web_search_requests: 0,
            web_searches: Vec::new(),
            web_search_results: Vec::new(),
            deferred_text: Vec::new(),
            semantic_output_started: false,
            estimated_input_tokens,
            incomplete_response_policy: IncompleteResponsePolicy::Error,
            finish_metadata: None,
            finished: false,
        };
        assert(translator@ =~= State::initial(message_id@, model@, estimated_input_tokens));
        translator
    }

    /// The same translator, with a policy for incomplete responses.
    pub fn with_incomplete_response_policy(
        self,
        policy: IncompleteResponsePolicy,
    ) -> (translator: Self)
        ensures
            translator@ == (State { policy, ..self@ }),
    {
        let mut translator = self;
        translator.incomplete_response_policy = policy;
        translator
    }

    /// The same translator, which collects the finish metadata anew, or not.
    pub fn with_finish_metadata(self, enabled: bool) -> (translator: Self)
        ensures
            translator@ == (State {
                metadata: if enabled {
                    Some(MetadataModel::empty())
                } else {
                    None
                },
                ..self@
            }),
    {
        let mut translator = self;
        translator.finish_metadata = if enabled {
            Some(LiveFinishMetadata::new())
        } else {
            None
        };
        translator
    }

    /// Takes the finish metadata out. There is some where it was collected and
    /// the response has ended.
    pub fn take_finish_metadata(&mut self) -> (metadata: Option<FinishMetadata>)
        ensures
            final(self)@ == (State { metadata: None, ..old(self)@ }),
            match metadata {
                Some(metadata) => {
                    &&& old(self)@.finish_report() == Some(metadata@)
                    &&& old(self)@.metadata->0.output_items.dom().finite()
                },
                None => old(self)@.finish_report() is None,
            },
    {
        match self.finish_metadata.take() {
            Some(metadata) => if metadata.finished {
                Some(metadata.report())
            } else {
                None
            },
            None => None,
        }
    }

    /// Whether finish metadata is being collected.
    pub fn collects_finish_metadata(&self) -> (collects: bool)
        ensures
            collects == self@.metadata is Some,
    {
        self.finish_metadata.is_some()
    }

    /// Whether the message has ended.
    pub fn is_finished(&self) -> (finished: bool)
        ensures
            finished == self@.finished,
    {
        self.finished
    }

    /// Whether anything came of the response that the client can show.
    pub fn has_semantic_output(&self) -> (semantic: bool)
        ensures
            semantic == self@.semantic_output,
    {
        self.semantic_output_started
    }

    /// Whether the counters have room for what one more event can add to them.
    pub fn has_room(&self) -> (room: bool)
        ensures
            room == self@.has_room(),
    {
        self.anthropic_index <= usize::MAX - 2 && self.web_search_requests < usize::MAX
    }

    fn emit(&self, out: &mut Vec<Downstream>, event: Downstream)
        ensures
            self.at(final(out)@) == self.at(old(out)@).emit(event@),
            events_view(final(out)@) == events_view(old(out)@).push(event@),
    {
        let ghost before = out@;
        out.push(event);
        assert(events_view(out@) =~= events_view(before).push(event@));
    }

    fn ensure_message_start(&mut self, out: &mut Vec<Downstream>)
        ensures
            final(self).at(final(out)@) == old(self).at(old(out)@).start_message(),
    {
        if self.message_started {
            return;
        }
        self.message_started = true;
        self.emit(
            out,
            Downstream::MessageStart {
                id: self.message_id.clone(),
                model: self.model.clone(),
                input_tokens: self.estimated_input_tokens,
            },
        );
    }

    fn emit_ping(&mut self, out: &mut Vec<Downstream>)
        ensures
            final(self).at(final(out)@) == old(self).at(old(out)@).ping(),
    {
        self.ensure_message_start(out);
        self.emit(out, Downstream::Ping);
    }

    fn keep_replay(&mut self, output_index: usize, replay: ReasoningReplay)
        ensures
            final(self)@ == old(self)@.with_replay(output_index, replay@),
    {
        match &mut self.finish_metadata {
            Some(metadata) => {
                metadata.note_replay(output_index, replay);
            },
            None => {},
        }
    }

    fn close_thinking(&mut self, out: &mut Vec<Downstream>)
        ensures
            final(self).at(final(out)@) == old(self).at(old(out)@).close_thinking(),
    {
        let thinking = match self.thinking.take() {
            Some(thinking) => thinking,
            None => {
                return;
            },
        };
        let pending = self.reasoning_by_output_index.remove(thinking.output_index);
        let replay = match pending {
            Some(pending) => pending.replay(),
            None => None,
        };
        match replay {
            Some(replay) => {
                let signature = encode_reasoning_signature(&replay);
                self.emit(
                    out,
                    Downstream::BlockDelta {
                        index: thinking.anthropic_index,
                        delta: Delta::Signature(signature),
                    },
                );
                self.keep_replay(thinking.output_index, replay);
            },
            None => {},
        }
        self.emit(out, Downstream::BlockStop { index: thinking.anthropic_index });
    }

    fn open_text_block(&mut self, output_index: usize, out: &mut Vec<Downstream>)
        requires
            old(self)@.next_index < usize::MAX,
        ensures
            final(self).at(final(out)@) == old(self).at(old(out)@).open_text_block(output_index),
    {
        let index = self.anthropic_index;
        self.anthropic_index += 1;
        let deferred = !self.web_searches.is_empty();
        self.blocks_by_output_index.insert(
            output_index,
            LiveBlock::Text { index, text: String::new(), deferred },
        );
        if !deferred {
            self.ensure_message_start(out);
            self.emit(out, Downstream::BlockStart { index, block: ContentBlock::Text });
        }
    }

    fn open_tool_block(
        &mut self,
        output_index: usize,
        call_id: &str,
        name: &str,
        out: &mut Vec<Downstream>,
    )
        requires
            old(self)@.next_index < usize::MAX,
        ensures
            final(self).at(final(out)@) == old(self).at(old(out)@).open_tool_block(
                output_index,
                call_id@,
                name@,
            ),
    {
        self.saw_tool_use = true;
        let index = self.anthropic_index;
        self.anthropic_index += 1;
        self.blocks_by_output_index.insert(
            output_index,
            LiveBlock::Tool {
                index,
                call_id: call_id.to_string(),
                name: name.to_string(),
                args_accum: String::new(),
                had_delta: false,
                buffer_until_done: same_text(name, "Read"),
                emitted_args: false,
            },
        );
        self.ensure_message_start(out);
        self.emit(
            out,
            Downstream::BlockStart {
                index,
                block: ContentBlock::ToolUse { id: call_id.to_string(), name: name.to_string() },
            },
        );
    }

    fn capture_reasoning(&mut self, output_index: usize, item: &Json)
        ensures
            final(self)@ == old(self)@.with_reasoning(output_index, item@),
    {
        let ghost before = self@;
        let mut pending = match self.reasoning_by_output_index.remove(output_index) {
            Some(pending) => pending,
            None => PendingReasoning::new(),
        };
        pending.capture(item);
        self.reasoning_by_output_index.insert(output_index, pending);
        assert(self@.reasoning =~= before.with_reasoning(output_index, item@).reasoning);
    }

    fn note_opened(&mut self, output_index: usize)
        ensures
            final(self)@ == (State {
                metadata: match old(self)@.metadata {
                    Some(metadata) => Some(metadata.opened(output_index)),
                    None => None,
                },
                ..old(self)@
            }),
    {
        match &mut self.finish_metadata {
            Some(metadata) => {
                metadata.note_opened(output_index);
            },
            None => {},
        }
    }

    fn message_added(&mut self, output_index: usize, item: &Json, out: &mut Vec<Downstream>)
        requires
            old(self)@.next_index < usize::MAX,
        ensures
            final(self).at(final(out)@) == old(self).at(old(out)@).message_added(
                output_index,
                item@,
            ),
    {
        self.close_thinking(out);
        match item.str_at("id") {
            Some(id) => {
                self.item_id_to_output_index.insert(id.to_string(), output_index);
            },
            None => {},
        }
        self.open_text_block(output_index, out);
    }

    fn output_item_added(&mut self, payload: &Json, out: &mut Vec<Downstream>)
        requires
            old(self)@.has_room(),
        ensures
            final(self).at(final(out)@) == old(self).at(old(out)@).output_item_added(payload@),
    {
        let item = match payload.get("item") {
            Some(item) => item,
            None => {
                return;
            },
        };
        let output_index = output_index(payload);
        let item_type = item.text_at("type");
        if same_text(item_type, "message") || same_text(item_type, "function_call") {
            self.note_opened(output_index);
        }
        if same_text(item_type, "reasoning") {
            self.capture_reasoning(output_index, item);
        } else if same_text(item_type, "message") {
            self.message_added(output_index, item, out);
        } else if same_text(item_type, "function_call") {
            self.close_thinking(out);
            self.open_tool_block(output_index, item.text_at("call_id"), item.text_at("name"), out);
        } else if same_text(item_type, "web_search_call") {
            self.web_search_requests += 1;
        }
    }

    fn reasoning_delta(&mut self, payload: &Json, out: &mut Vec<Downstream>)
        requires
            old(self)@.has_room(),
        ensures
            final(self).at(final(out)@) == old(self).at(old(out)@).reasoning_delta(payload@),
    {
        let output_index = output_index(payload);
        let delta = payload.text_at("delta");
        if delta.is_empty() {
            return;
        }
        self.semantic_output_started = true;
        let active = match self.thinking {
            Some(thinking) => if thinking.output_index == output_index {
                Some(thinking.anthropic_index)
            } else {
                None
            },
            None => None,
        };
        let index = match active {
            Some(index) => index,
            None => {
                self.close_thinking(out);
                let index = self.anthropic_index;
                self.anthropic_index += 1;
                self.thinking = Some(LiveThinking { output_index, anthropic_index: index });
                self.ensure_message_start(out);
                self.emit(out, Downstream::BlockStart { index, block: ContentBlock::Thinking });
                index
            },
        };
        self.emit(
            out,
            Downstream::BlockDelta { index, delta: Delta::Thinking(delta.to_string()) },
        );
    }

    fn summary_part(&self, payload: &Json, out: &mut Vec<Downstream>)
        ensures
            self.at(final(out)@) == self.at(old(out)@).summary_part(payload@),
    {
        match self.thinking {
            Some(thinking) => {
                if thinking.output_index == output_index(payload) {
                    self.emit(
                        out,
                        Downstream::BlockDelta {
                            index: thinking.anthropic_index,
                            delta: Delta::Thinking("\n\n".to_string()),
                        },
                    );
                }
            },
            None => {},
        }
    }

    fn text_address(&self, payload: &Json) -> (address: Option<usize>)
        ensures
            address == self@.text_address(payload@),
    {
        match find_index(payload) {
            Some(index) => Some(index),
            None => match payload.str_at("item_id") {
                Some(id) => match self.item_id_to_output_index.get(id) {
                    Some(index) => Some(*index),
                    None => None,
                },
                None => None,
            },
        }
    }

    fn note_text(&mut self, output_index: usize, addressed: bool, text: &str, delta: &str)
        ensures
            final(self)@ == (State {
                metadata: match old(self)@.metadata {
                    Some(metadata) => Some(
                        metadata.with_text(output_index, addressed, text@, delta@),
                    ),
                    None => None,
                },
                ..old(self)@
            }),
    {
        match &mut self.finish_metadata {
            Some(metadata) => {
                metadata.note_text(output_index, addressed, text, delta);
            },
            None => {},
        }
    }

    fn append_text(
        &mut self,
        output_index: usize,
        addressed: bool,
        delta: &str,
        out: &mut Vec<Downstream>,
    )
        requires
            old(self)@.blocks.contains_key(output_index),
        ensures
            final(self).at(final(out)@) == old(self).at(old(out)@).append_text(
                output_index,
                addressed,
                delta@,
            ),
    {
        let ghost before = self@;
        match self.blocks_by_output_index.remove(output_index) {
            Some(LiveBlock::Text { index, text, deferred }) => {
                self.note_text(output_index, addressed, text.as_str(), delta);
                let mut text = text;
                text.append(delta);
                self.blocks_by_output_index.insert(
                    output_index,
                    LiveBlock::Text { index, text, deferred },
                );
                assert(self@.blocks =~= before.blocks.insert(
                    output_index,
                    BlockModel::Text { index: index as nat, text: text@, deferred },
                ));
                if !deferred {
                    self.emit(
                        out,
                        Downstream::BlockDelta { index, delta: Delta::Text(delta.to_string()) },
                    );
                }
            },
            Some(block) => {
                self.blocks_by_output_index.insert(output_index, block);
                assert(self@.blocks =~= before.blocks);
            },
            None => {},
        }
    }

    fn text_delta(&mut self, payload: &Json, out: &mut Vec<Downstream>)
        requires
            old(self)@.has_room(),
        ensures
            final(self).at(final(out)@) == old(self).at(old(out)@).text_delta(payload@),
    {
        self.close_thinking(out);
        let delta = payload.text_at("delta");
        if delta.is_empty() {
            return;
        }
        self.semantic_output_started = true;
        let address = self.text_address(payload);
        let output_index = match address {
            Some(index) => index,
            None => 0,
        };
        if !self.blocks_by_output_index.contains_key(output_index) {
            self.open_text_block(output_index, out);
        }
        self.append_text(output_index, address.is_some(), delta, out);
    }

    fn capture_tool_output(
        &mut self,
        output_index: usize,
        call_id: String,
        name: String,
        arguments: String,
    )
        ensures
            final(self)@ == old(self)@.with_tool_output(
                output_index,
                call_id@,
                name@,
                arguments@,
            ),
    {
        match &mut self.finish_metadata {
            Some(metadata) => {
                metadata.note_closed_tool(output_index, call_id, name, arguments);
            },
            None => {},
        }
    }

    fn emit_finish(
        &mut self,
        stop_reason: StopReason,
        usage: Option<CodexUsage>,
        out: &mut Vec<Downstream>,
    )
        ensures
            final(self).at(final(out)@) == old(self).at(old(out)@).emit_finish(stop_reason, usage),
    {
        let mapped = map_codex_usage_to_anthropic(&usage, self.web_search_requests);
        self.emit(out, Downstream::MessageDelta { stop_reason, usage: mapped });
        self.emit(out, Downstream::MessageStop);
        self.finished = true;
    }

    fn finish_repaired(
        &mut self,
        output_index: usize,
        index: usize,
        call_id: String,
        name: String,
        arguments: String,
        out: &mut Vec<Downstream>,
    )
        ensures
            final(self).at(final(out)@) == old(self).at(old(out)@).finish_repaired(
                output_index,
                index as nat,
                call_id@,
                name@,
                arguments@,
            ),
    {
        let delta = Delta::InputJson(arguments.clone());
        self.blocks_by_output_index.remove(output_index);
        self.capture_tool_output(output_index, call_id, name, arguments);
        match &mut self.finish_metadata {
            Some(metadata) => {
                metadata.finished = true;
            },
            None => {},
        }
        self.emit(out, Downstream::BlockDelta { index, delta });
        self.emit(out, Downstream::BlockStop { index });
        self.ensure_message_start(out);
        self.emit_finish(StopReason::ToolUse, None, out);
    }

    fn tool_piece(
        &mut self,
        output_index: usize,
        index: usize,
        call_id: String,
        name: String,
        args: String,
        buffered: bool,
        emitted_args: bool,
        delta: &str,
        out: &mut Vec<Downstream>,
    ) -> (result: Result<(), String>)
        ensures
            ({
                let outcome = old(self).at(old(out)@).tool_piece(
                    output_index,
                    index as nat,
                    call_id@,
                    name@,
                    args@,
                    buffered,
                    emitted_args,
                    delta@,
                );
                &&& final(self).at(final(out)@) == outcome.step
                &&& error_view(result) == outcome.error
            }),
    {
        let oversized = count_bytes(args.as_str()) > BUFFERED_TOOL_MAX_ARGS_BYTES;
        if oversized {
            self.finish_metadata = None;
        }
        let repaired = if buffered && !oversized {
            repair_whitespace_stalled_read_args(name.as_str(), args.as_str())
        } else {
            None
        };
        let tool_name = name.clone();
        let tool_call = call_id.clone();
        self.blocks_by_output_index.insert(
            output_index,
            LiveBlock::Tool {
                index,
                call_id,
                name,
                args_accum: args,
                had_delta: true,
                buffer_until_done: buffered,
                emitted_args: emitted_args || !buffered,
            },
        );
        if !buffered {
            self.emit(
                out,
                Downstream::BlockDelta { index, delta: Delta::InputJson(delta.to_string()) },
            );
            return Ok(());
        }
        if oversized {
            let error = join(
                join("Buffered ", tool_name.as_str()).as_str(),
                " tool arguments exceeded safe limits",
            );
            return Err(error);
        }
        match repaired {
            Some(repaired) => {
                self.finish_repaired(output_index, index, tool_call, tool_name, repaired, out);
            },
            None => {},
        }
        Ok(())
    }

    fn tool_delta(&mut self, payload: &Json, out: &mut Vec<Downstream>) -> (result: Result<
        (),
        String,
    >)
        ensures
            ({
                let outcome = old(self).at(old(out)@).tool_delta(payload@);
                &&& final(self).at(final(out)@) == outcome.step
                &&& error_view(result) == outcome.error
            }),
    {
        let output_index = match find_index(payload) {
            Some(index) => index,
            None => {
                return Ok(());
            },
        };
        let delta = payload.text_at("delta");
        if delta.is_empty() {
            return Ok(());
        }
        self.semantic_output_started = true;
        let ghost before = *self;
        match self.blocks_by_output_index.remove(output_index) {
            Some(
                LiveBlock::Tool {
                    index,
                    call_id,
                    name,
                    args_accum,
                    had_delta: _,
                    buffer_until_done,
                    emitted_args,
                },
            ) => {
                let mut args = args_accum;
                args.append(delta);
                proof {
                    lemma_piece_replaces_block(
                        before.at(out@),
                        output_index,
                        index as nat,
                        call_id@,
                        name@,
                        args@,
                        buffer_until_done,
                        emitted_args,
                        delta@,
                    );
                }
                self.tool_piece(
                    output_index,
                    index,
                    call_id,
                    name,
                    args,
                    buffer_until_done,
                    emitted_args,
                    delta,
                    out,
                )
            },
            Some(block) => {
                self.blocks_by_output_index.insert(output_index, block);
                assert(self@.blocks =~= before@.blocks);
                Ok(())
            },
            None => {
                assert(self@.blocks =~= before@.blocks);
                Ok(())
            },
        }
    }

    fn tool_arguments_done(&mut self, payload: &Json)
        ensures
            final(self)@ == old(self)@.with_arguments(payload@),
    {
        let output_index = match find_index(payload) {
            Some(index) => index,
            None => {
                return;
            },
        };
        let arguments = match payload.str_at("arguments") {
            Some(arguments) => arguments,
            None => {
                return;
            },
        };
        let ghost before = self@;
        match self.blocks_by_output_index.remove(output_index) {
            Some(
                LiveBlock::Tool {
                    index,
                    call_id,
                    name,
                    args_accum,
                    had_delta,
                    buffer_until_done,
                    emitted_args,
                },
            ) => {
                let args_accum = if args_accum.as_str().is_empty() {
                    arguments.to_string()
                } else {
                    args_accum
                };
                self.blocks_by_output_index.insert(
                    output_index,
                    LiveBlock::Tool {
                        index,
                        call_id,
                        name,
                        args_accum,
                        had_delta,
                        buffer_until_done,
                        emitted_args,
                    },
                );
                assert(self@.blocks =~= before.with_arguments(payload@).blocks);
            },
            Some(block) => {
                self.blocks_by_output_index.insert(output_index, block);
                assert(self@.blocks =~= before.blocks);
            },
            None => {
                assert(self@.blocks =~= before.blocks);
            },
        }
    }

    fn emit_signature_only_reasoning(&mut self, output_index: usize, out: &mut Vec<Downstream>)
        requires
            old(self)@.next_index < usize::MAX,
        ensures
            final(self).at(final(out)@) == old(self).at(old(out)@).signature_only(output_index),
    {
        let pending = self.reasoning_by_output_index.remove(output_index);
        let replay = match pending {
            Some(pending) => pending.replay(),
            None => None,
        };
        let replay = match replay {
            Some(replay) => replay,
            None => {
                return;
            },
        };
        let signature = encode_reasoning_signature(&replay);
        self.semantic_output_started = true;
        let index = self.anthropic_index;
        self.anthropic_index += 1;
        self.ensure_message_start(out);
        self.emit(out, Downstream::BlockStart { index, block: ContentBlock::Thinking });
        self.emit(out, Downstream::BlockDelta { index, delta: Delta::Signature(signature) });
        self.emit(out, Downstream::BlockStop { index });
        self.keep_replay(output_index, replay);
    }

    fn reasoning_done(&mut self, output_index: usize, item: &Json, out: &mut Vec<Downstream>)
        requires
            old(self)@.next_index < usize::MAX,
        ensures
            final(self).at(final(out)@) == old(self).at(old(out)@).reasoning_done(
                output_index,
                item@,
            ),
    {
        self.capture_reasoning(output_index, item);
        let had_active_summary = match self.thinking {
            Some(thinking) => thinking.output_index == output_index,
            None => false,
        };
        self.close_thinking(out);
        if !had_active_summary {
            self.emit_signature_only_reasoning(output_index, out);
        }
    }

    fn web_search_done(&mut self, item: &Json, out: &mut Vec<Downstream>)
        requires
            old(self)@.next_index + 2 <= usize::MAX,
        ensures
            final(self).at(final(out)@) == old(self).at(old(out)@).web_search_done(item@),
    {
        self.close_thinking(out);
        self.semantic_output_started = true;
        let ghost before = self@.web_searches;
        let index = self.anthropic_index;
        let result_index = index + 1;
        self.anthropic_index += 2;
        let search = LiveWebSearch {
            index,
            result_index,
            id: server_tool_use_id_from_codex_web_search_id(item.text_at("id")),
            query: web_search_query(item),
        };
        let ghost model = search@;
        self.web_searches.push(search);
        assert(self@.web_searches =~= before.push(model));
    }

    fn note_closed_text(&mut self, output_index: usize, text: &str)
        ensures
            final(self)@ == (State {
                metadata: match old(self)@.metadata {
                    Some(metadata) => Some(metadata.closed_text(output_index, text@)),
                    None => None,
                },
                ..old(self)@
            }),
    {
        match &mut self.finish_metadata {
            Some(metadata) => {
                metadata.note_closed_text(output_index, text);
            },
            None => {},
        }
    }

    fn defer_text(&mut self, index: usize, text: String)
        ensures
            final(self)@ == (State {
                deferred_text: old(self)@.deferred_text.push(
                    DeferredModel { index: index as nat, text: text@ },
                ),
                ..old(self)@
            }),
    {
        let ghost before = self@.deferred_text;
        self.deferred_text.push(DeferredText { index, text });
        assert(self@.deferred_text =~= before.push(
            DeferredModel { index: index as nat, text: text@ },
        ));
    }

    fn text_done(
        &mut self,
        output_index: usize,
        index: usize,
        text: String,
        deferred: bool,
        out: &mut Vec<Downstream>,
    )
        ensures
            final(self).at(final(out)@) == old(self).at(old(out)@).text_done(
                output_index,
                index as nat,
                text@,
                deferred,
            ),
    {
        self.note_closed_text(output_index, text.as_str());
        if deferred {
            self.defer_text(index, text);
        } else {
            self.emit(out, Downstream::BlockStop { index });
        }
    }

    fn tool_done(
        &mut self,
        output_index: usize,
        index: usize,
        call_id: String,
        name: String,
        args: String,
        had_delta: bool,
        buffered: bool,
        emitted_args: bool,
        item: Option<&Json>,
        out: &mut Vec<Downstream>,
    )
        ensures
            final(self).at(final(out)@) == old(self).at(old(out)@).tool_done(
                output_index,
                index as nat,
                call_id@,
                name@,
                args@,
                had_delta,
                buffered,
                emitted_args,
                json_view(item),
            ),
    {
        self.semantic_output_started = true;
        let settled = had_delta || emitted_args;
        let given = match item {
            Some(item) => item.text_at("arguments"),
            None => {
                proof {
                    reveal_strlit("");
                    assert(""@ =~= Seq::<char>::empty());
                }
                ""
            },
        };
        let whole = if !given.is_empty() && (args.as_str().is_empty() || !settled) {
            given
        } else {
            args.as_str()
        };
        let sent = if whole.is_empty() {
            whole.to_string()
        } else {
            sanitize_read_args(name.as_str(), whole)
        };
        let kept = match item {
            None => args.clone(),
            Some(_) => if !settled && !args.as_str().is_empty() && !given.is_empty() && !same_text(
                given,
                args.as_str(),
            ) {
                sanitize_read_args(name.as_str(), args.as_str())
            } else {
                sent.clone()
            },
        };
        if !whole.is_empty() && (buffered || !emitted_args) {
            self.emit(out, Downstream::BlockDelta { index, delta: Delta::InputJson(sent) });
        }
        self.emit(out, Downstream::BlockStop { index });
        self.capture_tool_output(output_index, call_id, name, kept);
    }

    fn block_done(&mut self, output_index: usize, item: Option<&Json>, out: &mut Vec<Downstream>)
        ensures
            final(self).at(final(out)@) == old(self).at(old(out)@).block_done(
                output_index,
                json_view(item),
            ),
    {
        let ghost before = *self;
        match self.blocks_by_output_index.remove(output_index) {
            Some(LiveBlock::Text { index, text, deferred }) => {
                self.text_done(output_index, index, text, deferred, out);
            },
            Some(
                LiveBlock::Tool {
                    index,
                    call_id,
                    name,
                    args_accum,
                    had_delta,
                    buffer_until_done,
                    emitted_args,
                },
            ) => {
                self.tool_done(
                    output_index,
                    index,
                    call_id,
                    name,
                    args_accum,
                    had_delta,
                    buffer_until_done,
                    emitted_args,
                    item,
                    out,
                );
            },
            None => {
                assert(self@.blocks =~= before@.blocks);
            },
        }
    }

    fn output_item_done(&mut self, payload: &Json, out: &mut Vec<Downstream>)
        requires
            old(self)@.has_room(),
        ensures
            final(self).at(final(out)@) == old(self).at(old(out)@).output_item_done(payload@),
    {
        let output_index = output_index(payload);
        let item = payload.get("item");
        let kind = find_nested_str(payload, "item", "type");
        match (item, kind) {
            (Some(item), Some(kind)) if same_text(kind, "reasoning") => {
                self.reasoning_done(output_index, item, out);
            },
            (Some(item), Some(kind)) if same_text(kind, "web_search_call") => {
                self.web_search_done(item, out);
            },
            _ => {
                self.block_done(output_index, item, out);
            },
        }
    }

    fn cites(&self, url: &str) -> (cited: bool)
        ensures
            cited == exists|i: int|
                0 <= i < self@.web_search_results.len()
                    && #[trigger] self@.web_search_results[i].url == url@,
    {
        let mut i: usize = 0;
        while i < self.web_search_results.len()
            invariant
                i <= self.web_search_results@.len(),
                self@.web_search_results == results_view(self.web_search_results@),
                forall|j: int| 0 <= j < i ==> #[trigger] self@.web_search_results[j].url != url@,
            decreases self.web_search_results@.len() - i,
        {
            if same_text(self.web_search_results[i].url.as_str(), url) {
                assert(self@.web_search_results[i as int].url == url@);
                return true;
            }
            i += 1;
        }
        false
    }

    fn web_search_annotation(&mut self, payload: &Json)
        ensures
            final(self)@ == old(self)@.with_citation(payload@),
    {
        let annotation = match payload.get("annotation") {
            Some(annotation) => annotation,
            None => {
                return;
            },
        };
        let is_citation = match annotation.str_at("type") {
            Some(kind) => same_text(kind, "url_citation"),
            None => false,
        };
        if !is_citation {
            return;
        }
        let url = match annotation.str_at("url") {
            Some(url) => url,
            None => {
                return;
            },
        };
        if self.cites(url) {
            return;
        }
        let given = annotation.text_at("title");
        let title = if given.is_empty() {
            url
        } else {
            given
        };
        let ghost before = self@;
        self.web_search_results.push(
            WebSearchResult { title: title.to_string(), url: url.to_string() },
        );
        assert(self@.web_search_results =~= before.with_citation(payload@).web_search_results);
    }

    fn close_block(&mut self, output_index: usize, out: &mut Vec<Downstream>)
        requires
            old(self)@.blocks.contains_key(output_index),
        ensures
            final(self).at(final(out)@) == old(self).at(old(out)@).close_block(output_index),
            final(self)@.blocks == old(self)@.blocks.remove(output_index),
    {
        match self.blocks_by_output_index.remove(output_index) {
            Some(LiveBlock::Text { index, text, deferred }) => {
                if deferred {
                    self.defer_text(index, text);
                } else {
                    self.emit(out, Downstream::BlockStop { index });
                }
            },
            Some(LiveBlock::Tool { index, .. }) => {
                self.emit(out, Downstream::BlockStop { index });
            },
            None => {},
        }
    }

    fn close_open_blocks(&mut self, out: &mut Vec<Downstream>)
        ensures
            final(self).at(final(out)@) == old(self).at(old(out)@).close_open_blocks(),
    {
        self.close_thinking(out);
        let ghost closed = self.at(out@).close_blocks(ascending(self@.blocks.dom()));
        let open = self.blocks_by_output_index.keys();
        proof {
            assert(open@.skip(0) =~= open@);
            assert forall|i: int| 0 <= i < open@.len() implies #[trigger] self@.blocks.contains_key(
                open@[i],
            ) by {
                assert(open@.to_set().contains(open@[i]));
            }
        }
        let mut i: usize = 0;
        while i < open.len()
            invariant
                i <= open@.len(),
                is_ascending(open@),
                forall|j: int| i <= j < open@.len() ==> #[trigger] self@.blocks.contains_key(
                    open@[j],
                ),
                self.at(out@).close_blocks(open@.skip(i as int)) == closed,
            decreases open@.len() - i,
        {
            assert(open@.skip(i as int).first() == open@[i as int]);
            assert(open@.skip(i as int).drop_first() =~= open@.skip(i + 1));
            self.close_block(open[i], out);
            i += 1;
        }
    }

    fn emit_web_search(&mut self, search: &LiveWebSearch, out: &mut Vec<Downstream>)
        ensures
            final(self).at(final(out)@) == old(self).at(old(out)@).start_message().emit_all(
                old(self)@.search_events(search@),
            ),
            final(self)@.web_search_results == old(self)@.web_search_results,
    {
        self.ensure_message_start(out);
        let ghost started = out@;
        let query = Json::object().with("query", Json::text(search.query.as_str()));
        self.emit(
            out,
            Downstream::BlockStart {
                index: search.index,
                block: ContentBlock::ServerToolUse { id: search.id.clone() },
            },
        );
        self.emit(
            out,
            Downstream::BlockDelta {
                index: search.index,
                delta: Delta::InputJson(write_json(&query)),
            },
        );
        self.emit(out, Downstream::BlockStop { index: search.index });
        self.emit(
            out,
            Downstream::BlockStart {
                index: search.result_index,
                block: ContentBlock::WebSearchToolResult {
                    tool_use_id: search.id.clone(),
                    results: copy_results(&self.web_search_results),
                },
            },
        );
        self.emit(out, Downstream::BlockStop { index: search.result_index });
        assert(events_view(out@) =~= events_view(started) + self@.search_events(search@));
    }

    fn emit_deferred_text(&self, deferred: &DeferredText, out: &mut Vec<Downstream>)
        ensures
            self.at(final(out)@) == self.at(old(out)@).emit_all(deferred_events(deferred@)),
    {
        let ghost started = out@;
        let index = deferred.index;
        self.emit(out, Downstream::BlockStart { index, block: ContentBlock::Text });
        if !deferred.text.as_str().is_empty() {
            self.emit(
                out,
                Downstream::BlockDelta { index, delta: Delta::Text(deferred.text.clone()) },
            );
        }
        self.emit(out, Downstream::BlockStop { index });
        assert(events_view(out@) =~= events_view(started) + deferred_events(deferred@));
    }

    fn flush_searches(&mut self, searches: &Vec<LiveWebSearch>, out: &mut Vec<Downstream>)
        ensures
            final(self).at(final(out)@) == old(self).at(old(out)@).flush_searches(
                searches@.map_values(|search: LiveWebSearch| search@),
            ),
    {
        let ghost models = searches@.map_values(|search: LiveWebSearch| search@);
        let ghost flushed = self.at(out@).flush_searches(models);
        assert(models.skip(0) =~= models);
        let mut i: usize = 0;
        while i < searches.len()
            invariant
                i <= searches@.len(),
                models == searches@.map_values(|search: LiveWebSearch| search@),
                self.at(out@).flush_searches(models.skip(i as int)) == flushed,
            decreases searches@.len() - i,
        {
            assert(models.skip(i as int).first() == searches@[i as int]@);
            assert(models.skip(i as int).drop_first() =~= models.skip(i + 1));
            self.emit_web_search(&searches[i], out);
            i += 1;
        }
    }

    fn flush_texts(&self, texts: &Vec<DeferredText>, out: &mut Vec<Downstream>)
        ensures
            self.at(final(out)@) == self.at(old(out)@).flush_texts(
                texts@.map_values(|deferred: DeferredText| deferred@),
            ),
    {
        let ghost models = texts@.map_values(|deferred: DeferredText| deferred@);
        let ghost flushed = self.at(out@).flush_texts(models);
        assert(models.skip(0) =~= models);
        let mut i: usize = 0;
        while i < texts.len()
            invariant
                i <= texts@.len(),
                models == texts@.map_values(|deferred: DeferredText| deferred@),
                self.at(out@).flush_texts(models.skip(i as int)) == flushed,
            decreases texts@.len() - i,
        {
            assert(models.skip(i as int).first() == texts@[i as int]@);
            assert(models.skip(i as int).drop_first() =~= models.skip(i + 1));
            self.emit_deferred_text(&texts[i], out);
            i += 1;
        }
    }

    fn emit_web_searches(&mut self, out: &mut Vec<Downstream>)
        ensures
            final(self).at(final(out)@) == old(self).at(old(out)@).emit_web_searches(),
    {
        let mut searches: Vec<LiveWebSearch> = Vec::new();
        std::mem::swap(&mut self.web_searches, &mut searches);
        let mut texts: Vec<DeferredText> = Vec::new();
        std::mem::swap(&mut self.deferred_text, &mut texts);
        assert(self@.web_searches =~= Seq::empty());
        assert(self@.deferred_text =~= Seq::empty());
        self.flush_searches(&searches, out);
        self.flush_texts(&texts, out);
    }

    fn note_terminated(&mut self, payload: &Json, complete: bool)
        ensures
            final(self)@ == (State {
                metadata: match old(self)@.metadata {
                    Some(metadata) if metadata.open_blocks == Set::<usize>::empty() => Some(
                        metadata.terminated(complete, nested_str(payload@, "response"@, "id"@)),
                    ),
                    _ => None,
                },
                ..old(self)@
            }),
    {
        let response_id = match find_nested_str(payload, "response", "id") {
            Some(id) => Some(id.to_string()),
            None => None,
        };
        match self.finish_metadata.take() {
            Some(metadata) => {
                let mut metadata = metadata;
                let closed = metadata.open_blocks.is_empty();
                assert(closed == (metadata@.open_blocks == Set::<usize>::empty())) by {
                    if closed {
                        assert(metadata@.open_blocks =~= Set::empty());
                    }
                }
                if closed {
                    metadata.note_terminated(complete, response_id);
                    self.finish_metadata = Some(metadata);
                }
            },
            None => {},
        }
    }

    fn finish(&mut self, payload: &Json, verdict: &EventVerdict, out: &mut Vec<Downstream>)
        ensures
            final(self).at(final(out)@) == old(self).at(old(out)@).finish(payload@, verdict@),
    {
        let limited = self.incomplete_response_policy
            == IncompleteResponsePolicy::AllowMaxOutputTokens && verdict.max_output_tokens;
        let stop_reason = if limited {
            StopReason::MaxTokens
        } else if self.saw_tool_use {
            StopReason::ToolUse
        } else {
            StopReason::EndTurn
        };
        let usage = match payload.get("response") {
            Some(response) => Some(parse_codex_usage(response)),
            None => None,
        };
        self.note_terminated(payload, verdict.complete);
        self.close_thinking(out);
        self.close_open_blocks(out);
        self.emit_web_searches(out);
        self.ensure_message_start(out);
        self.emit_finish(stop_reason, usage, out);
    }

    fn dispatch(
        &mut self,
        payload: &Json,
        verdict: &EventVerdict,
        out: &mut Vec<Downstream>,
    ) -> (result: Result<(), String>)
        requires
            old(self)@.has_room(),
        ensures
            ({
                let outcome = old(self).at(old(out)@).dispatch(payload@, verdict@);
                &&& final(self).at(final(out)@) == outcome.step
                &&& error_view(result) == outcome.error
            }),
    {
        let kind = payload.text_at("type");
        if same_text(kind, "response.function_call_arguments.delta") {
            return self.tool_delta(payload, out);
        }
        if same_text(kind, "codex.rate_limits") || same_text(kind, "keepalive") || same_text(
            kind,
            "response.created",
        ) || same_text(kind, "response.in_progress") {
            self.emit_ping(out);
        } else if same_text(kind, "response.output_item.added") {
            self.output_item_added(payload, out);
        } else if same_text(kind, "response.reasoning_summary_part.added") {
            self.summary_part(payload, out);
        } else if same_text(kind, "response.reasoning_summary_text.delta") {
            self.reasoning_delta(payload, out);
        } else if same_text(kind, "response.output_text.delta") {
            self.text_delta(payload, out);
        } else if same_text(kind, "response.output_text.annotation.added") {
            self.web_search_annotation(payload);
        } else if same_text(kind, "response.function_call_arguments.done") {
            self.tool_arguments_done(payload);
        } else if same_text(kind, "response.output_item.done") {
            self.output_item_done(payload, out);
        } else if same_text(kind, "response.completed") || same_text(kind, "response.incomplete")
            || same_text(kind, "response.done") {
            self.finish(payload, verdict, out);
        }
        Ok(())
    }

    /// Takes one upstream event and how it is judged as a whole, and answers
    /// with the bytes for the client, or with the reason why the stream fails.
    pub fn accept_judged(
        &mut self,
        payload: &Json,
        verdict: &EventVerdict,
        traffic: Option<&mut TrafficCapture>,
    ) -> (result: Result<Vec<u8>, String>)
        requires
            old(self)@.has_room(),
        ensures
            final(self)@ == old(self)@.accepted(payload@, verdict@).step.state,
            match result {
                Ok(bytes) => {
                    &&& old(self)@.accepted(payload@, verdict@).error is None
                    &&& bytes@ == wire(old(self)@.accepted(payload@, verdict@).step.events)
                },
                Err(error) => old(self)@.accepted(payload@, verdict@).error == Some(error@),
            },
            traffic matches Some(capture) ==> final(capture)@ == capture@ + match result {
                Ok(_) => downstream_records(
                    old(self)@.accepted(payload@, verdict@).step.events,
                ),
                Err(_) => Seq::empty(),
            },
    {
        let mut out: Vec<Downstream> = Vec::new();
        assert(events_view(out@) =~= Seq::empty());
        if self.finished {
            return Ok(deliver(&out, traffic));
        }
        let tolerated = self.incomplete_response_policy
            == IncompleteResponsePolicy::AllowMaxOutputTokens && verdict.max_output_tokens;
        if !tolerated {
            match &verdict.failure {
                Some(message) => {
                    self.finish_metadata = None;
                    return Err(message.clone());
                },
                None => {},
            }
        }
        match self.dispatch(payload, verdict, &mut out) {
            Ok(()) => Ok(deliver(&out, traffic)),
            Err(error) => Err(error),
        }
    }

    /// Takes one upstream event, and answers with the bytes for the client, or
    /// with the reason why the stream fails.
    pub fn accept(
        &mut self,
        payload: &Json,
        traffic: Option<&mut TrafficCapture>,
    ) -> (result: Result<Vec<u8>, String>)
        requires
            old(self)@.has_room(),
        ensures
            final(self)@ == old(self)@.accepted(payload@, event_verdict(payload@)).step.state,
            match result {
                Ok(bytes) => {
                    &&& old(self)@.accepted(payload@, event_verdict(payload@)).error is None
                    &&& bytes@ == wire(
                        old(self)@.accepted(payload@, event_verdict(payload@)).step.events,
                    )
                },
                Err(error) => old(self)@.accepted(payload@, event_verdict(payload@)).error == Some(
                    error@,
                ),
            },
            traffic matches Some(capture) ==> final(capture)@ == capture@ + match result {
                Ok(_) => downstream_records(
                    old(self)@.accepted(payload@, event_verdict(payload@)).step.events,
                ),
                Err(_) => Seq::empty(),
            },
    {
        let verdict = judge_event(payload);
        self.accept_judged(payload, &verdict, traffic)
    }

    /// The bytes that keep the connection alive.
    pub fn ping_chunk(&mut self, traffic: Option<&mut TrafficCapture>) -> (bytes: Vec<u8>)
        ensures
            final(self)@ == old(self)@.pinged().state,
            bytes@ == wire(old(self)@.pinged().events),
            traffic matches Some(capture) ==> final(capture)@ == capture@ + downstream_records(
                old(self)@.pinged().events,
            ),
    {
        let mut out: Vec<Downstream> = Vec::new();
        assert(events_view(out@) =~= Seq::empty());
        if !self.finished {
            self.emit_ping(&mut out);
        }
        deliver(&out, traffic)
    }

    /// Ends the message after the connection was closed behind a tool call that
    /// is complete. Without such a call, or with an output still open, nothing
    /// happens.
    pub fn finish_after_closed_completed_tool_call(
        &mut self,
        traffic: Option<&mut TrafficCapture>,
    ) -> (bytes: Vec<u8>)
        ensures
            final(self)@ == old(self)@.ended_after_tool_call().state,
            bytes@ == wire(old(self)@.ended_after_tool_call().events),
            traffic matches Some(capture) ==> final(capture)@ == capture@ + downstream_records(
                old(self)@.ended_after_tool_call().events,
            ),
    {
        let mut out: Vec<Downstream> = Vec::new();
        assert(events_view(out@) =~= Seq::empty());
        if !self.finished && self.saw_tool_use && self.blocks_by_output_index.is_empty() {
            self.finish_metadata = None;
            self.close_thinking(&mut out);
            self.ensure_message_start(&mut out);
            self.emit_finish(StopReason::ToolUse, None, &mut out);
        }
        deliver(&out, traffic)
    }

    /// Ends the message with an error.
    pub fn error_chunk(
        &mut self,
        message: &str,
        error_type: &str,
        traffic: Option<&mut TrafficCapture>,
    ) -> (bytes: Vec<u8>)
        ensures
            final(self)@ == old(self)@.failed(message@, error_type@).state,
            bytes@ == wire(old(self)@.failed(message@, error_type@).events),
            traffic matches Some(capture) ==> final(capture)@ == capture@ + downstream_records(
                old(self)@.failed(message@, error_type@).events,
            ),
    {
        let mut out: Vec<Downstream> = Vec::new();
        assert(events_view(out@) =~= Seq::empty());
        if !self.finished {
            self.finish_metadata = None;
            self.close_open_blocks(&mut out);
            self.ensure_message_start(&mut out);
            self.emit(
                &mut out,
                Downstream::Error {
                    error_type: error_type.to_string(),
                    message: message.to_string(),
                },
            );
            self.finished = true;
        }
        deliver(&out, traffic)
    }
}

} // verus!

//! The output of a finished response, as the next request hands it back.

use crate::reasoning::{ReasoningReplay, ReplayModel};
use crate::text::text_view;
use vstd::prelude::*;

verus! {

/// A part of a message.
#[derive(Debug, PartialEq, Eq)]
pub enum ResponsesContentPart {
    OutputText { text: String },
}

/// One output of a response.
#[derive(Debug, PartialEq, Eq)]
pub enum ResponsesInputItem {
    Message { role: String, content: Vec<ResponsesContentPart> },
    FunctionCall { call_id: String, name: String, arguments: String },
    Reasoning { id: String, encrypted_content: String },
}

/// What is known of a response once it has finished.
#[derive(Debug, PartialEq, Eq)]
pub struct FinishMetadata {
    /// Whether a later request may continue from this response.
    pub continuation_eligible: bool,
    pub response_id: Option<String>,
    /// The outputs, in the order of their upstream indices.
    pub output_items: Vec<ResponsesInputItem>,
}

/// What a [`ResponsesContentPart`] stands for.
pub enum PartModel {
    OutputText { text: Seq<char> },
}

/// What a [`ResponsesInputItem`] stands for.
pub enum ItemModel {
    Message { role: Seq<char>, content: Seq<PartModel> },
    FunctionCall { call_id: Seq<char>, name: Seq<char>, arguments: Seq<char> },
    Reasoning { id: Seq<char>, encrypted_content: Seq<char> },
}

/// What a [`FinishMetadata`] stands for.
pub struct FinishModel {
    pub continuation_eligible: bool,
    pub response_id: Option<Seq<char>>,
    pub output_items: Seq<ItemModel>,
}

impl View for ResponsesContentPart {
    type V = PartModel;

    open spec fn view(&self) -> PartModel {
        match *self {
            ResponsesContentPart::OutputText { text } => PartModel::OutputText { text: text@ },
        }
    }
}

impl View for ResponsesInputItem {
    type V = ItemModel;

    open spec fn view(&self) -> ItemModel {
        match *self {
            ResponsesInputItem::Message { role, content } => ItemModel::Message {
                role: role@,
                content: content@.map_values(|part: ResponsesContentPart| part@),
            },
            ResponsesInputItem::FunctionCall {
                call_id,
                name,
                arguments,
            } => ItemModel::FunctionCall {
                call_id: call_id@,
                name: name@,
                arguments: arguments@,
            },
            ResponsesInputItem::Reasoning { id, encrypted_content } => ItemModel::Reasoning {
                id: id@,
                encrypted_content: encrypted_content@,
            },
        }
    }
}

impl View for FinishMetadata {
    type V = FinishModel;

    open spec fn view(&self) -> FinishModel {
        FinishModel {
            continuation_eligible: self.continuation_eligible,
            response_id: text_view(self.response_id),
            output_items: self.output_items@.map_values(|item: ResponsesInputItem| item@),
        }
    }
}

/// The item of a text that the model wrote.
pub open spec fn assistant_text(text: Seq<char>) -> ItemModel {
    ItemModel::Message { role: "assistant"@, content: seq![PartModel::OutputText { text }] }
}

/// The item of a reasoning replay.
pub open spec fn replay_item(replay: ReplayModel) -> ItemModel {
    ItemModel::Reasoning { id: replay.id, encrypted_content: replay.encrypted_content }
}

/// Builds [`assistant_text`].
pub fn assistant_text_item(text: String) -> (item: ResponsesInputItem)
    ensures
        item@ == assistant_text(text@),
{
    let mut content: Vec<ResponsesContentPart> = Vec::new();
    content.push(ResponsesContentPart::OutputText { text });
    let item = ResponsesInputItem::Message { role: "assistant".to_string(), content };
    assert(item@->content =~= seq![PartModel::OutputText { text: text@ }]);
    item
}

/// Builds [`replay_item`].
pub fn reasoning_input_item(replay: ReasoningReplay) -> (item: ResponsesInputItem)
    ensures
        item@ == replay_item(replay@),
{
    ResponsesInputItem::Reasoning { id: replay.id, encrypted_content: replay.encrypted_content }
}

} // verus!

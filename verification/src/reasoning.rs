//! Reasoning items: what is kept of them so that they can be replayed, and the
//! signature that carries them through the downstream client.

use crate::json::{Json, JsonModel};
use crate::json_text::{json_written, write_json};
use crate::text::join;
use vstd::prelude::*;

verus! {

/// What is known so far of a reasoning item.
#[derive(Debug)]
pub struct PendingReasoning {
    id: Option<String>,
    encrypted_content: Option<String>,
}

/// A reasoning item that is known well enough to be replayed.
#[derive(Debug)]
pub struct ReasoningReplay {
    pub id: String,
    pub encrypted_content: String,
}

/// What a [`PendingReasoning`] stands for.
pub struct PendingModel {
    pub id: Option<Seq<char>>,
    pub encrypted_content: Option<Seq<char>>,
}

/// What a [`ReasoningReplay`] stands for.
pub struct ReplayModel {
    pub id: Seq<char>,
    pub encrypted_content: Seq<char>,
}

impl View for PendingReasoning {
    type V = PendingModel;

    closed spec fn view(&self) -> PendingModel {
        PendingModel {
            id: match self.id {
                Some(id) => Some(id@),
                None => None,
            },
            encrypted_content: match self.encrypted_content {
                Some(content) => Some(content@),
                None => None,
            },
        }
    }
}

impl View for ReasoningReplay {
    type V = ReplayModel;

    open spec fn view(&self) -> ReplayModel {
        ReplayModel { id: self.id@, encrypted_content: self.encrypted_content@ }
    }
}

impl PendingModel {
    /// Nothing known yet.
    pub open spec fn unknown() -> PendingModel {
        PendingModel { id: None, encrypted_content: None }
    }

    /// What is known once an item was seen: what the item says, and else what
    /// was known before.
    pub open spec fn captured(self, item: JsonModel) -> PendingModel {
        PendingModel {
            id: match item.str_at("id"@) {
                Some(id) => Some(id),
                None => self.id,
            },
            encrypted_content: match item.str_at("encrypted_content"@) {
                Some(content) => Some(content),
                None => self.encrypted_content,
            },
        }
    }

    /// The replay, once both parts are known.
    pub open spec fn replay(self) -> Option<ReplayModel> {
        match (self.id, self.encrypted_content) {
            (Some(id), Some(encrypted_content)) => Some(ReplayModel { id, encrypted_content }),
            _ => None,
        }
    }
}

impl ReplayModel {
    /// The signature that carries the replay.
    pub open spec fn signature(self) -> Seq<char> {
        "ccp:codex:v1:"@ + json_written(
            JsonModel::object().with("id"@, JsonModel::Str(self.id)).with(
                "encrypted_content"@,
                JsonModel::Str(self.encrypted_content),
            ),
        )
    }
}

impl PendingReasoning {
    /// Nothing known yet.
    pub fn new() -> (pending: PendingReasoning)
        ensures
            pending@ == PendingModel::unknown(),
    {
        PendingReasoning { id: None, encrypted_content: None }
    }

    /// Takes in what an item says.
    pub fn capture(&mut self, item: &Json)
        ensures
            final(self)@ == old(self)@.captured(item@),
    {
        match item.str_at("id") {
            Some(id) => {
                self.id = Some(id.to_string());
            },
            None => {},
        }
        match item.str_at("encrypted_content") {
            Some(content) => {
                self.encrypted_content = Some(content.to_string());
            },
            None => {},
        }
    }

    /// The replay, once both parts are known.
    pub fn replay(self) -> (replay: Option<ReasoningReplay>)
        ensures
            match replay {
                Some(replay) => self@.replay() == Some(replay@),
                None => self@.replay() is None,
            },
    {
        match (self.id, self.encrypted_content) {
            (Some(id), Some(encrypted_content)) => Some(
                ReasoningReplay { id, encrypted_content },
            ),
            _ => None,
        }
    }
}

/// The signature that carries a replay.
pub fn encode_reasoning_signature(replay: &ReasoningReplay) -> (signature: String)
    ensures
        signature@ == replay@.signature(),
{
    let value = Json::object().with("id", Json::text(replay.id.as_str())).with(
        "encrypted_content",
        Json::text(replay.encrypted_content.as_str()),
    );
    join("ccp:codex:v1:", write_json(&value).as_str())
}

} // verus!

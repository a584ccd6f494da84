//! Live translation of an upstream response stream into downstream message
//! events.
//!
//! A [`translator::LiveStreamTranslator`] takes the JSON events of one upstream
//! response, one at a time, and answers each with the bytes that go to the
//! downstream client: server-sent events that open, fill and close content
//! blocks, and that start and stop the message around them.

pub mod accounting;
pub mod answers;
pub mod collected;
pub mod completion;
pub mod consistency;
pub mod content;
pub mod downstream;
pub mod heading;
pub mod index_map;
pub mod items;
pub mod json;
pub mod json_text;
pub mod kinds;
pub mod laws;
pub mod model;
pub mod progress;
pub mod protocol;
pub mod read_args;
pub mod reading;
pub mod reasoning;
pub mod received;
pub mod sse;
pub mod text;
pub mod texts;
pub mod traffic;
pub mod translator;
pub mod turns;
pub mod upstream;
pub mod wording;

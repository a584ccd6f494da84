//! Server-sent event framing.

use crate::downstream::{Downstream, Event};
use crate::json_text::{json_written, write_json};
use vstd::prelude::*;
use vstd::string::StringExecFns;
use vstd::utf8::encode_utf8;

verus! {

/// The text of one server-sent event.
pub open spec fn frame_text(event: Seq<char>, data: Seq<char>) -> Seq<char> {
    "event: "@ + event + "\ndata: "@ + data + "\n\n"@
}

/// The bytes of one downstream event: its name, and its JSON in compact text.
pub open spec fn frame(event: Event) -> Seq<u8> {
    encode_utf8(frame_text(event.name(), json_written(event.json())))
}

/// The bytes of a run of downstream events, one after the other.
pub open spec fn wire(events: Seq<Event>) -> Seq<u8>
    decreases events.len(),
{
    if events.len() == 0 {
        Seq::empty()
    } else {
        wire(events.drop_last()) + frame(events.last())
    }
}

/// Encodes one server-sent event. The data is one line.
pub fn encode_sse_event(event: &str, data: &str) -> (bytes: Vec<u8>)
    ensures
        bytes@ == encode_utf8(frame_text(event@, data@)),
{
    let mut text = "event: ".to_string();
    text.append(event);
    text.append("\ndata: ");
    text.append(data);
    text.append("\n\n");
    let mut bytes: Vec<u8> = Vec::new();
    bytes.extend_from_slice(text.as_str().as_bytes());
    assert(bytes@ =~= encode_utf8(frame_text(event@, data@)));
    bytes
}

/// Encodes one downstream event.
pub fn encode_event(event: &Downstream) -> (bytes: Vec<u8>)
    ensures
        bytes@ == frame(event@),
{
    encode_sse_event(event.name(), write_json(&event.json()).as_str())
}

/// Two runs of events are sent one after the other.
pub proof fn lemma_wire_concat(first: Seq<Event>, second: Seq<Event>)
    ensures
        wire(first + second) == wire(first) + wire(second),
    decreases second.len(),
{
    if second.len() == 0 {
        assert(first + second =~= first);
        assert(wire(first) + wire(second) =~= wire(first));
    } else {
        lemma_wire_concat(first, second.drop_last());
        assert((first + second).drop_last() =~= first + second.drop_last());
        assert((first + second).last() == second.last());
        assert(wire(first + second) =~= wire(first) + wire(second));
    }
}

} // verus!

//! A record of what was sent downstream.

use crate::downstream::{events_view, Downstream, Event};
use crate::json::{Json, JsonModel};
use crate::sse::{encode_event, wire};
use vstd::prelude::*;

verus! {

/// One captured JSON event and the label of the stage that captured it.
#[derive(Debug)]
pub struct TrafficRecord {
    pub label: String,
    pub data: Json,
}

/// What a [`TrafficRecord`] stands for.
pub struct RecordModel {
    pub label: Seq<char>,
    pub data: JsonModel,
}

impl View for TrafficRecord {
    type V = RecordModel;

    open spec fn view(&self) -> RecordModel {
        RecordModel { label: self.label@, data: self.data@ }
    }
}

/// Collects the events that were sent, in order. Its owner stores them.
#[derive(Debug)]
pub struct TrafficCapture {
    records: Vec<TrafficRecord>,
}

impl View for TrafficCapture {
    type V = Seq<RecordModel>;

    closed spec fn view(&self) -> Seq<RecordModel> {
        self.records@.map_values(|record: TrafficRecord| record@)
    }
}

/// The record of one downstream event.
pub open spec fn downstream_record(event: Event) -> RecordModel {
    RecordModel {
        label: "050-downstream-event"@,
        data: JsonModel::object().with("event"@, JsonModel::Str(event.name())).with(
            "data"@,
            event.json(),
        ),
    }
}

/// The records of a run of downstream events.
pub open spec fn downstream_records(events: Seq<Event>) -> Seq<RecordModel> {
    events.map_values(|event: Event| downstream_record(event))
}

impl TrafficCapture {
    /// A capture without records.
    pub fn new() -> (capture: TrafficCapture)
        ensures
            capture@ == Seq::<RecordModel>::empty(),
    {
        let capture = TrafficCapture { records: Vec::new() };
        assert(capture@ =~= Seq::empty());
        capture
    }

    /// Adds a record at the end.
    pub fn write_json_event(&mut self, label: &str, data: Json)
        ensures
            final(self)@ == old(self)@.push(RecordModel { label: label@, data: data@ }),
    {
        let ghost before = self@;
        self.records.push(TrafficRecord { label: label.to_string(), data });
        assert(self@ =~= before.push(RecordModel { label: label@, data: data@ }));
    }

    /// Takes the records out, in the order in which they were added.
    pub fn drain(&mut self) -> (records: Vec<TrafficRecord>)
        ensures
            records@.map_values(|record: TrafficRecord| record@) == old(self)@,
            final(self)@ == Seq::<RecordModel>::empty(),
    {
        let mut records: Vec<TrafficRecord> = Vec::new();
        std::mem::swap(&mut self.records, &mut records);
        assert(self@ =~= Seq::empty());
        records
    }
}

/// Encodes a run of events for the client, and captures them where a capture
/// is given.
pub fn deliver(events: &Vec<Downstream>, traffic: Option<&mut TrafficCapture>) -> (bytes: Vec<u8>)
    ensures
        bytes@ == wire(events_view(events@)),
        traffic matches Some(capture) ==> final(capture)@ == capture@ + downstream_records(
            events_view(events@),
        ),
{
    let bytes = encode_events(events);
    match traffic {
        Some(capture) => capture_events(events, capture),
        None => {},
    }
    bytes
}

fn encode_events(events: &Vec<Downstream>) -> (bytes: Vec<u8>)
    ensures
        bytes@ == wire(events_view(events@)),
{
    let ghost model = events_view(events@);
    let mut bytes: Vec<u8> = Vec::new();
    for event in iter: events
        invariant
            model == events_view(events@),
            bytes@ == wire(model.take(iter.index())),
    {
        let ghost sent = bytes@;
        let mut encoded = encode_event(event);
        bytes.append(&mut encoded);
        assert(model.take(iter.index() + 1).drop_last() =~= model.take(iter.index()));
        assert(model.take(iter.index() + 1).last() == event@);
    }
    assert(model.take(model.len() as int) =~= model);
    bytes
}

fn capture_events(events: &Vec<Downstream>, capture: &mut TrafficCapture)
    ensures
        final(capture)@ == old(capture)@ + downstream_records(events_view(events@)),
{
    let ghost before = capture@;
    let ghost records = downstream_records(events_view(events@));
    for event in iter: events
        invariant
            records == downstream_records(events_view(events@)),
            capture@ == before + records.take(iter.index()),
    {
        let data = Json::object().with("event", Json::text(event.name())).with(
            "data",
            event.json(),
        );
        capture.write_json_event("050-downstream-event", data);
        assert(records[iter.index()] == downstream_record(event@));
        assert(before + records.take(iter.index() + 1) =~= (before + records.take(
            iter.index(),
        )).push(records[iter.index()]));
    }
    assert(records.take(records.len() as int) =~= records);
}

} // verus!

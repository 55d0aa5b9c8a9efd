//! What is reported: a durable row first, then an event on the bus.
use super::observer::{self, Latency};
use crate::json::{self, Json, JsonText};
use crate::telemetry::TelemetryEvent;
use vstd::prelude::*;

verus! {

/// One report. The row is written first; the event may be lost.
#[derive(Debug)]
pub struct EmitArgs {
    /// The source of the row and of the event.
    pub source: String,
    /// The event of the row.
    pub event: String,
    /// The name of the event on the bus.
    pub bus_event: String,
    pub status: String,
    pub value: Latency,
    /// The detail of the row.
    pub detail: Json,
    /// The payload of the event.
    pub data: Json,
}

pub struct EmitText {
    pub source: Seq<char>,
    pub event: Seq<char>,
    pub bus_event: Seq<char>,
    pub status: Seq<char>,
    pub value: observer::LatencyText,
    pub detail: JsonText,
    pub data: JsonText,
}

impl View for EmitArgs {
    type V = EmitText;

    open spec fn view(&self) -> EmitText {
        EmitText {
            source: self.source@,
            event: self.event@,
            bus_event: self.bus_event@,
            status: self.status@,
            value: self.value@,
            detail: self.detail@,
            data: self.data@,
        }
    }
}

pub open spec fn emit_texts(v: Seq<EmitArgs>) -> Seq<EmitText> {
    v.map_values(|e: EmitArgs| e@)
}

/// The durable row of a report; `detail` is its detail as text.
pub fn durable_row(args: &EmitArgs, detail: String) -> (e: TelemetryEvent)
    ensures
        e.source@ == args.source@,
        e.event@ == args.event@,
        e.status@ == args.status@,
        e.duration_ms == Some(args.value.rounded),
        e.exit_code is None,
        e.detail == Some(detail),
{
    TelemetryEvent {
        source: args.source.as_str().to_owned(),
        event: args.event.as_str().to_owned(),
        status: args.status.as_str().to_owned(),
        duration_ms: Some(args.value.rounded),
        exit_code: None,
        detail: Some(detail),
    }
}

/// What is said of an event that was lost behind its row.
pub fn lost_event(error: &str) -> (r: String)
    ensures
        r@ == "hex log-tail: bus emit failed (durable row already written): "@ + error@,
{
    let mut r = "hex log-tail: bus emit failed (durable row already written): ".to_owned();
    r.append(error);
    r
}

} // verus!

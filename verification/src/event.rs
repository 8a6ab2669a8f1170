//! Structured events emitted into a subscription's sink.
//!
//! Every event of one exchange carries the same stream id; the id's `base`
//! names the subscription and `stream` numbers the admitted exchange within
//! it.  The consumer sees, per stream id, `RequestOpen`, then optionally
//! `ResponseOpen`, then at most one terminal `ResponseEnd`.

use vstd::prelude::*;

verus! {

/// Identifies one tapped exchange: `base` is the subscription's id,
/// `stream` the index of the exchange among that subscription's admissions.
#[derive(Clone, Copy, PartialEq, Eq, Structural, Debug)]
pub struct StreamId {
    pub base: u32,
    pub stream: u64,
}

/// How a tapped exchange ended.
#[derive(Clone, Copy, PartialEq, Eq, Structural, Debug)]
pub enum Eos {
    /// The stream reached a clean end (end-of-stream or trailers).
    CleanEnd,
    /// The stream failed with a protocol reset; carries the reason code.
    ProtocolError(u32),
    /// The exchange was abandoned before reaching a terminal state.
    Cancelled,
}

/// Endpoint labels attached to an event's metadata: key/value pairs.
#[derive(Clone, Debug)]
pub struct EndpointMeta {
    pub labels: Vec<(String, String)>,
}

/// Connection-level metadata shared by all events of one exchange.
#[derive(Clone, Debug)]
pub struct EventMeta {
    pub outbound: bool,
    pub source: Option<String>,
    pub source_meta: EndpointMeta,
    pub destination: Option<String>,
    pub destination_meta: Option<EndpointMeta>,
}

/// One structured tap event.
#[derive(Clone, Debug)]
pub enum TapEvent {
    RequestOpen {
        id: StreamId,
        meta: EventMeta,
        method: String,
        scheme: Option<String>,
        authority: String,
        path: String,
    },
    ResponseOpen {
        id: StreamId,
        meta: EventMeta,
        since_request_init: u64,
        http_status: u16,
    },
    ResponseEnd {
        id: StreamId,
        meta: EventMeta,
        since_request_init: u64,
        since_response_init: Option<u64>,
        response_bytes: u64,
        eos: Eos,
    },
}

impl TapEvent {
    /// The stream id the event belongs to.
    pub open spec fn spec_id(self) -> StreamId {
        match self {
            TapEvent::RequestOpen { id, .. } => id,
            TapEvent::ResponseOpen { id, .. } => id,
            TapEvent::ResponseEnd { id, .. } => id,
        }
    }

    pub open spec fn is_request_open(self) -> bool {
        self is RequestOpen
    }

    pub open spec fn is_response_open(self) -> bool {
        self is ResponseOpen
    }

    pub open spec fn is_response_end(self) -> bool {
        self is ResponseEnd
    }

    /// Executable view of the event's stream id.
    pub fn id(&self) -> (r: StreamId)
        ensures
            r == self.spec_id(),
    {
        match self {
            TapEvent::RequestOpen { id, .. } => *id,
            TapEvent::ResponseOpen { id, .. } => *id,
            TapEvent::ResponseEnd { id, .. } => *id,
        }
    }
}

/// The events of `s` that belong to stream `stream`, in emission order.
pub open spec fn events_for(s: Seq<TapEvent>, stream: u64) -> Seq<TapEvent> {
    s.filter(|e: TapEvent| e.spec_id().stream == stream)
}

/// Time elapsed from `start` to `now`, clamped at zero: durations reported
/// in events never underflow.
pub open spec fn spec_elapsed(now: u64, start: u64) -> u64 {
    if now >= start {
        (now - start) as u64
    } else {
        0
    }
}

/// Executable counterpart of [`spec_elapsed`].
pub fn elapsed(now: u64, start: u64) -> (r: u64)
    ensures
        r == spec_elapsed(now, start),
{
    if now >= start {
        now - start
    } else {
        0
    }
}

/// Appending one event touches only its own stream's event subsequence.
pub proof fn lemma_events_for_push(s: Seq<TapEvent>, e: TapEvent, st: u64)
    ensures
        events_for(s.push(e), st) == if e.spec_id().stream == st {
            events_for(s, st).push(e)
        } else {
            events_for(s, st)
        },
{
    reveal_with_fuel(Seq::filter, 2);
    assert(s.push(e).drop_last() =~= s);
    assert(s.push(e).last() == e);
    if e.spec_id().stream == st {
        assert(events_for(s.push(e), st) =~= events_for(s, st).push(e));
    } else {
        assert(events_for(s.push(e), st) =~= events_for(s, st));
    }
}

/// The per-stream ordering discipline: the events of one stream id form a
/// prefix-closed shape `RequestOpen`, optional `ResponseOpen`, at most one
/// terminal `ResponseEnd`, and nothing after the terminal.
pub open spec fn stream_shape_ok(evs: Seq<TapEvent>) -> bool {
    &&& evs.len() <= 3
    &&& evs.len() >= 1 ==> evs[0].is_request_open()
    &&& evs.len() == 2 ==> (evs[1].is_response_open() || evs[1].is_response_end())
    &&& evs.len() == 3 ==> evs[1].is_response_open() && evs[2].is_response_end()
}

} // verus!

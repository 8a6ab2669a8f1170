//! The subscription-accepting endpoint and the per-exchange emitters.
//!
//! [`Server::observe`] validates a subscribe request, creates the
//! subscription and its bounded sink, registers a [`Tap`] handle for the
//! middleware, and returns the consumer's [`ResponseStream`].
//!
//! A [`Tap`] engages a matching request by admitting it against the budget
//! and emitting `RequestOpen`; the engaged [`TapResponse`] emits
//! `ResponseOpen` or a failure terminal; the [`TapResponseBody`] accumulates
//! the response byte count and emits the exchange's single terminal event.

use vstd::prelude::*;

use crate::event::{
    elapsed, events_for, spec_elapsed, stream_shape_ok, EndpointMeta, Eos, EventMeta, StreamId,
    TapEvent,
};
use crate::matching::{Inspection, Match, MatchSpec, RequestMeta};
use crate::registry::Registry;
use crate::subs::{
    admitted_of, backlog_of, no_terminal_phase, req_open_phase, stream_evs, PollOutcome, SubTable,
    SubView,
};

verus! {

broadcast use vstd::string::to_string_from_display_ensures_for_str;

/// Each sink buffers about ten exchanges' worth of events.
pub const EVENT_BUFFER_CAPACITY: usize = 40;

/// Two metadata records agree on everything an observer can see.
pub open spec fn meta_eq(a: EventMeta, b: EventMeta) -> bool {
    &&& a.outbound == b.outbound
    &&& a.source == b.source
    &&& a.source_meta.labels@ == b.source_meta.labels@
    &&& a.destination == b.destination
    &&& match (a.destination_meta, b.destination_meta) {
        (Some(am), Some(bm)) => am.labels@ == bm.labels@,
        (None, None) => true,
        _ => false,
    }
}

/// The metadata record derived from one request's inspection: addresses
/// pass through, each endpoint's labels carry its transport-security state
/// under the key `tls`, and destination labels are kept when present.
pub open spec fn meta_matches(m: EventMeta, i: Inspection) -> bool {
    &&& m.outbound == i.outbound
    &&& m.source == i.source
    &&& m.source_meta.labels@.len() == 1
    &&& m.source_meta.labels@[0].0@ == "tls"@
    &&& m.source_meta.labels@[0].1 == i.source_tls
    &&& m.destination == i.destination
    &&& match (i.destination_labels, m.destination_meta) {
        (Some(ls), Some(dm)) => {
            &&& dm.labels@.len() == ls@.len() + 1
            &&& dm.labels@.take(ls@.len() as int) == ls@
            &&& dm.labels@.last().0@ == "tls"@
            &&& dm.labels@.last().1 == i.destination_tls
        },
        (None, None) => true,
        _ => false,
    }
}

/// A `RequestOpen` event reporting this request under this stream id.
pub open spec fn req_open_fields(
    e: TapEvent,
    id: StreamId,
    req: RequestMeta,
    inspect: Inspection,
) -> bool {
    match e {
        TapEvent::RequestOpen { id: eid, meta, method, scheme, authority, path } => {
            &&& eid == id
            &&& meta_matches(meta, inspect)
            &&& method == req.method
            &&& scheme == req.scheme
            &&& authority == req.authority
            &&& path == req.path
        },
        _ => false,
    }
}

/// A `ResponseOpen` event with exactly these observations.
pub open spec fn rsp_open_fields(
    e: TapEvent,
    id: StreamId,
    m: EventMeta,
    since_request_init: u64,
    http_status: u16,
) -> bool {
    match e {
        TapEvent::ResponseOpen { id: eid, meta, since_request_init: s, http_status: st } => {
            &&& eid == id
            &&& meta_eq(meta, m)
            &&& s == since_request_init
            &&& st == http_status
        },
        _ => false,
    }
}

/// A terminal `ResponseEnd` event with exactly these observations.
pub open spec fn rsp_end_fields(
    e: TapEvent,
    id: StreamId,
    m: EventMeta,
    since_request_init: u64,
    since_response_init: Option<u64>,
    response_bytes: u64,
    eos: Eos,
) -> bool {
    match e {
        TapEvent::ResponseEnd {
            id: eid,
            meta,
            since_request_init: s,
            since_response_init: sr,
            response_bytes: b,
            eos: end,
        } => {
            &&& eid == id
            &&& meta_eq(meta, m)
            &&& s == since_request_init
            &&& sr == since_response_init
            &&& b == response_bytes
            &&& end == eos
        },
        _ => false,
    }
}

/// Copies a label list; label lists carry plain strings, so the copy is
/// equal element for element.
fn dup_labels(v: &Vec<(String, String)>) -> (r: Vec<(String, String)>)
    ensures
        r@ == v@,
{
    let mut r: Vec<(String, String)> = Vec::new();
    let mut i: usize = 0;
    while i < v.len()
        invariant
            0 <= i <= v@.len(),
            r@ =~= v@.take(i as int),
        decreases v@.len() - i,
    {
        let k = v[i].0.clone();
        let val = v[i].1.clone();
        r.push((k, val));
        proof {
            assert(r@ =~= v@.take(i + 1 as int));
        }
        i = i + 1;
    }
    proof {
        assert(r@ =~= v@);
    }
    r
}

/// Copies an event's metadata so that every event of an exchange can carry
/// it; the copy is observably equal to its source.
fn dup_meta(m: &EventMeta) -> (r: EventMeta)
    ensures
        meta_eq(r, *m),
{
    let source = match &m.source {
        Some(s) => Some(s.clone()),
        None => None,
    };
    let destination = match &m.destination {
        Some(s) => Some(s.clone()),
        None => None,
    };
    let destination_meta = match &m.destination_meta {
        Some(dm) => Some(EndpointMeta { labels: dup_labels(&dm.labels) }),
        None => None,
    };
    EventMeta {
        outbound: m.outbound,
        source,
        source_meta: EndpointMeta { labels: dup_labels(&m.source_meta.labels) },
        destination,
        destination_meta,
    }
}

/// The metadata every event of one request's exchanges carries, derived
/// from the connection inspection.
fn base_event(inspect: &Inspection) -> (m: EventMeta)
    ensures
        meta_matches(m, *inspect),
{
    let source = match &inspect.source {
        Some(s) => Some(s.clone()),
        None => None,
    };
    let destination = match &inspect.destination {
        Some(s) => Some(s.clone()),
        None => None,
    };
    let mut src_labels: Vec<(String, String)> = Vec::new();
    src_labels.push(("tls".to_string(), inspect.source_tls.clone()));
    let destination_meta = match &inspect.destination_labels {
        Some(ls) => {
            let mut d = dup_labels(ls);
            d.push(("tls".to_string(), inspect.destination_tls.clone()));
            proof {
                assert(d@.take(ls@.len() as int) =~= ls@);
            }
            Some(EndpointMeta { labels: d })
        },
        None => None,
    };
    EventMeta {
        outbound: inspect.outbound,
        source,
        source_meta: EndpointMeta { labels: src_labels },
        destination,
        destination_meta,
    }
}

/// The handle the middleware holds for one subscription: enough to match,
/// admit, and emit, while the subscription itself stays in the table.
#[derive(Clone, Copy)]
pub struct Tap {
    sub: usize,
}

impl View for Tap {
    type V = int;

    closed spec fn view(&self) -> int {
        self.sub as int
    }
}

impl Tap {
    /// Wraps a subscription index as the middleware's handle.
    pub(crate) fn new(sub: usize) -> (t: Tap)
        ensures
            t@ == sub as int,
    {
        Tap { sub }
    }

    /// The handle's subscription index in the table.
    pub fn index(&self) -> (i: usize)
        ensures
            i as int == self@,
    {
        self.sub
    }

    /// Whether this subscription can still tap a request: its consumer is
    /// present and budget remains.
    pub fn can_tap_more(&self, table: &SubTable) -> (r: bool)
        requires
            0 <= self@ < table@.len(),
        ensures
            r == (table@[self@].live && table@[self@].remaining > 0),
    {
        table.can_tap_more(self.sub)
    }

    /// Tries to engage this subscription for one request: evaluates the
    /// filter first (cheap, contention-free), then attempts admission
    /// against the budget, then emits `RequestOpen`.  The engagement stands
    /// only if all three succeed; an admission whose `RequestOpen` the full
    /// or abandoned sink dropped is forfeited, never re-credited.
    pub fn tap(&self, table: &mut SubTable, req: &RequestMeta, inspect: &Inspection, now: u64)
        -> (r: Option<(TapRequestBody, TapResponse)>)
        requires
            old(table).wf(),
            0 <= self@ < old(table)@.len(),
        ensures
            final(table).wf(),
            final(table)@.len() == old(table)@.len(),
            forall|j: int| 0 <= j < final(table)@.len() && j != self@ ==> final(table)@[j] == old(
                table,
            )@[j],
            forall|st2: u64| st2 != admitted_of(old(table)@[self@]) as u64 ==> events_for(
                final(table)@[self@].emitted,
                st2,
            ) == events_for(old(table)@[self@].emitted, st2),
            ({
                let v0 = old(table)@[self@];
                let v1 = final(table)@[self@];
                let st = admitted_of(v0) as u64;
                let id = StreamId { base: v0.base_id, stream: st };
                if !v0.match_.spec_matches(*req, *inspect) || v0.remaining == 0 {
                    &&& r is None
                    &&& v1 == v0
                } else if v0.live && backlog_of(v0) < v0.capacity {
                    &&& v1.remaining == v0.remaining - 1
                    &&& v1.producers == v0.producers + 1
                    &&& v1.emitted == v0.emitted.push(v1.emitted.last())
                    &&& req_open_fields(v1.emitted.last(), id, *req, *inspect)
                    &&& req_open_phase(final(table)@, self@, st)
                    &&& v1.base_id == v0.base_id && v1.limit == v0.limit && v1.live == v0.live
                    &&& v1.capacity == v0.capacity && v1.taken == v0.taken && v1.match_
                        == v0.match_
                    &&& match r {
                        Some((rb, rsp)) => {
                            &&& rb.sub_of() == self@
                            &&& rb.id_of() == id
                            &&& rsp.sub_of() == self@
                            &&& rsp.id_of() == id
                            &&& rsp.request_init_of() == now
                            &&& meta_matches(rsp.meta_of(), *inspect)
                            &&& rsp.valid(final(table)@)
                        },
                        None => false,
                    }
                } else {
                    &&& r is None
                    &&& v1 =~= (SubView { remaining: (v0.remaining - 1) as u32, ..v0 })
                }
            }),
    {
        let sub = self.sub;
        if !table.matches(sub, req, inspect) {
            return None;
        }
        let admitted = table.try_admit(sub);
        match admitted {
            None => None,
            Some(st) => {
                let ghost t_admit = table@;
                let base = table.base_id_of(sub);
                let meta = base_event(inspect);
                let id = StreamId { base, stream: st };
                let scheme = match &req.scheme {
                    Some(s) => Some(s.clone()),
                    None => None,
                };
                let ev = TapEvent::RequestOpen {
                    id,
                    meta: dup_meta(&meta),
                    method: req.method.clone(),
                    scheme,
                    authority: req.authority.clone(),
                    path: req.path.clone(),
                };
                proof {
                    assert(events_for(table@[sub as int].emitted, st) == events_for(
                        old(table)@[sub as int].emitted,
                        st,
                    ));
                    assert(events_for(old(table)@[sub as int].emitted, st).len() == 0);
                    assert(events_for(table@[sub as int].emitted, st).push(ev) =~= seq![ev]);
                }
                if table.enqueue(sub, ev) {
                    proof {
                        crate::event::lemma_events_for_push(t_admit[sub as int].emitted, ev, st);
                    }
                    table.add_producer(sub);
                    let rb = TapRequestBody { sub, id };
                    let rsp = TapResponse { sub, id, meta, request_init_at: now };
                    Some((rb, rsp))
                } else {
                    None
                }
            },
        }
    }
}

/// What the no-events side of an engaged exchange carries: the stream's
/// identity.  Request bodies are observed only to keep the exchange's
/// lifecycle; they report no events of their own.
pub struct TapRequestBody {
    sub: usize,
    id: StreamId,
}

/// An engaged exchange waiting for its response: emits `ResponseOpen` on
/// success or a failure terminal, exactly one of the two, exactly once.
pub struct TapResponse {
    sub: usize,
    id: StreamId,
    meta: EventMeta,
    request_init_at: u64,
}

/// The observed response body of an engaged exchange: accumulates the byte
/// count and emits the exchange's single terminal event.
pub struct TapResponseBody {
    sub: usize,
    id: StreamId,
    meta: EventMeta,
    request_init_at: u64,
    response_init_at: u64,
    response_bytes: u64,
}

impl TapRequestBody {
    pub closed spec fn sub_of(self) -> int {
        self.sub as int
    }

    pub closed spec fn id_of(self) -> StreamId {
        self.id
    }

    /// Request-side frames are not reported; only their passing is observed.
    pub fn data(&mut self, frame_len: usize)
    {
        let _ = frame_len;
    }

    /// A request body's clean end emits nothing.
    pub fn eos(self)
    {
    }

    /// A request body's failure emits nothing; the response side reports
    /// the exchange's terminal event.
    pub fn fail(self, reason: u32)
    {
        let _ = reason;
    }
}

impl TapResponse {
    pub closed spec fn sub_of(self) -> int {
        self.sub as int
    }

    pub closed spec fn id_of(self) -> StreamId {
        self.id
    }

    pub closed spec fn meta_of(self) -> EventMeta {
        self.meta
    }

    pub closed spec fn request_init_of(self) -> u64 {
        self.request_init_at
    }

    /// The engaged exchange refers to a real subscription and its stream
    /// holds exactly the `RequestOpen` event.
    pub open spec fn valid(self, t: Seq<SubView>) -> bool {
        &&& 0 <= self.sub_of() < t.len()
        &&& self.id_of().base == t[self.sub_of()].base_id
        &&& self.id_of().stream < admitted_of(t[self.sub_of()])
        &&& req_open_phase(t, self.sub_of(), self.id_of().stream)
    }

    /// The response arrived: emits `ResponseOpen` (best effort) and hands
    /// the exchange over to its observed response body.
    pub fn tap(self, table: &mut SubTable, http_status: u16, now: u64) -> (b: TapResponseBody)
        requires
            old(table).wf(),
            self.valid(old(table)@),
        ensures
            final(table).wf(),
            final(table)@.len() == old(table)@.len(),
            forall|j: int| 0 <= j < final(table)@.len() && j != self.sub_of() ==> final(table)@[j]
                == old(table)@[j],
            forall|st2: u64| st2 != self.id_of().stream ==> events_for(
                final(table)@[self.sub_of()].emitted,
                st2,
            ) == events_for(old(table)@[self.sub_of()].emitted, st2),
            b.sub_of() == self.sub_of(),
            b.id_of() == self.id_of(),
            b.meta_of() == self.meta_of(),
            b.request_init_of() == self.request_init_of(),
            b.response_init_of() == now,
            b.bytes_of() == 0,
            b.valid(final(table)@),
            ({
                let v0 = old(table)@[self.sub_of()];
                let v1 = final(table)@[self.sub_of()];
                if v0.live && backlog_of(v0) < v0.capacity {
                    &&& v1.emitted == v0.emitted.push(v1.emitted.last())
                    &&& rsp_open_fields(
                        v1.emitted.last(),
                        self.id_of(),
                        self.meta_of(),
                        spec_elapsed(now, self.request_init_of()),
                        http_status,
                    )
                    &&& v1 =~= (SubView { emitted: v1.emitted, ..v0 })
                } else {
                    v1 == v0
                }
            }),
    {
        let ghost t0 = table@;
        let msg = TapEvent::ResponseOpen {
            id: self.id,
            meta: dup_meta(&self.meta),
            since_request_init: elapsed(now, self.request_init_at),
            http_status,
        };
        let _ = table.enqueue(self.sub, msg);
        proof {
            crate::event::lemma_events_for_push(
                t0[self.sub as int].emitted,
                msg,
                self.id.stream,
            );
        }
        TapResponseBody {
            sub: self.sub,
            id: self.id,
            meta: self.meta,
            request_init_at: self.request_init_at,
            response_init_at: now,
            response_bytes: 0,
        }
    }

    /// The inner call failed before any response: emits the exchange's
    /// terminal event carrying the failure's reason code, and releases the
    /// exchange's producer end.
    pub fn fail(self, table: &mut SubTable, reason: u32, now: u64)
        requires
            old(table).wf(),
            self.valid(old(table)@),
        ensures
            final(table).wf(),
            final(table)@.len() == old(table)@.len(),
            forall|j: int| 0 <= j < final(table)@.len() && j != self.sub_of() ==> final(table)@[j]
                == old(table)@[j],
            forall|st2: u64| st2 != self.id_of().stream ==> events_for(
                final(table)@[self.sub_of()].emitted,
                st2,
            ) == events_for(old(table)@[self.sub_of()].emitted, st2),
            ({
                let v0 = old(table)@[self.sub_of()];
                let v1 = final(table)@[self.sub_of()];
                let dec = if v0.producers > 0 {
                    (v0.producers - 1) as u32
                } else {
                    0
                };
                if v0.live && backlog_of(v0) < v0.capacity {
                    &&& v1.emitted == v0.emitted.push(v1.emitted.last())
                    &&& rsp_end_fields(
                        v1.emitted.last(),
                        self.id_of(),
                        self.meta_of(),
                        spec_elapsed(now, self.request_init_of()),
                        None::<u64>,
                        0,
                        Eos::ProtocolError(reason),
                    )
                    &&& v1 =~= (SubView { emitted: v1.emitted, producers: dec, ..v0 })
                } else {
                    v1 =~= (SubView { producers: dec, ..v0 })
                }
            }),
    {
        let ghost t0 = table@;
        let msg = TapEvent::ResponseEnd {
            id: self.id,
            meta: self.meta,
            since_request_init: elapsed(now, self.request_init_at),
            since_response_init: None,
            response_bytes: 0,
            eos: Eos::ProtocolError(reason),
        };
        let _ = table.enqueue(self.sub, msg);
        proof {
            crate::event::lemma_events_for_push(
                t0[self.sub as int].emitted,
                msg,
                self.id.stream,
            );
        }
        table.drop_producer(self.sub);
    }
}

impl TapResponseBody {
    pub closed spec fn sub_of(self) -> int {
        self.sub as int
    }

    pub closed spec fn id_of(self) -> StreamId {
        self.id
    }

    pub closed spec fn meta_of(self) -> EventMeta {
        self.meta
    }

    pub closed spec fn request_init_of(self) -> u64 {
        self.request_init_at
    }

    pub closed spec fn response_init_of(self) -> u64 {
        self.response_init_at
    }

    pub closed spec fn bytes_of(self) -> u64 {
        self.response_bytes
    }

    /// The exchange refers to a real subscription and its stream has no
    /// terminal event yet.
    pub open spec fn valid(self, t: Seq<SubView>) -> bool {
        &&& 0 <= self.sub_of() < t.len()
        &&& self.id_of().base == t[self.sub_of()].base_id
        &&& self.id_of().stream < admitted_of(t[self.sub_of()])
        &&& no_terminal_phase(t, self.sub_of(), self.id_of().stream)
    }

    /// A data frame passed through: accumulate its size.  Saturates rather
    /// than overflowing; the count is exact while the total fits.
    pub fn data(&mut self, frame_len: usize)
        ensures
            final(self).sub_of() == old(self).sub_of(),
            final(self).id_of() == old(self).id_of(),
            final(self).meta_of() == old(self).meta_of(),
            final(self).request_init_of() == old(self).request_init_of(),
            final(self).response_init_of() == old(self).response_init_of(),
            final(self).bytes_of() == if old(self).bytes_of() + frame_len <= u64::MAX {
                (old(self).bytes_of() + frame_len) as u64
            } else {
                u64::MAX
            },
    {
        self.response_bytes = self.response_bytes.saturating_add(frame_len as u64);
    }

    /// The stream reached a clean end: emits the terminal event with a
    /// clean-completion cause.
    pub fn eos(self, table: &mut SubTable, now: u64)
        requires
            old(table).wf(),
            self.valid(old(table)@),
        ensures
            terminal_sent(old(table)@, final(table)@, self, Eos::CleanEnd, now),
            final(table).wf(),
    {
        self.send_end(table, Eos::CleanEnd, now);
    }

    /// The stream failed: emits the terminal event with the failure's
    /// reason code.
    pub fn fail(self, table: &mut SubTable, reason: u32, now: u64)
        requires
            old(table).wf(),
            self.valid(old(table)@),
        ensures
            terminal_sent(old(table)@, final(table)@, self, Eos::ProtocolError(reason), now),
            final(table).wf(),
    {
        self.send_end(table, Eos::ProtocolError(reason), now);
    }

    /// The exchange was abandoned before its body reached a terminal
    /// state: emits the terminal event with a cancellation cause, so that
    /// every admitted exchange's observer sees exactly one terminal event
    /// however the exchange ends.
    pub fn cancel(self, table: &mut SubTable, now: u64)
        requires
            old(table).wf(),
            self.valid(old(table)@),
        ensures
            terminal_sent(old(table)@, final(table)@, self, Eos::Cancelled, now),
            final(table).wf(),
    {
        self.send_end(table, Eos::Cancelled, now);
    }

    /// Emits the exchange's single terminal event (best effort) and
    /// releases the exchange's producer end.
    pub(crate) fn send_end(self, table: &mut SubTable, end: Eos, now: u64)
        requires
            old(table).wf(),
            self.valid(old(table)@),
        ensures
            terminal_sent(old(table)@, final(table)@, self, end, now),
            final(table).wf(),
    {
        let ghost t0 = table@;
        let msg = TapEvent::ResponseEnd {
            id: self.id,
            meta: self.meta,
            since_request_init: elapsed(now, self.request_init_at),
            since_response_init: Some(elapsed(now, self.response_init_at)),
            response_bytes: self.response_bytes,
            eos: end,
        };
        let _ = table.enqueue(self.sub, msg);
        proof {
            crate::event::lemma_events_for_push(
                t0[self.sub as int].emitted,
                msg,
                self.id.stream,
            );
        }
        table.drop_producer(self.sub);
    }
}

/// A subscribe request: a filter specification and an event budget.
pub struct ObserveRequest {
    pub limit: u32,
    pub match_spec: Option<MatchSpec>,
}

/// Why a subscribe request was rejected.  No subscription is created for a
/// rejected request.
pub enum TapError {
    /// The request was invalid; carries a human-readable reason.
    InvalidArgument(String),
}

impl TapError {
    /// The human-readable reason.
    pub open spec fn spec_message(self) -> Seq<char> {
        match self {
            TapError::InvalidArgument(m) => m@,
        }
    }

    pub fn message(&self) -> (r: &String)
        ensures
            r@ == self.spec_message(),
    {
        match self {
            TapError::InvalidArgument(m) => m,
        }
    }
}

/// The consumer's end of a subscription's event stream: forward-only, in
/// emission order, ending cleanly once every producer is gone.
pub struct ResponseStream {
    sub: usize,
}

impl View for ResponseStream {
    type V = int;

    closed spec fn view(&self) -> int {
        self.sub as int
    }
}

impl ResponseStream {
    /// One step of the stream: the next event, `Pending`, or a clean end.
    pub fn poll(&mut self, table: &mut SubTable) -> (r: PollOutcome)
        requires
            old(table).wf(),
            0 <= old(self)@ < old(table)@.len(),
        ensures
            final(self)@ == old(self)@,
            final(table).wf(),
            final(table)@.len() == old(table)@.len(),
            forall|j: int| 0 <= j < final(table)@.len() && j != old(self)@ ==> final(table)@[j]
                == old(table)@[j],
            ({
                let v0 = old(table)@[old(self)@];
                let v1 = final(table)@[old(self)@];
                if v0.taken < v0.emitted.len() {
                    &&& r == PollOutcome::Event(v0.emitted[v0.taken])
                    &&& v1 =~= (SubView { taken: v0.taken + 1, ..v0 })
                } else if v0.producers > 0 {
                    &&& r == PollOutcome::Pending
                    &&& v1 == v0
                } else {
                    &&& r == PollOutcome::End
                    &&& v1 == v0
                }
            }),
    {
        table.poll(self.sub)
    }

    /// The consumer walks away: its end of the stream is dropped, which
    /// the middleware's next readiness step will notice.
    pub fn disconnect(self, table: &mut SubTable)
        requires
            old(table).wf(),
            0 <= self@ < old(table)@.len(),
        ensures
            final(table).wf(),
            final(table)@.len() == old(table)@.len(),
            forall|j: int| 0 <= j < final(table)@.len() && j != self@ ==> final(table)@[j] == old(
                table,
            )@[j],
            final(table)@[self@] =~= (SubView { live: false, ..old(table)@[self@] }),
    {
        table.drop_consumer(self.sub)
    }
}

/// The subscription-accepting endpoint: validates subscribe requests,
/// creates subscriptions and hands their handles to the registry.
pub struct Server {
    base_id: u32,
}

impl View for Server {
    type V = u32;

    closed spec fn view(&self) -> u32 {
        self.base_id
    }
}

impl Server {
    pub fn new() -> (s: Server)
        ensures
            s@ == 0u32,
    {
        Server { base_id: 0 }
    }

    /// An invalid-argument rejection carrying the given reason.
    fn invalid_arg(msg: String) -> (e: TapError)
        ensures
            e == TapError::InvalidArgument(msg),
    {
        TapError::InvalidArgument(msg)
    }

    /// Handles one subscribe request.
    ///
    /// Rejected with invalid-argument, creating nothing and registering
    /// nothing: a zero limit, the unbounded sentinel limit, a missing
    /// match, and a match that fails to compile.  Otherwise a subscription
    /// with the requested budget and a fresh bounded sink is created,
    /// registered for the middleware, and the consumer's stream handle is
    /// returned.
    pub fn observe(
        &mut self,
        table: &mut SubTable,
        registry: &mut Registry,
        req: ObserveRequest,
    ) -> (r: Result<ResponseStream, TapError>)
        requires
            old(table).wf(),
        ensures
            final(table).wf(),
            ({
                let missing = req.match_spec is None;
                let ill_formed = match req.match_spec {
                    Some(ms) => ms matches MatchSpec::AnyPath(ps) && ps@.len() == 0,
                    None => false,
                };
                if req.limit == 0 {
                    &&& r matches Err(e) && e.spec_message() == "limit must be positive"@
                    &&& final(table)@ == old(table)@
                    &&& final(registry)@ == old(registry)@
                    &&& final(self)@ == old(self)@
                } else if req.limit == u32::MAX {
                    &&& r matches Err(e) && e.spec_message() == "limit is too large"@
                    &&& final(table)@ == old(table)@
                    &&& final(registry)@ == old(registry)@
                    &&& final(self)@ == old(self)@
                } else if missing {
                    &&& r matches Err(e) && e.spec_message() == "no match specified"@
                    &&& final(table)@ == old(table)@
                    &&& final(registry)@ == old(registry)@
                    &&& final(self)@ == old(self)@
                } else if ill_formed {
                    &&& r matches Err(e) && e.spec_message() == "empty match list"@
                    &&& final(table)@ == old(table)@
                    &&& final(registry)@ == old(registry)@
                    &&& final(self)@ == old(self)@
                } else {
                    &&& r matches Ok(stream) && stream@ == old(table)@.len()
                    &&& final(table)@.len() == old(table)@.len() + 1
                    &&& forall|j: int| 0 <= j < old(table)@.len() ==> final(table)@[j] == old(
                        table,
                    )@[j]
                    &&& ({
                        let v = final(table)@[old(table)@.len() as int];
                        &&& v.base_id == old(self)@
                        &&& v.limit == req.limit
                        &&& v.remaining == req.limit
                        &&& v.live == true
                        &&& v.producers == 1
                        &&& v.capacity == EVENT_BUFFER_CAPACITY
                        &&& v.emitted == Seq::<TapEvent>::empty()
                        &&& v.taken == 0
                        &&& (match req.match_spec {
                            Some(ms) => v.match_ == compiled_match(ms),
                            None => false,
                        })
                    })
                    &&& final(registry)@ == old(registry)@.push(old(table)@.len() as int)
                    &&& final(self)@ == (if old(self)@ == u32::MAX {
                        0u32
                    } else {
                        (old(self)@ + 1) as u32
                    })
                }
            }),
    {
        if req.limit == 0 {
            return Err(Self::invalid_arg("limit must be positive".to_string()));
        }
        if req.limit == u32::MAX {
            return Err(Self::invalid_arg("limit is too large".to_string()));
        }
        let ms = match req.match_spec {
            None => {
                return Err(Self::invalid_arg("no match specified".to_string()));
            },
            Some(ms) => ms,
        };
        let match_ = match Match::try_new(ms) {
            Ok(m) => m,
            Err(e) => {
                return Err(Self::invalid_arg(e.message()));
            },
        };
        let base_id = self.base_id;
        self.base_id = if self.base_id == u32::MAX {
            0
        } else {
            self.base_id + 1
        };
        let sub = table.add_subscription(base_id, match_, req.limit, EVENT_BUFFER_CAPACITY);
        registry.register(Tap::new(sub));
        Ok(ResponseStream { sub })
    }
}

/// What a well-formed specification compiles to.
pub open spec fn compiled_match(ms: MatchSpec) -> Match {
    match ms {
        MatchSpec::All => Match::All,
        MatchSpec::Path(p) => Match::Path(p),
        MatchSpec::AnyPath(ps) => Match::AnyPath(ps),
        MatchSpec::Destination(d) => Match::Destination(d),
    }
}

/// How the table changes when an observed body's terminal event for
/// exchange `b` is sent: nothing but `b`'s subscription changes, no stream
/// but `b`'s changes, the exchange's producer end is released, and when the
/// consumer is present and the sink has room, exactly the terminal event
/// carrying `b`'s observations is appended.
pub open spec fn terminal_sent(
    t0: Seq<SubView>,
    t1: Seq<SubView>,
    b: TapResponseBody,
    end: Eos,
    now: u64,
) -> bool {
    &&& t1.len() == t0.len()
    &&& forall|j: int| 0 <= j < t1.len() && j != b.sub_of() ==> t1[j] == t0[j]
    &&& forall|st2: u64| st2 != b.id_of().stream ==> events_for(t1[b.sub_of()].emitted, st2)
        == events_for(t0[b.sub_of()].emitted, st2)
    &&& ({
        let v0 = t0[b.sub_of()];
        let v1 = t1[b.sub_of()];
        let dec = if v0.producers > 0 {
            (v0.producers - 1) as u32
        } else {
            0
        };
        if v0.live && backlog_of(v0) < v0.capacity {
            &&& v1.emitted == v0.emitted.push(v1.emitted.last())
            &&& rsp_end_fields(
                v1.emitted.last(),
                b.id_of(),
                b.meta_of(),
                spec_elapsed(now, b.request_init_of()),
                Some(spec_elapsed(now, b.response_init_of())),
                b.bytes_of(),
                end,
            )
            &&& v1 =~= (SubView { emitted: v1.emitted, producers: dec, ..v0 })
        } else {
            v1 =~= (SubView { producers: dec, ..v0 })
        }
    })
}

} // verus!

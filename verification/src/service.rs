//! The tap middleware: decorates a per-endpoint service so that each
//! request engages zero or more live, matching subscriptions, without
//! altering what the rest of the pipeline observes and without blocking.
//!
//! The readiness step drains newly registered handles from the registry
//! into the active tap set and prunes entries whose consumer is gone or
//! whose budget is spent.  The request step engages matching handles and
//! yields the exchange's emitters; the response and body steps drive them.
//! The surrounding transport — futures, polling, the inner service's own
//! I/O — stays outside: these functions are the decisions it drives.

use vstd::prelude::*;

use crate::event::{events_for, spec_elapsed, Eos, EventMeta, StreamId};
use crate::matching::{Inspection, RequestMeta};
use crate::registry::{handles_ok, Registry};
use crate::server::{
    rsp_end_fields, rsp_open_fields, Tap, TapRequestBody, TapResponse, TapResponseBody,
};
use crate::subs::{admitted_of, backlog_of, req_open_phase, SubTable, SubView};

verus! {

/// A subscription is worth keeping in the active set: its consumer is
/// present and it has budget left.
pub open spec fn eligible(t: Seq<SubView>, h: int) -> bool {
    &&& 0 <= h < t.len()
    &&& t[h].live
    &&& t[h].remaining > 0
}

/// The handles of `hs` that are worth keeping, in order.
pub open spec fn keep_eligible(hs: Seq<int>, t: Seq<SubView>) -> Seq<int> {
    hs.filter(|h: int| eligible(t, h))
}

/// A request step only consumes budget and appends events; everything the
/// consumer or a later step relies on — liveness, positions taken, limits,
/// filters — is untouched.
pub open spec fn call_stepped(t0: Seq<SubView>, t1: Seq<SubView>) -> bool {
    &&& t1.len() == t0.len()
    &&& forall|j: int| 0 <= j < t0.len() ==> (#[trigger] t1[j]) =~= (SubView {
        remaining: t1[j].remaining,
        producers: t1[j].producers,
        emitted: t1[j].emitted,
        ..t0[j]
    }) && t1[j].remaining <= t0[j].remaining && t0[j].producers <= t1[j].producers
}

/// A response step only appends events.
pub open spec fn emit_stepped(t0: Seq<SubView>, t1: Seq<SubView>) -> bool {
    &&& t1.len() == t0.len()
    &&& forall|j: int| 0 <= j < t0.len() ==> (#[trigger] t1[j]) =~= (SubView {
        emitted: t1[j].emitted,
        ..t0[j]
    })
}

/// A terminal step only appends events and releases producer ends.
pub open spec fn finish_stepped(t0: Seq<SubView>, t1: Seq<SubView>) -> bool {
    &&& t1.len() == t0.len()
    &&& forall|j: int| 0 <= j < t0.len() ==> (#[trigger] t1[j]) =~= (SubView {
        emitted: t1[j].emitted,
        producers: t1[j].producers,
        ..t0[j]
    }) && t1[j].producers <= t0[j].producers
}

/// A pruning step only releases producer ends.
pub open spec fn prune_stepped(t0: Seq<SubView>, t1: Seq<SubView>) -> bool {
    &&& t1.len() == t0.len()
    &&& forall|j: int| 0 <= j < t0.len() ==> (#[trigger] t1[j]) =~= (SubView {
        producers: t1[j].producers,
        ..t0[j]
    }) && t1[j].producers <= t0[j].producers
}

/// The engaged taps of one exchange: each refers to a real subscription in
/// its request-open phase, and no two share a stream.
pub open spec fn exchange_valid(taps: Seq<TapResponse>, t: Seq<SubView>) -> bool {
    &&& forall|i: int| 0 <= i < taps.len() ==> (#[trigger] taps[i]).valid(t)
    &&& forall|i: int, j: int|
        0 <= i < j < taps.len() ==> !((#[trigger] taps[i]).sub_of() == (#[trigger] taps[j]).sub_of()
            && taps[i].id_of().stream == taps[j].id_of().stream)
}

/// The observed bodies of one exchange: each stream still awaits its
/// terminal event, and no two share a stream.
pub open spec fn bodies_valid(taps: Seq<TapResponseBody>, t: Seq<SubView>) -> bool {
    &&& forall|i: int| 0 <= i < taps.len() ==> (#[trigger] taps[i]).valid(t)
    &&& forall|i: int, j: int|
        0 <= i < j < taps.len() ==> !((#[trigger] taps[i]).sub_of() == (#[trigger] taps[j]).sub_of()
            && taps[i].id_of().stream == taps[j].id_of().stream)
}

/// This tap's stream received its `ResponseOpen` carrying these
/// observations.
pub open spec fn rsp_opened(
    t0: Seq<SubView>,
    t1: Seq<SubView>,
    tp: TapResponse,
    http_status: u16,
    now: u64,
) -> bool {
    let e0 = events_for(t0[tp.sub_of()].emitted, tp.id_of().stream);
    let e1 = events_for(t1[tp.sub_of()].emitted, tp.id_of().stream);
    &&& e1 == e0.push(e1.last())
    &&& rsp_open_fields(
        e1.last(),
        tp.id_of(),
        tp.meta_of(),
        spec_elapsed(now, tp.request_init_of()),
        http_status,
    )
}

/// This tap's stream either received its `ResponseOpen` or the sink
/// dropped it; no other outcome.
pub open spec fn rsp_opened_or_dropped(
    t0: Seq<SubView>,
    t1: Seq<SubView>,
    tp: TapResponse,
    http_status: u16,
    now: u64,
) -> bool {
    let e0 = events_for(t0[tp.sub_of()].emitted, tp.id_of().stream);
    let e1 = events_for(t1[tp.sub_of()].emitted, tp.id_of().stream);
    ||| e1 == e0
    ||| rsp_opened(t0, t1, tp, http_status, now)
}

/// This engaged tap's stream received its failure terminal: no response
/// was opened, so no response timestamp and no bytes.
pub open spec fn failed_with(
    t0: Seq<SubView>,
    t1: Seq<SubView>,
    tp: TapResponse,
    reason: u32,
    now: u64,
) -> bool {
    let e0 = events_for(t0[tp.sub_of()].emitted, tp.id_of().stream);
    let e1 = events_for(t1[tp.sub_of()].emitted, tp.id_of().stream);
    &&& e1 == e0.push(e1.last())
    &&& rsp_end_fields(
        e1.last(),
        tp.id_of(),
        tp.meta_of(),
        spec_elapsed(now, tp.request_init_of()),
        None::<u64>,
        0,
        Eos::ProtocolError(reason),
    )
}

/// This engaged tap's stream either received its failure terminal or the
/// sink dropped it.
pub open spec fn failed_or_dropped(
    t0: Seq<SubView>,
    t1: Seq<SubView>,
    tp: TapResponse,
    reason: u32,
    now: u64,
) -> bool {
    let e0 = events_for(t0[tp.sub_of()].emitted, tp.id_of().stream);
    let e1 = events_for(t1[tp.sub_of()].emitted, tp.id_of().stream);
    ||| e1 == e0
    ||| failed_with(t0, t1, tp, reason, now)
}

/// The stream of an exchange with these observations received its
/// terminal event.
pub open spec fn terminal_reached(
    t0: Seq<SubView>,
    t1: Seq<SubView>,
    sub: int,
    id: StreamId,
    m: EventMeta,
    request_init_at: u64,
    response_init_at: u64,
    bytes: u64,
    end: Eos,
    now: u64,
) -> bool {
    let e0 = events_for(t0[sub].emitted, id.stream);
    let e1 = events_for(t1[sub].emitted, id.stream);
    &&& e1 == e0.push(e1.last())
    &&& rsp_end_fields(
        e1.last(),
        id,
        m,
        spec_elapsed(now, request_init_at),
        Some(spec_elapsed(now, response_init_at)),
        bytes,
        end,
    )
}

/// The stream of an exchange with these observations either received its
/// terminal event or the sink dropped it; no other outcome.
pub open spec fn terminal_for(
    t0: Seq<SubView>,
    t1: Seq<SubView>,
    sub: int,
    id: StreamId,
    m: EventMeta,
    request_init_at: u64,
    response_init_at: u64,
    bytes: u64,
    end: Eos,
    now: u64,
) -> bool {
    let e0 = events_for(t0[sub].emitted, id.stream);
    let e1 = events_for(t1[sub].emitted, id.stream);
    ||| e1 == e0
    ||| terminal_reached(t0, t1, sub, id, m, request_init_at, response_init_at, bytes, end, now)
}

/// This body's stream received its terminal event carrying the body's
/// accumulated observations.
pub open spec fn terminated(
    t0: Seq<SubView>,
    t1: Seq<SubView>,
    b: TapResponseBody,
    end: Eos,
    now: u64,
) -> bool {
    terminal_reached(
        t0,
        t1,
        b.sub_of(),
        b.id_of(),
        b.meta_of(),
        b.request_init_of(),
        b.response_init_of(),
        b.bytes_of(),
        end,
        now,
    )
}

/// This body's stream either received its terminal event carrying the
/// body's accumulated observations or the sink dropped it.
pub open spec fn terminated_or_dropped(
    t0: Seq<SubView>,
    t1: Seq<SubView>,
    b: TapResponseBody,
    end: Eos,
    now: u64,
) -> bool {
    terminal_for(
        t0,
        t1,
        b.sub_of(),
        b.id_of(),
        b.meta_of(),
        b.request_init_of(),
        b.response_init_of(),
        b.bytes_of(),
        end,
        now,
    )
}

/// The composition stage that wraps services to record taps.
pub struct Layer {
}

/// Wraps each made service in the tap middleware.
pub struct Stack {
}

/// The middleware around one endpoint's service: holds the active tap set
/// and the endpoint's inspection metadata.
pub struct Service {
    active: Vec<Tap>,
    inspect: Inspection,
}

impl Layer {
    pub fn new() -> (l: Layer) {
        Layer {  }
    }

    /// Binds the stage over the next one in the stack.
    pub fn bind(&self) -> (s: Stack) {
        Stack {  }
    }
}

impl Stack {
    /// Makes the middleware for one endpoint; its active tap set starts
    /// empty and fills at the next readiness step.
    pub fn make(&self, target: Inspection) -> (s: Service)
        ensures
            s.active_view() =~= Seq::<int>::empty(),
            s.inspect_of() == target,
    {
        let s = Service { active: Vec::new(), inspect: target };
        proof {
            assert(s.active_view() =~= Seq::<int>::empty());
        }
        s
    }
}

impl Service {
    /// The subscriptions the middleware currently watches.
    pub closed spec fn active_view(self) -> Seq<int> {
        self.active@.map_values(|t: Tap| t@)
    }

    /// The endpoint's inspection metadata, attached to every event.
    pub closed spec fn inspect_of(self) -> Inspection {
        self.inspect
    }

    /// How many subscriptions the middleware currently watches.
    pub fn n_active(&self) -> (n: usize)
        ensures
            n == self.active_view().len(),
    {
        self.active.len()
    }

    /// The readiness step, run before accepting a request: drains every
    /// newly registered handle from the registry into the active set, then
    /// prunes the set down to the handles still worth evaluating, releasing
    /// the producer end of each pruned one.  Never blocks; amortizes
    /// cleanup across the request cadence.
    pub fn poll_ready(&mut self, table: &mut SubTable, registry: &mut Registry)
        requires
            old(table).wf(),
            handles_ok(old(self).active_view(), old(table)@),
            handles_ok(old(registry)@, old(table)@),
        ensures
            final(table).wf(),
            prune_stepped(old(table)@, final(table)@),
            final(registry)@ =~= Seq::<int>::empty(),
            final(self).inspect_of() == old(self).inspect_of(),
            final(self).active_view() == keep_eligible(
                old(self).active_view() + old(registry)@,
                old(table)@,
            ),
            handles_ok(final(self).active_view(), final(table)@),
    {
        let ghost t0 = table@;
        let mut drained = registry.drain();
        self.active.append(&mut drained);
        proof {
            assert(self.active_view() =~= old(self).active_view() + old(registry)@);
        }
        let ghost all = self.active_view();
        let mut kept: Vec<Tap> = Vec::new();
        let mut i: usize = 0;
        let n = self.active.len();
        while i < n
            invariant
                n == self.active@.len(),
                all == self.active_view(),
                0 <= i <= n,
                table.wf(),
                prune_stepped(t0, table@),
                handles_ok(all, t0),
                handles_ok(all, table@),
                kept@.map_values(|t: Tap| t@) == keep_eligible(all.take(i as int), t0),
            decreases n - i,
        {
            let h = self.active[i];
            proof {
                assert(h@ == all[i as int]);
            }
            let ghost t_cur = table@;
            if h.can_tap_more(table) {
                kept.push(h);
            } else {
                table.drop_producer(h.index());
                proof {
                    assert forall|j: int| 0 <= j < t0.len() implies (#[trigger] table@[j]) =~= (
                    SubView { producers: table@[j].producers, ..t0[j] }) && table@[j].producers
                        <= t0[j].producers by {
                        assert(t_cur[j] =~= (SubView { producers: t_cur[j].producers, ..t0[j] }));
                    }
                }
            }
            proof {
                assert(all.take(i + 1 as int) =~= all.take(i as int).push(all[i as int]));
                lemma_filter_push_int(all.take(i as int), all[i as int], |h2: int| eligible(t0, h2));
                assert(eligible(t0, h@) == (t0[h@].live && t0[h@].remaining > 0));
                assert(table@[h@].live == t0[h@].live && table@[h@].remaining == t0[h@].remaining);
                if table@[h@].live && table@[h@].remaining > 0 {
                    assert(kept@.map_values(|t: Tap| t@) =~= keep_eligible(all.take(i as int), t0)
                        .push(h@));
                } else {
                }
            }
            i = i + 1;
        }
        self.active = kept;
        proof {
            assert(all.take(n as int) =~= all);
            assert(self.active_view() == keep_eligible(all, t0));
        }
    }
}

impl Service {
    /// The request step: engages every active handle that matches and is
    /// admitted, emitting each engagement's `RequestOpen`.  The request
    /// itself passes through unmodified; the returned observers mirror the
    /// exchange to the engaged sinks.
    pub fn call(&self, table: &mut SubTable, req: &RequestMeta, now: u64) -> (r: (
        RequestBody,
        Exchange,
    ))
        requires
            old(table).wf(),
            handles_ok(self.active_view(), old(table)@),
        ensures
            final(table).wf(),
            call_stepped(old(table)@, final(table)@),
            exchange_valid(r.1.taps_of(), final(table)@),
            forall|i: int| 0 <= i < r.1.taps_of().len() ==> (#[trigger] r.1.taps_of()[i])
                .request_init_of() == now,
            r.0.taps_of().len() == r.1.taps_of().len(),
            (forall|i: int|
                0 <= i < self.active_view().len() ==> !old(table)@[#[trigger] self.active_view()[i]].match_.spec_matches(
                    *req,
                    self.inspect_of(),
                )) ==> final(table)@ == old(table)@ && r.1.taps_of().len() == 0,
            self.active_view().len() == 1 ==> ({
                let h = self.active_view()[0];
                let v0 = old(table)@[h];
                let st = admitted_of(v0) as u64;
                if !v0.match_.spec_matches(*req, self.inspect_of()) || v0.remaining == 0 {
                    &&& final(table)@ == old(table)@
                    &&& r.1.taps_of().len() == 0
                } else if v0.live && backlog_of(v0) < v0.capacity {
                    &&& r.1.taps_of().len() == 1
                    &&& r.1.taps_of()[0].sub_of() == h
                    &&& r.1.taps_of()[0].id_of() == (StreamId { base: v0.base_id, stream: st })
                    &&& req_open_phase(final(table)@, h, st)
                    &&& final(table)@[h].remaining == v0.remaining - 1
                } else {
                    &&& r.1.taps_of().len() == 0
                    &&& final(table)@[h] =~= (SubView {
                        remaining: (v0.remaining - 1) as u32,
                        ..v0
                    })
                }
            }),
    {
        let ghost t0 = table@;
        let mut req_taps: Vec<TapRequestBody> = Vec::new();
        let mut rsp_taps: Vec<TapResponse> = Vec::new();
        let mut i: usize = 0;
        let n = self.active.len();
        while i < n
            invariant
                n == self.active@.len(),
                0 <= i <= n,
                table.wf(),
                call_stepped(t0, table@),
                handles_ok(self.active_view(), t0),
                exchange_valid(rsp_taps@, table@),
                forall|k: int| 0 <= k < rsp_taps@.len() ==> (#[trigger] rsp_taps@[k])
                    .request_init_of() == now,
                req_taps@.len() == rsp_taps@.len(),
                i == 0 ==> table@ == t0 && rsp_taps@.len() == 0,
                (forall|k: int|
                    0 <= k < i ==> !t0[#[trigger] self.active_view()[k]].match_.spec_matches(
                        *req,
                        self.inspect_of(),
                    )) ==> table@ == t0 && rsp_taps@.len() == 0,
                n == 1 && i == 1 ==> ({
                    let h = self.active_view()[0];
                    let v0 = t0[h];
                    let st = admitted_of(v0) as u64;
                    if !v0.match_.spec_matches(*req, self.inspect_of()) || v0.remaining == 0 {
                        &&& table@ == t0
                        &&& rsp_taps@.len() == 0
                    } else if v0.live && backlog_of(v0) < v0.capacity {
                        &&& rsp_taps@.len() == 1
                        &&& rsp_taps@[0].sub_of() == h
                        &&& rsp_taps@[0].id_of() == (StreamId { base: v0.base_id, stream: st })
                        &&& req_open_phase(table@, h, st)
                        &&& table@[h].remaining == v0.remaining - 1
                    } else {
                        &&& rsp_taps@.len() == 0
                        &&& table@[h] =~= (SubView {
                            remaining: (v0.remaining - 1) as u32,
                            ..v0
                        })
                    }
                }),
            decreases n - i,
        {
            let h = self.active[i];
            proof {
                assert(h@ == self.active_view()[i as int]);
            }
            let ghost t_cur = table@;
            let engaged = h.tap(table, req, &self.inspect, now);
            proof {
                assert forall|j: int| 0 <= j < t0.len() implies (#[trigger] table@[j]) =~= (
                SubView {
                    remaining: table@[j].remaining,
                    producers: table@[j].producers,
                    emitted: table@[j].emitted,
                    ..t0[j]
                }) && table@[j].remaining <= t0[j].remaining && t0[j].producers
                    <= table@[j].producers by {
                    assert(t_cur[j] =~= (SubView {
                        remaining: t_cur[j].remaining,
                        producers: t_cur[j].producers,
                        emitted: t_cur[j].emitted,
                        ..t0[j]
                    }));
                }
                assert forall|k: int| 0 <= k < rsp_taps@.len() implies (#[trigger] rsp_taps@[k])
                    .valid(table@) by {
                    let tp = rsp_taps@[k];
                    assert(tp.valid(t_cur));
                    if tp.sub_of() == h@ {
                        assert(tp.id_of().stream < admitted_of(t_cur[h@]));
                        assert(tp.id_of().stream != admitted_of(t_cur[h@]) as u64);
                    }
                }
            }
            match engaged {
                Some(pair) => {
                    let (rb, rsp) = pair;
                    proof {
                        assert forall|k: int| 0 <= k < rsp_taps@.len() implies !((
                        #[trigger] rsp_taps@[k]).sub_of() == rsp.sub_of() && rsp_taps@[k].id_of()
                            .stream == rsp.id_of().stream) by {
                            let tp = rsp_taps@[k];
                            if tp.sub_of() == h@ {
                                assert(tp.id_of().stream < admitted_of(t_cur[h@]));
                            }
                        }
                    }
                    req_taps.push(rb);
                    rsp_taps.push(rsp);
                },
                None => {},
            }
            proof {
                assert(t_cur[h@].match_ == t0[h@].match_);
                if forall|k: int|
                    0 <= k < i + 1 ==> !t0[#[trigger] self.active_view()[k]].match_.spec_matches(
                        *req,
                        self.inspect_of(),
                    ) {
                    assert(!t0[self.active_view()[i as int]].match_.spec_matches(
                        *req,
                        self.inspect_of(),
                    ));
                    assert(t_cur == t0);
                    assert(table@ =~= t0);
                }
                if n == 1 {
                    assert(t_cur == t0);
                    let v0 = t0[h@];
                    if !v0.match_.spec_matches(*req, self.inspect_of()) || v0.remaining == 0 {
                        assert(table@ =~= t0);
                    }
                }
            }
            i = i + 1;
        }
        (RequestBody { taps: req_taps }, Exchange { taps: rsp_taps })
    }
}

/// The no-events side of an exchange's observation: carries the engaged
/// request-body observers through the request's lifetime.
pub struct RequestBody {
    taps: Vec<TapRequestBody>,
}

impl RequestBody {
    pub closed spec fn taps_of(self) -> Seq<TapRequestBody> {
        self.taps@
    }

    /// Request-side frames pass through unobserved.
    pub fn data(&mut self, frame_len: usize)
    {
        let _ = frame_len;
    }

    /// A request body's end emits nothing.
    pub fn eos(self)
    {
    }

    /// A request body's failure emits nothing; the response side reports
    /// the terminal event.
    pub fn fail(self, reason: u32)
    {
        let _ = reason;
    }
}

/// One request's engaged taps, between the request step and the response.
/// Exactly one of `respond` or `fail` consumes it.
pub struct Exchange {
    taps: Vec<TapResponse>,
}

impl Exchange {
    pub closed spec fn taps_of(self) -> Seq<TapResponse> {
        self.taps@
    }

    /// How many subscriptions observe this exchange.
    pub fn n_taps(&self) -> (n: usize)
        ensures
            n == self.taps_of().len(),
    {
        self.taps.len()
    }

    /// The inner service produced a response: every engaged tap receives
    /// `ResponseOpen` (best effort), and the response body's observers are
    /// returned to mirror its frames and terminal state.
    pub fn respond(self, table: &mut SubTable, http_status: u16, now: u64) -> (b: Body)
        requires
            old(table).wf(),
            exchange_valid(self.taps_of(), old(table)@),
        ensures
            final(table).wf(),
            emit_stepped(old(table)@, final(table)@),
            bodies_valid(b.taps_of(), final(table)@),
            b.taps_of().len() == self.taps_of().len(),
            forall|i: int| 0 <= i < self.taps_of().len() ==> {
                let tp = self.taps_of()[i];
                let bd = #[trigger] b.taps_of()[i];
                &&& bd.sub_of() == tp.sub_of()
                &&& bd.id_of() == tp.id_of()
                &&& bd.meta_of() == tp.meta_of()
                &&& bd.request_init_of() == tp.request_init_of()
                &&& bd.response_init_of() == now
                &&& bd.bytes_of() == 0
            },
            forall|i: int| 0 <= i < self.taps_of().len() ==> rsp_opened_or_dropped(
                old(table)@,
                final(table)@,
                #[trigger] self.taps_of()[i],
                http_status,
                now,
            ),
            forall|i: int| 0 <= i < self.taps_of().len() ==> ({
                let tp = #[trigger] self.taps_of()[i];
                let v0 = old(table)@[tp.sub_of()];
                &&& (!v0.live ==> events_for(final(table)@[tp.sub_of()].emitted, tp.id_of().stream)
                    == events_for(old(table)@[tp.sub_of()].emitted, tp.id_of().stream))
                &&& (v0.live && backlog_of(v0) + self.taps_of().len() <= v0.capacity
                    ==> rsp_opened(old(table)@, final(table)@, tp, http_status, now))
            }),
    {
        let ghost orig = self.taps@;
        let ghost t0 = table@;
        let mut taps = self.taps;
        let mut out: Vec<TapResponseBody> = Vec::new();
        while taps.len() > 0
            invariant
                out@.len() + taps@.len() == orig.len(),
                taps@ == orig.skip(out@.len() as int),
                table.wf(),
                emit_stepped(t0, table@),
                exchange_valid(orig, t0),
                exchange_valid(taps@, table@),
                bodies_valid(out@, table@),
                forall|k: int| 0 <= k < out@.len() ==> {
                    let tp = orig[k];
                    let bd = #[trigger] out@[k];
                    &&& bd.sub_of() == tp.sub_of()
                    &&& bd.id_of() == tp.id_of()
                    &&& bd.meta_of() == tp.meta_of()
                    &&& bd.request_init_of() == tp.request_init_of()
                    &&& bd.response_init_of() == now
                    &&& bd.bytes_of() == 0
                },
                forall|k: int| 0 <= k < out@.len() ==> rsp_opened_or_dropped(
                    t0,
                    table@,
                    #[trigger] orig[k],
                    http_status,
                    now,
                ),
                forall|k: int| out@.len() <= k < orig.len() ==> events_for(
                    table@[(#[trigger] orig[k]).sub_of()].emitted,
                    orig[k].id_of().stream,
                ) == events_for(t0[orig[k].sub_of()].emitted, orig[k].id_of().stream),
                forall|j: int| 0 <= j < t0.len() ==> backlog_of(#[trigger] table@[j]) <= backlog_of(
                    t0[j],
                ) + out@.len(),
                forall|k: int| 0 <= k < out@.len() ==> ({
                    let tp = #[trigger] orig[k];
                    let v0 = t0[tp.sub_of()];
                    &&& (!v0.live ==> events_for(table@[tp.sub_of()].emitted, tp.id_of().stream)
                        == events_for(t0[tp.sub_of()].emitted, tp.id_of().stream))
                    &&& (v0.live && backlog_of(v0) + orig.len() <= v0.capacity ==> rsp_opened(
                        t0,
                        table@,
                        tp,
                        http_status,
                        now,
                    ))
                }),
            decreases taps@.len(),
        {
            let ghost done = out@.len() as int;
            let ghost t_cur = table@;
            let tp = taps.remove(0);
            proof {
                assert(tp == orig[done]);
                assert(taps@ =~= orig.skip(done + 1));
            }
            let bd = tp.tap(table, http_status, now);
            proof {
                let sub = tp.sub_of();
                let st = tp.id_of().stream;
                if table@[sub].emitted != t_cur[sub].emitted {
                    crate::event::lemma_events_for_push(
                        t_cur[sub].emitted,
                        table@[sub].emitted.last(),
                        st,
                    );
                }
                assert forall|j: int| 0 <= j < t0.len() implies (#[trigger] table@[j]) =~= (
                SubView { emitted: table@[j].emitted, ..t0[j] }) by {
                    assert(t_cur[j] =~= (SubView { emitted: t_cur[j].emitted, ..t0[j] }));
                    if j != sub {
                        assert(table@[j] == t_cur[j]);
                    }
                }
                assert forall|k: int| done + 1 <= k < orig.len() implies (#[trigger] orig[k]).valid(
                    table@,
                ) && events_for(table@[orig[k].sub_of()].emitted, orig[k].id_of().stream)
                    == events_for(t0[orig[k].sub_of()].emitted, orig[k].id_of().stream) by {
                    let o = orig[k];
                    assert(o == orig.skip(done)[k - done]);
                    assert(o.valid(t_cur));
                    if o.sub_of() == sub {
                        assert(!(orig[done].sub_of() == orig[k].sub_of() && orig[done].id_of()
                            .stream == orig[k].id_of().stream));
                        assert(o.id_of().stream != st);
                    }
                }
                assert forall|k: int| 0 <= k < done implies rsp_opened_or_dropped(
                    t0,
                    table@,
                    #[trigger] orig[k],
                    http_status,
                    now,
                ) by {
                    let o = orig[k];
                    assert(rsp_opened_or_dropped(t0, t_cur, o, http_status, now));
                    if o.sub_of() == sub {
                        assert(!(orig[k].sub_of() == orig[done].sub_of() && orig[k].id_of().stream
                            == orig[done].id_of().stream));
                        assert(o.id_of().stream != st);
                    }
                }
                assert(rsp_opened_or_dropped(t0, table@, tp, http_status, now));
                assert forall|k: int| 0 <= k < out@.len() implies (#[trigger] out@[k]).valid(
                    table@,
                ) by {
                    let other = out@[k];
                    assert(other.valid(t_cur));
                    assert(other.sub_of() == orig[k].sub_of() && other.id_of() == orig[k].id_of());
                    if other.sub_of() == sub {
                        assert(other.id_of().stream != st);
                    }
                }
                assert forall|j: int| 0 <= j < t0.len() implies backlog_of(#[trigger] table@[j])
                    <= backlog_of(t0[j]) + (done + 1) by {
                    if j != sub {
                        assert(table@[j] == t_cur[j]);
                    }
                }
                assert forall|k: int| 0 <= k < done + 1 implies ({
                    let o = #[trigger] orig[k];
                    let v0 = t0[o.sub_of()];
                    &&& (!v0.live ==> events_for(table@[o.sub_of()].emitted, o.id_of().stream)
                        == events_for(t0[o.sub_of()].emitted, o.id_of().stream))
                    &&& (v0.live && backlog_of(v0) + orig.len() <= v0.capacity ==> rsp_opened(
                        t0,
                        table@,
                        o,
                        http_status,
                        now,
                    ))
                }) by {
                    let o = orig[k];
                    let v0 = t0[o.sub_of()];
                    if k < done {
                        if o.sub_of() == sub {
                            assert(!(orig[k].sub_of() == orig[done].sub_of() && orig[k].id_of()
                                .stream == orig[done].id_of().stream));
                            assert(o.id_of().stream != st);
                        }
                    } else {
                        assert(t_cur[sub].live == v0.live);
                        assert(t_cur[sub].capacity == v0.capacity);
                        assert(events_for(t_cur[sub].emitted, st) == events_for(
                            t0[sub].emitted,
                            st,
                        ));
                        if v0.live && backlog_of(v0) + orig.len() <= v0.capacity {
                            assert(backlog_of(t_cur[sub]) <= backlog_of(v0) + done);
                            assert(done < orig.len());
                            assert(backlog_of(t_cur[sub]) < t_cur[sub].capacity);
                        }
                    }
                }
            }
            out.push(bd);
        }
        proof {
            assert(taps@ =~= Seq::<TapResponse>::empty());
        }
        Body { taps: out }
    }

    /// The inner call failed before any response: every engaged tap
    /// receives the exchange's terminal event carrying the failure's
    /// reason, exactly as the proxied caller sees the failure unchanged.
    pub fn fail(self, table: &mut SubTable, reason: u32, now: u64)
        requires
            old(table).wf(),
            exchange_valid(self.taps_of(), old(table)@),
        ensures
            final(table).wf(),
            finish_stepped(old(table)@, final(table)@),
            forall|i: int| 0 <= i < self.taps_of().len() ==> failed_or_dropped(
                old(table)@,
                final(table)@,
                #[trigger] self.taps_of()[i],
                reason,
                now,
            ),
            forall|i: int| 0 <= i < self.taps_of().len() ==> ({
                let tp = #[trigger] self.taps_of()[i];
                let v0 = old(table)@[tp.sub_of()];
                &&& (!v0.live ==> events_for(final(table)@[tp.sub_of()].emitted, tp.id_of().stream)
                    == events_for(old(table)@[tp.sub_of()].emitted, tp.id_of().stream))
                &&& (v0.live && backlog_of(v0) + self.taps_of().len() <= v0.capacity
                    ==> failed_with(old(table)@, final(table)@, tp, reason, now))
            }),
    {
        let ghost orig = self.taps@;
        let ghost t0 = table@;
        let mut taps = self.taps;
        let n0: usize = taps.len();
        let mut done: usize = 0;
        while taps.len() > 0
            invariant
                orig.len() == n0,
                done + taps@.len() == orig.len(),
                taps@ == orig.skip(done as int),
                table.wf(),
                finish_stepped(t0, table@),
                exchange_valid(orig, t0),
                exchange_valid(taps@, table@),
                forall|k: int| 0 <= k < done ==> failed_or_dropped(
                    t0,
                    table@,
                    #[trigger] orig[k],
                    reason,
                    now,
                ),
                forall|k: int| done <= k < orig.len() ==> events_for(
                    table@[(#[trigger] orig[k]).sub_of()].emitted,
                    orig[k].id_of().stream,
                ) == events_for(t0[orig[k].sub_of()].emitted, orig[k].id_of().stream),
                forall|j: int| 0 <= j < t0.len() ==> backlog_of(#[trigger] table@[j]) <= backlog_of(
                    t0[j],
                ) + done,
                forall|k: int| 0 <= k < done ==> ({
                    let o = #[trigger] orig[k];
                    let v0 = t0[o.sub_of()];
                    &&& (!v0.live ==> events_for(table@[o.sub_of()].emitted, o.id_of().stream)
                        == events_for(t0[o.sub_of()].emitted, o.id_of().stream))
                    &&& (v0.live && backlog_of(v0) + orig.len() <= v0.capacity ==> failed_with(
                        t0,
                        table@,
                        o,
                        reason,
                        now,
                    ))
                }),
            decreases taps@.len(),
        {
            let ghost t_cur = table@;
            let tp = taps.remove(0);
            proof {
                assert(tp == orig[done as int]);
                assert(taps@ =~= orig.skip(done as int + 1));
            }
            tp.fail(table, reason, now);
            proof {
                let d = done as int;
                let sub = tp.sub_of();
                let st = tp.id_of().stream;
                if table@[sub].emitted != t_cur[sub].emitted {
                    crate::event::lemma_events_for_push(
                        t_cur[sub].emitted,
                        table@[sub].emitted.last(),
                        st,
                    );
                }
                assert forall|j: int| 0 <= j < t0.len() implies (#[trigger] table@[j]) =~= (
                SubView {
                    emitted: table@[j].emitted,
                    producers: table@[j].producers,
                    ..t0[j]
                }) && table@[j].producers <= t0[j].producers by {
                    assert(t_cur[j] =~= (SubView {
                        emitted: t_cur[j].emitted,
                        producers: t_cur[j].producers,
                        ..t0[j]
                    }));
                    if j != sub {
                        assert(table@[j] == t_cur[j]);
                    }
                }
                assert forall|k: int| d + 1 <= k < orig.len() implies (#[trigger] orig[k]).valid(
                    table@,
                ) && events_for(table@[orig[k].sub_of()].emitted, orig[k].id_of().stream)
                    == events_for(t0[orig[k].sub_of()].emitted, orig[k].id_of().stream) by {
                    let o = orig[k];
                    assert(o == orig.skip(d)[k - d]);
                    assert(o.valid(t_cur));
                    if o.sub_of() == sub {
                        assert(!(orig[d].sub_of() == orig[k].sub_of() && orig[d].id_of().stream
                            == orig[k].id_of().stream));
                        assert(o.id_of().stream != st);
                    }
                }
                assert forall|k: int| 0 <= k < d implies failed_or_dropped(
                    t0,
                    table@,
                    #[trigger] orig[k],
                    reason,
                    now,
                ) by {
                    let o = orig[k];
                    assert(failed_or_dropped(t0, t_cur, o, reason, now));
                    if o.sub_of() == sub {
                        assert(!(orig[k].sub_of() == orig[d].sub_of() && orig[k].id_of().stream
                            == orig[d].id_of().stream));
                        assert(o.id_of().stream != st);
                    }
                }
                assert(failed_or_dropped(t0, table@, tp, reason, now));
                assert forall|j: int| 0 <= j < t0.len() implies backlog_of(#[trigger] table@[j])
                    <= backlog_of(t0[j]) + (d + 1) by {
                    if j != sub {
                        assert(table@[j] == t_cur[j]);
                    }
                }
                assert forall|k: int| 0 <= k < d + 1 implies ({
                    let o = #[trigger] orig[k];
                    let v0 = t0[o.sub_of()];
                    &&& (!v0.live ==> events_for(table@[o.sub_of()].emitted, o.id_of().stream)
                        == events_for(t0[o.sub_of()].emitted, o.id_of().stream))
                    &&& (v0.live && backlog_of(v0) + orig.len() <= v0.capacity ==> failed_with(
                        t0,
                        table@,
                        o,
                        reason,
                        now,
                    ))
                }) by {
                    let o = orig[k];
                    let v0 = t0[o.sub_of()];
                    if k < d {
                        if o.sub_of() == sub {
                            assert(!(orig[k].sub_of() == orig[d].sub_of() && orig[k].id_of().stream
                                == orig[d].id_of().stream));
                            assert(o.id_of().stream != st);
                        }
                    } else {
                        assert(t_cur[sub].live == v0.live);
                        assert(t_cur[sub].capacity == v0.capacity);
                        assert(events_for(t_cur[sub].emitted, st) == events_for(
                            t0[sub].emitted,
                            st,
                        ));
                        if v0.live && backlog_of(v0) + orig.len() <= v0.capacity {
                            assert(backlog_of(t_cur[sub]) <= backlog_of(v0) + d);
                            assert(d < orig.len());
                            assert(backlog_of(t_cur[sub]) < t_cur[sub].capacity);
                        }
                    }
                }
            }
            done = done + 1;
        }
    }
}

/// The observed response body: mirrors each data frame's byte count and
/// the terminal state to every attached tap, without changing what the
/// body's real consumer sees.  Exactly one of `eos`, `fail` or `cancel`
/// ends the observation, draining every attachment; `cancel` covers a body
/// discarded before reaching a terminal state, so every engaged tap always
/// receives its single terminal event.
pub struct Body {
    taps: Vec<TapResponseBody>,
}

impl Default for Body {
    /// An empty body: no attachments, nothing to observe.
    fn default() -> (b: Body)
        ensures
            b.taps_of().len() == 0,
    {
        Body { taps: Vec::new() }
    }
}

impl Body {
    pub closed spec fn taps_of(self) -> Seq<TapResponseBody> {
        self.taps@
    }

    /// How many taps still await this body's terminal event.
    pub fn n_taps(&self) -> (n: usize)
        ensures
            n == self.taps_of().len(),
    {
        self.taps.len()
    }

    /// A data frame passed through: every attached tap accumulates its
    /// size, and when the inner stream reported its end as part of this
    /// same poll, the terminal event follows at once and the attachments
    /// are dropped.  The frame itself is untouched.
    pub fn data(&mut self, table: &mut SubTable, frame_len: usize, end_stream: bool, now: u64)
        requires
            old(table).wf(),
            bodies_valid(old(self).taps_of(), old(table)@),
        ensures
            final(table).wf(),
            finish_stepped(old(table)@, final(table)@),
            !end_stream ==> final(table)@ == old(table)@ && final(self).taps_of().len() == old(
                self,
            ).taps_of().len() && (forall|i: int| 0 <= i < old(self).taps_of().len() ==> {
                let b0 = old(self).taps_of()[i];
                let b1 = #[trigger] final(self).taps_of()[i];
                &&& b1.sub_of() == b0.sub_of()
                &&& b1.id_of() == b0.id_of()
                &&& b1.meta_of() == b0.meta_of()
                &&& b1.request_init_of() == b0.request_init_of()
                &&& b1.response_init_of() == b0.response_init_of()
                &&& b1.bytes_of() == if b0.bytes_of() + frame_len <= u64::MAX {
                    (b0.bytes_of() + frame_len) as u64
                } else {
                    u64::MAX
                }
            }),
            end_stream ==> final(self).taps_of().len() == 0 && (forall|i: int|
                0 <= i < old(self).taps_of().len() ==> {
                    let b0 = #[trigger] old(self).taps_of()[i];
                    terminal_for(
                        old(table)@,
                        final(table)@,
                        b0.sub_of(),
                        b0.id_of(),
                        b0.meta_of(),
                        b0.request_init_of(),
                        b0.response_init_of(),
                        if b0.bytes_of() + frame_len <= u64::MAX {
                            (b0.bytes_of() + frame_len) as u64
                        } else {
                            u64::MAX
                        },
                        Eos::CleanEnd,
                        now,
                    )
                }),
            end_stream ==> (forall|i: int| 0 <= i < old(self).taps_of().len() ==> {
                let b0 = #[trigger] old(self).taps_of()[i];
                let v0 = old(table)@[b0.sub_of()];
                &&& (!v0.live ==> events_for(final(table)@[b0.sub_of()].emitted, b0.id_of().stream)
                    == events_for(old(table)@[b0.sub_of()].emitted, b0.id_of().stream))
                &&& (v0.live && backlog_of(v0) + old(self).taps_of().len() <= v0.capacity
                    ==> terminal_reached(
                    old(table)@,
                    final(table)@,
                    b0.sub_of(),
                    b0.id_of(),
                    b0.meta_of(),
                    b0.request_init_of(),
                    b0.response_init_of(),
                    if b0.bytes_of() + frame_len <= u64::MAX {
                        (b0.bytes_of() + frame_len) as u64
                    } else {
                        u64::MAX
                    },
                    Eos::CleanEnd,
                    now,
                ))
            }),
    {
        self.accumulate(frame_len);
        if end_stream {
            let ghost mid = self.taps@;
            proof {
                assert forall|i: int| 0 <= i < mid.len() implies (#[trigger] mid[i]).valid(
                    old(table)@,
                ) by {
                    assert(old(self).taps_of()[i].valid(old(table)@));
                }
                assert forall|i: int, j: int| 0 <= i < j < mid.len() implies !((
                #[trigger] mid[i]).sub_of() == (#[trigger] mid[j]).sub_of() && mid[i].id_of().stream
                    == mid[j].id_of().stream) by {
                    assert(old(self).taps_of()[i].sub_of() == mid[i].sub_of());
                }
            }
            self.send_all(table, Eos::CleanEnd, now);
            proof {
                assert forall|i: int| 0 <= i < old(self).taps_of().len() implies ({
                    let b0 = #[trigger] old(self).taps_of()[i];
                    terminal_for(
                        old(table)@,
                        table@,
                        b0.sub_of(),
                        b0.id_of(),
                        b0.meta_of(),
                        b0.request_init_of(),
                        b0.response_init_of(),
                        if b0.bytes_of() + frame_len <= u64::MAX {
                            (b0.bytes_of() + frame_len) as u64
                        } else {
                            u64::MAX
                        },
                        Eos::CleanEnd,
                        now,
                    )
                }) by {
                    assert(terminated_or_dropped(old(table)@, table@, mid[i], Eos::CleanEnd, now));
                }
                assert forall|i: int| 0 <= i < old(self).taps_of().len() implies ({
                    let b0 = #[trigger] old(self).taps_of()[i];
                    let v0 = old(table)@[b0.sub_of()];
                    &&& (!v0.live ==> events_for(table@[b0.sub_of()].emitted, b0.id_of().stream)
                        == events_for(old(table)@[b0.sub_of()].emitted, b0.id_of().stream))
                    &&& (v0.live && backlog_of(v0) + old(self).taps_of().len() <= v0.capacity
                        ==> terminal_reached(
                        old(table)@,
                        table@,
                        b0.sub_of(),
                        b0.id_of(),
                        b0.meta_of(),
                        b0.request_init_of(),
                        b0.response_init_of(),
                        if b0.bytes_of() + frame_len <= u64::MAX {
                            (b0.bytes_of() + frame_len) as u64
                        } else {
                            u64::MAX
                        },
                        Eos::CleanEnd,
                        now,
                    ))
                }) by {
                    assert(mid[i].sub_of() == old(self).taps_of()[i].sub_of());
                    if old(table)@[mid[i].sub_of()].live && backlog_of(old(table)@[mid[i].sub_of()])
                        + mid.len() <= old(table)@[mid[i].sub_of()].capacity {
                        assert(terminated(old(table)@, table@, mid[i], Eos::CleanEnd, now));
                    }
                }
            }
        }
    }

    /// Adds one frame's size to every attached tap's byte count.
    fn accumulate(&mut self, frame_len: usize)
        ensures
            final(self).taps_of().len() == old(self).taps_of().len(),
            forall|i: int| 0 <= i < old(self).taps_of().len() ==> {
                let b0 = old(self).taps_of()[i];
                let b1 = #[trigger] final(self).taps_of()[i];
                &&& b1.sub_of() == b0.sub_of()
                &&& b1.id_of() == b0.id_of()
                &&& b1.meta_of() == b0.meta_of()
                &&& b1.request_init_of() == b0.request_init_of()
                &&& b1.response_init_of() == b0.response_init_of()
                &&& b1.bytes_of() == if b0.bytes_of() + frame_len <= u64::MAX {
                    (b0.bytes_of() + frame_len) as u64
                } else {
                    u64::MAX
                }
            },
    {
        let mut i: usize = 0;
        let n = self.taps.len();
        while i < n
            invariant
                n == self.taps@.len(),
                0 <= i <= n,
                forall|k: int| 0 <= k < i ==> {
                    let b0 = old(self).taps_of()[k];
                    let b1 = #[trigger] self.taps@[k];
                    &&& b1.sub_of() == b0.sub_of()
                    &&& b1.id_of() == b0.id_of()
                    &&& b1.meta_of() == b0.meta_of()
                    &&& b1.request_init_of() == b0.request_init_of()
                    &&& b1.response_init_of() == b0.response_init_of()
                    &&& b1.bytes_of() == if b0.bytes_of() + frame_len <= u64::MAX {
                        (b0.bytes_of() + frame_len) as u64
                    } else {
                        u64::MAX
                    }
                },
                forall|k: int| i <= k < n ==> #[trigger] self.taps@[k] == old(self).taps_of()[k],
            decreases n - i,
        {
            let t = &mut self.taps[i];
            t.data(frame_len);
            i = i + 1;
        }
    }

    /// The stream reached its clean end (end-of-stream or trailers with no
    /// more data): every attached tap receives the terminal event with a
    /// clean-completion cause, and the attachments are dropped.
    pub fn eos(&mut self, table: &mut SubTable, now: u64)
        requires
            old(table).wf(),
            bodies_valid(old(self).taps_of(), old(table)@),
        ensures
            final(table).wf(),
            finish_stepped(old(table)@, final(table)@),
            final(self).taps_of().len() == 0,
            forall|i: int| 0 <= i < old(self).taps_of().len() ==> terminated_or_dropped(
                old(table)@,
                final(table)@,
                #[trigger] old(self).taps_of()[i],
                Eos::CleanEnd,
                now,
            ),
            forall|i: int| 0 <= i < old(self).taps_of().len() ==> ({
                let b = #[trigger] old(self).taps_of()[i];
                let v0 = old(table)@[b.sub_of()];
                &&& (!v0.live ==> events_for(final(table)@[b.sub_of()].emitted, b.id_of().stream)
                    == events_for(old(table)@[b.sub_of()].emitted, b.id_of().stream))
                &&& (v0.live && backlog_of(v0) + old(self).taps_of().len() <= v0.capacity
                    ==> terminated(old(table)@, final(table)@, b, Eos::CleanEnd, now))
            }),
    {
        self.send_all(table, Eos::CleanEnd, now);
    }

    /// The stream failed: every attached tap receives the terminal event
    /// with the failure's reason code, and the attachments are dropped.
    /// The error itself reaches the body's real consumer unchanged.
    pub fn fail(&mut self, table: &mut SubTable, reason: u32, now: u64)
        requires
            old(table).wf(),
            bodies_valid(old(self).taps_of(), old(table)@),
        ensures
            final(table).wf(),
            finish_stepped(old(table)@, final(table)@),
            final(self).taps_of().len() == 0,
            forall|i: int| 0 <= i < old(self).taps_of().len() ==> terminated_or_dropped(
                old(table)@,
                final(table)@,
                #[trigger] old(self).taps_of()[i],
                Eos::ProtocolError(reason),
                now,
            ),
            forall|i: int| 0 <= i < old(self).taps_of().len() ==> ({
                let b = #[trigger] old(self).taps_of()[i];
                let v0 = old(table)@[b.sub_of()];
                &&& (!v0.live ==> events_for(final(table)@[b.sub_of()].emitted, b.id_of().stream)
                    == events_for(old(table)@[b.sub_of()].emitted, b.id_of().stream))
                &&& (v0.live && backlog_of(v0) + old(self).taps_of().len() <= v0.capacity
                    ==> terminated(old(table)@, final(table)@, b, Eos::ProtocolError(reason), now))
            }),
    {
        self.send_all(table, Eos::ProtocolError(reason), now);
    }

    /// The body was discarded before reaching a terminal state: every
    /// attached tap receives the terminal event with a cancellation cause.
    pub fn cancel(&mut self, table: &mut SubTable, now: u64)
        requires
            old(table).wf(),
            bodies_valid(old(self).taps_of(), old(table)@),
        ensures
            final(table).wf(),
            finish_stepped(old(table)@, final(table)@),
            final(self).taps_of().len() == 0,
            forall|i: int| 0 <= i < old(self).taps_of().len() ==> terminated_or_dropped(
                old(table)@,
                final(table)@,
                #[trigger] old(self).taps_of()[i],
                Eos::Cancelled,
                now,
            ),
            forall|i: int| 0 <= i < old(self).taps_of().len() ==> ({
                let b = #[trigger] old(self).taps_of()[i];
                let v0 = old(table)@[b.sub_of()];
                &&& (!v0.live ==> events_for(final(table)@[b.sub_of()].emitted, b.id_of().stream)
                    == events_for(old(table)@[b.sub_of()].emitted, b.id_of().stream))
                &&& (v0.live && backlog_of(v0) + old(self).taps_of().len() <= v0.capacity
                    ==> terminated(old(table)@, final(table)@, b, Eos::Cancelled, now))
            }),
    {
        self.send_all(table, Eos::Cancelled, now);
    }

    /// Drains every attachment, sending each its terminal event.
    fn send_all(&mut self, table: &mut SubTable, end: Eos, now: u64)
        requires
            old(table).wf(),
            bodies_valid(old(self).taps_of(), old(table)@),
        ensures
            final(table).wf(),
            finish_stepped(old(table)@, final(table)@),
            final(self).taps_of().len() == 0,
            forall|i: int| 0 <= i < old(self).taps_of().len() ==> terminated_or_dropped(
                old(table)@,
                final(table)@,
                #[trigger] old(self).taps_of()[i],
                end,
                now,
            ),
            forall|i: int| 0 <= i < old(self).taps_of().len() ==> ({
                let b = #[trigger] old(self).taps_of()[i];
                let v0 = old(table)@[b.sub_of()];
                &&& (!v0.live ==> events_for(final(table)@[b.sub_of()].emitted, b.id_of().stream)
                    == events_for(old(table)@[b.sub_of()].emitted, b.id_of().stream))
                &&& (v0.live && backlog_of(v0) + old(self).taps_of().len() <= v0.capacity
                    ==> terminated(old(table)@, final(table)@, b, end, now))
            }),
    {
        let ghost orig = self.taps@;
        let ghost t0 = table@;
        let n0: usize = self.taps.len();
        let mut done: usize = 0;
        while self.taps.len() > 0
            invariant
                orig.len() == n0,
                done + self.taps@.len() == orig.len(),
                self.taps@ == orig.skip(done as int),
                table.wf(),
                finish_stepped(t0, table@),
                bodies_valid(orig, t0),
                bodies_valid(self.taps@, table@),
                forall|k: int| 0 <= k < done ==> terminated_or_dropped(
                    t0,
                    table@,
                    #[trigger] orig[k],
                    end,
                    now,
                ),
                forall|k: int| done <= k < orig.len() ==> events_for(
                    table@[(#[trigger] orig[k]).sub_of()].emitted,
                    orig[k].id_of().stream,
                ) == events_for(t0[orig[k].sub_of()].emitted, orig[k].id_of().stream),
                forall|j: int| 0 <= j < t0.len() ==> backlog_of(#[trigger] table@[j]) <= backlog_of(
                    t0[j],
                ) + done,
                forall|k: int| 0 <= k < done ==> ({
                    let o = #[trigger] orig[k];
                    let v0 = t0[o.sub_of()];
                    &&& (!v0.live ==> events_for(table@[o.sub_of()].emitted, o.id_of().stream)
                        == events_for(t0[o.sub_of()].emitted, o.id_of().stream))
                    &&& (v0.live && backlog_of(v0) + orig.len() <= v0.capacity ==> terminated(
                        t0,
                        table@,
                        o,
                        end,
                        now,
                    ))
                }),
            decreases self.taps@.len(),
        {
            let ghost t_cur = table@;
            let b = self.taps.remove(0);
            proof {
                assert(b == orig[done as int]);
                assert(self.taps@ =~= orig.skip(done as int + 1));
            }
            b.send_end(table, end, now);
            proof {
                let d = done as int;
                let sub = b.sub_of();
                let st = b.id_of().stream;
                if table@[sub].emitted != t_cur[sub].emitted {
                    crate::event::lemma_events_for_push(
                        t_cur[sub].emitted,
                        table@[sub].emitted.last(),
                        st,
                    );
                }
                assert forall|j: int| 0 <= j < t0.len() implies (#[trigger] table@[j]) =~= (
                SubView {
                    emitted: table@[j].emitted,
                    producers: table@[j].producers,
                    ..t0[j]
                }) && table@[j].producers <= t0[j].producers by {
                    assert(t_cur[j] =~= (SubView {
                        emitted: t_cur[j].emitted,
                        producers: t_cur[j].producers,
                        ..t0[j]
                    }));
                    if j != sub {
                        assert(table@[j] == t_cur[j]);
                    }
                }
                assert forall|k: int| d + 1 <= k < orig.len() implies (#[trigger] orig[k]).valid(
                    table@,
                ) && events_for(table@[orig[k].sub_of()].emitted, orig[k].id_of().stream)
                    == events_for(t0[orig[k].sub_of()].emitted, orig[k].id_of().stream) by {
                    let o = orig[k];
                    assert(o == orig.skip(d)[k - d]);
                    assert(o.valid(t_cur));
                    if o.sub_of() == sub {
                        assert(!(orig[d].sub_of() == orig[k].sub_of() && orig[d].id_of().stream
                            == orig[k].id_of().stream));
                        assert(o.id_of().stream != st);
                    }
                }
                assert forall|k: int| 0 <= k < d implies terminated_or_dropped(
                    t0,
                    table@,
                    #[trigger] orig[k],
                    end,
                    now,
                ) by {
                    let o = orig[k];
                    assert(terminated_or_dropped(t0, t_cur, o, end, now));
                    if o.sub_of() == sub {
                        assert(!(orig[k].sub_of() == orig[d].sub_of() && orig[k].id_of().stream
                            == orig[d].id_of().stream));
                        assert(o.id_of().stream != st);
                    }
                }
                assert(terminated_or_dropped(t0, table@, b, end, now));
                assert forall|j: int| 0 <= j < t0.len() implies backlog_of(#[trigger] table@[j])
                    <= backlog_of(t0[j]) + (d + 1) by {
                    if j != sub {
                        assert(table@[j] == t_cur[j]);
                    }
                }
                assert forall|k: int| 0 <= k < d + 1 implies ({
                    let o = #[trigger] orig[k];
                    let v0 = t0[o.sub_of()];
                    &&& (!v0.live ==> events_for(table@[o.sub_of()].emitted, o.id_of().stream)
                        == events_for(t0[o.sub_of()].emitted, o.id_of().stream))
                    &&& (v0.live && backlog_of(v0) + orig.len() <= v0.capacity ==> terminated(
                        t0,
                        table@,
                        o,
                        end,
                        now,
                    ))
                }) by {
                    let o = orig[k];
                    let v0 = t0[o.sub_of()];
                    if k < d {
                        if o.sub_of() == sub {
                            assert(!(orig[k].sub_of() == orig[d].sub_of() && orig[k].id_of().stream
                                == orig[d].id_of().stream));
                            assert(o.id_of().stream != st);
                        }
                    } else {
                        assert(t_cur[sub].live == v0.live);
                        assert(t_cur[sub].capacity == v0.capacity);
                        assert(events_for(t_cur[sub].emitted, st) == events_for(
                            t0[sub].emitted,
                            st,
                        ));
                        if v0.live && backlog_of(v0) + orig.len() <= v0.capacity {
                            assert(backlog_of(t_cur[sub]) <= backlog_of(v0) + d);
                            assert(d < orig.len());
                            assert(backlog_of(t_cur[sub]) < t_cur[sub].capacity);
                        }
                    }
                }
            }
            done = done + 1;
        }
    }
}

/// Appending one handle to a filtered prefix extends the filter's result
/// exactly when the handle passes.
proof fn lemma_filter_push_int(s: Seq<int>, e: int, p: spec_fn(int) -> bool)
    ensures
        s.push(e).filter(p) == if p(e) {
            s.filter(p).push(e)
        } else {
            s.filter(p)
        },
{
    reveal_with_fuel(Seq::filter, 2);
    assert(s.push(e).drop_last() =~= s);
    assert(s.push(e).last() == e);
    if p(e) {
        assert(s.push(e).filter(p) =~= s.filter(p).push(e));
    } else {
        assert(s.push(e).filter(p) =~= s.filter(p));
    }
}

} // verus!

//! Shared per-subscription state: the event budget, the bounded event sink,
//! and the consumer-liveness flag.
//!
//! Every subscription created by the endpoint lives in a [`SubTable`]; the
//! registered handle held by the middleware and the stream handle held by
//! the consumer both refer to their subscription by index.  The table's
//! operations are the atomic steps of the model: any interleaving of
//! concurrent admission attempts, emissions and polls is a sequence of these
//! steps, so what is proved of every sequence holds under every
//! interleaving.
//!
//! Budget accounting is exact: `try_admit` consumes one unit if and only if
//! a unit remains, and the counter only ever decreases, so a stale read can
//! never resurrect spent budget.  Emission is non-blocking: a full or
//! abandoned sink drops the event and the producer returns at once.

use vstd::prelude::*;

use crate::event::{events_for, lemma_events_for_push, stream_shape_ok, TapEvent};
use crate::matching::{Inspection, Match, RequestMeta};

verus! {

/// The abstract state of one subscription.
#[verifier::ext_equal]
pub struct SubView {
    /// The subscription's id; the `base` of every stream id in its sink.
    pub base_id: u32,
    /// The compiled filter.
    pub match_: Match,
    /// The event budget the subscriber asked for.
    pub limit: u32,
    /// Budget units not yet consumed by an admission.
    pub remaining: u32,
    /// Whether the consumer still holds its end of the event stream.
    pub live: bool,
    /// Producer ends still able to emit: the registered handle plus one per
    /// engaged exchange whose terminal event is still outstanding.
    pub producers: u32,
    /// The sink's bound: how many events may sit unconsumed.
    pub capacity: usize,
    /// Every event ever successfully enqueued, in emission order.
    pub emitted: Seq<TapEvent>,
    /// How many of `emitted` the consumer has taken; the consumer observes
    /// exactly `emitted.take(taken)`, in order.
    pub taken: int,
}

/// Exchanges admitted so far: each admission consumed one budget unit.
pub open spec fn admitted_of(v: SubView) -> int {
    v.limit - v.remaining
}

/// Events enqueued but not yet taken by the consumer.
pub open spec fn backlog_of(v: SubView) -> int {
    v.emitted.len() - v.taken
}

/// Well-formedness of one subscription's abstract state.
pub open spec fn sub_wf(v: SubView) -> bool {
    &&& 0 < v.limit < u32::MAX
    &&& v.remaining <= v.limit
    &&& 0 <= v.taken <= v.emitted.len()
    &&& backlog_of(v) <= v.capacity
    &&& v.producers <= 1 + admitted_of(v)
    &&& forall|st: u64| stream_shape_ok(#[trigger] events_for(v.emitted, st))
    &&& forall|st: u64| st >= admitted_of(v) ==> (#[trigger] events_for(v.emitted, st)).len()
        == 0
    &&& forall|i: int| 0 <= i < v.emitted.len() ==> (#[trigger] v.emitted[i]).spec_id().base
        == v.base_id
}

/// The events of one stream, as the table currently holds them.
pub open spec fn stream_evs(t: Seq<SubView>, sub: int, st: u64) -> Seq<TapEvent> {
    events_for(t[sub].emitted, st)
}

/// The stream has exactly its `RequestOpen` so far: the phase in which an
/// engaged exchange waits for its response.
pub open spec fn req_open_phase(t: Seq<SubView>, sub: int, st: u64) -> bool {
    &&& stream_evs(t, sub, st).len() == 1
    &&& stream_evs(t, sub, st)[0].is_request_open()
}

/// The stream has no terminal event yet: `RequestOpen`, optionally followed
/// by `ResponseOpen`.  The phase in which an observed body still runs.
pub open spec fn no_terminal_phase(t: Seq<SubView>, sub: int, st: u64) -> bool {
    &&& 1 <= stream_evs(t, sub, st).len() <= 2
    &&& stream_evs(t, sub, st)[0].is_request_open()
    &&& stream_evs(t, sub, st).len() == 2 ==> stream_evs(t, sub, st)[1].is_response_open()
}

/// One subscription's concrete state.  `queue` holds the enqueued events the
/// consumer has not yet taken; `hist` and `taken` are the ghost record tying
/// the queue to the full emission history.
pub struct Subscription {
    base_id: u32,
    match_: Match,
    limit: u32,
    remaining: u32,
    live: bool,
    producers: u32,
    capacity: usize,
    queue: Vec<TapEvent>,
    hist: Ghost<Seq<TapEvent>>,
    taken: Ghost<int>,
}

impl View for Subscription {
    type V = SubView;

    closed spec fn view(&self) -> SubView {
        SubView {
            base_id: self.base_id,
            match_: self.match_,
            limit: self.limit,
            remaining: self.remaining,
            live: self.live,
            producers: self.producers,
            capacity: self.capacity,
            emitted: self.hist@,
            taken: self.taken@,
        }
    }
}

impl Subscription {
    /// The concrete queue holds exactly the unconsumed suffix of the history.
    pub closed spec fn inv(self) -> bool {
        &&& self.queue@ == self.hist@.skip(self.taken@)
        &&& sub_wf(self@)
    }
}

/// What one step of the consumer's stream yields.
pub enum PollOutcome {
    /// The next event, in emission order.
    Event(TapEvent),
    /// Nothing queued, but producers remain: more events may yet come.
    Pending,
    /// Nothing queued and every producer is gone: the stream ends cleanly.
    End,
}

/// The table of all subscriptions ever created.  Entries are never removed,
/// so an index, once handed out, stays valid.
pub struct SubTable {
    subs: Vec<Subscription>,
}

impl View for SubTable {
    type V = Seq<SubView>;

    closed spec fn view(&self) -> Seq<SubView> {
        self.subs@.map_values(|s: Subscription| s@)
    }
}

impl SubTable {
    /// Concrete invariants of every entry.
    pub closed spec fn inv(self) -> bool {
        forall|i: int| 0 <= i < self.subs@.len() ==> (#[trigger] self.subs@[i]).inv()
    }

    /// Every subscription's abstract state is well-formed.
    pub open spec fn wf(self) -> bool {
        &&& self.inv()
        &&& forall|i: int| 0 <= i < self@.len() ==> sub_wf(#[trigger] self@[i])
    }

    pub fn new() -> (r: SubTable)
        ensures
            r.wf(),
            r@ =~= Seq::<SubView>::empty(),
    {
        let r = SubTable { subs: Vec::new() };
        proof {
            assert(r@ =~= Seq::<SubView>::empty());
        }
        r
    }

    pub fn n_subs(&self) -> (n: usize)
        ensures
            n == self@.len(),
    {
        self.subs.len()
    }

    /// Creates a subscription with a fresh, empty sink and a full budget.
    /// Returns its index.
    pub fn add_subscription(&mut self, base_id: u32, match_: Match, limit: u32, capacity: usize)
        -> (sub: usize)
        requires
            old(self).wf(),
            0 < limit < u32::MAX,
        ensures
            final(self).wf(),
            sub == old(self)@.len(),
            final(self)@ =~= old(self)@.push(
                SubView {
                    base_id,
                    match_,
                    limit,
                    remaining: limit,
                    live: true,
                    producers: 1,
                    capacity,
                    emitted: Seq::<TapEvent>::empty(),
                    taken: 0,
                },
            ),
    {
        let sub = self.subs.len();
        let s = Subscription {
            base_id,
            match_,
            limit,
            remaining: limit,
            live: true,
            producers: 1,
            capacity,
            queue: Vec::new(),
            hist: Ghost(Seq::empty()),
            taken: Ghost(0),
        };
        proof {
            assert forall|st: u64| (#[trigger] events_for(s.hist@, st)) =~= Seq::<
                TapEvent,
            >::empty() by {
                reveal_with_fuel(Seq::filter, 2);
            }
            assert(s.queue@ =~= s.hist@.skip(s.taken@));
            assert(s.inv());
        }
        self.subs.push(s);
        proof {
            assert(self@ =~= old(self)@.push(s@));
        }
        sub
    }

    /// Whether the consumer still holds its end of the stream.
    pub fn is_live(&self, sub: usize) -> (r: bool)
        requires
            sub < self@.len(),
        ensures
            r == self@[sub as int].live,
    {
        self.subs[sub].live
    }

    /// Whether the subscription can still tap a request: the consumer is
    /// present and budget remains.
    pub fn can_tap_more(&self, sub: usize) -> (r: bool)
        requires
            sub < self@.len(),
        ensures
            r == (self@[sub as int].live && self@[sub as int].remaining > 0),
    {
        let s = &self.subs[sub];
        s.live && s.remaining > 0
    }

    /// The compiled filter, for evaluation against a request.
    pub fn match_of(&self, sub: usize) -> (r: &Match)
        requires
            sub < self@.len(),
        ensures
            *r == self@[sub as int].match_,
    {
        &self.subs[sub].match_
    }

    /// Evaluates the subscription's filter against a request; no side
    /// effects, safe from any number of concurrent requests.
    pub fn matches(&self, sub: usize, req: &RequestMeta, inspect: &Inspection) -> (r: bool)
        requires
            sub < self@.len(),
        ensures
            r == self@[sub as int].match_.spec_matches(*req, *inspect),
    {
        self.subs[sub].match_.matches(req, inspect)
    }

    /// The subscription's id.
    pub fn base_id_of(&self, sub: usize) -> (r: u32)
        requires
            sub < self@.len(),
        ensures
            r == self@[sub as int].base_id,
    {
        self.subs[sub].base_id
    }

    /// Atomically consumes one budget unit if any remains, returning the
    /// admitted exchange's stream number.  Exactly-once: a unit is consumed
    /// if and only if `Some` is returned, and the counter never goes below
    /// zero.  The counter only ever decreases and is never reused, so a
    /// compare-and-swap retry loop over it is safe from resurrection: a
    /// stale value can only make an attempt retry, never over-admit.
    pub fn try_admit(&mut self, sub: usize) -> (r: Option<u64>)
        requires
            old(self).wf(),
            sub < old(self)@.len(),
        ensures
            final(self).wf(),
            final(self)@.len() == old(self)@.len(),
            forall|j: int| 0 <= j < final(self)@.len() && j != sub ==> final(self)@[j] == old(self)@[j],
            ({
                let v0 = old(self)@[sub as int];
                if v0.remaining > 0 {
                    &&& r == Some(admitted_of(v0) as u64)
                    &&& final(self)@[sub as int] =~= SubView {
                        remaining: (v0.remaining - 1) as u32,
                        ..v0
                    }
                } else {
                    &&& r == None::<u64>
                    &&& final(self)@[sub as int] == v0
                }
            }),
    {
        let ghost t0 = self@;
        let s = &mut self.subs[sub];
        if s.remaining > 0 {
            let n = s.limit - s.remaining;
            s.remaining = s.remaining - 1;
            proof {
                Self::lemma_frame(t0, self@, old(self), self, sub as int);
            }
            Some(n as u64)
        } else {
            proof {
                Self::lemma_frame(t0, self@, old(self), self, sub as int);
                assert(self@[sub as int] == t0[sub as int]);
            }
            None
        }
    }

    /// After mutating entry `sub` through a borrow, every other entry's
    /// abstract state is unchanged.
    proof fn lemma_frame(t0: Seq<SubView>, t1: Seq<SubView>, s0: &SubTable, s1: &SubTable, sub: int)
        requires
            t0 == s0@,
            t1 == s1@,
            s1.subs@.len() == s0.subs@.len(),
            forall|j: int| 0 <= j < s0.subs@.len() && j != sub ==> s1.subs@[j] == s0.subs@[j],
        ensures
            t1.len() == t0.len(),
            forall|j: int| 0 <= j < t0.len() && j != sub ==> t1[j] == t0[j],
    {
    }

    /// Non-blocking enqueue into the subscription's sink: appends the event
    /// when the consumer is present and the sink has room, and otherwise
    /// drops it.  Either way the producer returns immediately.
    ///
    /// The caller supplies an event of an already admitted stream of this
    /// subscription that keeps the stream's event order well-formed.
    pub fn enqueue(&mut self, sub: usize, ev: TapEvent) -> (r: bool)
        requires
            old(self).wf(),
            sub < old(self)@.len(),
            ev.spec_id().base == old(self)@[sub as int].base_id,
            ev.spec_id().stream < admitted_of(old(self)@[sub as int]),
            stream_shape_ok(
                events_for(old(self)@[sub as int].emitted, ev.spec_id().stream).push(ev),
            ),
        ensures
            final(self).wf(),
            final(self)@.len() == old(self)@.len(),
            forall|j: int| 0 <= j < final(self)@.len() && j != sub ==> final(self)@[j] == old(self)@[j],
            ({
                let v0 = old(self)@[sub as int];
                let v1 = final(self)@[sub as int];
                if v0.live && backlog_of(v0) < v0.capacity {
                    &&& r == true
                    &&& v1 =~= SubView { emitted: v0.emitted.push(ev), ..v0 }
                } else {
                    &&& r == false
                    &&& v1 == v0
                }
            }),
            forall|st: u64| st != ev.spec_id().stream ==> #[trigger] events_for(
                final(self)@[sub as int].emitted,
                st,
            ) == events_for(old(self)@[sub as int].emitted, st),
    {
        let ghost t0 = self@;
        let ghost v0 = self@[sub as int];
        let s = &mut self.subs[sub];
        let r = if s.live && s.queue.len() < s.capacity {
            s.queue.push(ev);
            proof {
                s.hist@ = s.hist@.push(ev);
            }
            proof {
                assert(s.queue@ =~= s.hist@.skip(s.taken@));
                assert forall|st: u64| stream_shape_ok(#[trigger] events_for(s.hist@, st)) by {
                    lemma_events_for_push(v0.emitted, ev, st);
                }
                assert forall|st: u64| st >= admitted_of(s@) implies (#[trigger] events_for(
                    s.hist@,
                    st,
                )).len() == 0 by {
                    lemma_events_for_push(v0.emitted, ev, st);
                }
                assert(s@ =~= SubView { emitted: v0.emitted.push(ev), ..v0 });
            }
            true
        } else {
            false
        };
        proof {
            Self::lemma_frame(t0, self@, old(self), self, sub as int);
            assert forall|st: u64| st != ev.spec_id().stream implies #[trigger] events_for(
                self@[sub as int].emitted,
                st,
            ) == events_for(t0[sub as int].emitted, st) by {
                if self@[sub as int].emitted != t0[sub as int].emitted {
                    lemma_events_for_push(v0.emitted, ev, st);
                }
            }
        }
        r
    }

    /// One step of the consumer's stream: the next queued event in emission
    /// order, or `Pending` while producers remain, or `End` once every
    /// producer is gone.  The normal exhaustion path is a clean end, never
    /// an error.
    pub fn poll(&mut self, sub: usize) -> (r: PollOutcome)
        requires
            old(self).wf(),
            sub < old(self)@.len(),
        ensures
            final(self).wf(),
            final(self)@.len() == old(self)@.len(),
            forall|j: int| 0 <= j < final(self)@.len() && j != sub ==> final(self)@[j] == old(self)@[j],
            ({
                let v0 = old(self)@[sub as int];
                let v1 = final(self)@[sub as int];
                if v0.taken < v0.emitted.len() {
                    &&& r == PollOutcome::Event(v0.emitted[v0.taken])
                    &&& v1 =~= SubView { taken: v0.taken + 1, ..v0 }
                } else if v0.producers > 0 {
                    &&& r == PollOutcome::Pending
                    &&& v1 == v0
                } else {
                    &&& r == PollOutcome::End
                    &&& v1 == v0
                }
            }),
    {
        let ghost t0 = self@;
        let ghost v0 = self@[sub as int];
        let s = &mut self.subs[sub];
        let r = if s.queue.len() > 0 {
            let ev = s.queue.remove(0);
            proof {
                s.taken@ = s.taken@ + 1;
            }
            proof {
                assert(s.queue@ =~= s.hist@.skip(s.taken@));
                assert(ev == v0.emitted[v0.taken]);
                assert(s@ =~= SubView { taken: v0.taken + 1, ..v0 });
            }
            PollOutcome::Event(ev)
        } else if s.producers > 0 {
            PollOutcome::Pending
        } else {
            PollOutcome::End
        };
        proof {
            Self::lemma_frame(t0, self@, old(self), self, sub as int);
        }
        r
    }

    /// The consumer has dropped its end of the stream.  Detected lazily by
    /// the middleware's pruning; nothing else is torn down here.
    pub fn drop_consumer(&mut self, sub: usize)
        requires
            old(self).wf(),
            sub < old(self)@.len(),
        ensures
            final(self).wf(),
            final(self)@.len() == old(self)@.len(),
            forall|j: int| 0 <= j < final(self)@.len() && j != sub ==> final(self)@[j] == old(self)@[j],
            final(self)@[sub as int] =~= (SubView { live: false, ..old(self)@[sub as int] }),
    {
        let ghost t0 = self@;
        let s = &mut self.subs[sub];
        s.live = false;
        proof {
            Self::lemma_frame(t0, self@, old(self), self, sub as int);
        }
    }

    /// A new producer end: an exchange was engaged and will emit into this
    /// sink until its terminal event.
    pub fn add_producer(&mut self, sub: usize)
        requires
            old(self).wf(),
            sub < old(self)@.len(),
            old(self)@[sub as int].producers <= admitted_of(old(self)@[sub as int]),
        ensures
            final(self).wf(),
            final(self)@.len() == old(self)@.len(),
            forall|j: int| 0 <= j < final(self)@.len() && j != sub ==> final(self)@[j] == old(
                self,
            )@[j],
            final(self)@[sub as int] =~= (SubView {
                producers: (old(self)@[sub as int].producers + 1) as u32,
                ..old(self)@[sub as int]
            }),
    {
        let ghost t0 = self@;
        let s = &mut self.subs[sub];
        s.producers = s.producers + 1;
        proof {
            Self::lemma_frame(t0, self@, old(self), self, sub as int);
        }
    }

    /// One producer end is gone: a pruned handle or a finished exchange.
    pub fn drop_producer(&mut self, sub: usize)
        requires
            old(self).wf(),
            sub < old(self)@.len(),
        ensures
            final(self).wf(),
            final(self)@.len() == old(self)@.len(),
            forall|j: int| 0 <= j < final(self)@.len() && j != sub ==> final(self)@[j] == old(self)@[j],
            final(self)@[sub as int] =~= (SubView {
                producers: if old(self)@[sub as int].producers > 0 {
                    (old(self)@[sub as int].producers - 1) as u32
                } else {
                    0
                },
                ..old(self)@[sub as int]
            }),
    {
        let ghost t0 = self@;
        let s = &mut self.subs[sub];
        if s.producers > 0 {
            s.producers = s.producers - 1;
        }
        proof {
            Self::lemma_frame(t0, self@, old(self), self, sub as int);
        }
    }
}

} // verus!

//! The subsystem's global guarantees, stated and proved over the same
//! views the operations' contracts use.

use vstd::prelude::*;

use crate::event::{events_for, stream_shape_ok, TapEvent};
use crate::subs::{admitted_of, SubTable};

verus! {

/// The number of successful admissions after `k` attempts against an
/// initial budget `b`, when every attempt takes the exact step `try_admit`
/// performs: consume one unit if and only if one remains.  Because each
/// attempt is that same atomic step, any interleaving of concurrent
/// attempts is some sequence of `k` steps, and this count covers them all.
pub open spec fn successes_after(b: int, k: nat) -> int
    decreases k,
{
    if k == 0 {
        0
    } else {
        let prev = successes_after(b, (k - 1) as nat);
        prev + if b - prev > 0 {
            1int
        } else {
            0int
        }
    }
}

/// Law: for any sequence of admission attempts against one handle with
/// initial budget `b`, exactly `min(b, k)` of the first `k` attempts
/// succeed, and the remaining budget `b - successes` never goes negative.
pub proof fn lemma_admissions_exact(b: int, k: nat)
    requires
        b >= 0,
    ensures
        successes_after(b, k) == if k <= b {
            k as int
        } else {
            b
        },
        b - successes_after(b, k) >= 0,
    decreases k,
{
    if k > 0 {
        lemma_admissions_exact(b, (k - 1) as nat);
    }
}

/// Law: a stream never carries more than one terminal event, and nothing
/// follows its terminal: any `ResponseEnd` among one stream's events is
/// its last event.
pub proof fn lemma_single_terminal(table: &SubTable, sub: int, st: u64)
    requires
        table.wf(),
        0 <= sub < table@.len(),
    ensures
        ({
            let evs = events_for(table@[sub].emitted, st);
            forall|i: int| 0 <= i < evs.len() && (#[trigger] evs[i]).is_response_end() ==> i
                == evs.len() - 1
        }),
{
    let evs = events_for(table@[sub].emitted, st);
    assert(stream_shape_ok(evs));
}

/// Law: stream numbers at or past the consumed budget carry no events:
/// the handle never enqueues more exchanges' events than its original
/// budget admits.
pub proof fn lemma_budget_bounds_streams(table: &SubTable, sub: int, st: u64)
    requires
        table.wf(),
        0 <= sub < table@.len(),
        st >= table@[sub].limit,
    ensures
        events_for(table@[sub].emitted, st).len() == 0,
{
    assert(admitted_of(table@[sub]) <= table@[sub].limit);
}

/// A filtered prefix is a prefix of the filtered whole: what a stream's
/// consumer has seen so far is an initial segment of what was emitted for
/// that stream.
pub proof fn lemma_events_for_prefix(s: Seq<TapEvent>, n: int, st: u64)
    requires
        0 <= n <= s.len(),
    ensures
        events_for(s.take(n), st).is_prefix_of(events_for(s, st)),
    decreases s.len() - n,
{
    if n == s.len() {
        assert(s.take(n) =~= s);
        assert(events_for(s, st).is_prefix_of(events_for(s, st)));
    } else {
        let s1 = s.take(s.len() - 1);
        assert(s =~= s1.push(s.last()));
        crate::event::lemma_events_for_push(s1, s.last(), st);
        lemma_events_for_prefix(s1, n, st);
        assert(s1.take(n) =~= s.take(n));
        let a = events_for(s.take(n), st);
        let b = events_for(s1, st);
        let c = events_for(s, st);
        assert(a.is_prefix_of(b));
        assert(b == c || c == b.push(s.last()));
        assert(a.len() <= c.len());
        assert(a =~= c.subrange(0, a.len() as int));
    }
}

/// Law: the consumer observes each stream's events in emission order and
/// in the ordering discipline: `RequestOpen`, then optionally
/// `ResponseOpen`, then at most one terminal — never reordered, whatever
/// the consumer has or has not yet taken.
pub proof fn lemma_observed_stream_order(table: &SubTable, sub: int, st: u64)
    requires
        table.wf(),
        0 <= sub < table@.len(),
    ensures
        ({
            let v = table@[sub];
            stream_shape_ok(events_for(v.emitted.take(v.taken), st))
        }),
{
    let v = table@[sub];
    let full = events_for(v.emitted, st);
    let obs = events_for(v.emitted.take(v.taken), st);
    assert(stream_shape_ok(full));
    lemma_events_for_prefix(v.emitted, v.taken, st);
    assert(obs =~= full.subrange(0, obs.len() as int));
    assert(obs.len() >= 1 ==> obs[0] == full[0]);
    assert(obs.len() >= 2 ==> obs[1] == full[1]);
    assert(obs.len() >= 3 ==> obs[2] == full[2]);
}

} // verus!

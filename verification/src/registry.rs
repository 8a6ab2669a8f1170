//! The append-only feed through which newly created subscriptions reach the
//! middleware.  The endpoint pushes a handle per subscription; each
//! middleware readiness step drains everything pushed since its last one.

use vstd::prelude::*;

use crate::server::Tap;
use crate::subs::SubView;

verus! {

/// Every handle refers to an existing subscription of the table.
pub open spec fn handles_ok(hs: Seq<int>, t: Seq<SubView>) -> bool {
    forall|i: int| 0 <= i < hs.len() ==> 0 <= #[trigger] hs[i] < t.len()
}

/// The feed of newly registered tap handles.
pub struct Registry {
    pending: Vec<Tap>,
}

impl View for Registry {
    type V = Seq<int>;

    closed spec fn view(&self) -> Seq<int> {
        self.pending@.map_values(|t: Tap| t@)
    }
}

impl Registry {
    pub fn new() -> (r: Registry)
        ensures
            r@ =~= Seq::<int>::empty(),
    {
        let r = Registry { pending: Vec::new() };
        proof {
            assert(r@ =~= Seq::<int>::empty());
        }
        r
    }

    /// Announces a freshly created subscription to the middleware.
    pub fn register(&mut self, t: Tap)
        ensures
            final(self)@ =~= old(self)@.push(t@),
    {
        self.pending.push(t);
        proof {
            assert(self@ =~= old(self)@.push(t@));
        }
    }

    /// Hands over everything registered since the last drain, emptying the
    /// feed.  The returned handles keep their registration order.
    pub fn drain(&mut self) -> (r: Vec<Tap>)
        ensures
            final(self)@ =~= Seq::<int>::empty(),
            r@.map_values(|t: Tap| t@) == old(self)@,
    {
        let mut r: Vec<Tap> = Vec::new();
        core::mem::swap(&mut r, &mut self.pending);
        proof {
            assert(self@ =~= Seq::<int>::empty());
        }
        r
    }
}

} // verus!

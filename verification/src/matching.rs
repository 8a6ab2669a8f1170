//! Subscription filters.
//!
//! A subscriber hands in a [`MatchSpec`]; the endpoint compiles it into a
//! [`Match`], rejecting ill-formed specifications.  A compiled match is an
//! effect-free boolean test over a request and its connection-inspection
//! metadata, safe to evaluate from any number of concurrent requests.

use vstd::prelude::*;

verus! {

/// The request attributes a filter can see and a `RequestOpen` event reports.
pub struct RequestMeta {
    pub method: String,
    pub scheme: Option<String>,
    pub authority: String,
    pub path: String,
}

/// Connection-inspection metadata for one request: addresses, transport
/// security state, and destination labels.
pub struct Inspection {
    pub outbound: bool,
    pub source: Option<String>,
    pub source_tls: String,
    pub destination: Option<String>,
    pub destination_tls: String,
    pub destination_labels: Option<Vec<(String, String)>>,
}

/// A filter specification as received from the subscribing caller.
pub enum MatchSpec {
    /// Matches every request.
    All,
    /// Matches requests whose path equals the given one.
    Path(String),
    /// Matches requests whose path equals any of the given ones.
    /// An empty list is ill-formed and fails to compile.
    AnyPath(Vec<String>),
    /// Matches requests whose destination address equals the given one.
    Destination(String),
}

/// Why a [`MatchSpec`] failed to compile.
#[derive(Clone, Copy, PartialEq, Eq, Structural, Debug)]
pub enum InvalidMatch {
    /// The specification contains an empty alternative list.
    Empty,
}

/// A compiled filter.
pub enum Match {
    All,
    Path(String),
    AnyPath(Vec<String>),
    Destination(String),
}

impl Match {
    /// What the filter accepts: a pure function of the request and its
    /// inspection metadata.
    pub open spec fn spec_matches(self, req: RequestMeta, inspect: Inspection) -> bool {
        match self {
            Match::All => true,
            Match::Path(p) => p@ == req.path@,
            Match::AnyPath(ps) => exists|i: int| 0 <= i < ps@.len() && ps@[i]@ == req.path@,
            Match::Destination(d) => match inspect.destination {
                Some(a) => d@ == a@,
                None => false,
            },
        }
    }

    /// Compiles a specification, rejecting ill-formed ones.
    pub fn try_new(spec: MatchSpec) -> (r: Result<Match, InvalidMatch>)
        ensures
            match spec {
                MatchSpec::AnyPath(ps) => if ps@.len() == 0 {
                    r == Result::<Match, InvalidMatch>::Err(InvalidMatch::Empty)
                } else {
                    r == Result::<Match, InvalidMatch>::Ok(Match::AnyPath(ps))
                },
                MatchSpec::All => r == Result::<Match, InvalidMatch>::Ok(Match::All),
                MatchSpec::Path(p) => r == Result::<Match, InvalidMatch>::Ok(Match::Path(p)),
                MatchSpec::Destination(d) => r == Result::<Match, InvalidMatch>::Ok(
                    Match::Destination(d),
                ),
            },
    {
        match spec {
            MatchSpec::All => Ok(Match::All),
            MatchSpec::Path(p) => Ok(Match::Path(p)),
            MatchSpec::AnyPath(ps) => {
                if ps.len() == 0 {
                    Err(InvalidMatch::Empty)
                } else {
                    Ok(Match::AnyPath(ps))
                }
            },
            MatchSpec::Destination(d) => Ok(Match::Destination(d)),
        }
    }

    /// Evaluates the filter; no side effects.
    pub fn matches(&self, req: &RequestMeta, inspect: &Inspection) -> (r: bool)
        ensures
            r == self.spec_matches(*req, *inspect),
    {
        match self {
            Match::All => true,
            Match::Path(p) => *p == req.path,
            Match::AnyPath(ps) => {
                let mut i: usize = 0;
                let mut found = false;
                while i < ps.len()
                    invariant
                        0 <= i <= ps@.len(),
                        found == exists|j: int| 0 <= j < i && ps@[j]@ == req.path@,
                    decreases ps@.len() - i,
                {
                    let e: &String = &ps[i];
                    if *e == req.path {
                        found = true;
                        assert(ps@[i as int]@ == req.path@);
                    }
                    i = i + 1;
                    assert(found == exists|j: int| 0 <= j < i && ps@[j]@ == req.path@) by {
                        if !found {
                            assert(forall|j: int| 0 <= j < i ==> ps@[j]@ != req.path@);
                        }
                    }
                }
                found
            },
            Match::Destination(d) => match &inspect.destination {
                Some(a) => *d == *a,
                None => false,
            },
        }
    }
}

impl InvalidMatch {
    /// A human-readable reason, surfaced in the invalid-argument error.
    pub fn message(&self) -> (r: String)
        ensures
            r@ == "empty match list"@,
    {
        "empty match list".to_string()
    }
}

} // verus!

//! The transport-selecting resolver: one handle over two interchangeable
//! DNS-over-HTTPS transports (default route, tunneled) and a disabled state.
//! The active transport is swapped wholesale, never mutated in place; toggling
//! to the state already active must not rebuild anything.  The network calls
//! themselves live with the caller; this models the state machine and the
//! decisions around each lookup.

use vstd::prelude::*;
use crate::convert::{doh_records_to_lookup, records_match, spec_min_ttl, DohAnswer};
use crate::dns::{DnsQuery, ForwardLookup, RecordType, ResolveError};
use crate::netif::IpAddress;

verus! {

/// The number of lookups that may be in flight at once.
pub const LOOKUP_PERMITS: usize = 50;

/// An upstream DNS-over-HTTPS server descriptor: hostname, query path, its
/// addresses, and the per-request timeout.  Immutable once constructed; used
/// to (re)build transport clients.
#[derive(Debug, Clone)]
pub struct DnsHttpsServer {
    pub name: String,
    pub path: String,
    pub addrs: Vec<IpAddress>,
    pub timeout_secs: u64,
}

/// Which transport is active.
#[derive(Debug, Clone, Copy, PartialEq, Eq, Structural)]
pub enum ResolverSelection {
    /// A client over the host's default route.
    DefaultRoute,
    /// A client bound to the tunnel interface.
    Tunneled,
    /// No transport; lookups fail at once.
    Disabled,
}

/// The requested mode a selection corresponds to: tunneled, default route,
/// or disabled.
pub open spec fn mode_of(sel: ResolverSelection) -> Option<bool> {
    match sel {
        ResolverSelection::Tunneled => Option::Some(true),
        ResolverSelection::DefaultRoute => Option::Some(false),
        ResolverSelection::Disabled => Option::None,
    }
}

/// The selection a requested mode calls for.
pub open spec fn selection_of(tunneled: Option<bool>) -> ResolverSelection {
    match tunneled {
        Option::Some(true) => ResolverSelection::Tunneled,
        Option::Some(false) => ResolverSelection::DefaultRoute,
        Option::None => ResolverSelection::Disabled,
    }
}

/// Whether a toggle request actually changes the state.
pub open spec fn needs_update(sel: ResolverSelection, tunneled: Option<bool>) -> bool {
    selection_of(tunneled) != sel
}

/// Toggling to the mode a selection is already in never calls for an update.
pub proof fn lemma_toggle_same_mode_noop(sel: ResolverSelection)
    ensures
        !needs_update(sel, mode_of(sel)),
{
}

/// What a lookup does for a record type: query the upstream, return an empty
/// answer set (one unknown type code is special-cased, to avoid error noise
/// for a known harmless client behavior), or fail as unsupported.
#[derive(Debug, Clone, Copy, PartialEq, Eq, Structural)]
pub enum LookupDispatch {
    Query,
    Empty,
    Unsupported,
}

/// The dispatch a record type calls for.
pub open spec fn spec_dispatch(rt: RecordType) -> LookupDispatch {
    match rt {
        RecordType::Unknown(code) => if code == 65 {
            LookupDispatch::Empty
        } else {
            LookupDispatch::Unsupported
        },
        _ => LookupDispatch::Query,
    }
}

/// Decides what a lookup does for the record type.
pub fn dispatch_for(rt: RecordType) -> (r: LookupDispatch)
    ensures
        r == spec_dispatch(rt),
{
    match rt {
        RecordType::Unknown(code) => {
            if code == 65 {
                LookupDispatch::Empty
            } else {
                LookupDispatch::Unsupported
            }
        },
        _ => LookupDispatch::Query,
    }
}

/// How one upstream transport call fails.
#[derive(Debug, Clone)]
pub enum UpstreamError {
    /// The upstream answered NXDOMAIN.
    NxDomain,
    /// Any other transport or protocol failure, with its message.
    Other(String),
}

/// What a lookup must do next, given the active state and the record type.
pub enum LookupStep {
    /// Fail at once, without any I/O.
    Fail(ResolveError),
    /// Convert an empty answer set.
    EmptyAnswer,
    /// Query the active transport (`true`: the tunneled one).
    Query(bool),
}

/// The resolver handle: the configured upstream servers and the active
/// transport selection.  `constructions` counts how many transport clients
/// have been built over the handle's lifetime.
pub struct Resolver {
    name_servers: Vec<DnsHttpsServer>,
    selection: ResolverSelection,
    constructions: u64,
}

impl Resolver {
    /// The configured upstream servers.
    pub closed spec fn spec_servers(&self) -> Seq<DnsHttpsServer> {
        self.name_servers@
    }

    /// The active selection.
    pub closed spec fn spec_selection(&self) -> ResolverSelection {
        self.selection
    }

    /// How many transport clients were built so far.
    pub closed spec fn spec_constructions(&self) -> u64 {
        self.constructions
    }

    /// Creates a resolver over the given servers; the initial state is the
    /// default route, with its client built once.
    pub fn new(name_servers: Vec<DnsHttpsServer>) -> (r: Resolver)
        ensures
            r.spec_servers() == name_servers@,
            r.spec_selection() == ResolverSelection::DefaultRoute,
            r.spec_constructions() == 1,
    {
        Resolver { name_servers, selection: ResolverSelection::DefaultRoute, constructions: 1 }
    }

    /// The servers, for rebuilding a transport client.
    pub fn servers(&self) -> (r: &Vec<DnsHttpsServer>)
        ensures
            r@ == self.spec_servers(),
    {
        &self.name_servers
    }

    /// The active selection.
    pub fn selection(&self) -> (r: ResolverSelection)
        ensures
            r == self.spec_selection(),
    {
        self.selection
    }

    /// Applies a toggle request: a request for the state already active is a
    /// no-op and builds nothing; otherwise the selection is replaced
    /// wholesale, and a client is counted as built for the two transport
    /// states (the disabled state has no client).
    pub fn toggle(&mut self, tunneled: Option<bool>)
        ensures
            final(self).spec_servers() == old(self).spec_servers(),
            (!needs_update(old(self).spec_selection(), tunneled) ==> *final(self) == *old(self)),
            (needs_update(old(self).spec_selection(), tunneled) ==> final(self).spec_selection()
                == selection_of(tunneled) && final(self).spec_constructions() == (
            if tunneled is Some {
                old(self).spec_constructions().saturating_add(1)
            } else {
                old(self).spec_constructions()
            })),
    {
        let requested = match tunneled {
            Some(true) => ResolverSelection::Tunneled,
            Some(false) => ResolverSelection::DefaultRoute,
            None => ResolverSelection::Disabled,
        };
        if requested == self.selection {
            return ;
        }
        self.selection = requested;
        match tunneled {
            Some(_) => {
                if self.constructions < u64::MAX {
                    self.constructions = self.constructions + 1;
                }
            },
            None => {},
        }
    }

    /// Decides how a lookup proceeds under the active state: against the
    /// disabled state it fails at once without I/O; a record type without a
    /// transport operation fails as unsupported or yields an empty answer
    /// set; otherwise the active transport is queried.
    pub fn lookup_step(&self, rtype: RecordType) -> (r: LookupStep)
        ensures
            self.spec_selection() == ResolverSelection::Disabled ==> (r matches LookupStep::Fail(e)
                && e matches ResolveError::Message(_)),
            self.spec_selection() != ResolverSelection::Disabled ==> match spec_dispatch(rtype) {
                LookupDispatch::Query => r == LookupStep::Query(
                    self.spec_selection() == ResolverSelection::Tunneled,
                ),
                LookupDispatch::Empty => r == LookupStep::EmptyAnswer,
                LookupDispatch::Unsupported => r matches LookupStep::Fail(e) && e matches
                    ResolveError::Message(_),
            },
    {
        match self.selection {
            ResolverSelection::Disabled => LookupStep::Fail(
                ResolveError::Message("resolver is disabled".to_owned()),
            ),
            _ => {
                match dispatch_for(rtype) {
                    LookupDispatch::Query => LookupStep::Query(
                        match self.selection {
                            ResolverSelection::Tunneled => true,
                            _ => false,
                        },
                    ),
                    LookupDispatch::Empty => LookupStep::EmptyAnswer,
                    LookupDispatch::Unsupported => LookupStep::Fail(
                        ResolveError::Message("unknown or invalid record type".to_owned()),
                    ),
                }
            },
        }
    }
}

/// Finishes a lookup from what the upstream transport returned: an NXDOMAIN
/// status becomes the no-records failure, any other failure is surfaced with
/// its message, and answers are converted into the resolved answer set.
pub fn finish_lookup(query: DnsQuery, outcome: Result<Vec<DohAnswer>, UpstreamError>, now: u64) -> (
    r: Result<ForwardLookup, ResolveError>)
    requires
        query.wf(),
    ensures
        (outcome matches Err(e) ==> match e {
            UpstreamError::NxDomain => r == Result::<ForwardLookup, ResolveError>::Err(
                ResolveError::NoRecordsFound,
            ),
            UpstreamError::Other(m) => r matches Err(e2) && e2 matches ResolveError::Message(m2)
                && m2@ == m@,
        }),
        (outcome matches Ok(answers) ==> r matches Ok(l) && {
            &&& l.wf()
            &&& l.query.name@ == query.name@
            &&& l.query.query_type == query.query_type
            &&& records_match(l.records@, answers@)
            &&& l.valid_until == now.saturating_add(spec_min_ttl(answers@) as u64)
        }),
{
    match outcome {
        Err(UpstreamError::NxDomain) => Err(ResolveError::NoRecordsFound),
        Err(UpstreamError::Other(m)) => Err(ResolveError::Message(m)),
        Ok(answers) => Ok(doh_records_to_lookup(query, &answers, now)),
    }
}

} // verus!

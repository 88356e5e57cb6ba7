//! The forwarding authority: the protocol-facing decisions around one zone.
//! A query is first checked against the blocklist engine; allowed queries are
//! resolved upstream (by the caller, which owns the transport) and the reply
//! is then checked again over its alias targets, so that a clean name cannot
//! cloak a blocked one behind a CNAME chain.

use vstd::prelude::*;
use crate::blocklist::ActionModel;
use crate::cache::{allowed_eval, denied_eval, lookup_action, CachedList};
use crate::dns::{
    blocked_lookup, classify_resolve_error, is_blocked_reply, DnsQuery, DnsRecord, ForwardLookup,
    LookupError, RData, ResolveError, ResponseCode, ZoneType,
};
use crate::name::Name;

verus! {

broadcast use crate::name::lemma_name_deep_view;

/// What the pre-check decides for a query.
pub enum SearchStep {
    /// The query name itself is denied: answer immediately, without any
    /// upstream contact.
    Blocked(Result<ForwardLookup, LookupError>),
    /// No denial: resolve the query upstream, then run the reply check.
    Forward,
}

/// The alias (CNAME) target names of an answer set, in record order.
pub open spec fn spec_alias_targets(rs: Seq<DnsRecord>) -> Seq<Seq<char>>
    decreases rs.len(),
{
    if rs.len() == 0 {
        Seq::empty()
    } else {
        spec_alias_targets(rs.drop_last()) + (match rs.last().rdata {
            RData::CNAME(n) => seq![n@],
            _ => Seq::<Seq<char>>::empty(),
        })
    }
}

/// Collects the alias (CNAME) target names of an answer set.
pub fn alias_targets(records: &Vec<DnsRecord>) -> (r: Vec<Name>)
    requires
        forall|i: int| 0 <= i < records@.len() ==> (#[trigger] records@[i]).wf(),
    ensures
        r.deep_view() == spec_alias_targets(records@),
        forall|i: int| 0 <= i < r@.len() ==> (#[trigger] r@[i]).wf(),
{
    let mut targets: Vec<Name> = Vec::new();
    let mut i: usize = 0;
    proof {
        assert(records@.take(0) =~= Seq::<DnsRecord>::empty());
        assert(targets.deep_view() =~= Seq::<Seq<char>>::empty());
    }
    while i < records.len()
        invariant
            i <= records@.len(),
            forall|j: int| 0 <= j < records@.len() ==> (#[trigger] records@[j]).wf(),
            targets.deep_view() == spec_alias_targets(records@.take(i as int)),
            forall|j: int| 0 <= j < targets@.len() ==> (#[trigger] targets@[j]).wf(),
        decreases records@.len() - i,
    {
        let ghost dv0 = targets.deep_view();
        proof {
            assert(records@.take(i + 1).drop_last() =~= records@.take(i as int));
            assert(records@.take(i + 1).last() == records@[i as int]);
        }
        match &records[i].rdata {
            RData::CNAME(n) => {
                targets.push(n.duplicate());
                proof {
                    assert(targets.deep_view() =~= dv0.push(records@[i as int].rdata->CNAME_0@));
                    assert(targets.deep_view() =~= spec_alias_targets(records@.take(i + 1)));
                }
            },
            _ => {
                proof {
                    assert(spec_alias_targets(records@.take(i + 1)) =~= dv0);
                }
            },
        }
        i += 1;
    }
    proof {
        assert(records@.take(records@.len() as int) =~= records@);
    }
    targets
}

/// An authority that forwards resolutions for one zone, gated by a blocklist
/// engine.
pub struct BlockaAuthority {
    origin: Name,
    blocker: CachedList,
}

impl BlockaAuthority {
    /// The zone this authority answers for.
    pub closed spec fn spec_origin(&self) -> Name {
        self.origin
    }

    /// The blocklist engine consulted on queries and replies.
    pub closed spec fn spec_blocker(&self) -> CachedList {
        self.blocker
    }

    /// Structural well-formedness.
    pub open spec fn wf(&self) -> bool {
        &&& self.spec_origin().wf()
        &&& self.spec_blocker().wf()
    }

    /// Creates an authority for the zone with the given engine.
    pub fn new(origin: Name, blocker: CachedList) -> (r: BlockaAuthority)
        requires
            origin.wf(),
            blocker.wf(),
        ensures
            r.wf(),
            r.spec_origin() == origin,
            r.spec_blocker() == blocker,
    {
        BlockaAuthority { origin, blocker }
    }

    /// The zone's origin name.
    pub fn origin(&self) -> (r: &Name)
        ensures
            r@ == self.spec_origin()@,
    {
        &self.origin
    }

    /// This authority only ever forwards.
    pub fn zone_type(&self) -> (r: ZoneType)
        ensures
            r == ZoneType::Forward,
    {
        ZoneType::Forward
    }

    /// Zone transfer is always refused for a forward zone.
    pub fn is_axfr_allowed(&self) -> (r: bool)
        ensures
            !r,
    {
        false
    }

    /// Dynamic updates are not implemented.
    pub fn update(&mut self) -> (r: Result<bool, ResponseCode>)
        ensures
            *final(self) == *old(self),
            r matches Err(c) && c == ResponseCode::NotImp,
    {
        Err(ResponseCode::NotImp)
    }

    /// NSEC record retrieval is not implemented for a forwarder: this
    /// authority never claims secure-validated answers.
    pub fn get_nsec_records(&self) -> (r: Result<ForwardLookup, LookupError>)
        ensures
            r matches Err(e) && e matches LookupError::Resolve(re) && re matches
                ResolveError::Message(_),
    {
        Err(LookupError::Resolve(ResolveError::Message(
            "getting NSEC records is unimplemented for the forwarder".to_owned(),
        )))
    }

    /// Whether a name lies within this authority's zone; a lookup may only be
    /// forwarded when it does.
    pub fn covers(&self, name: &Name) -> (r: bool)
        requires
            self.wf(),
            name.wf(),
        ensures
            r == self.spec_origin().spec_zone_of(name@),
    {
        self.origin.zone_of(name)
    }

    /// Replaces the blocklist engine (a new engine carries a fresh cache, so
    /// old telemetry is discarded with it).
    pub fn set_blocker(&mut self, blocker: CachedList)
        requires
            blocker.wf(),
        ensures
            final(self).spec_blocker() == blocker,
            final(self).spec_origin() == old(self).spec_origin(),
    {
        self.blocker = blocker;
    }

    /// Read access to the engine, for the diagnostics snapshot.
    pub fn blocker(&self) -> (r: &CachedList)
        ensures
            *r == self.spec_blocker(),
    {
        &self.blocker
    }

    /// The pre-check of a search: asks the engine for a verdict on the
    /// literal query name.  A denial is answered at once with the synthesized
    /// blocked reply, and the upstream resolver is never contacted; anything
    /// else forwards.
    pub fn search_pre(&mut self, query: &DnsQuery, now: u64) -> (r: SearchStep)
        requires
            old(self).wf(),
            query.wf(),
        ensures
            final(self).wf(),
            final(self).spec_origin() == old(self).spec_origin(),
            final(self).spec_blocker().spec_cap() == old(self).spec_blocker().spec_cap(),
            final(self).spec_blocker().spec_policy() == old(self).spec_blocker().spec_policy(),
            ({
                let v = lookup_action(
                    old(self).spec_blocker().spec_cache(),
                    old(self).spec_blocker().spec_policy(),
                    seq![query.name@],
                    query.name@,
                );
                let c0 = old(self).spec_blocker().spec_counter();
                let c1 = final(self).spec_blocker().spec_counter();
                if v is Deny {
                    &&& r matches SearchStep::Blocked(res)
                    &&& ((query.query_type == crate::dns::RecordType::A || query.query_type
                        == crate::dns::RecordType::AAAA) <==> res is Ok)
                    &&& (res matches Ok(l) ==> is_blocked_reply(
                        l,
                        query.name@,
                        query.query_type,
                        now,
                    ) && l.wf())
                    &&& (res matches Err(e) ==> e is Blocked)
                    &&& c1.denied == c0.denied.saturating_add(1)
                    &&& c1.allowed == c0.allowed
                } else {
                    &&& r is Forward
                    &&& c1.allowed == c0.allowed.saturating_add(1)
                    &&& c1.denied == c0.denied
                }
            }),
    {
        let mut names: Vec<Name> = Vec::new();
        names.push(query.name.duplicate());
        proof {
            assert(names.deep_view() =~= seq![query.name@]);
            assert(names@[0].wf());
        }
        let action = self.blocker.next_action(&names, now);
        if action.is_deny() {
            let q = query.duplicate();
            proof {
                assert(q.wf());
            }
            SearchStep::Blocked(blocked_lookup(q, now))
        } else {
            SearchStep::Forward
        }
    }

    /// The post-check of a search: takes what the upstream resolution came
    /// to.  A failure is translated for the protocol layer (no records found
    /// becomes NXDOMAIN).  A reply is scanned for alias records and the
    /// engine is asked for a verdict over all their target names: when no
    /// target is denied the reply passes through unchanged, whatever its
    /// shape; a denial replaces it with the synthesized blocked answer for
    /// the original query shape — a reply aliasing to a blocked name is
    /// blocked even though the query name was clean.
    pub fn search_post(&mut self, outcome: Result<ForwardLookup, ResolveError>, now: u64) -> (r:
        Result<ForwardLookup, LookupError>)
        requires
            old(self).wf(),
            outcome matches Ok(l) ==> l.wf(),
        ensures
            final(self).wf(),
            final(self).spec_origin() == old(self).spec_origin(),
            final(self).spec_blocker().spec_cap() == old(self).spec_blocker().spec_cap(),
            final(self).spec_blocker().spec_policy() == old(self).spec_blocker().spec_policy(),
            (outcome matches Err(e) ==> {
                &&& (e is NoRecordsFound ==> r == Result::<ForwardLookup, LookupError>::Err(
                    LookupError::ResponseCode(ResponseCode::NXDomain),
                ))
                &&& (!(e is NoRecordsFound) ==> r == Result::<ForwardLookup, LookupError>::Err(
                    LookupError::Resolve(e),
                ))
                &&& final(self).spec_blocker() == old(self).spec_blocker()
            }),
            (outcome matches Ok(l) ==> {
                let targets = spec_alias_targets(l.records@);
                let p = old(self).spec_blocker().spec_policy();
                let cap = old(self).spec_blocker().spec_cap();
                let m0 = old(self).spec_blocker().spec_cache();
                let m1 = final(self).spec_blocker().spec_cache();
                let c0 = old(self).spec_blocker().spec_counter();
                let c1 = final(self).spec_blocker().spec_counter();
                // either no alias target was denied and the reply passes
                // through unchanged ...
                ||| {
                    &&& allowed_eval(p, targets, cap, now, m0, m1)
                    &&& (r matches Ok(l2) && l2 == l)
                    &&& c1.allowed == c0.allowed.saturating_add(1)
                    &&& c1.denied == c0.denied
                }
                // ... or a target was denied and the reply is replaced by the
                // synthesized blocked answer for the original query shape
                ||| {
                    &&& (exists|v: ActionModel|
                        #[trigger] denied_eval(p, targets, cap, now, m0, m1, v) && v is Deny)
                    &&& ((l.query.query_type == crate::dns::RecordType::A || l.query.query_type
                        == crate::dns::RecordType::AAAA) <==> r is Ok)
                    &&& (r matches Ok(l2) ==> is_blocked_reply(
                        l2,
                        l.query.name@,
                        l.query.query_type,
                        now,
                    ) && l2.wf())
                    &&& (r matches Err(e2) ==> e2 is Blocked)
                    &&& c1.denied == c0.denied.saturating_add(1)
                    &&& c1.allowed == c0.allowed
                }
            }),
    {
        match outcome {
            Err(e) => Err(classify_resolve_error(e)),
            Ok(l) => {
                let targets = alias_targets(&l.records);
                let action = self.blocker.next_action(&targets, now);
                if action.is_deny() {
                    let q = l.query.duplicate();
                    proof {
                        assert(q.wf());
                    }
                    blocked_lookup(q, now)
                } else {
                    Ok(l)
                }
            },
        }
    }
}

} // verus!

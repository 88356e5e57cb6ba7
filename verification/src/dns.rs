//! Protocol-level data: record types, record data, queries, resolved answer
//! sets, response codes and the error taxonomy, and the synthesized blocked
//! answer.

use vstd::prelude::*;
use crate::name::Name;

verus! {

/// The record types this resolver can dispatch.  Everything else is carried
/// as `Unknown` with its type code.
#[derive(Debug, Clone, Copy, PartialEq, Eq, Structural)]
pub enum RecordType {
    A,
    AAAA,
    CNAME,
    MX,
    NAPTR,
    NS,
    PTR,
    SOA,
    SRV,
    TXT,
    TLSA,
    CAA,
    SSHFP,
    Unknown(u16),
}

/// The record type a wire type code denotes.
pub open spec fn spec_record_type_of(code: u16) -> RecordType {
    if code == 1 {
        RecordType::A
    } else if code == 2 {
        RecordType::NS
    } else if code == 5 {
        RecordType::CNAME
    } else if code == 6 {
        RecordType::SOA
    } else if code == 12 {
        RecordType::PTR
    } else if code == 15 {
        RecordType::MX
    } else if code == 16 {
        RecordType::TXT
    } else if code == 28 {
        RecordType::AAAA
    } else if code == 33 {
        RecordType::SRV
    } else if code == 35 {
        RecordType::NAPTR
    } else if code == 44 {
        RecordType::SSHFP
    } else if code == 52 {
        RecordType::TLSA
    } else if code == 257 {
        RecordType::CAA
    } else {
        RecordType::Unknown(code)
    }
}

impl RecordType {
    /// Reads a record type from its wire type code.
    pub fn from_code(code: u16) -> (r: RecordType)
        ensures
            r == spec_record_type_of(code),
    {
        match code {
            1 => RecordType::A,
            2 => RecordType::NS,
            5 => RecordType::CNAME,
            6 => RecordType::SOA,
            12 => RecordType::PTR,
            15 => RecordType::MX,
            16 => RecordType::TXT,
            28 => RecordType::AAAA,
            33 => RecordType::SRV,
            35 => RecordType::NAPTR,
            44 => RecordType::SSHFP,
            52 => RecordType::TLSA,
            257 => RecordType::CAA,
            _ => RecordType::Unknown(code),
        }
    }
}

/// Record data, with addresses held as plain integers (an IPv4 address as its
/// 32-bit value, an IPv6 address as its 128-bit value).
#[derive(Debug, Clone)]
pub enum RData {
    A(u32),
    AAAA(u128),
    CNAME(Name),
    MX(u16, Name),
    NS(Name),
    PTR(Name),
    SOA {
        mname: Name,
        rname: Name,
        serial: u32,
        refresh: i32,
        retry: i32,
        expire: i32,
        minimum: u32,
    },
    SRV {
        priority: u16,
        weight: u16,
        port: u16,
        target: Name,
    },
    TXT(String),
}

/// One resource record of an answer.
#[derive(Debug, Clone)]
pub struct DnsRecord {
    pub name: Name,
    pub rtype: RecordType,
    pub ttl: u32,
    pub rdata: RData,
}

impl DnsRecord {
    /// All names carried by the record are well formed.
    pub open spec fn wf(&self) -> bool {
        &&& self.name.wf()
        &&& match self.rdata {
            RData::CNAME(n) => n.wf(),
            RData::MX(_, n) => n.wf(),
            RData::NS(n) => n.wf(),
            RData::PTR(n) => n.wf(),
            RData::SOA { mname, rname, .. } => mname.wf() && rname.wf(),
            RData::SRV { target, .. } => target.wf(),
            _ => true,
        }
    }
}

/// One query: a name and a record type.
#[derive(Debug)]
pub struct DnsQuery {
    pub name: Name,
    pub query_type: RecordType,
}

impl DnsQuery {
    /// The queried name is well formed.
    pub open spec fn wf(&self) -> bool {
        self.name.wf()
    }

    /// A copy of the query.
    pub fn duplicate(&self) -> (r: DnsQuery)
        ensures
            r.name@ == self.name@,
            r.query_type == self.query_type,
    {
        DnsQuery { name: self.name.duplicate(), query_type: self.query_type }
    }
}

/// A resolved answer set: the records, together with the deadline (seconds
/// since the Unix epoch) until which they may be considered valid.
#[derive(Debug)]
pub struct ForwardLookup {
    pub query: DnsQuery,
    pub records: Vec<DnsRecord>,
    pub valid_until: u64,
}

impl ForwardLookup {
    /// The query and every record are well formed.
    pub open spec fn wf(&self) -> bool {
        &&& self.query.wf()
        &&& forall|i: int| 0 <= i < self.records@.len() ==> (#[trigger] self.records@[i]).wf()
    }

    /// Whether the answer set is empty.
    pub fn is_empty(&self) -> (r: bool)
        ensures
            r == (self.records@.len() == 0),
    {
        self.records.len() == 0
    }
}

/// What kind of zone an authority serves.
#[derive(Debug, Clone, Copy, PartialEq, Eq, Structural)]
pub enum ZoneType {
    Primary,
    Secondary,
    Hint,
    Forward,
}

/// DNS response codes this resolver produces.
#[derive(Debug, Clone, Copy, PartialEq, Eq, Structural)]
pub enum ResponseCode {
    NoError,
    FormErr,
    ServFail,
    NXDomain,
    NotImp,
    Refused,
}

/// How an upstream resolution fails.
#[derive(Debug, Clone)]
pub enum ResolveError {
    /// The upstream answered that no records exist.
    NoRecordsFound,
    /// The lookup timed out.
    Timeout,
    /// A protocol-level failure, with its message.
    Proto(String),
    /// Any other failure, with its message.
    Message(String),
}

/// What a failed lookup reports to the protocol layer.
#[derive(Debug)]
pub enum LookupError {
    /// A protocol error response.
    ResponseCode(ResponseCode),
    /// A blocked query whose type has no synthesizable blocked answer.
    Blocked,
    /// A resolver failure surfaced as-is.
    Resolve(ResolveError),
}

/// Translates a resolver failure for the protocol layer: a no-records answer
/// becomes the NXDOMAIN response; everything else is surfaced unchanged.
pub fn classify_resolve_error(e: ResolveError) -> (r: LookupError)
    ensures
        e is NoRecordsFound ==> r == LookupError::ResponseCode(ResponseCode::NXDomain),
        !(e is NoRecordsFound) ==> r == LookupError::Resolve(e),
{
    match e {
        ResolveError::NoRecordsFound => LookupError::ResponseCode(ResponseCode::NXDomain),
        other => LookupError::Resolve(other),
    }
}

/// The fixed time-to-live of synthesized blocked answers: short, so a policy
/// change takes effect quickly.
pub open spec fn spec_blocked_ttl() -> u32 {
    10
}

/// A blocked reply for the query: one unspecified-address record of the
/// queried type, valid for ten seconds from `now`.
pub open spec fn is_blocked_reply(l: ForwardLookup, qname: Seq<char>, qtype: RecordType, now: u64) -> bool {
    &&& l.query.name@ == qname
    &&& l.query.query_type == qtype
    &&& l.valid_until == now.saturating_add(spec_blocked_ttl() as u64)
    &&& l.records@.len() == 1
    &&& l.records@[0].name@ == qname
    &&& l.records@[0].rtype == qtype
    &&& l.records@[0].ttl == spec_blocked_ttl()
    &&& (qtype == RecordType::A ==> l.records@[0].rdata == RData::A(0))
    &&& (qtype == RecordType::AAAA ==> l.records@[0].rdata == RData::AAAA(0))
}

/// Synthesizes the blocked answer for a query: an A or AAAA record with the
/// unspecified address and a ten-second time-to-live.  Queries of any other
/// type have no blocked answer shape and fail as blocked.
pub fn blocked_lookup(query: DnsQuery, now: u64) -> (r: Result<ForwardLookup, LookupError>)
    requires
        query.wf(),
    ensures
        (query.query_type == RecordType::A || query.query_type == RecordType::AAAA) <==> r is Ok,
        (r matches Ok(l) ==> is_blocked_reply(l, query.name@, query.query_type, now) && l.wf()),
        (r matches Err(e) ==> e is Blocked),
{
    let ttl: u32 = 10;
    let valid_until = now.saturating_add(ttl as u64);
    let rdata = match query.query_type {
        RecordType::A => RData::A(0),
        RecordType::AAAA => RData::AAAA(0),
        _ => {
            return Err(LookupError::Blocked);
        },
    };
    let record = DnsRecord {
        name: query.name.duplicate(),
        rtype: query.query_type,
        ttl,
        rdata,
    };
    let mut records: Vec<DnsRecord> = Vec::new();
    records.push(record);
    Ok(ForwardLookup { query, records, valid_until })
}

} // verus!

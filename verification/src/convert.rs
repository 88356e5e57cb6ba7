//! Conversion of upstream DNS-over-HTTPS answers — name, numeric type code,
//! time-to-live and a textual data field — into resource records.  A record
//! whose data does not parse is dropped on its own; the rest of the answer
//! set stands.  The answer set's deadline comes from the smallest
//! time-to-live across the upstream answers, ten seconds when there are none.

use vstd::prelude::*;
use crate::dns::{DnsQuery, DnsRecord, ForwardLookup, RData, RecordType, spec_record_type_of};
use crate::name::{fqdn_of, valid_fqdn, Name};
use crate::parse::{
    dec_val, i32_text_val, ipv4_value, ipv6_value, parse_dec, parse_i32, parse_ipv4, parse_ipv6,
    spec_tokens, spec_trim_quotes, split_fields, trim_quotes, valid_dec, valid_i32_text,
    valid_ipv4, valid_ipv6,
};

verus! {

/// One answer of an upstream DNS-over-HTTPS reply.
#[derive(Debug, Clone)]
pub struct DohAnswer {
    /// The owner name, in text form.
    pub name: String,
    /// The numeric record type code.
    pub rtype: u32,
    /// The answer's time-to-live, in seconds.
    pub ttl: u32,
    /// The record data, in text form.
    pub data: String,
}

/// A name text that parses.
pub open spec fn name_text_ok(t: Seq<char>) -> bool {
    t.len() > 0 && valid_fqdn(fqdn_of(t))
}

/// Whether an answer converts into a resource record: its name parses, its
/// type is one with a supported data shape, and its data parses under that
/// shape.
pub open spec fn spec_converts(a: DohAnswer) -> bool {
    let rt = spec_record_type_of(a.rtype as u16);
    let ts = spec_tokens(a.data@);
    &&& name_text_ok(a.name@)
    &&& match rt {
        RecordType::A => valid_ipv4(a.data@),
        RecordType::AAAA => valid_ipv6(a.data@),
        RecordType::CNAME => name_text_ok(a.data@),
        RecordType::NS => name_text_ok(a.data@),
        RecordType::PTR => name_text_ok(a.data@),
        RecordType::MX => ts.len() >= 2 && valid_dec(ts[0], 0xFFFF) && name_text_ok(ts[1]),
        RecordType::SOA => ts.len() >= 7 && name_text_ok(ts[0]) && name_text_ok(ts[1])
            && valid_dec(ts[2], 0xFFFF_FFFF) && valid_i32_text(ts[3]) && valid_i32_text(ts[4])
            && valid_i32_text(ts[5]) && valid_dec(ts[6], 0xFFFF_FFFF),
        RecordType::SRV => ts.len() >= 4 && valid_dec(ts[0], 0xFFFF) && valid_dec(ts[1], 0xFFFF)
            && valid_dec(ts[2], 0xFFFF) && name_text_ok(ts[3]),
        RecordType::TXT => true,
        _ => false,
    }
}

/// The record an answer converts to: owner name, type and time-to-live are
/// the answer's; the data fields are the parsed text fields.
pub open spec fn record_matches(rec: DnsRecord, a: DohAnswer) -> bool {
    let rt = spec_record_type_of(a.rtype as u16);
    let ts = spec_tokens(a.data@);
    &&& rec.name@ == fqdn_of(a.name@)
    &&& rec.ttl == a.ttl
    &&& rec.rtype == rt
    &&& match rt {
        RecordType::A => rec.rdata matches RData::A(v) && v == ipv4_value(a.data@),
        RecordType::AAAA => rec.rdata matches RData::AAAA(v) && v == ipv6_value(a.data@),
        RecordType::CNAME => rec.rdata matches RData::CNAME(n) && n@ == fqdn_of(a.data@),
        RecordType::NS => rec.rdata matches RData::NS(n) && n@ == fqdn_of(a.data@),
        RecordType::PTR => rec.rdata matches RData::PTR(n) && n@ == fqdn_of(a.data@),
        RecordType::MX => rec.rdata matches RData::MX(p, n) && p == dec_val(ts[0]) && n@ == fqdn_of(
            ts[1],
        ),
        RecordType::SOA => rec.rdata matches RData::SOA {
            mname,
            rname,
            serial,
            refresh,
            retry,
            expire,
            minimum,
        } && mname@ == fqdn_of(ts[0]) && rname@ == fqdn_of(ts[1]) && serial == dec_val(ts[2])
            && refresh == i32_text_val(ts[3]) && retry == i32_text_val(ts[4]) && expire
            == i32_text_val(ts[5]) && minimum == dec_val(ts[6]),
        RecordType::SRV => rec.rdata matches RData::SRV { priority, weight, port, target }
            && priority == dec_val(ts[0]) && weight == dec_val(ts[1]) && port == dec_val(ts[2])
            && target@ == fqdn_of(ts[3]),
        RecordType::TXT => rec.rdata matches RData::TXT(t) && t@ == spec_trim_quotes(a.data@),
        _ => false,
    }
}

/// Converts one upstream answer into a resource record, or nothing when the
/// answer's name, type or data does not fit a supported shape.
pub fn convert_answer(a: &DohAnswer) -> (r: Option<DnsRecord>)
    ensures
        r is Some <==> spec_converts(*a),
        r matches Some(rec) ==> record_matches(rec, *a) && rec.wf(),
{
    let rt = RecordType::from_code(a.rtype as u16);
    let name = match Name::parse(a.name.as_str()) {
        Some(n) => n,
        None => {
            return None;
        },
    };
    let rdata: RData = match rt {
        RecordType::A => {
            match parse_ipv4(a.data.as_str()) {
                Some(v) => RData::A(v),
                None => {
                    return None;
                },
            }
        },
        RecordType::AAAA => {
            match parse_ipv6(a.data.as_str()) {
                Some(v) => RData::AAAA(v),
                None => {
                    return None;
                },
            }
        },
        RecordType::CNAME => {
            match Name::parse(a.data.as_str()) {
                Some(n) => RData::CNAME(n),
                None => {
                    return None;
                },
            }
        },
        RecordType::NS => {
            match Name::parse(a.data.as_str()) {
                Some(n) => RData::NS(n),
                None => {
                    return None;
                },
            }
        },
        RecordType::PTR => {
            match Name::parse(a.data.as_str()) {
                Some(n) => RData::PTR(n),
                None => {
                    return None;
                },
            }
        },
        RecordType::MX => {
            let ts = split_fields(a.data.as_str());
            if ts.len() < 2 {
                return None;
            }
            proof {
                assert(ts.deep_view()[0] == ts@[0]@);
                assert(ts.deep_view()[1] == ts@[1]@);
            }
            let prio = match parse_dec(ts[0].as_str(), 0xFFFF) {
                Some(v) => v as u16,
                None => {
                    return None;
                },
            };
            let target = match Name::parse(ts[1].as_str()) {
                Some(n) => n,
                None => {
                    return None;
                },
            };
            RData::MX(prio, target)
        },
        RecordType::SOA => {
            let ts = split_fields(a.data.as_str());
            if ts.len() < 7 {
                return None;
            }
            proof {
                assert(ts.deep_view()[0] == ts@[0]@);
                assert(ts.deep_view()[1] == ts@[1]@);
                assert(ts.deep_view()[2] == ts@[2]@);
                assert(ts.deep_view()[3] == ts@[3]@);
                assert(ts.deep_view()[4] == ts@[4]@);
                assert(ts.deep_view()[5] == ts@[5]@);
                assert(ts.deep_view()[6] == ts@[6]@);
            }
            let mname = match Name::parse(ts[0].as_str()) {
                Some(n) => n,
                None => {
                    return None;
                },
            };
            let rname = match Name::parse(ts[1].as_str()) {
                Some(n) => n,
                None => {
                    return None;
                },
            };
            let serial = match parse_dec(ts[2].as_str(), 0xFFFF_FFFF) {
                Some(v) => v as u32,
                None => {
                    return None;
                },
            };
            let refresh = match parse_i32(ts[3].as_str()) {
                Some(v) => v,
                None => {
                    return None;
                },
            };
            let retry = match parse_i32(ts[4].as_str()) {
                Some(v) => v,
                None => {
                    return None;
                },
            };
            let expire = match parse_i32(ts[5].as_str()) {
                Some(v) => v,
                None => {
                    return None;
                },
            };
            let minimum = match parse_dec(ts[6].as_str(), 0xFFFF_FFFF) {
                Some(v) => v as u32,
                None => {
                    return None;
                },
            };
            RData::SOA { mname, rname, serial, refresh, retry, expire, minimum }
        },
        RecordType::SRV => {
            let ts = split_fields(a.data.as_str());
            if ts.len() < 4 {
                return None;
            }
            proof {
                assert(ts.deep_view()[0] == ts@[0]@);
                assert(ts.deep_view()[1] == ts@[1]@);
                assert(ts.deep_view()[2] == ts@[2]@);
                assert(ts.deep_view()[3] == ts@[3]@);
            }
            let priority = match parse_dec(ts[0].as_str(), 0xFFFF) {
                Some(v) => v as u16,
                None => {
                    return None;
                },
            };
            let weight = match parse_dec(ts[1].as_str(), 0xFFFF) {
                Some(v) => v as u16,
                None => {
                    return None;
                },
            };
            let port = match parse_dec(ts[2].as_str(), 0xFFFF) {
                Some(v) => v as u16,
                None => {
                    return None;
                },
            };
            let target = match Name::parse(ts[3].as_str()) {
                Some(n) => n,
                None => {
                    return None;
                },
            };
            RData::SRV { priority, weight, port, target }
        },
        RecordType::TXT => RData::TXT(trim_quotes(a.data.as_str())),
        _ => {
            return None;
        },
    };
    Some(DnsRecord { name, rtype: rt, ttl: a.ttl, rdata })
}

/// The records of an answer set correspond one-to-one, in order, to the
/// answers that convert; answers that do not convert contribute nothing.
pub open spec fn records_match(recs: Seq<DnsRecord>, answers: Seq<DohAnswer>) -> bool
    decreases answers.len(),
{
    if answers.len() == 0 {
        recs.len() == 0
    } else if spec_converts(answers.last()) {
        &&& recs.len() > 0
        &&& record_matches(recs.last(), answers.last())
        &&& records_match(recs.drop_last(), answers.drop_last())
    } else {
        records_match(recs, answers.drop_last())
    }
}

/// The smallest time-to-live across the answers, or ten seconds when there
/// are none.
pub open spec fn spec_min_ttl(answers: Seq<DohAnswer>) -> u32
    decreases answers.len(),
{
    if answers.len() == 0 {
        10
    } else if answers.len() == 1 {
        answers.last().ttl
    } else if answers.last().ttl < spec_min_ttl(answers.drop_last()) {
        answers.last().ttl
    } else {
        spec_min_ttl(answers.drop_last())
    }
}

/// Converts an upstream answer set into a resolved answer set for the query.
/// Each convertible answer becomes one record, in order; a malformed answer
/// is dropped alone.  The deadline is `now` plus the smallest time-to-live
/// across the upstream answers (ten seconds when the set is empty).
pub fn doh_records_to_lookup(query: DnsQuery, answers: &Vec<DohAnswer>, now: u64) -> (l:
    ForwardLookup)
    requires
        query.wf(),
    ensures
        l.wf(),
        l.query.name@ == query.name@,
        l.query.query_type == query.query_type,
        records_match(l.records@, answers@),
        l.valid_until == now.saturating_add(spec_min_ttl(answers@) as u64),
{
    let mut records: Vec<DnsRecord> = Vec::new();
    let mut i: usize = 0;
    proof {
        assert(answers@.take(0) =~= Seq::<DohAnswer>::empty());
    }
    while i < answers.len()
        invariant
            i <= answers@.len(),
            records_match(records@, answers@.take(i as int)),
            forall|j: int| 0 <= j < records@.len() ==> (#[trigger] records@[j]).wf(),
        decreases answers@.len() - i,
    {
        proof {
            assert(answers@.take(i + 1).drop_last() =~= answers@.take(i as int));
            assert(answers@.take(i + 1).last() == answers@[i as int]);
        }
        match convert_answer(&answers[i]) {
            Some(rec) => {
                let ghost r0 = records@;
                records.push(rec);
                proof {
                    assert(records@.drop_last() =~= r0);
                }
            },
            None => {},
        }
        i += 1;
    }
    let mut ttl: u32 = 10;
    let mut k: usize = 0;
    while k < answers.len()
        invariant
            k <= answers@.len(),
            ttl == spec_min_ttl(answers@.take(k as int)),
        decreases answers@.len() - k,
    {
        proof {
            assert(answers@.take(k + 1).drop_last() =~= answers@.take(k as int));
            assert(answers@.take(k + 1).last() == answers@[k as int]);
        }
        let t = answers[k].ttl;
        if k == 0 {
            ttl = t;
        } else if t < ttl {
            ttl = t;
        }
        k += 1;
    }
    proof {
        assert(answers@.take(answers@.len() as int) =~= answers@);
    }
    let valid_until = now.saturating_add(ttl as u64);
    ForwardLookup { query, records, valid_until }
}

} // verus!

//! The forwarding path: pre- and post-checks of the authority, answer
//! conversion, the resolver state machine, and tunnel binding.

use blocka_dns::authority::{alias_targets, BlockaAuthority, SearchStep};
use blocka_dns::convert::{convert_answer, doh_records_to_lookup, DohAnswer};
use blocka_dns::dns::{
    blocked_lookup, classify_resolve_error, DnsQuery, DnsRecord, ForwardLookup, LookupError,
    RData, RecordType, ResolveError, ResponseCode, ZoneType,
};
use blocka_dns::name::Name;
use blocka_dns::netif::{plan_binding, IfAddrs, IpAddress, NetInterface};
use blocka_dns::session::DNSHistoryAction;
use blocka_dns::blocklist::BlocklistAction;
use blocka_dns::resolver::{
    dispatch_for, finish_lookup, DnsHttpsServer, LookupDispatch, LookupStep, Resolver,
    ResolverSelection, UpstreamError,
};
use blocka_dns::session::new_engine;

fn name(s: &str) -> Name {
    Name::parse(s).expect("name should parse")
}

fn answer(n: &str, rtype: u32, ttl: u32, data: &str) -> DohAnswer {
    DohAnswer { name: n.to_string(), rtype, ttl, data: data.to_string() }
}

fn authority_with_blacklist(lines: &str) -> BlockaAuthority {
    BlockaAuthority::new(name("."), new_engine(Some(lines), None))
}

#[test]
fn blocked_query_is_answered_without_resolving() {
    let mut authority = authority_with_blacklist("ads.example\n");
    let query = DnsQuery { name: name("ads.example."), query_type: RecordType::A };
    match authority.search_pre(&query, 100) {
        SearchStep::Blocked(Ok(reply)) => {
            assert_eq!(reply.records.len(), 1);
            assert_eq!(reply.records[0].name.to_ascii(), "ads.example.");
            assert_eq!(reply.records[0].ttl, 10);
            assert!(matches!(reply.records[0].rdata, RData::A(0)));
            assert_eq!(reply.valid_until, 110);
        },
        _ => panic!("expected a synthesized blocked reply"),
    }
}

#[test]
fn blocked_aaaa_query_gets_unspecified_address() {
    let mut authority = authority_with_blacklist("ads.example\n");
    let query = DnsQuery { name: name("ads.example."), query_type: RecordType::AAAA };
    match authority.search_pre(&query, 0) {
        SearchStep::Blocked(Ok(reply)) => {
            assert!(matches!(reply.records[0].rdata, RData::AAAA(0)));
        },
        _ => panic!("expected a synthesized blocked reply"),
    }
}

#[test]
fn blocked_txt_query_fails_as_blocked() {
    let mut authority = authority_with_blacklist("ads.example\n");
    let query = DnsQuery { name: name("ads.example."), query_type: RecordType::TXT };
    match authority.search_pre(&query, 0) {
        SearchStep::Blocked(Err(LookupError::Blocked)) => {},
        _ => panic!("a blocked query of a type without a blocked answer shape fails"),
    }
}

#[test]
fn clean_query_forwards() {
    let mut authority = authority_with_blacklist("ads.example\n");
    let query = DnsQuery { name: name("safe.example."), query_type: RecordType::A };
    assert!(matches!(authority.search_pre(&query, 0), SearchStep::Forward));
}

#[test]
fn anti_cloaking_blocks_alias_reply() {
    let mut authority = authority_with_blacklist("blocked.test\n");
    let query = DnsQuery { name: name("evil-alias.example."), query_type: RecordType::A };
    assert!(matches!(authority.search_pre(&query, 50), SearchStep::Forward));

    // the upstream reply aliases the clean name to a blocked target
    let cname = DnsRecord {
        name: name("evil-alias.example."),
        rtype: RecordType::CNAME,
        ttl: 300,
        rdata: RData::CNAME(name("blocked.test.")),
    };
    let reply = ForwardLookup {
        query: DnsQuery { name: name("evil-alias.example."), query_type: RecordType::A },
        records: vec![cname],
        valid_until: 350,
    };
    match authority.search_post(Ok(reply), 50) {
        Ok(blocked) => {
            assert_eq!(blocked.records.len(), 1, "the alias chain is replaced");
            assert_eq!(blocked.records[0].name.to_ascii(), "evil-alias.example.");
            assert_eq!(blocked.records[0].ttl, 10);
            assert!(matches!(blocked.records[0].rdata, RData::A(0)));
        },
        Err(e) => panic!("expected a synthesized block, got {:?}", e),
    }
}

#[test]
fn clean_reply_passes_through() {
    let mut authority = authority_with_blacklist("blocked.test\n");
    let record = DnsRecord {
        name: name("safe.example."),
        rtype: RecordType::A,
        ttl: 300,
        rdata: RData::A(0x5DB8D822),
    };
    let reply = ForwardLookup {
        query: DnsQuery { name: name("safe.example."), query_type: RecordType::A },
        records: vec![record],
        valid_until: 350,
    };
    match authority.search_post(Ok(reply), 50) {
        Ok(out) => {
            assert_eq!(out.records.len(), 1);
            assert_eq!(out.records[0].ttl, 300, "the real record keeps the upstream TTL");
            assert!(matches!(out.records[0].rdata, RData::A(0x5DB8D822)));
        },
        Err(e) => panic!("expected the real answer, got {:?}", e),
    }
}

#[test]
fn clean_multi_alias_reply_passes_through() {
    let mut authority = authority_with_blacklist("blocked.test\n");
    let chain = vec![
        DnsRecord {
            name: name("a.example."),
            rtype: RecordType::CNAME,
            ttl: 120,
            rdata: RData::CNAME(name("b.example.")),
        },
        DnsRecord {
            name: name("b.example."),
            rtype: RecordType::CNAME,
            ttl: 120,
            rdata: RData::CNAME(name("c.example.")),
        },
        DnsRecord {
            name: name("c.example."),
            rtype: RecordType::A,
            ttl: 120,
            rdata: RData::A(7),
        },
    ];
    let reply = ForwardLookup {
        query: DnsQuery { name: name("a.example."), query_type: RecordType::A },
        records: chain,
        valid_until: 500,
    };
    match authority.search_post(Ok(reply), 50) {
        Ok(out) => {
            assert_eq!(out.records.len(), 3, "a clean alias chain is returned unchanged");
            assert_eq!(out.valid_until, 500);
            assert!(matches!(out.records[2].rdata, RData::A(7)));
        },
        Err(e) => panic!("expected the untouched reply, got {:?}", e),
    }
}

#[test]
fn denied_alias_among_several_blocks() {
    // the denied target is the second alias, not the first
    let mut authority = authority_with_blacklist("blocked.test\n");
    let chain = vec![
        DnsRecord {
            name: name("a.example."),
            rtype: RecordType::CNAME,
            ttl: 120,
            rdata: RData::CNAME(name("b.example.")),
        },
        DnsRecord {
            name: name("b.example."),
            rtype: RecordType::CNAME,
            ttl: 120,
            rdata: RData::CNAME(name("blocked.test.")),
        },
    ];
    let reply = ForwardLookup {
        query: DnsQuery { name: name("a.example."), query_type: RecordType::A },
        records: chain,
        valid_until: 500,
    };
    match authority.search_post(Ok(reply), 50) {
        Ok(blocked) => {
            assert_eq!(blocked.records.len(), 1);
            assert!(matches!(blocked.records[0].rdata, RData::A(0)));
            assert_eq!(blocked.records[0].ttl, 10);
        },
        Err(e) => panic!("expected a synthesized block, got {:?}", e),
    }
}

#[test]
fn resolver_failures_classify() {
    let mut authority = authority_with_blacklist("x\n");
    match authority.search_post(Err(ResolveError::NoRecordsFound), 0) {
        Err(LookupError::ResponseCode(ResponseCode::NXDomain)) => {},
        other => panic!("no records must become NXDOMAIN, got {:?}", other),
    }
    match authority.search_post(Err(ResolveError::Timeout), 0) {
        Err(LookupError::Resolve(ResolveError::Timeout)) => {},
        other => panic!("timeouts surface as timeouts, got {:?}", other),
    }
    match classify_resolve_error(ResolveError::Message("boom".to_string())) {
        LookupError::Resolve(ResolveError::Message(m)) => assert_eq!(m, "boom"),
        other => panic!("other failures surface as-is, got {:?}", other),
    }
}

#[test]
fn authority_protocol_surface() {
    let mut authority = authority_with_blacklist("x\n");
    assert_eq!(authority.zone_type(), ZoneType::Forward);
    assert!(!authority.is_axfr_allowed());
    assert!(matches!(authority.update(), Err(ResponseCode::NotImp)));
    assert!(authority.get_nsec_records().is_err());
    assert_eq!(authority.origin().to_ascii(), ".");
    assert!(authority.covers(&name("anything.example.")));
    let scoped = BlockaAuthority::new(name("example.com."), new_engine(None, None));
    assert!(scoped.covers(&name("www.example.com.")));
    assert!(!scoped.covers(&name("www.example.org.")));
}

#[test]
fn alias_extraction() {
    let records = vec![
        DnsRecord {
            name: name("a.example."),
            rtype: RecordType::CNAME,
            ttl: 60,
            rdata: RData::CNAME(name("b.example.")),
        },
        DnsRecord {
            name: name("b.example."),
            rtype: RecordType::A,
            ttl: 60,
            rdata: RData::A(1),
        },
        DnsRecord {
            name: name("b.example."),
            rtype: RecordType::CNAME,
            ttl: 60,
            rdata: RData::CNAME(name("c.example.")),
        },
    ];
    let targets = alias_targets(&records);
    assert_eq!(targets.len(), 2);
    assert_eq!(targets[0].to_ascii(), "b.example.");
    assert_eq!(targets[1].to_ascii(), "c.example.");
}

#[test]
fn blocked_lookup_shapes() {
    let q = DnsQuery { name: name("x.example."), query_type: RecordType::A };
    let reply = blocked_lookup(q, u64::MAX).unwrap();
    assert_eq!(reply.valid_until, u64::MAX, "the deadline saturates");
    let q2 = DnsQuery { name: name("x.example."), query_type: RecordType::MX };
    assert!(matches!(blocked_lookup(q2, 0), Err(LookupError::Blocked)));
}

#[test]
fn answers_convert_per_type() {
    let rec = convert_answer(&answer("safe.example.", 1, 300, "93.184.216.34")).unwrap();
    assert_eq!(rec.name.to_ascii(), "safe.example.");
    assert_eq!(rec.rtype, RecordType::A);
    assert_eq!(rec.ttl, 300);
    assert!(matches!(rec.rdata, RData::A(0x5DB8D822)));

    let rec = convert_answer(&answer("safe.example.", 28, 60, "2606:4700:4700::1111")).unwrap();
    assert!(matches!(rec.rdata, RData::AAAA(0x2606_4700_4700_0000_0000_0000_0000_1111)));

    let rec = convert_answer(&answer("alias.example.", 5, 60, "target.example.com")).unwrap();
    match rec.rdata {
        RData::CNAME(n) => assert_eq!(n.to_ascii(), "target.example.com."),
        other => panic!("expected an alias, got {:?}", other),
    }

    let rec = convert_answer(&answer("m.example.", 15, 60, "10 mail.example.com.")).unwrap();
    match rec.rdata {
        RData::MX(p, n) => {
            assert_eq!(p, 10);
            assert_eq!(n.to_ascii(), "mail.example.com.");
        },
        other => panic!("expected mail data, got {:?}", other),
    }

    let rec = convert_answer(
        &answer("s.example.", 6, 60, "ns1.example. admin.example. 20 7200 -1 1209600 86400"),
    )
        .unwrap();
    match rec.rdata {
        RData::SOA { mname, rname, serial, refresh, retry, expire, minimum } => {
            assert_eq!(mname.to_ascii(), "ns1.example.");
            assert_eq!(rname.to_ascii(), "admin.example.");
            assert_eq!(serial, 20);
            assert_eq!(refresh, 7200);
            assert_eq!(retry, -1);
            assert_eq!(expire, 1209600);
            assert_eq!(minimum, 86400);
        },
        other => panic!("expected start-of-authority data, got {:?}", other),
    }

    let rec = convert_answer(&answer("s.example.", 33, 60, "1 2 8080 svc.example.")).unwrap();
    match rec.rdata {
        RData::SRV { priority, weight, port, target } => {
            assert_eq!((priority, weight, port), (1, 2, 8080));
            assert_eq!(target.to_ascii(), "svc.example.");
        },
        other => panic!("expected service data, got {:?}", other),
    }

    let rec = convert_answer(&answer("t.example.", 16, 60, "\"v=spf1 -all\"")).unwrap();
    match rec.rdata {
        RData::TXT(t) => assert_eq!(t, "v=spf1 -all"),
        other => panic!("expected text data, got {:?}", other),
    }
}

#[test]
fn malformed_answers_are_dropped_alone() {
    assert!(convert_answer(&answer("x.example.", 1, 60, "not-an-address")).is_none());
    assert!(convert_answer(&answer("x.example.", 15, 60, "70000 mail.example.")).is_none());
    assert!(convert_answer(&answer("not a name", 1, 60, "1.2.3.4")).is_none());
    assert!(convert_answer(&answer("x.example.", 257, 60, "0 issue ca.example")).is_none());

    let q = DnsQuery { name: name("x.example."), query_type: RecordType::A };
    let answers = vec![
        answer("x.example.", 1, 120, "1.2.3.4"),
        answer("x.example.", 1, 30, "bad"),
        answer("x.example.", 1, 90, "5.6.7.8"),
    ];
    let lookup = doh_records_to_lookup(q, &answers, 1000);
    assert_eq!(lookup.records.len(), 2, "only the malformed answer is dropped");
    assert_eq!(
        lookup.valid_until, 1030,
        "the deadline uses the smallest TTL across all answers",
    );
}

#[test]
fn empty_answer_set_gets_default_ttl() {
    let q = DnsQuery { name: name("x.example."), query_type: RecordType::A };
    let lookup = doh_records_to_lookup(q, &vec![], 500);
    assert!(lookup.is_empty());
    assert_eq!(lookup.valid_until, 510);
}

#[test]
fn toggle_noop_and_transitions() {
    let server = DnsHttpsServer {
        name: "cloudflare-dns.com".to_string(),
        path: "dns-query".to_string(),
        addrs: vec![IpAddress::V4(0x01010101)],
        timeout_secs: 10,
    };
    let mut resolver = Resolver::new(vec![server]);
    assert_eq!(resolver.selection(), ResolverSelection::DefaultRoute);

    // toggling to the state already active must not rebuild the transport
    resolver.toggle(Some(false));
    assert_eq!(resolver.selection(), ResolverSelection::DefaultRoute);

    resolver.toggle(Some(true));
    assert_eq!(resolver.selection(), ResolverSelection::Tunneled);
    resolver.toggle(Some(true));
    assert_eq!(resolver.selection(), ResolverSelection::Tunneled);

    resolver.toggle(None);
    assert_eq!(resolver.selection(), ResolverSelection::Disabled);
    match resolver.lookup_step(RecordType::A) {
        LookupStep::Fail(ResolveError::Message(_)) => {},
        _ => panic!("a lookup against the disabled state fails without I/O"),
    }

    resolver.toggle(Some(false));
    assert!(matches!(resolver.lookup_step(RecordType::A), LookupStep::Query(false)));
    resolver.toggle(Some(true));
    assert!(matches!(resolver.lookup_step(RecordType::A), LookupStep::Query(true)));
}

#[test]
fn lookup_dispatch() {
    assert_eq!(dispatch_for(RecordType::TXT), LookupDispatch::Query);
    assert_eq!(dispatch_for(RecordType::Unknown(65)), LookupDispatch::Empty);
    assert_eq!(dispatch_for(RecordType::Unknown(255)), LookupDispatch::Unsupported);
    assert_eq!(RecordType::from_code(65), RecordType::Unknown(65));
    assert_eq!(RecordType::from_code(28), RecordType::AAAA);
}

#[test]
fn finish_lookup_outcomes() {
    let q = DnsQuery { name: name("x.example."), query_type: RecordType::A };
    match finish_lookup(q, Err(UpstreamError::NxDomain), 0) {
        Err(ResolveError::NoRecordsFound) => {},
        other => panic!("NXDOMAIN becomes no records found, got {:?}", other),
    }
    let q = DnsQuery { name: name("x.example."), query_type: RecordType::A };
    match finish_lookup(q, Err(UpstreamError::Other("tls handshake".to_string())), 0) {
        Err(ResolveError::Message(m)) => assert_eq!(m, "tls handshake"),
        other => panic!("other failures surface with their message, got {:?}", other),
    }
    let q = DnsQuery { name: name("x.example."), query_type: RecordType::A };
    let ok = finish_lookup(q, Ok(vec![answer("x.example.", 1, 77, "9.9.9.9")]), 3);
    let lookup = ok.unwrap();
    assert_eq!(lookup.records.len(), 1);
    assert_eq!(lookup.valid_until, 80);
}

#[test]
fn tunnel_binding_decision() {
    let ifs = IfAddrs::new(vec![
        NetInterface { name: "lo".to_string(), addr: Some(IpAddress::V4(0x7F000001)) },
        NetInterface { name: "utun0".to_string(), addr: Some(IpAddress::V4(0x7F000001)) },
        NetInterface { name: "utun1".to_string(), addr: Some(IpAddress::V4(0x0A000002)) },
        NetInterface { name: "eth0".to_string(), addr: Some(IpAddress::V4(0xC0A80101)) },
    ]);

    // private destination: never bound to the tunnel
    assert_eq!(plan_binding(IpAddress::V4(0xC0A80101), &ifs), None);
    assert_eq!(plan_binding(IpAddress::V4(0x0A0A0A0A), &ifs), None);
    assert_eq!(plan_binding(IpAddress::V4(0xAC1F0001), &ifs), None);

    // public destination: bound to the first usable tunnel interface
    // (tunnel-named interfaces with a loopback address are skipped)
    assert_eq!(plan_binding(IpAddress::V4(0x01010101), &ifs), Some("utun1".to_string()));

    // IPv6 destinations are treated as public — the known gap
    assert_eq!(plan_binding(IpAddress::V6(1), &ifs), Some("utun1".to_string()));

    // no tunnel interface: proceed unbound
    let bare = IfAddrs::new(vec![
        NetInterface { name: "eth0".to_string(), addr: Some(IpAddress::V4(0xC0A80101)) },
    ]);
    assert_eq!(plan_binding(IpAddress::V4(0x01010101), &bare), None);

    // the cursor walks the list in order
    let mut it = ifs.iter();
    assert_eq!(it.next().map(|e| e.name.clone()), Some("lo".to_string()));
    assert_eq!(it.next().map(|e| e.name.clone()), Some("utun0".to_string()));
    assert_eq!(it.next().map(|e| e.name.clone()), Some("utun1".to_string()));
    assert_eq!(it.next().map(|e| e.name.clone()), Some("eth0".to_string()));
    assert!(it.next().is_none());
}

#[test]
fn interface_nodes_walk_in_order() {
    let ifs = IfAddrs::new(vec![
        NetInterface { name: "lo".to_string(), addr: Some(IpAddress::V4(0x7F000001)) },
        NetInterface { name: "tun0".to_string(), addr: None },
    ]);
    let head = ifs.head().expect("the list is not empty");
    assert_eq!(head.name(), "lo");
    assert_eq!(head.addr(), Some(IpAddress::V4(0x7F000001)));
    let second = head.next().expect("a second interface exists");
    assert_eq!(second.name(), "tun0");
    assert_eq!(second.addr(), None);
    assert!(second.next().is_none());
    let mut rest = second.iter();
    assert_eq!(rest.next().map(|e| e.name.clone()), Some("tun0".to_string()));
    assert!(rest.next().is_none());
    assert!(IfAddrs::new(vec![]).head().is_none());
}

#[test]
fn history_action_of_verdict() {
    assert_eq!(
        DNSHistoryAction::of_action(&BlocklistAction::Allow),
        DNSHistoryAction::Whitelisted,
    );
    assert_eq!(
        DNSHistoryAction::of_action(&BlocklistAction::Deny("x".to_string())),
        DNSHistoryAction::Blocked,
    );
    assert_eq!(
        DNSHistoryAction::of_action(&BlocklistAction::NoVerdict),
        DNSHistoryAction::Passed,
    );
}

#[test]
fn end_to_end_block_and_pass() {
    // session with a blacklist holding ads.example and an empty whitelist
    let mut authority = BlockaAuthority::new(name("."), new_engine(Some("ads.example\n"), Some("")));

    // query for ads.example. type A: one A record, unspecified address, TTL 10
    let q1 = DnsQuery { name: name("ads.example."), query_type: RecordType::A };
    match authority.search_pre(&q1, 7) {
        SearchStep::Blocked(Ok(reply)) => {
            assert_eq!(reply.records.len(), 1);
            assert!(matches!(reply.records[0].rdata, RData::A(0)));
            assert_eq!(reply.records[0].ttl, 10);
        },
        _ => panic!("the blacklisted query must be answered with the blocked record"),
    }

    // query for safe.example. type A: the upstream's record passes unchanged
    let q2 = DnsQuery { name: name("safe.example."), query_type: RecordType::A };
    assert!(matches!(authority.search_pre(&q2, 8), SearchStep::Forward));
    let upstream = vec![answer("safe.example.", 1, 3600, "93.184.216.34")];
    let q2 = DnsQuery { name: name("safe.example."), query_type: RecordType::A };
    let resolved = finish_lookup(q2, Ok(upstream), 8);
    match authority.search_post(resolved, 8) {
        Ok(out) => {
            assert_eq!(out.records.len(), 1);
            assert_eq!(out.records[0].ttl, 3600);
            assert!(matches!(out.records[0].rdata, RData::A(0x5DB8D822)));
        },
        Err(e) => panic!("the clean reply must pass through, got {:?}", e),
    }
}

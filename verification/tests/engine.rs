//! Blocklist engine behavior: file-backed matching, whitelist precedence,
//! caching, counters and the diagnostics snapshot.

use blocka_dns::blocklist::{BlocklistAction, FileList, ListType, Policy, PolicySource};
use blocka_dns::cache::with_cache;
use blocka_dns::name::Name;
use blocka_dns::netif::IpAddress;
use blocka_dns::session::{
    build_servers, compose_policy, dns_history, new_engine, DNSHistoryAction, DNSMode, TunnelMode,
};

fn name(s: &str) -> Name {
    Name::parse(s).expect("name should parse")
}

#[test]
fn load_blocklist() {
    let contents = "doubleclick.net\nxmr-ru1.nanopool.org\nads.example\n";
    let list = FileList::new(contents, ListType::Blacklist);
    let blocked_name = name("xmr-ru1.nanopool.org.");
    assert_eq!(
        list.next_action(&vec![blocked_name.duplicate()]),
        BlocklistAction::Deny(String::from("xmr-ru1.nanopool.org")),
        "nanopool should be denied",
    );
    assert_eq!(
        list.next_action(&vec![name("www.google.com.")]),
        BlocklistAction::NoVerdict,
        "google should be allowed",
    );
    assert_eq!(
        list.next_action(&vec![blocked_name]),
        BlocklistAction::Deny(String::from("xmr-ru1.nanopool.org")),
        "nanopool should be denied a second time",
    );
}

#[test]
fn blacklist_matches_case_insensitively() {
    let list = FileList::new("Ads.Example\n", ListType::Blacklist);
    assert_eq!(
        list.next_action(&vec![name("ADS.EXAMPLE.")]),
        BlocklistAction::Deny(String::from("Ads.Example")),
    );
}

#[test]
fn first_matching_line_wins() {
    let list = FileList::new("b.example\na.example\n", ListType::Blacklist);
    let names = vec![name("a.example"), name("b.example")];
    // the first line in file order decides, whichever name matched it
    assert_eq!(
        list.next_action(&names),
        BlocklistAction::Deny(String::from("b.example")),
    );
}

#[test]
fn whitelist_precedence() {
    // the name stands in both lists; the composed policy allows
    let policy = compose_policy(Some("ads.example\n"), Some("ads.example\n"));
    assert_eq!(
        policy.next_action(&vec![name("ads.example.")]),
        BlocklistAction::Allow,
    );
}

#[test]
fn composed_policy_falls_through() {
    let policy = compose_policy(Some("bad.example\n"), Some("good.example\n"));
    assert_eq!(
        policy.next_action(&vec![name("bad.example.")]),
        BlocklistAction::Deny(String::from("bad.example")),
    );
    assert_eq!(
        policy.next_action(&vec![name("other.example.")]),
        BlocklistAction::NoVerdict,
    );
}

#[test]
fn cache_idempotence_and_telemetry() {
    let mut engine = new_engine(Some("ads.example\n"), None);
    let first = engine.next_action(&vec![name("ads.example.")], 1000);
    let second = engine.next_action(&vec![name("ads.example.")], 1001);
    assert_eq!(first, second);
    assert_eq!(first, BlocklistAction::Deny(String::from("ads.example")));

    let history = dns_history(&engine);
    assert_eq!(history.denied_requests, 2);
    assert_eq!(history.allowed_requests, 0);
    assert_eq!(history.entries.len(), 1);
    let entry = &history.entries[0];
    assert_eq!(entry.name, "ads.example.");
    assert_eq!(entry.action, DNSHistoryAction::Blocked);
    assert_eq!(entry.unix_time, 1001, "timestamp refreshed on every call");
    assert_eq!(entry.requests, 2, "request count increases by one per call");
}

#[test]
fn no_verdict_reports_as_allow() {
    let mut engine = new_engine(Some("ads.example\n"), None);
    let action = engine.next_action(&vec![name("clean.example.")], 5);
    assert_eq!(action, BlocklistAction::Allow);
    let history = dns_history(&engine);
    assert_eq!(history.allowed_requests, 1);
    assert_eq!(history.denied_requests, 0);
    // internally the verdict was "no opinion", not an explicit allow
    assert_eq!(history.entries[0].action, DNSHistoryAction::Passed);
}

#[test]
fn deny_short_circuit() {
    let mut engine = new_engine(Some("blocked.example\n"), None);
    let names = vec![name("blocked.example."), name("later.example.")];
    let action = engine.next_action(&names, 42);
    assert_eq!(action, BlocklistAction::Deny(String::from("blocked.example")));
    // the name after the denied one was never evaluated: no entry for it
    let history = dns_history(&engine);
    assert_eq!(history.entries.len(), 1);
    assert_eq!(history.entries[0].name, "blocked.example.");
}

#[test]
fn deny_at_later_position() {
    // a miss consults the wrapped policy with the full name set, so with a
    // cold cache the first name already draws the batch's denial and is the
    // only name stored
    let mut engine = new_engine(Some("blocked.example\n"), None);
    let names = vec![name("clean.example."), name("blocked.example."), name("later.example.")];
    let action = engine.next_action(&names, 42);
    assert_eq!(action, BlocklistAction::Deny(String::from("blocked.example")));
    let history = dns_history(&engine);
    assert_eq!(history.entries.len(), 1);
    assert_eq!(history.entries[0].name, "clean.example.");
    assert_eq!(history.entries[0].action, DNSHistoryAction::Blocked);
    assert_eq!(history.denied_requests, 1);
    assert_eq!(history.allowed_requests, 0);

    // with the first name already cached as clean, the denial is met at the
    // second name; the name after it is neither evaluated nor stored
    let mut engine = new_engine(Some("blocked.example\n"), None);
    engine.next_action(&vec![name("clean.example.")], 41);
    let names = vec![name("clean.example."), name("blocked.example."), name("later.example.")];
    let action = engine.next_action(&names, 42);
    assert_eq!(action, BlocklistAction::Deny(String::from("blocked.example")));
    let history = dns_history(&engine);
    assert_eq!(history.entries.len(), 2);
    let mut names_seen: Vec<&str> = history.entries.iter().map(|e| e.name.as_str()).collect();
    names_seen.sort();
    assert_eq!(names_seen, vec!["blocked.example.", "clean.example."]);
    assert_eq!(history.denied_requests, 1);
    assert_eq!(history.allowed_requests, 1);
}

#[test]
fn multi_name_allow_stores_every_name() {
    let mut engine = new_engine(Some("blocked.example\n"), None);
    let names = vec![name("a.example."), name("b.example.")];
    let action = engine.next_action(&names, 9);
    assert_eq!(action, BlocklistAction::Allow);
    let history = dns_history(&engine);
    assert_eq!(history.entries.len(), 2);
    for entry in &history.entries {
        assert_eq!(entry.unix_time, 9);
        assert_eq!(entry.requests, 1);
    }
}

#[test]
fn empty_name_set_is_allowed() {
    let mut engine = new_engine(Some("ads.example\n"), None);
    let action = engine.next_action(&vec![], 1);
    assert_eq!(action, BlocklistAction::Allow);
    let history = dns_history(&engine);
    assert_eq!(history.allowed_requests, 1);
    assert_eq!(history.entries.len(), 0);
}

#[test]
fn cache_capacity_is_bounded() {
    let policy = compose_policy(Some("x\n"), None);
    let mut engine = with_cache(policy, 1);
    engine.next_action(&vec![name("a.example.")], 1);
    engine.next_action(&vec![name("b.example.")], 2);
    let history = dns_history(&engine);
    assert_eq!(history.entries.len(), 1, "the single-slot cache evicted one entry");
    assert_eq!(history.entries[0].name, "b.example.");
}

#[test]
fn whitelist_hit_reported_as_whitelisted() {
    let mut engine = new_engine(Some("good.example\n"), Some("good.example\n"));
    let action = engine.next_action(&vec![name("good.example.")], 7);
    assert_eq!(action, BlocklistAction::Allow);
    let history = dns_history(&engine);
    assert_eq!(history.entries[0].action, DNSHistoryAction::Whitelisted);
}

#[test]
fn fixed_source_and_dummy() {
    let dummy = blocka_dns::blocklist::AcceptAllDummy {};
    assert_eq!(dummy.next_action(&vec![name("anything.")]), BlocklistAction::Allow);
    let fixed = Policy::new(vec![PolicySource::Fixed(BlocklistAction::Deny(String::from(
        "pinned",
    )))]);
    assert_eq!(
        fixed.next_action(&vec![name("anything.")]),
        BlocklistAction::Deny(String::from("pinned")),
    );
}

#[test]
fn tunnel_mode_to_toggle() {
    assert_eq!(TunnelMode::TunneledInterface.as_toggle(), Some(true));
    assert_eq!(TunnelMode::DefaultInterface.as_toggle(), Some(false));
    assert_eq!(TunnelMode::Disabled.as_toggle(), None);
}

#[test]
fn dns_mode_gate() {
    let addrs = vec![IpAddress::V4(0x01010101)];
    let built = build_servers(
        DNSMode::HTTPS,
        String::from("cloudflare-dns.com"),
        String::from("dns-query"),
        addrs,
        10,
    );
    let servers = built.expect("https mode is supported");
    assert_eq!(servers.len(), 1);
    assert!(build_servers(DNSMode::CLEAR, String::new(), String::new(), vec![], 10).is_none());
    assert!(build_servers(DNSMode::TLS, String::new(), String::new(), vec![], 10).is_none());
}

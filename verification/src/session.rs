//! Host-boundary operations of a running session, on their compute side:
//! composing a policy from list file contents, building upstream server
//! descriptors, reading comma-separated address lists, and the diagnostics
//! snapshot of the verdict cache and counters.

use vstd::prelude::*;
use crate::blocklist::{ActionModel, BlocklistAction, FileList, ListType, Policy, PolicySource};
use crate::cache::{entry_action, with_cache, CachedList, VerdictEntry};
use crate::netif::IpAddress;
use crate::parse::{parse_ipv4, parse_ipv6, split_all, split_on, valid_ipv4, valid_ipv6, ipv4_value, ipv6_value, is_space};
use crate::resolver::DnsHttpsServer;
use crate::text::spec_lines;

verus! {

broadcast use vstd::string::is_ascii_spec_bytes;

/// How many verdicts the cache of a session's engine holds.
pub const ENGINE_CACHE_CAP: usize = 250;

/// How the upstream is spoken to.  Only DNS-over-HTTPS is supported; the
/// cleartext and DNS-over-TLS modes exist as disabled variants.
#[derive(Debug, Clone, Copy, PartialEq, Eq, Structural)]
pub enum DNSMode {
    CLEAR,
    TLS,
    HTTPS,
}

/// The transport mode requested over the host boundary.
#[derive(Debug, Clone, Copy, PartialEq, Eq, Structural)]
pub enum TunnelMode {
    Disabled,
    TunneledInterface,
    DefaultInterface,
}

impl TunnelMode {
    /// The toggle request this mode stands for.
    pub fn as_toggle(&self) -> (r: Option<bool>)
        ensures
            r == match *self {
                TunnelMode::TunneledInterface => Option::<bool>::Some(true),
                TunnelMode::DefaultInterface => Option::<bool>::Some(false),
                TunnelMode::Disabled => Option::<bool>::None,
            },
    {
        match self {
            TunnelMode::TunneledInterface => Some(true),
            TunnelMode::DefaultInterface => Some(false),
            TunnelMode::Disabled => None,
        }
    }
}

/// How one cache verdict is reported in the diagnostics snapshot.
#[derive(Debug, Clone, Copy, PartialEq, Eq, Structural)]
pub enum DNSHistoryAction {
    Whitelisted,
    Blocked,
    Passed,
}

/// How a verdict is shown in the snapshot: an explicit allow as whitelisted,
/// a denial as blocked, no opinion as passed.
pub open spec fn spec_history_action(a: ActionModel) -> DNSHistoryAction {
    match a {
        ActionModel::Allow => DNSHistoryAction::Whitelisted,
        ActionModel::Deny(_) => DNSHistoryAction::Blocked,
        ActionModel::NoVerdict => DNSHistoryAction::Passed,
    }
}

impl DNSHistoryAction {
    /// Reports a verdict in its history form.
    pub fn of_action(a: &BlocklistAction) -> (r: DNSHistoryAction)
        ensures
            r == spec_history_action(a@),
    {
        match a {
            BlocklistAction::Allow => DNSHistoryAction::Whitelisted,
            BlocklistAction::Deny(_) => DNSHistoryAction::Blocked,
            BlocklistAction::NoVerdict => DNSHistoryAction::Passed,
        }
    }
}

/// One line of the diagnostics snapshot: a name, its verdict, when it was
/// last seen, and how often it was asked for.
#[derive(Debug)]
pub struct DNSHistoryEntry {
    pub name: String,
    pub action: DNSHistoryAction,
    pub unix_time: u64,
    pub requests: u64,
}

/// The diagnostics snapshot: the cache contents and the running totals.
#[derive(Debug)]
pub struct DNSHistory {
    pub entries: Vec<DNSHistoryEntry>,
    pub allowed_requests: u64,
    pub denied_requests: u64,
}

/// A history entry reports a cache entry faithfully.
pub open spec fn entry_reported(e: DNSHistoryEntry, m: crate::cache::EntryModel) -> bool {
    &&& e.action == spec_history_action(entry_action(m))
    &&& e.unix_time == m.0
    &&& e.requests == m.1
}

/// Builds the composed policy a session evaluates: the whitelist (when one
/// is given) is consulted first and its verdict wins outright; the blacklist
/// (or, without one, a fixed no-verdict source) comes second.
pub fn compose_policy(blocklist: Option<&str>, whitelist: Option<&str>) -> (r: Policy)
    ensures
        ({
            let ss = r.spec_sources();
            let base: int = if whitelist is Some {
                1
            } else {
                0
            };
            &&& ss.len() == base + 1
            &&& (whitelist matches Some(wc) ==> ss[0] matches PolicySource::List(w)
                && w.spec_list_type() == ListType::Whitelist && w.spec_lines() == spec_lines(wc@))
            &&& (blocklist matches Some(bc) ==> ss[base] matches PolicySource::List(b)
                && b.spec_list_type() == ListType::Blacklist && b.spec_lines() == spec_lines(bc@))
            &&& (blocklist is None ==> (ss[base] matches PolicySource::Fixed(a) && a@ is NoVerdict))
        }),
{
    let mut sources: Vec<PolicySource> = Vec::new();
    match whitelist {
        Some(wc) => {
            sources.push(PolicySource::List(FileList::new(wc, ListType::Whitelist)));
        },
        None => {},
    }
    match blocklist {
        Some(bc) => {
            sources.push(PolicySource::List(FileList::new(bc, ListType::Blacklist)));
        },
        None => {
            sources.push(PolicySource::Fixed(BlocklistAction::NoVerdict));
        },
    }
    Policy::new(sources)
}

/// Builds a session's blocklist engine: the composed policy behind a fresh
/// bounded cache (replacing the lists on a running session goes through this
/// too — old telemetry is intentionally discarded, since verdicts under the
/// new lists are not comparable).
pub fn new_engine(blocklist: Option<&str>, whitelist: Option<&str>) -> (r: CachedList)
    ensures
        r.wf(),
        r.spec_cache() == crate::cache::empty_contents(),
        r.spec_counter().allowed == 0,
        r.spec_counter().denied == 0,
        r.spec_cap() == ENGINE_CACHE_CAP,
        ({
            let ss = r.spec_policy().spec_sources();
            let base: int = if whitelist is Some {
                1
            } else {
                0
            };
            &&& ss.len() == base + 1
            &&& (whitelist matches Some(wc) ==> ss[0] matches PolicySource::List(w)
                && w.spec_list_type() == ListType::Whitelist && w.spec_lines() == spec_lines(wc@))
            &&& (blocklist matches Some(bc) ==> ss[base] matches PolicySource::List(b)
                && b.spec_list_type() == ListType::Blacklist && b.spec_lines() == spec_lines(bc@))
            &&& (blocklist is None ==> (ss[base] matches PolicySource::Fixed(a) && a@ is NoVerdict))
        }),
{
    with_cache(compose_policy(blocklist, whitelist), ENGINE_CACHE_CAP)
}

/// The diagnostics snapshot of an engine: every cached name exactly once,
/// reported with its verdict, last-seen time and request count, plus the
/// allow/deny totals.
pub fn dns_history(engine: &CachedList) -> (r: DNSHistory)
    ensures
        r.allowed_requests == engine.spec_counter().allowed,
        r.denied_requests == engine.spec_counter().denied,
        forall|i: int|
            0 <= i < r.entries@.len() ==> engine.spec_cache().contains_key(
                (#[trigger] r.entries@[i]).name@,
            ) && entry_reported(r.entries@[i], engine.spec_cache()[r.entries@[i].name@]),
        forall|k: Seq<char>|
            engine.spec_cache().contains_key(k) ==> exists|i: int|
                0 <= i < r.entries@.len() && (#[trigger] r.entries@[i]).name@ == k,
        forall|i: int, j: int|
            0 <= i < j < r.entries@.len() ==> (#[trigger] r.entries@[i]).name@ != (
            #[trigger] r.entries@[j]).name@,
{
    let snap = engine.snapshot();
    let total = engine.total();
    let mut entries: Vec<DNSHistoryEntry> = Vec::new();
    let mut i: usize = 0;
    while i < snap.len()
        invariant
            i <= snap@.len(),
            entries@.len() == i as int,
            forall|j: int|
                0 <= j < snap.deep_view().len() ==> engine.spec_cache().contains_key(
                    (#[trigger] snap.deep_view()[j]).0,
                ) && engine.spec_cache()[snap.deep_view()[j].0] == snap.deep_view()[j].1,
            forall|k: Seq<char>|
                engine.spec_cache().contains_key(k) ==> exists|j: int|
                    0 <= j < snap.deep_view().len() && (#[trigger] snap.deep_view()[j]).0 == k,
            forall|j1: int, j2: int|
                0 <= j1 < j2 < snap.deep_view().len() ==> (#[trigger] snap.deep_view()[j1]).0 != (
                #[trigger] snap.deep_view()[j2]).0,
            forall|j: int|
                0 <= j < i ==> (#[trigger] entries@[j]).name@ == snap.deep_view()[j].0,
            forall|j: int|
                0 <= j < i ==> entry_reported(#[trigger] entries@[j], snap.deep_view()[j].1),
        decreases snap@.len() - i,
    {
        proof {
            assert(snap.deep_view()[i as int].0 == snap@[i as int].0@);
        }
        let item = &snap[i];
        let a = decode_entry_action(&item.1);
        entries.push(
            DNSHistoryEntry {
                name: item.0.clone(),
                action: a,
                unix_time: item.1.0,
                requests: item.1.1,
            },
        );
        i += 1;
    }
    proof {
        assert(snap.deep_view().len() == snap@.len());
        assert forall|k: Seq<char>| engine.spec_cache().contains_key(k) implies exists|i2: int|
            0 <= i2 < entries@.len() && (#[trigger] entries@[i2]).name@ == k by {
            let j = choose|j: int|
                0 <= j < snap.deep_view().len() && (#[trigger] snap.deep_view()[j]).0 == k;
            assert(entries@[j].name@ == k);
        }
    }
    DNSHistory {
        entries,
        allowed_requests: total.allowed,
        denied_requests: total.denied,
    }
}

/// Reads a stored verdict entry into its history form.
fn decode_entry_action(e: &VerdictEntry) -> (r: DNSHistoryAction)
    ensures
        r == spec_history_action(entry_action(e.deep_view())),
{
    match &e.3 {
        Option::Some(_) => DNSHistoryAction::Blocked,
        Option::None => {
            if e.2 {
                DNSHistoryAction::Whitelisted
            } else {
                DNSHistoryAction::Passed
            }
        },
    }
}

/// The trimmed form of one comma-separated piece: surrounding whitespace
/// removed.
pub open spec fn drop_leading_ws(s: Seq<char>) -> Seq<char>
    decreases s.len(),
{
    if s.len() > 0 && is_space(s.first()) {
        drop_leading_ws(s.drop_first())
    } else {
        s
    }
}

/// The string with trailing whitespace removed.
pub open spec fn drop_trailing_ws(s: Seq<char>) -> Seq<char>
    decreases s.len(),
{
    if s.len() > 0 && is_space(s.last()) {
        drop_trailing_ws(s.drop_last())
    } else {
        s
    }
}

/// The string with surrounding whitespace removed.
pub open spec fn spec_trim_ws(s: Seq<char>) -> Seq<char> {
    drop_trailing_ws(drop_leading_ws(s))
}

/// Removes surrounding whitespace.
pub fn trim_ws(s: &str) -> (r: String)
    ensures
        r@ == spec_trim_ws(s@),
{
    let n = s.unicode_len();
    let mut a: usize = 0;
    proof {
        assert(s@.skip(0) =~= s@);
    }
    while a < n && is_space_char(s.get_char(a))
        invariant
            n == s@.len(),
            a <= n,
            drop_leading_ws(s@) == drop_leading_ws(s@.skip(a as int)),
        decreases n - a,
    {
        proof {
            assert(s@.skip(a as int).first() == s@[a as int]);
            assert(s@.skip(a as int).drop_first() =~= s@.skip(a + 1));
        }
        a += 1;
    }
    proof {
        if a < n {
            assert(s@.skip(a as int).first() == s@[a as int]);
        } else {
            assert(s@.skip(a as int) =~= Seq::<char>::empty());
        }
        assert(drop_leading_ws(s@) == s@.skip(a as int));
    }
    let mut b: usize = n;
    while b > a && is_space_char(s.get_char(b - 1))
        invariant
            n == s@.len(),
            a <= b <= n,
            drop_leading_ws(s@) == s@.skip(a as int),
            drop_trailing_ws(s@.skip(a as int)) == drop_trailing_ws(
                s@.subrange(a as int, b as int),
            ),
        decreases b,
    {
        proof {
            assert(s@.subrange(a as int, b as int).last() == s@[b - 1]);
            assert(s@.subrange(a as int, b as int).drop_last() =~= s@.subrange(a as int, b - 1));
        }
        b -= 1;
    }
    proof {
        assert(s@.skip(a as int) =~= s@.subrange(a as int, n as int));
        if b > a {
            assert(s@.subrange(a as int, b as int).last() == s@[b - 1]);
        }
        assert(drop_trailing_ws(s@.subrange(a as int, b as int)) == s@.subrange(
            a as int,
            b as int,
        ));
    }
    let r = s.substring_char(a, b);
    r.to_owned()
}

/// Decides whether a character is a field separator.
fn is_space_char(c: char) -> (r: bool)
    ensures
        r == is_space(c),
{
    c == ' ' || c == '\t' || c == '\r' || c == '\n'
}

/// The address a comma-separated piece denotes, if its trimmed text is a
/// valid IPv4 or IPv6 address.
pub open spec fn spec_piece_addr(p: Seq<char>) -> Option<IpAddress> {
    let t = spec_trim_ws(p);
    if valid_ipv4(t) {
        Option::Some(IpAddress::V4(ipv4_value(t) as u32))
    } else if valid_ipv6(t) {
        Option::Some(IpAddress::V6(ipv6_value(t) as u128))
    } else {
        Option::None
    }
}

/// The addresses of the comma-separated pieces that parse, in order; pieces
/// that do not parse are skipped.
pub open spec fn addrs_match(addrs: Seq<IpAddress>, pieces: Seq<Seq<char>>) -> bool
    decreases pieces.len(),
{
    if pieces.len() == 0 {
        addrs.len() == 0
    } else if spec_piece_addr(pieces.last()) is Some {
        &&& addrs.len() > 0
        &&& addrs.last() == spec_piece_addr(pieces.last())->0
        &&& addrs_match(addrs.drop_last(), pieces.drop_last())
    } else {
        addrs_match(addrs, pieces.drop_last())
    }
}

/// Reads a comma-separated list of upstream addresses; pieces that are not
/// valid addresses after trimming are skipped.
pub fn parse_ip_list(s: &str) -> (r: Vec<IpAddress>)
    ensures
        addrs_match(r@, split_all(s@, ',')),
{
    let pieces = split_on(s, ',');
    let mut addrs: Vec<IpAddress> = Vec::new();
    let mut i: usize = 0;
    proof {
        assert(split_all(s@, ',').take(0) =~= Seq::<Seq<char>>::empty());
    }
    while i < pieces.len()
        invariant
            pieces.deep_view() == split_all(s@, ','),
            i <= pieces@.len(),
            pieces@.len() == pieces.deep_view().len(),
            addrs_match(addrs@, pieces.deep_view().take(i as int)),
        decreases pieces@.len() - i,
    {
        proof {
            assert(pieces.deep_view()[i as int] == pieces@[i as int]@);
            assert(pieces.deep_view().take(i + 1).drop_last() =~= pieces.deep_view().take(
                i as int,
            ));
            assert(pieces.deep_view().take(i + 1).last() == pieces.deep_view()[i as int]);
        }
        let t = trim_ws(pieces[i].as_str());
        match parse_ipv4(t.as_str()) {
            Some(v) => {
                let ghost a0 = addrs@;
                addrs.push(IpAddress::V4(v));
                proof {
                    assert(addrs@.drop_last() =~= a0);
                }
            },
            None => {
                match parse_ipv6(t.as_str()) {
                    Some(v) => {
                        let ghost a0 = addrs@;
                        addrs.push(IpAddress::V6(v));
                        proof {
                            assert(addrs@.drop_last() =~= a0);
                        }
                    },
                    None => {},
                }
            },
        }
        i += 1;
    }
    proof {
        assert(pieces.deep_view().take(pieces.deep_view().len() as int) =~= pieces.deep_view());
    }
    addrs
}

/// Builds the upstream server descriptors for a session.  Only the
/// DNS-over-HTTPS mode is supported: it yields one descriptor with the given
/// identity; the cleartext and DNS-over-TLS modes are refused.
pub fn build_servers(
    mode: DNSMode,
    name: String,
    path: String,
    addrs: Vec<IpAddress>,
    timeout_secs: u64,
) -> (r: Option<Vec<DnsHttpsServer>>)
    ensures
        (r is Some <==> mode == DNSMode::HTTPS),
        (r matches Some(v) ==> v@.len() == 1 && v@[0].name@ == name@ && v@[0].path@ == path@
            && v@[0].addrs@ == addrs@ && v@[0].timeout_secs == timeout_secs),
{
    match mode {
        DNSMode::HTTPS => {
            let mut servers: Vec<DnsHttpsServer> = Vec::new();
            servers.push(DnsHttpsServer { name, path, addrs, timeout_secs });
            Some(servers)
        },
        DNSMode::CLEAR => None,
        DNSMode::TLS => None,
    }
}

} // verus!

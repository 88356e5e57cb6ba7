//! Local network interfaces and the tunnel-binding decision: an outbound
//! connection to a public upstream address is bound to the first interface
//! that looks like a tunnel, while private destinations are never routed
//! through the tunnel.

use vstd::prelude::*;

verus! {

broadcast use vstd::string::is_ascii_spec_bytes;

/// The connect timeout applied to upstream connections, in seconds.
pub const CONNECT_TIMEOUT_SECS: u64 = 10;

/// The read/write timeout applied to established upstream streams, in
/// seconds, so stalled connections do not survive interface changes.
pub const IO_TIMEOUT_SECS: u64 = 10;

/// An IP address as a plain value: an IPv4 address as its 32-bit value, an
/// IPv6 address as its 128-bit value.
#[derive(Debug, Clone, Copy, PartialEq, Eq, Structural)]
pub enum IpAddress {
    V4(u32),
    V6(u128),
}

/// A private (RFC 1918) IPv4 address: 10/8, 172.16/12 or 192.168/16.
pub open spec fn spec_is_private_v4(a: u32) -> bool {
    ||| a / 0x100_0000 == 10
    ||| (a / 0x10_0000 >= 0xAC1 && a / 0x10_0000 < 0xAC2)
    ||| a / 0x1_0000 == 0xC0A8
}

/// A loopback (127/8) IPv4 address.
pub open spec fn spec_is_loopback_v4(a: u32) -> bool {
    a / 0x100_0000 == 127
}

/// Whether an address counts as private for tunnel routing.  IPv6 addresses
/// are treated as never private; detecting private IPv6 ranges is a known,
/// tracked limitation.
pub open spec fn spec_is_private(a: IpAddress) -> bool {
    match a {
        IpAddress::V4(v) => spec_is_private_v4(v),
        IpAddress::V6(_) => false,
    }
}

impl IpAddress {
    /// Whether this address is in a private IPv4 range (IPv6 addresses are
    /// treated as public; detecting private IPv6 ranges is a known gap).
    pub fn is_private(&self) -> (r: bool)
        ensures
            r == spec_is_private(*self),
    {
        match self {
            IpAddress::V4(v) => {
                let hi: u32 = *v / 0x100_0000;
                let hi12: u32 = *v / 0x10_0000;
                let hi16: u32 = *v / 0x1_0000;
                hi == 10 || (hi12 >= 0xAC1 && hi12 < 0xAC2) || hi16 == 0xC0A8
            },
            IpAddress::V6(_) => false,
        }
    }

    /// Whether this is an IPv4 loopback address.
    pub fn is_loopback_v4(&self) -> (r: bool)
        ensures
            r == (*self matches IpAddress::V4(v) && spec_is_loopback_v4(v)),
    {
        match self {
            IpAddress::V4(v) => *v / 0x100_0000 == 127,
            IpAddress::V6(_) => false,
        }
    }
}

/// One local network interface: its name and its address, if it has one.
#[derive(Debug, Clone)]
pub struct NetInterface {
    pub name: String,
    pub addr: Option<IpAddress>,
}

/// Whether the name contains `tun` — the tunnel-interface naming convention.
pub open spec fn spec_has_tun(s: Seq<char>) -> bool {
    exists|i: int| 0 <= i && i + 3 <= s.len() && #[trigger] s[i] == 't' && s[i + 1] == 'u' && s[i + 2] == 'n'
}

/// Decides whether a name follows the tunnel naming convention.
pub fn name_has_tun(s: &str) -> (r: bool)
    ensures
        r == spec_has_tun(s@),
{
    let n = s.unicode_len();
    if n < 3 {
        return false;
    }
    let mut i: usize = 0;
    while i <= n - 3
        invariant
            n == s@.len(),
            3 <= n,
            i <= n - 2,
            forall|j: int|
                0 <= j < i ==> !(#[trigger] s@[j] == 't' && s@[j + 1] == 'u' && s@[j + 2] == 'n'),
        decreases n - i,
    {
        let a = s.get_char(i);
        let b = s.get_char(i + 1);
        let c = s.get_char(i + 2);
        if a == 't' && b == 'u' && c == 'n' {
            return true;
        }
        i += 1;
    }
    proof {
        if spec_has_tun(s@) {
            let j = choose|j: int|
                0 <= j && j + 3 <= s@.len() && #[trigger] s@[j] == 't' && s@[j + 1] == 'u' && s@[j
                    + 2] == 'n';
            assert(j < i);
            assert(false);
        }
    }
    false
}

/// A usable tunnel interface: a tunnel-named interface carrying a
/// non-loopback IPv4 address.
pub open spec fn spec_tunnel_candidate(e: NetInterface) -> bool {
    &&& spec_has_tun(e.name@)
    &&& e.addr matches Some(a) && (a matches IpAddress::V4(v) && !spec_is_loopback_v4(v))
}

/// The local interface list.
#[derive(Debug)]
pub struct IfAddrs {
    entries: Vec<NetInterface>,
}

/// A cursor over the interface list, yielding each entry in order.
pub struct Iter<'a> {
    entries: &'a Vec<NetInterface>,
    pos: usize,
}

impl IfAddrs {
    /// The listed interfaces, in order.
    pub closed spec fn spec_entries(&self) -> Seq<NetInterface> {
        self.entries@
    }

    /// Assembles an interface list from its entries.
    pub fn new(entries: Vec<NetInterface>) -> (r: IfAddrs)
        ensures
            r.spec_entries() == entries@,
    {
        IfAddrs { entries }
    }

    /// The position of the first interface, when the list is not empty.
    pub fn head(&self) -> (r: Option<IfAddrsRef<'_>>)
        ensures
            (r is Some <==> self.spec_entries().len() > 0),
            (r matches Some(h) ==> h.wf() && h.spec_tail() == self.spec_entries()
                && h.spec_current() == self.spec_entries()[0]),
    {
        if self.entries.len() > 0 {
            proof {
                assert(self.entries@.skip(0) =~= self.entries@);
            }
            Some(IfAddrsRef { entries: &self.entries, pos: 0 })
        } else {
            None
        }
    }

    /// A cursor positioned at the first interface.
    pub fn iter(&self) -> (r: Iter<'_>)
        ensures
            r.wf(),
            r.spec_remaining() == self.spec_entries(),
    {
        proof {
            assert(self.entries@.skip(0) =~= self.entries@);
        }
        Iter { entries: &self.entries, pos: 0 }
    }

    /// The first usable tunnel interface, if any: named like a tunnel and
    /// carrying a non-loopback IPv4 address.
    pub fn find_tunnel(&self) -> (r: Option<&NetInterface>)
        ensures
            (r is Some <==> exists|i: int|
                0 <= i < self.spec_entries().len() && spec_tunnel_candidate(
                    #[trigger] self.spec_entries()[i],
                )),
            (r matches Some(e) ==> exists|i: int|
                {
                    &&& 0 <= i < self.spec_entries().len()
                    &&& *e == self.spec_entries()[i]
                    &&& spec_tunnel_candidate(#[trigger] self.spec_entries()[i])
                    &&& forall|j: int| 0 <= j < i ==> !spec_tunnel_candidate(
                        #[trigger] self.spec_entries()[j],
                    )
                }),
    {
        let mut i: usize = 0;
        while i < self.entries.len()
            invariant
                i <= self.spec_entries().len(),
                forall|j: int|
                    0 <= j < i ==> !spec_tunnel_candidate(#[trigger] self.spec_entries()[j]),
            decreases self.spec_entries().len() - i,
        {
            let e = &self.entries[i];
            let named = name_has_tun(e.name.as_str());
            let usable = match &e.addr {
                Some(a) => {
                    match a {
                        IpAddress::V4(v) => !(*v / 0x100_0000 == 127),
                        IpAddress::V6(_) => false,
                    }
                },
                None => false,
            };
            if named && usable {
                proof {
                    assert(spec_tunnel_candidate(self.spec_entries()[i as int]));
                }
                return Some(e);
            }
            proof {
                assert(!spec_tunnel_candidate(self.spec_entries()[i as int]));
            }
            i += 1;
        }
        None
    }
}

/// A position in the interface list: one interface, with the ones after it
/// reachable through [`IfAddrsRef::next`] and [`IfAddrsRef::iter`].
pub struct IfAddrsRef<'a> {
    entries: &'a Vec<NetInterface>,
    pos: usize,
}

impl<'a> IfAddrsRef<'a> {
    /// The interface this position stands on.
    pub closed spec fn spec_current(&self) -> NetInterface {
        self.entries@[self.pos as int]
    }

    /// The interfaces from this position on.
    pub closed spec fn spec_tail(&self) -> Seq<NetInterface> {
        self.entries@.skip(self.pos as int)
    }

    /// The position lies on an interface.
    pub closed spec fn wf(&self) -> bool {
        self.pos < self.entries@.len()
    }

    /// The interface's name.
    pub fn name(&self) -> (r: &'a str)
        requires
            self.wf(),
        ensures
            r@ == self.spec_current().name@,
    {
        self.entries[self.pos].name.as_str()
    }

    /// The interface's address, if it has one.
    pub fn addr(&self) -> (r: Option<IpAddress>)
        requires
            self.wf(),
        ensures
            r == self.spec_current().addr,
    {
        self.entries[self.pos].addr
    }

    /// The position one interface further, if there is one.
    pub fn next(&self) -> (r: Option<IfAddrsRef<'a>>)
        requires
            self.wf(),
        ensures
            (r is Some <==> self.spec_tail().len() > 1),
            (r matches Some(n) ==> n.wf() && n.spec_tail() == self.spec_tail().drop_first()),
    {
        if self.pos < self.entries.len() - 1 {
            proof {
                assert(self.entries@.skip(self.pos + 1) =~= self.entries@.skip(
                    self.pos as int,
                ).drop_first());
            }
            Some(IfAddrsRef { entries: self.entries, pos: self.pos + 1 })
        } else {
            None
        }
    }

    /// A cursor over this interface and the ones after it.
    pub fn iter(&self) -> (r: Iter<'a>)
        requires
            self.wf(),
        ensures
            r.wf(),
            r.spec_remaining() == self.spec_tail(),
    {
        Iter { entries: self.entries, pos: self.pos }
    }
}

impl<'a> Iter<'a> {
    /// The entries not yet yielded.
    pub closed spec fn spec_remaining(&self) -> Seq<NetInterface> {
        self.entries@.skip(self.pos as int)
    }

    /// The cursor position lies within the list.
    pub closed spec fn wf(&self) -> bool {
        self.pos <= self.entries@.len()
    }

    /// Yields the next interface, if one is left.
    pub fn next(&mut self) -> (r: Option<&'a NetInterface>)
        requires
            old(self).wf(),
        ensures
            final(self).wf(),
            old(self).spec_remaining().len() == 0 ==> r is None && final(self).spec_remaining()
                == old(self).spec_remaining(),
            old(self).spec_remaining().len() > 0 ==> (r matches Some(e) && *e == old(
                self,
            ).spec_remaining().first() && final(self).spec_remaining() == old(
                self,
            ).spec_remaining().drop_first()),
    {
        if self.pos < self.entries.len() {
            let e = &self.entries[self.pos];
            self.pos = self.pos + 1;
            proof {
                assert(self.entries@.skip(self.pos as int) =~= self.entries@.skip(
                    self.pos - 1,
                ).drop_first());
            }
            Some(e)
        } else {
            proof {
                assert(self.entries@.skip(self.pos as int).len() == 0);
            }
            None
        }
    }
}

/// Decides whether, and to which interface, an outbound connection to the
/// destination should be bound: a private destination is never bound to the
/// tunnel; a public one is bound to the first usable tunnel interface, or
/// left unbound when none is found.
pub fn plan_binding(dest: IpAddress, ifs: &IfAddrs) -> (r: Option<String>)
    ensures
        spec_is_private(dest) ==> r is None,
        !spec_is_private(dest) ==> ((r is Some <==> exists|i: int|
            0 <= i < ifs.spec_entries().len() && spec_tunnel_candidate(
                #[trigger] ifs.spec_entries()[i],
            )) && (r matches Some(nm) ==> exists|i: int|
            {
                &&& 0 <= i < ifs.spec_entries().len()
                &&& spec_tunnel_candidate(#[trigger] ifs.spec_entries()[i])
                &&& nm@ == ifs.spec_entries()[i].name@
                &&& forall|j: int| 0 <= j < i ==> !spec_tunnel_candidate(
                    #[trigger] ifs.spec_entries()[j],
                )
            })),
{
    if dest.is_private() {
        return None;
    }
    match ifs.find_tunnel() {
        Some(e) => Some(e.name.clone()),
        None => None,
    }
}

} // verus!

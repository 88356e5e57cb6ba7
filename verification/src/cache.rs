//! A caching decorator over a [`Policy`]: verdicts are memoized per name in a
//! bounded least-recently-used cache, together with the time each name was
//! last seen and how often it was asked for, and process-lifetime allow/deny
//! totals are kept.

use vstd::prelude::*;
use crate::blocklist::{ActionModel, BlocklistAction, Policy};
use crate::name::Name;

verus! {

broadcast use crate::name::lemma_name_deep_view;

/// What the cache stores per name: last-seen Unix time, cumulative request
/// count, whether the verdict was an explicit allow, and the matched entry of
/// a denial (absent for allow / no-verdict).
pub type VerdictEntry = (u64, u64, bool, Option<String>);

/// The mathematical form of a cache entry.
pub type EntryModel = (u64, u64, bool, Option<Seq<char>>);

#[verifier::external_type_specification]
#[verifier::external_body]
#[verifier::reject_recursive_types(K)]
#[verifier::reject_recursive_types(V)]
#[verifier::reject_recursive_types(S)]
pub struct ExLruCache<K, V, S>(lru::LruCache<K, V, S>);

/// The empty cache contents.
pub open spec fn empty_contents() -> Map<Seq<char>, EntryModel> {
    Map::empty()
}

/// What the cache holds: each stored name mapped to its entry.
pub uninterp spec fn cache_contents(c: lru::LruCache<String, VerdictEntry>) -> Map<
    Seq<char>,
    EntryModel,
>;

/// The bound the cache was created with.
pub uninterp spec fn cache_cap(c: lru::LruCache<String, VerdictEntry>) -> usize;

/// Relies on lru::LruCache::new: creates an empty cache that holds at most
/// `cap` entries.
#[verifier::external_body]
fn cache_new(cap: usize) -> (c: lru::LruCache<String, VerdictEntry>)
    requires
        cap >= 1,
    ensures
        cache_contents(c) == empty_contents(),
        cache_contents(c).dom().finite(),
        cache_cap(c) == cap,
{
    lru::LruCache::new(cap)
}

/// Relies on lru::LruCache::get: returns the entry stored under the key, or
/// nothing; it only refreshes the key's recency, so the contents and the
/// bound do not change.
#[verifier::external_body]
fn cache_get(c: &mut lru::LruCache<String, VerdictEntry>, k: &String) -> (r: Option<VerdictEntry>)
    ensures
        cache_contents(*final(c)) == cache_contents(*old(c)),
        cache_cap(*final(c)) == cache_cap(*old(c)),
        (if cache_contents(*old(c)).contains_key(k@) {
            r matches Some(v) && v.deep_view() == cache_contents(*old(c))[k@]
        } else {
            r is None
        }),
{
    c.get(k).cloned()
}

/// Relies on lru::LruCache::put: stores the entry under the key.  An already
/// present key is updated in place; a new key is inserted, evicting the least
/// recently used entry when the cache is full.  The cache never holds more
/// entries than its bound.
#[verifier::external_body]
fn cache_put(c: &mut lru::LruCache<String, VerdictEntry>, k: String, v: VerdictEntry)
    requires
        cache_cap(*old(c)) >= 1,
        cache_contents(*old(c)).dom().finite(),
        cache_contents(*old(c)).dom().len() <= cache_cap(*old(c)),
    ensures
        cache_cap(*final(c)) == cache_cap(*old(c)),
        ({
            let m0 = cache_contents(*old(c));
            let m1 = cache_contents(*final(c));
            if m0.contains_key(k@) || m0.dom().len() < cache_cap(*old(c)) {
                m1 == m0.insert(k@, v.deep_view())
            } else {
                exists|e: Seq<char>|
                    m0.contains_key(e) && e != k@ && m1 == m0.remove(e).insert(k@, v.deep_view())
            }
        }),
        cache_contents(*final(c)).dom().finite(),
        cache_contents(*final(c)).dom().len() <= cache_cap(*old(c)),
{
    c.put(k, v);
}

/// Relies on lru::LruCache::iter: yields every stored pair exactly once; the
/// cache is not changed.
#[verifier::external_body]
fn cache_entries(c: &lru::LruCache<String, VerdictEntry>) -> (r: Vec<(String, VerdictEntry)>)
    ensures
        forall|i: int|
            0 <= i < r.deep_view().len() ==> cache_contents(*c).contains_key(
                (#[trigger] r.deep_view()[i]).0,
            ) && cache_contents(*c)[r.deep_view()[i].0] == r.deep_view()[i].1,
        forall|k: Seq<char>|
            cache_contents(*c).contains_key(k) ==> exists|i: int|
                0 <= i < r.deep_view().len() && (#[trigger] r.deep_view()[i]).0 == k,
        forall|i: int, j: int|
            0 <= i < j < r.deep_view().len() ==> (#[trigger] r.deep_view()[i]).0 != (
            #[trigger] r.deep_view()[j]).0,
{
    c.iter().map(|(k, v)| (k.clone(), v.clone())).collect()
}

/// The verdict recorded in a cache entry.
pub open spec fn entry_action(e: EntryModel) -> ActionModel {
    if e.3 is Some {
        ActionModel::Deny(e.3->0)
    } else if e.2 {
        ActionModel::Allow
    } else {
        ActionModel::NoVerdict
    }
}

/// Turns a verdict into the stored entry form.
fn encode_entry(a: &BlocklistAction, now: u64, requests: u64) -> (e: VerdictEntry)
    ensures
        e.deep_view().0 == now,
        e.deep_view().1 == requests,
        entry_action(e.deep_view()) == a@,
{
    match a {
        BlocklistAction::Allow => (now, requests, true, Option::None),
        BlocklistAction::Deny(s) => (now, requests, false, Option::Some(s.clone())),
        BlocklistAction::NoVerdict => (now, requests, false, Option::None),
    }
}

/// Reads the verdict back out of a stored entry.
fn decode_action(e: &VerdictEntry) -> (a: BlocklistAction)
    ensures
        a@ == entry_action(e.deep_view()),
{
    match &e.3 {
        Option::Some(s) => BlocklistAction::Deny(s.clone()),
        Option::None => {
            if e.2 {
                BlocklistAction::Allow
            } else {
                BlocklistAction::NoVerdict
            }
        },
    }
}

/// Process-lifetime totals of allowed and denied evaluations.
#[derive(Debug, Clone, Copy, PartialEq, Eq, Structural)]
pub struct Count {
    pub denied: u64,
    pub allowed: u64,
}

/// The verdict one evaluation step uses for a name: the cached one if the
/// name is cached, otherwise the wrapped policy's verdict over the whole set.
pub open spec fn lookup_action(
    cache: Map<Seq<char>, EntryModel>,
    policy: Policy,
    all_names: Seq<Seq<char>>,
    key: Seq<char>,
) -> ActionModel {
    if cache.contains_key(key) {
        entry_action(cache[key])
    } else {
        policy.spec_verdict(all_names)
    }
}

/// The request count an evaluation step starts from for a name.
pub open spec fn lookup_requests(cache: Map<Seq<char>, EntryModel>, key: Seq<char>) -> u64 {
    if cache.contains_key(key) {
        cache[key].1
    } else {
        0
    }
}

/// Every entry of `m1` was either stored for one of the first `upto` names,
/// or carried over from `m0` unchanged.
pub open spec fn frame_ok(
    m0: Map<Seq<char>, EntryModel>,
    m1: Map<Seq<char>, EntryModel>,
    names: Seq<Seq<char>>,
    upto: int,
) -> bool {
    forall|k: Seq<char>|
        #[trigger] m1.dom().contains(k) ==> (exists|j: int| 0 <= j < upto && #[trigger] names[j]
            == k) || (m0.contains_key(k) && m1[k] == m0[k])
}

/// The frame relation only weakens as more names are admitted.
pub proof fn lemma_frame_widen(
    m0: Map<Seq<char>, EntryModel>,
    m1: Map<Seq<char>, EntryModel>,
    names: Seq<Seq<char>>,
    a: int,
    b: int,
)
    requires
        a <= b,
        frame_ok(m0, m1, names, a),
    ensures
        frame_ok(m0, m1, names, b),
{
    assert forall|k: Seq<char>| #[trigger] m1.dom().contains(k) implies (exists|j: int|
        0 <= j < b && #[trigger] names[j] == k) || (m0.contains_key(k) && m1[k] == m0[k]) by {
        assert(m1.contains_key(k));
        if !(m0.contains_key(k) && m1[k] == m0[k]) {
            let j = choose|j: int| 0 <= j < a && #[trigger] names[j] == k;
            assert(0 <= j < b && names[j] == k);
        }
    }
}

/// A policy wrapped in a bounded verdict cache with telemetry.
pub struct CachedList {
    counter: Count,
    cache: lru::LruCache<String, VerdictEntry>,
    wrapped_list: Policy,
}

/// Wraps a policy in a fresh cache bounded by `cap` entries.
pub fn with_cache(wrapped_list: Policy, cap: usize) -> (r: CachedList)
    requires
        cap >= 1,
    ensures
        r.wf(),
        r.spec_cache() == empty_contents(),
        r.spec_counter() == (Count { denied: 0, allowed: 0 }),
        r.spec_policy() == wrapped_list,
        r.spec_cap() == cap,
{
    CachedList {
        cache: cache_new(cap),
        counter: Count { allowed: 0, denied: 0 },
        wrapped_list,
    }
}

impl CachedList {
    /// The cached entries, as a map from name text to entry.
    pub closed spec fn spec_cache(&self) -> Map<Seq<char>, EntryModel> {
        cache_contents(self.cache)
    }

    /// The cache bound.
    pub closed spec fn spec_cap(&self) -> usize {
        cache_cap(self.cache)
    }

    /// The running totals.
    pub closed spec fn spec_counter(&self) -> Count {
        self.counter
    }

    /// The wrapped policy.
    pub closed spec fn spec_policy(&self) -> Policy {
        self.wrapped_list
    }

    /// Structural well-formedness: the cache respects its bound.
    pub open spec fn wf(&self) -> bool {
        &&& self.spec_cap() >= 1
        &&& self.spec_cache().dom().finite()
        &&& self.spec_cache().dom().len() <= self.spec_cap()
    }

    /// The totals so far.
    pub fn total(&self) -> (r: Count)
        ensures
            r == self.spec_counter(),
    {
        self.counter
    }

    /// A point-in-time copy of the cache: every stored name with its verdict,
    /// last-seen time and request count, each exactly once.
    pub fn snapshot(&self) -> (r: Vec<(String, VerdictEntry)>)
        ensures
            forall|i: int|
                0 <= i < r.deep_view().len() ==> self.spec_cache().contains_key(
                    (#[trigger] r.deep_view()[i]).0,
                ) && self.spec_cache()[r.deep_view()[i].0] == r.deep_view()[i].1,
            forall|k: Seq<char>|
                self.spec_cache().contains_key(k) ==> exists|i: int|
                    0 <= i < r.deep_view().len() && (#[trigger] r.deep_view()[i]).0 == k,
            forall|i: int, j: int|
                0 <= i < j < r.deep_view().len() ==> (#[trigger] r.deep_view()[i]).0 != (
                #[trigger] r.deep_view()[j]).0,
    {
        cache_entries(&self.cache)
    }

    /// Evaluates the names in order against the cache and the wrapped policy.
    ///
    /// Every processed name is re-stored with the current time and a request
    /// count one higher than before (telemetry is captured even for verdicts
    /// the cache already knew); only a cache miss consults the wrapped
    /// policy, and it is consulted with the full name set.  The first name
    /// whose verdict is a denial decides: the denial is returned at once and
    /// the names after it are neither evaluated nor touched in the cache.  If
    /// no name is denied the engine reports an explicit allow, even where the
    /// wrapped policy had no opinion.
    pub fn next_action(&mut self, names: &Vec<Name>, now: u64) -> (r: BlocklistAction)
        requires
            old(self).wf(),
            forall|j: int| 0 <= j < names@.len() ==> #[trigger] names@[j].wf(),
        ensures
            final(self).wf(),
            final(self).spec_cap() == old(self).spec_cap(),
            final(self).spec_policy() == old(self).spec_policy(),
            r@ is Deny || r@ is Allow,
            // counters move by exactly the verdict
            (r@ is Deny ==> final(self).spec_counter().denied == old(self).spec_counter().denied.saturating_add(1)
                && final(self).spec_counter().allowed == old(self).spec_counter().allowed),
            (r@ is Allow ==> final(self).spec_counter().allowed == old(self).spec_counter().allowed.saturating_add(1)
                && final(self).spec_counter().denied == old(self).spec_counter().denied),
            // an empty set is allowed and leaves the cache alone
            (names@.len() == 0 ==> r@ is Allow && final(self).spec_cache() == old(self).spec_cache()),
            // the first name is read against the unchanged cache; a denial
            // there is returned as-is and only that name is re-stored
            (names@.len() > 0 && lookup_action(
                old(self).spec_cache(),
                old(self).spec_policy(),
                names.deep_view(),
                names.deep_view()[0],
            ) is Deny ==> {
                let key = names.deep_view()[0];
                let m0 = old(self).spec_cache();
                let a0 = lookup_action(m0, old(self).spec_policy(), names.deep_view(), key);
                let e = final(self).spec_cache()[key];
                &&& r@ == a0
                &&& final(self).spec_cache().contains_key(key)
                &&& e.0 == now
                &&& e.1 == lookup_requests(m0, key).saturating_add(1)
                &&& entry_action(e) == a0
                &&& stored_step(m0, final(self).spec_cache(), key, old(self).spec_cap())
            }),
            // with a single name the outcome is exact
            (names@.len() == 1 ==> {
                let key = names.deep_view()[0];
                let m0 = old(self).spec_cache();
                let a0 = lookup_action(m0, old(self).spec_policy(), names.deep_view(), key);
                let e = final(self).spec_cache()[key];
                &&& r@ == (if a0 is Deny {
                    a0
                } else {
                    ActionModel::Allow
                })
                &&& final(self).spec_cache().contains_key(key)
                &&& e.0 == now
                &&& e.1 == lookup_requests(m0, key).saturating_add(1)
                &&& entry_action(e) == a0
                &&& stored_step(m0, final(self).spec_cache(), key, old(self).spec_cap())
            }),
            // no entry is invented: whatever the final cache holds was either
            // stored for one of the names now, or carried over unchanged
            frame_ok(
                old(self).spec_cache(),
                final(self).spec_cache(),
                names.deep_view(),
                names.deep_view().len() as int,
            ),
            // a denial is the verdict of the first denied name, met after a
            // clean run of the names before it; that name's store is the last
            (r@ is Deny ==> denied_eval(
                old(self).spec_policy(),
                names.deep_view(),
                old(self).spec_cap(),
                now,
                old(self).spec_cache(),
                final(self).spec_cache(),
                r@,
            )),
            // an allow means every name ran without a denial, each one stored
            // in turn
            (r@ is Allow ==> allowed_eval(
                old(self).spec_policy(),
                names.deep_view(),
                old(self).spec_cap(),
                now,
                old(self).spec_cache(),
                final(self).spec_cache(),
            )),
    {
        let ghost m_start = self.spec_cache();
        let ghost names_dv = names.deep_view();
        if names.len() == 0 {
            if self.counter.allowed < u64::MAX {
                self.counter.allowed = self.counter.allowed + 1;
            }
            return BlocklistAction::Allow;
        }
        let mut i: usize = 0;
        while i < names.len()
            invariant
                self.wf(),
                names_dv == names.deep_view(),
                forall|j: int| 0 <= j < names@.len() ==> #[trigger] names@[j].wf(),
                i <= names@.len(),
                names@.len() == names_dv.len(),
                names@.len() > 0,
                self.spec_cap() == old(self).spec_cap(),
                self.spec_policy() == old(self).spec_policy(),
                self.spec_counter() == old(self).spec_counter(),
                m_start == old(self).spec_cache(),
                // first-step exactness is preserved for later iterations
                (i > 0 ==> {
                    let key = names_dv[0];
                    let a0 = lookup_action(m_start, old(self).spec_policy(), names_dv, key);
                    &&& !(a0 is Deny)
                    &&& (names_dv.len() == 1 ==> {
                        let e = self.spec_cache()[key];
                        &&& self.spec_cache().contains_key(key)
                        &&& e.0 == now
                        &&& e.1 == lookup_requests(m_start, key).saturating_add(1)
                        &&& entry_action(e) == a0
                        &&& stored_step(m_start, self.spec_cache(), key, old(self).spec_cap())
                    })
                }),
                (i == 0 ==> self.spec_cache() == m_start),
                frame_ok(m_start, self.spec_cache(), names_dv, i as int),
                clean_trace(
                    old(self).spec_policy(),
                    names_dv,
                    old(self).spec_cap(),
                    now,
                    m_start,
                    i as int,
                    self.spec_cache(),
                ),
            decreases names@.len() - i,
        {
            let ghost m_before = self.spec_cache();
            let name = &names[i];
            let key = name.to_ascii();
            proof {
                assert(key@ == names_dv[i as int]);
            }
            let got = cache_get(&mut self.cache, &key);
            let (action, requests): (BlocklistAction, u64) = match got {
                Option::Some(entry) => {
                    let a = decode_action(&entry);
                    (a, entry.1)
                },
                Option::None => {
                    let a = self.wrapped_list.next_action(names);
                    (a, 0)
                },
            };
            proof {
                assert(action@ == lookup_action(
                    m_before,
                    old(self).spec_policy(),
                    names_dv,
                    key@,
                ));
                assert(requests == lookup_requests(m_before, key@));
            }
            let stored = encode_entry(&action, now, requests.saturating_add(1));
            let ghost key_v = key@;
            cache_put(&mut self.cache, key, stored);
            proof {
                let m_after = self.spec_cache();
                let cap = old(self).spec_cap() as int;
                assert forall|k: Seq<char>| #[trigger] m_after.dom().contains(k) implies (exists|j: int|
                    0 <= j < i + 1 && #[trigger] names_dv[j] == k) || (m_start.contains_key(k)
                    && m_after[k] == m_start[k]) by {
                    assert(m_after.contains_key(k));
                    if k == key_v {
                        assert(names_dv[i as int] == k);
                    } else {
                        if !(m_before.contains_key(key_v) || m_before.dom().len() < cap) {
                            let e = choose|e: Seq<char>|
                                m_before.contains_key(e) && e != key_v && m_after == m_before
                                    .remove(e).insert(key_v, stored.deep_view());
                            assert(m_after[k] == m_before[k]);
                        } else {
                            assert(m_after[k] == m_before[k]);
                        }
                        assert(m_before.contains_key(k));
                        assert((exists|j: int| 0 <= j < i && #[trigger] names_dv[j] == k)
                            || (m_start.contains_key(k) && m_before[k] == m_start[k]));
                    }
                }
                assert(frame_ok(m_start, m_after, names_dv, i + 1));
                lemma_frame_widen(m_start, m_after, names_dv, i + 1, names_dv.len() as int);
                // the put is one evaluation step for this name
                assert(m_after[key_v] == stored.deep_view());
                assert(stored_step(m_before, m_after, key_v, old(self).spec_cap())) by {
                    if !(m_before.contains_key(key_v) || m_before.dom().len() < old(
                        self,
                    ).spec_cap()) {
                        let e = choose|e: Seq<char>|
                            m_before.contains_key(e) && e != key_v && m_after == m_before.remove(
                                e,
                            ).insert(key_v, stored.deep_view());
                        assert(m_before.contains_key(e) && e != key_v && m_after == m_before
                            .remove(e).insert(key_v, m_after[key_v]));
                    }
                }
                assert(eval_step(
                    old(self).spec_policy(),
                    names_dv,
                    old(self).spec_cap(),
                    now,
                    m_before,
                    names_dv[i as int],
                    m_after,
                ));
            }
            if action.is_deny() {
                if self.counter.denied < u64::MAX {
                    self.counter.denied = self.counter.denied + 1;
                }
                proof {
                    assert(denied_eval(
                        old(self).spec_policy(),
                        names_dv,
                        old(self).spec_cap(),
                        now,
                        m_start,
                        self.spec_cache(),
                        action@,
                    )) by {
                        assert(clean_trace(
                            old(self).spec_policy(),
                            names_dv,
                            old(self).spec_cap(),
                            now,
                            m_start,
                            i as int,
                            m_before,
                        ));
                        assert(eval_step(
                            old(self).spec_policy(),
                            names_dv,
                            old(self).spec_cap(),
                            now,
                            m_before,
                            names_dv[i as int],
                            self.spec_cache(),
                        ));
                    }
                }
                return action;
            }
            proof {
                assert(clean_trace(
                    old(self).spec_policy(),
                    names_dv,
                    old(self).spec_cap(),
                    now,
                    m_start,
                    i + 1,
                    self.spec_cache(),
                )) by {
                    assert(clean_trace(
                        old(self).spec_policy(),
                        names_dv,
                        old(self).spec_cap(),
                        now,
                        m_start,
                        i as int,
                        m_before,
                    ));
                    assert(eval_step(
                        old(self).spec_policy(),
                        names_dv,
                        old(self).spec_cap(),
                        now,
                        m_before,
                        names_dv[i as int],
                        self.spec_cache(),
                    ));
                }
            }
            i += 1;
        }
        if self.counter.allowed < u64::MAX {
            self.counter.allowed = self.counter.allowed + 1;
        }
        BlocklistAction::Allow
    }
}

/// One evaluation step for a name: the verdict is read from the incoming
/// cache (or, on a miss, is the policy's verdict over the whole set), and the
/// name is re-stored with the evaluation time and a request count one higher
/// than before, under the usual store step.
pub open spec fn eval_step(
    policy: Policy,
    all: Seq<Seq<char>>,
    cap: usize,
    now: u64,
    m_in: Map<Seq<char>, EntryModel>,
    key: Seq<char>,
    m_out: Map<Seq<char>, EntryModel>,
) -> bool {
    &&& m_out.contains_key(key)
    &&& m_out[key].0 == now
    &&& m_out[key].1 == lookup_requests(m_in, key).saturating_add(1)
    &&& entry_action(m_out[key]) == lookup_action(m_in, policy, all, key)
    &&& stored_step(m_in, m_out, key, cap)
}

/// The evaluation ran the first `upto` names in order, every step's verdict
/// was no denial, and each step's store took the cache from the previous
/// step's cache to the next (which entry an over-full store evicts is not
/// determined, so the intermediate caches are existential).
pub open spec fn clean_trace(
    policy: Policy,
    all: Seq<Seq<char>>,
    cap: usize,
    now: u64,
    m0: Map<Seq<char>, EntryModel>,
    upto: int,
    m_end: Map<Seq<char>, EntryModel>,
) -> bool
    decreases upto,
{
    if upto <= 0 {
        m_end == m0
    } else {
        exists|m_mid: Map<Seq<char>, EntryModel>|
            {
                &&& clean_trace(policy, all, cap, now, m0, upto - 1, m_mid)
                &&& !(lookup_action(m_mid, policy, all, all[upto - 1]) is Deny)
                &&& #[trigger] eval_step(policy, all, cap, now, m_mid, all[upto - 1], m_end)
            }
    }
}

/// The evaluation ran a clean prefix, then met a name whose verdict is the
/// denial `v`: that verdict is returned, that name's step is the last store,
/// and the names after it are neither evaluated nor stored.
pub open spec fn denied_eval(
    policy: Policy,
    all: Seq<Seq<char>>,
    cap: usize,
    now: u64,
    m0: Map<Seq<char>, EntryModel>,
    m1: Map<Seq<char>, EntryModel>,
    v: ActionModel,
) -> bool {
    &&& v is Deny
    &&& exists|i: int, m_mid: Map<Seq<char>, EntryModel>|
        {
            &&& 0 <= i < all.len()
            &&& clean_trace(policy, all, cap, now, m0, i, m_mid)
            &&& lookup_action(m_mid, policy, all, all[i]) == v
            &&& #[trigger] eval_step(policy, all, cap, now, m_mid, all[i], m1)
        }
}

/// The evaluation ran every name without meeting a denial.
pub open spec fn allowed_eval(
    policy: Policy,
    all: Seq<Seq<char>>,
    cap: usize,
    now: u64,
    m0: Map<Seq<char>, EntryModel>,
    m1: Map<Seq<char>, EntryModel>,
) -> bool {
    clean_trace(policy, all, cap, now, m0, all.len() as int, m1)
}

/// How one store step relates the cache before and after: the key's entry is
/// replaced or added, and at most one other entry leaves, only under capacity
/// pressure.
pub open spec fn stored_step(
    m0: Map<Seq<char>, EntryModel>,
    m1: Map<Seq<char>, EntryModel>,
    key: Seq<char>,
    cap: usize,
) -> bool {
    if m0.contains_key(key) || m0.dom().len() < cap {
        m1 == m0.insert(key, m1[key])
    } else {
        exists|e: Seq<char>|
            m0.contains_key(e) && e != key && m1 == m0.remove(e).insert(key, m1[key])
    }
}

/// What one single-name evaluation promises: the verdict comes from the
/// cache (or, on a miss, from the policy), a non-denial is reported as an
/// explicit allow, and the name is re-stored with the evaluation time and a
/// request count one higher than before.  [`CachedList::next_action`]
/// establishes this for every one-name call.
pub open spec fn single_eval(
    before: CachedList,
    after: CachedList,
    names: Seq<Seq<char>>,
    key: Seq<char>,
    r: ActionModel,
    now: u64,
) -> bool {
    let a0 = lookup_action(before.spec_cache(), before.spec_policy(), names, key);
    &&& after.spec_policy() == before.spec_policy()
    &&& r == (if a0 is Deny {
        a0
    } else {
        ActionModel::Allow
    })
    &&& after.spec_cache().contains_key(key)
    &&& entry_action(after.spec_cache()[key]) == a0
    &&& after.spec_cache()[key].0 == now
    &&& after.spec_cache()[key].1 == lookup_requests(before.spec_cache(), key).saturating_add(1)
}

/// Cache idempotence: two evaluations of the same single name in a row
/// return the same verdict (the second is served from the cache), and the
/// name's request count goes up by one on each call.
pub proof fn lemma_cache_idempotence(
    pre: CachedList,
    mid: CachedList,
    fin: CachedList,
    names: Seq<Seq<char>>,
    key: Seq<char>,
    r1: ActionModel,
    r2: ActionModel,
    now1: u64,
    now2: u64,
)
    requires
        names.len() >= 1,
        key == names[0],
        single_eval(pre, mid, names, key, r1, now1),
        single_eval(mid, fin, names, key, r2, now2),
    ensures
        r2 == r1,
        mid.spec_cache()[key].1 == lookup_requests(pre.spec_cache(), key).saturating_add(1),
        fin.spec_cache()[key].1 == mid.spec_cache()[key].1.saturating_add(1),
{
    assert(lookup_action(mid.spec_cache(), mid.spec_policy(), names, key) == entry_action(
        mid.spec_cache()[key],
    ));
}

/// On a fresh cache, the verdict for any name is the wrapped policy's.
pub proof fn lemma_fresh_cache_uses_policy(
    cache: Map<Seq<char>, EntryModel>,
    policy: Policy,
    names: Seq<Seq<char>>,
    key: Seq<char>,
)
    requires
        cache == empty_contents(),
    ensures
        lookup_action(cache, policy, names, key) == policy.spec_verdict(names),
{
}

/// Whether one of the first `upto` names is the key.
pub open spec fn among(all: Seq<Seq<char>>, upto: int, k: Seq<char>) -> bool {
    exists|j: int| 0 <= j < upto && #[trigger] all[j] == k
}

/// Telemetry of a clean run with room: when the distinct names evaluated fit
/// in the cache beside what it already held, nothing is evicted — every
/// evaluated name ends stored with the evaluation time and a request count
/// one higher than it had before the call, and every other entry is carried
/// over unchanged.  (Under capacity pressure a later store may evict an
/// earlier name's fresh entry; the per-step stores are then those of the
/// trace itself.)
pub proof fn lemma_clean_trace_telemetry(
    policy: Policy,
    all: Seq<Seq<char>>,
    cap: usize,
    now: u64,
    m0: Map<Seq<char>, EntryModel>,
    upto: int,
    m1: Map<Seq<char>, EntryModel>,
)
    requires
        0 <= upto <= all.len(),
        clean_trace(policy, all, cap, now, m0, upto, m1),
        m0.dom().finite(),
        m0.dom().len() + upto <= cap,
        forall|x: int, y: int| 0 <= x < y < upto ==> #[trigger] all[x] != #[trigger] all[y],
    ensures
        m1.dom().finite(),
        m1.dom().len() <= m0.dom().len() + upto,
        forall|j: int|
            0 <= j < upto ==> {
                &&& m1.contains_key(#[trigger] all[j])
                &&& m1[all[j]].0 == now
                &&& m1[all[j]].1 == lookup_requests(m0, all[j]).saturating_add(1)
            },
        forall|k: Seq<char>|
            #![trigger m1.dom().contains(k)]
            #![trigger m0.dom().contains(k)]
            !among(all, upto, k) ==> ((m1.contains_key(k) <==> m0.contains_key(k)) && (
            m1.contains_key(k) ==> m1[k] == m0[k])),
    decreases upto,
{
    broadcast use vstd::set::group_set_axioms;

    if upto <= 0 {
    } else {
        let key = all[upto - 1];
        let m_mid = choose|m_mid: Map<Seq<char>, EntryModel>|
            {
                &&& clean_trace(policy, all, cap, now, m0, upto - 1, m_mid)
                &&& !(lookup_action(m_mid, policy, all, all[upto - 1]) is Deny)
                &&& #[trigger] eval_step(policy, all, cap, now, m_mid, all[upto - 1], m1)
            };
        lemma_clean_trace_telemetry(policy, all, cap, now, m0, upto - 1, m_mid);
        assert(!among(all, upto - 1, key)) by {
            if among(all, upto - 1, key) {
                let j = choose|j: int| 0 <= j < upto - 1 && #[trigger] all[j] == key;
                assert(all[j] == all[upto - 1]);
            }
        }
        // there is room, so this store is a plain insert
        assert(m_mid.dom().len() < cap);
        assert(m1 == m_mid.insert(key, m1[key]));
        assert(m1.dom() =~= m_mid.dom().insert(key));
        assert(lookup_requests(m_mid, key) == lookup_requests(m0, key));
        assert forall|j: int| 0 <= j < upto implies {
            &&& m1.contains_key(#[trigger] all[j])
            &&& m1[all[j]].0 == now
            &&& m1[all[j]].1 == lookup_requests(m0, all[j]).saturating_add(1)
        } by {
            if j < upto - 1 {
                assert(all[j] != key);
                assert(m_mid.contains_key(all[j]));
                assert(m1[all[j]] == m_mid[all[j]]);
            }
        }
        assert forall|k: Seq<char>|
            !among(all, upto, k) implies ((m1.contains_key(k) <==> m0.contains_key(k)) && (
        m1.contains_key(k) ==> m1[k] == m0[k])) by {
            assert(!among(all, upto - 1, k)) by {
                if among(all, upto - 1, k) {
                    let j = choose|j: int| 0 <= j < upto - 1 && #[trigger] all[j] == k;
                    assert(0 <= j < upto && all[j] == k);
                }
            }
            assert(k != key);
        }
    }
}

/// A clean run stores no denial: any cached denial in its outcome was
/// already in the starting cache, unchanged.
pub proof fn lemma_clean_trace_keeps_denials_old(
    policy: Policy,
    all: Seq<Seq<char>>,
    cap: usize,
    now: u64,
    m0: Map<Seq<char>, EntryModel>,
    upto: int,
    m_end: Map<Seq<char>, EntryModel>,
)
    requires
        0 <= upto,
        clean_trace(policy, all, cap, now, m0, upto, m_end),
    ensures
        forall|k: Seq<char>|
            m_end.dom().contains(k) && entry_action(#[trigger] m_end[k]) is Deny
                ==> m0.contains_key(k) && m_end[k] == m0[k],
    decreases upto,
{
    if upto > 0 {
        let key = all[upto - 1];
        let m_mid = choose|m_mid: Map<Seq<char>, EntryModel>|
            {
                &&& clean_trace(policy, all, cap, now, m0, upto - 1, m_mid)
                &&& !(lookup_action(m_mid, policy, all, all[upto - 1]) is Deny)
                &&& #[trigger] eval_step(policy, all, cap, now, m_mid, all[upto - 1], m_end)
            };
        lemma_clean_trace_keeps_denials_old(policy, all, cap, now, m0, upto - 1, m_mid);
        assert forall|k: Seq<char>|
            m_end.dom().contains(k) && entry_action(#[trigger] m_end[k]) is Deny implies m0
            .contains_key(k) && m_end[k] == m0[k] by {
            assert(m_end.contains_key(k));
            if k == key {
                // this step stored a non-denial
                assert(!(entry_action(m_end[key]) is Deny));
            } else {
                // carried over from the previous step's cache
                if !(m_mid.contains_key(key) || m_mid.dom().len() < cap) {
                    let e = choose|e: Seq<char>|
                        m_mid.contains_key(e) && e != key && m_end == m_mid.remove(e).insert(
                            key,
                            m_end[key],
                        );
                    assert(m_end[k] == m_mid[k]);
                } else {
                    assert(m_end[k] == m_mid[k]);
                }
                assert(m_mid.dom().contains(k));
            }
        }
    }
}

/// Every denial has a source: a denied evaluation returns either the wrapped
/// policy's own denial of the name set, or a denial that was already cached
/// for one of the names before the call.  Contrapositively, when the policy
/// does not deny the set and no name's cached verdict is a denial, the
/// evaluation cannot deny — by the evaluation contract its result is then
/// the explicit allow, even where the policy had no opinion.
pub proof fn lemma_denial_has_a_source(
    policy: Policy,
    all: Seq<Seq<char>>,
    cap: usize,
    now: u64,
    m0: Map<Seq<char>, EntryModel>,
    m1: Map<Seq<char>, EntryModel>,
    v: ActionModel,
)
    requires
        denied_eval(policy, all, cap, now, m0, m1, v),
    ensures
        v is Deny,
        v == policy.spec_verdict(all) || exists|j: int|
            0 <= j < all.len() && m0.contains_key(#[trigger] all[j]) && entry_action(m0[all[j]])
                == v,
{
    let (i, m_mid) = choose|i: int, m_mid: Map<Seq<char>, EntryModel>|
        {
            &&& 0 <= i < all.len()
            &&& clean_trace(policy, all, cap, now, m0, i, m_mid)
            &&& lookup_action(m_mid, policy, all, all[i]) == v
            &&& #[trigger] eval_step(policy, all, cap, now, m_mid, all[i], m1)
        };
    if m_mid.contains_key(all[i]) {
        lemma_clean_trace_keeps_denials_old(policy, all, cap, now, m0, i, m_mid);
        assert(entry_action(m_mid[all[i]]) is Deny);
        assert(m0.contains_key(all[i]) && m_mid[all[i]] == m0[all[i]]);
        assert(m0.contains_key(all[i]) && entry_action(m0[all[i]]) == v);
    } else {
        assert(v == policy.spec_verdict(all));
    }
}

} // verus!

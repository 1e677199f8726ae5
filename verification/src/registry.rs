//! The peer registry: the set of sync peers this node currently knows,
//! keyed by their fully-qualified discovery name, together with the
//! discovery events that are its only source of change.
//!
//! The registry's view is the mapping from discovery name to peer; entries
//! enter and leave it only through `apply_discovery_event`. The surrounding
//! application owns the reader-writer lock that shares one registry between
//! the discovery thread and the request handlers.

use vstd::prelude::*;

use crate::trusted::str_eq;
use vstd::pervasive::VecAdditionalExecFns;
use vstd::string::StrSliceExecFns;

verus! {

/// One discovered sync peer: its advertised name, address, port, and when a
/// discovery event last mentioned it (epoch seconds).
#[derive(Debug, PartialEq)]
pub struct PeerInfo {
    pub name: String,
    pub ip: String,
    pub port: u16,
    pub last_seen: u64,
}

/// Mathematical view of a `PeerInfo`.
#[verifier::ext_equal]
pub struct PeerInfoV {
    pub name: Seq<char>,
    pub ip: Seq<char>,
    pub port: u16,
    pub last_seen: u64,
}

impl View for PeerInfo {
    type V = PeerInfoV;

    open spec fn view(&self) -> PeerInfoV {
        PeerInfoV { name: self.name@, ip: self.ip@, port: self.port, last_seen: self.last_seen }
    }
}

impl DeepView for PeerInfo {
    type V = PeerInfoV;

    open spec fn deep_view(&self) -> PeerInfoV {
        self.view()
    }
}

impl Clone for PeerInfo {
    /// The copy is equal to the original.
    fn clone(&self) -> (r: Self)
        ensures
            r == *self,
    {
        PeerInfo {
            name: self.name.clone(),
            ip: self.ip.clone(),
            port: self.port,
            last_seen: self.last_seen,
        }
    }
}

/// One registry slot: the discovery name a peer was announced under, and the
/// peer itself.
struct PeerEntry {
    key: String,
    info: PeerInfo,
}

/// The mapping an entry sequence denotes; later entries would win, though a
/// well-formed registry never repeats a key.
spec fn registry_map(s: Seq<PeerEntry>) -> Map<Seq<char>, PeerInfoV>
    decreases s.len(),
{
    if s.len() == 0 {
        Map::empty()
    } else {
        registry_map(s.drop_last()).insert(s.last().key@, s.last().info@)
    }
}

/// A key is in the mapping exactly when some entry carries it, and the
/// domain is finite.
proof fn lemma_registry_map_domain(s: Seq<PeerEntry>)
    ensures
        forall|k: Seq<char>|
            registry_map(s).contains_key(k) <==> exists|j: int|
                0 <= j < s.len() && (#[trigger] s[j].key)@ == k,
        registry_map(s).dom().finite(),
    decreases s.len(),
{
    if s.len() == 0 {
    } else {
        lemma_registry_map_domain(s.drop_last());
        assert forall|k: Seq<char>| registry_map(s).contains_key(k) implies exists|j: int|
            0 <= j < s.len() && (#[trigger] s[j].key)@ == k by {
            if k == s.last().key@ {
                assert(s[s.len() - 1].key@ == k);
            } else {
                let j = choose|j: int|
                    0 <= j < s.drop_last().len() && (#[trigger] s.drop_last()[j].key)@ == k;
                assert(s[j].key@ == k);
            }
        }
        assert forall|k: Seq<char>|
            (exists|j: int| 0 <= j < s.len() && (#[trigger] s[j].key)@ == k) implies registry_map(
            s,
        ).contains_key(k) by {
            let j = choose|j: int| 0 <= j < s.len() && (#[trigger] s[j].key)@ == k;
            if j < s.len() - 1 {
                assert(s.drop_last()[j].key@ == k);
            }
        }
    }
}

/// No two entries carry the same key.
spec fn unique_keys(s: Seq<PeerEntry>) -> bool {
    forall|j: int, k: int|
        #![trigger s[j].key, s[k].key]
        0 <= j < k < s.len() ==> s[j].key@ != s[k].key@
}

/// With unique keys, every entry is what the mapping holds for its key, and
/// the mapping is exactly as large as the entry sequence.
proof fn lemma_registry_map_entries(s: Seq<PeerEntry>)
    requires
        unique_keys(s),
    ensures
        forall|j: int|
            0 <= j < s.len() ==> registry_map(s).contains_pair(
                (#[trigger] s[j].key)@,
                s[j].info@,
            ),
        registry_map(s).dom().len() == s.len(),
    decreases s.len(),
{
    lemma_registry_map_domain(s);
    if s.len() == 0 {
    } else {
        let dl = s.drop_last();
        assert(unique_keys(dl)) by {
            assert(forall|j: int| 0 <= j < dl.len() ==> dl[j] == s[j]);
        }
        lemma_registry_map_entries(dl);
        lemma_registry_map_domain(dl);
        assert(!registry_map(dl).contains_key(s.last().key@)) by {
            if registry_map(dl).contains_key(s.last().key@) {
                let j = choose|j: int|
                    0 <= j < dl.len() && (#[trigger] dl[j].key)@ == s.last().key@;
                assert(s[j].key@ == s[s.len() - 1].key@);
            }
        }
        assert(registry_map(s).dom() =~= registry_map(dl).dom().insert(s.last().key@));
        assert forall|j: int| 0 <= j < s.len() implies registry_map(s).contains_pair(
            (#[trigger] s[j].key)@,
            s[j].info@,
        ) by {
            if j < s.len() - 1 {
                assert(dl[j] == s[j]);
                assert(registry_map(dl).contains_pair(s[j].key@, s[j].info@));
                assert(s[j].key@ != s.last().key@);
            } else {
                assert(s[j] == s.last());
            }
        }
    }
}

/// Whether `info` is registered under some discovery name in `m`.
pub open spec fn info_registered(m: Map<Seq<char>, PeerInfoV>, info: PeerInfoV) -> bool {
    exists|k: Seq<char>| m.contains_pair(k, info)
}

/// The registry of currently known peers.
pub struct PeerRegistry {
    entries: Vec<PeerEntry>,
}

impl View for PeerRegistry {
    type V = Map<Seq<char>, PeerInfoV>;

    closed spec fn view(&self) -> Map<Seq<char>, PeerInfoV> {
        registry_map(self.entries@)
    }
}

impl PeerRegistry {
    /// Internal invariant: no discovery name occurs twice.
    #[verifier::type_invariant]
    spec fn wf(&self) -> bool {
        unique_keys(self.entries@)
    }

    /// An empty registry.
    pub fn new() -> (r: PeerRegistry)
        ensures
            r@ == Map::<Seq<char>, PeerInfoV>::empty(),
    {
        PeerRegistry { entries: Vec::new() }
    }

    /// Index of the entry carrying `key`, if any.
    fn find_index(&self, key: &str) -> (r: Option<usize>)
        ensures
            match r {
                Some(j) => (j as int) < self.entries@.len() && self.entries@[j as int].key@
                    == key@,
                None => forall|k: int|
                    0 <= k < self.entries@.len() ==> (#[trigger] self.entries@[k].key)@ != key@,
            },
    {
        let n = self.entries.len();
        for j in 0..n
            invariant
                n == self.entries@.len(),
                forall|k: int| 0 <= k < j ==> (#[trigger] self.entries@[k].key)@ != key@,
        {
            if str_eq(self.entries[j].key.as_str(), key) {
                return Some(j);
            }
        }
        None
    }

    /// Inserts or replaces the peer registered under `key`.
    pub fn upsert(&mut self, key: String, info: PeerInfo)
        ensures
            final(self)@ == old(self)@.insert(key@, info@),
    {
        proof {
            use_type_invariant(&*self);
        }
        let ghost pre = self.entries@;
        let found = self.find_index(key.as_str());
        let mut entries: Vec<PeerEntry> = Vec::new();
        core::mem::swap(&mut entries, &mut self.entries);
        match found {
            Some(j) => {
                let e = PeerEntry { key, info };
                entries.set(j, e);
                proof {
                    lemma_registry_upsert_at(pre, j as int, e);
                    assert forall|p: int, q: int|
                        #![trigger entries@[p].key, entries@[q].key]
                        0 <= p < q < entries@.len() implies entries@[p].key@
                        != entries@[q].key@ by {
                        assert(pre[p].key@ != pre[q].key@);
                        assert(entries@[p].key@ == pre[p].key@);
                        assert(entries@[q].key@ == pre[q].key@);
                    }
                }
            },
            None => {
                let e = PeerEntry { key, info };
                entries.push(e);
                proof {
                    assert(entries@.drop_last() =~= pre);
                    assert forall|p: int, q: int|
                        #![trigger entries@[p].key, entries@[q].key]
                        0 <= p < q < entries@.len() implies entries@[p].key@
                        != entries@[q].key@ by {
                        if q < pre.len() {
                            assert(pre[p].key@ != pre[q].key@);
                        } else {
                            assert(entries@[p] == pre[p]);
                        }
                    }
                }
            },
        }
        core::mem::swap(&mut entries, &mut self.entries);
    }

    /// Removes the peer registered under `key`; an unknown key changes
    /// nothing.
    pub fn remove(&mut self, key: &str)
        ensures
            final(self)@ == old(self)@.remove(key@),
    {
        proof {
            use_type_invariant(&*self);
        }
        let ghost pre = self.entries@;
        let found = self.find_index(key);
        match found {
            Some(j) => {
                let mut entries: Vec<PeerEntry> = Vec::new();
                core::mem::swap(&mut entries, &mut self.entries);
                entries.remove(j);
                proof {
                    assert(entries@ =~= pre.remove(j as int));
                    lemma_registry_remove_at(pre, j as int);
                    assert forall|p: int, q: int|
                        #![trigger entries@[p].key, entries@[q].key]
                        0 <= p < q < entries@.len() implies entries@[p].key@
                        != entries@[q].key@ by {
                        let p0: int = if p < j { p } else { p + 1 };
                        let q0: int = if q < j { q } else { q + 1 };
                        assert(entries@[p] == pre[p0]);
                        assert(entries@[q] == pre[q0]);
                        assert(pre[p0].key@ != pre[q0].key@);
                    }
                }
                core::mem::swap(&mut entries, &mut self.entries);
            },
            None => {
                proof {
                    lemma_registry_map_domain(pre);
                    assert(!registry_map(pre).contains_key(key@));
                    assert(registry_map(pre) =~= registry_map(pre).remove(key@));
                }
            },
        }
    }

    /// A copy of every known peer, in no promised order: exactly one entry
    /// per registered discovery name.
    pub fn snapshot(&self) -> (r: Vec<PeerInfo>)
        ensures
            r.deep_view().len() == self@.dom().len(),
            forall|i: int|
                0 <= i < r.deep_view().len() ==> info_registered(
                    self@,
                    #[trigger] r.deep_view()[i],
                ),
            forall|k: Seq<char>|
                self@.contains_key(k) ==> exists|i: int|
                    0 <= i < r.deep_view().len() && #[trigger] r.deep_view()[i] == self@[k],
    {
        proof {
            use_type_invariant(&*self);
            lemma_registry_map_entries(self.entries@);
            lemma_registry_map_domain(self.entries@);
        }
        let mut r: Vec<PeerInfo> = Vec::new();
        let n = self.entries.len();
        for i in 0..n
            invariant
                n == self.entries@.len(),
                r.deep_view().len() == i,
                forall|p: int|
                    0 <= p < i ==> (#[trigger] r.deep_view()[p]) == self.entries@[p].info@,
        {
            let c = self.entries[i].info.clone();
            let ghost pre_vec = r;
            r.push(c);
            proof {
                crate::models::lemma_deep_view_push(pre_vec, r, c);
            }
        }
        proof {
            assert forall|i: int| 0 <= i < r.deep_view().len() implies info_registered(
                self@,
                #[trigger] r.deep_view()[i],
            ) by {
                assert(self@.contains_pair(self.entries@[i].key@, self.entries@[i].info@));
                assert(r.deep_view()[i] == self.entries@[i].info@);
                assert(self@.contains_pair(self.entries@[i].key@, r.deep_view()[i]));
            }
            assert forall|k: Seq<char>| self@.contains_key(k) implies exists|i: int|
                0 <= i < r.deep_view().len() && #[trigger] r.deep_view()[i] == self@[k] by {
                let j = choose|j: int|
                    0 <= j < self.entries@.len() && (#[trigger] self.entries@[j].key)@ == k;
                assert(self@.contains_pair(self.entries@[j].key@, self.entries@[j].info@));
                assert(r.deep_view()[j] == self@[k]);
            }
        }
        r
    }
}

/// Replacing the entry that carries a key updates the mapping at that key.
proof fn lemma_registry_upsert_at(s: Seq<PeerEntry>, j: int, e: PeerEntry)
    requires
        unique_keys(s),
        0 <= j < s.len(),
        s[j].key@ == e.key@,
    ensures
        registry_map(s.update(j, e)) == registry_map(s).insert(e.key@, e.info@),
    decreases s.len(),
{
    let u = s.update(j, e);
    if j == s.len() - 1 {
        assert(u.drop_last() =~= s.drop_last());
        assert(u.last() == e);
        assert(registry_map(u) == registry_map(s.drop_last()).insert(e.key@, e.info@));
        assert(registry_map(s).insert(e.key@, e.info@) =~= registry_map(s.drop_last()).insert(
            e.key@,
            e.info@,
        ));
    } else {
        assert(u.drop_last() =~= s.drop_last().update(j, e));
        assert(u.last() == s.last());
        assert(unique_keys(s.drop_last())) by {
            assert(forall|k: int| 0 <= k < s.drop_last().len() ==> s.drop_last()[k] == s[k]);
        }
        assert(s.drop_last()[j] == s[j]);
        lemma_registry_upsert_at(s.drop_last(), j, e);
        assert(e.key@ != s.last().key@) by {
            assert(s[j].key@ != s[s.len() - 1].key@);
        }
        assert(registry_map(s.drop_last()).insert(e.key@, e.info@).insert(
            s.last().key@,
            s.last().info@,
        ) =~= registry_map(s.drop_last()).insert(s.last().key@, s.last().info@).insert(
            e.key@,
            e.info@,
        ));
    }
}

/// Removing the entry that carries a key removes that key from the mapping.
proof fn lemma_registry_remove_at(s: Seq<PeerEntry>, j: int)
    requires
        unique_keys(s),
        0 <= j < s.len(),
    ensures
        registry_map(s.remove(j)) == registry_map(s).remove(s[j].key@),
    decreases s.len(),
{
    let u = s.remove(j);
    if j == s.len() - 1 {
        assert(u =~= s.drop_last());
        lemma_registry_map_domain(s.drop_last());
        assert(!registry_map(s.drop_last()).contains_key(s[j].key@)) by {
            if registry_map(s.drop_last()).contains_key(s[j].key@) {
                let k = choose|k: int|
                    0 <= k < s.drop_last().len() && (#[trigger] s.drop_last()[k].key)@ == s[j].key@;
                assert(s[k].key@ == s[j].key@);
            }
        }
        assert(registry_map(s.drop_last()) =~= registry_map(s.drop_last()).insert(
            s.last().key@,
            s.last().info@,
        ).remove(s[j].key@));
    } else {
        assert(u.drop_last() =~= s.drop_last().remove(j));
        assert(u.last() == s.last());
        assert(unique_keys(s.drop_last())) by {
            assert(forall|k: int| 0 <= k < s.drop_last().len() ==> s.drop_last()[k] == s[k]);
        }
        assert(s.drop_last()[j] == s[j]);
        lemma_registry_remove_at(s.drop_last(), j);
        assert(s[j].key@ != s.last().key@) by {
            assert(s[j].key@ != s[s.len() - 1].key@);
        }
        assert(registry_map(s.drop_last()).remove(s[j].key@).insert(
            s.last().key@,
            s.last().info@,
        ) =~= registry_map(s.drop_last()).insert(s.last().key@, s.last().info@).remove(s[j].key@));
    }
}

/// One event from the local-network service-discovery channel, as the
/// discovery listener hands it to the registry.
#[derive(Debug)]
pub enum DiscoveryEvent {
    /// A peer's announcement was resolved: its discovery name, advertised
    /// hostname, first address (empty when the announcement carried none),
    /// and port.
    Resolved { fullname: String, hostname: String, ip: String, port: u16 },
    /// A peer announced its departure under `fullname`.
    Removed { fullname: String },
    /// Any other event on the channel; the registry ignores it.
    Other,
}

/// Feeds one discovery event into the registry, stamping a resolved peer
/// with `now` (epoch seconds): a resolution with a non-empty address inserts
/// or refreshes the peer under its discovery name, one without an address is
/// dropped, and a removal deletes the name.
pub fn apply_discovery_event(reg: &mut PeerRegistry, event: &DiscoveryEvent, now: u64)
    ensures
        match *event {
            DiscoveryEvent::Resolved { ref fullname, ref hostname, ref ip, port } => {
                if ip@.len() > 0 {
                    final(reg)@ == old(reg)@.insert(
                        fullname@,
                        PeerInfoV { name: hostname@, ip: ip@, port, last_seen: now },
                    )
                } else {
                    final(reg)@ == old(reg)@
                }
            },
            DiscoveryEvent::Removed { ref fullname } => final(reg)@ == old(reg)@.remove(fullname@),
            DiscoveryEvent::Other => final(reg)@ == old(reg)@,
        },
{
    match event {
        DiscoveryEvent::Resolved { fullname, hostname, ip, port } => {
            if ip.as_str().unicode_len() > 0 {
                let info = PeerInfo {
                    name: hostname.clone(),
                    ip: ip.clone(),
                    port: *port,
                    last_seen: now,
                };
                reg.upsert(fullname.clone(), info);
            }
        },
        DiscoveryEvent::Removed { fullname } => {
            reg.remove(fullname.as_str());
        },
        DiscoveryEvent::Other => {},
    }
}

} // verus!

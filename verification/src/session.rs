//! The per-peer session table.
//!
//! A session binds the sender index carried by a handshake initiation to the
//! network address that sent it, with an expiry. Expiry is enforced lazily:
//! entries are removed only by the full-table sweep that runs as part of the
//! next insertion, never by `lookup` — a stale entry stays routable until
//! some initiation anywhere triggers a sweep.

use vstd::map::*;
use vstd::prelude::*;

verus! {

/// Seconds a session stays valid after the initiation that created it.
pub const SESSION_VALID_TIME: u64 = 180;

/// A network endpoint, as the plain values routing needs: the IP address
/// (an IPv4 address in the low 32 bits when `ipv6` is false), and the port.
#[derive(Debug, PartialEq, Eq, Structural, Clone, Copy, Hash)]
pub struct Endpoint {
    pub ip: u128,
    pub port: u16,
    pub ipv6: bool,
}

/// One session: the address that last initiated with a given sender index,
/// and the instant (in seconds) at which the binding expires.
#[derive(Debug, PartialEq, Eq, Structural, Clone, Copy)]
pub struct SessionEntry {
    pub addr: Endpoint,
    pub expires_at: u64,
}

/// The table as a mathematical map from sender index to session entry.
/// `lookup` deliberately ignores the current time: see the module note on
/// lazy expiry.
pub open spec fn spec_lookup(m: Map<u32, SessionEntry>, index: u32) -> Option<Endpoint> {
    if m.dom().contains(index) {
        Some(m[index].addr)
    } else {
        None
    }
}

/// The map after a sweep at time `now`: every entry whose expiry has been
/// reached is gone, every other entry is untouched.
pub open spec fn spec_swept(m: Map<u32, SessionEntry>, now: u64) -> Map<u32, SessionEntry> {
    Map::new(|k: u32| m.dom().contains(k) && m[k].expires_at > now, |k: u32| m[k])
}

/// The map after a sweep at time `now` followed by an insertion for `index`:
/// the one atomic mutation the table supports.
pub open spec fn spec_upsert(
    m: Map<u32, SessionEntry>,
    index: u32,
    addr: Endpoint,
    now: u64,
) -> Map<u32, SessionEntry>
    recommends
        now + SESSION_VALID_TIME <= u64::MAX,
{
    spec_swept(m, now).insert(
        index,
        SessionEntry { addr, expires_at: (now + SESSION_VALID_TIME) as u64 },
    )
}

/// No sender index occurs twice in the backing vector.
spec fn unique_keys(s: Seq<(u32, SessionEntry)>) -> bool {
    forall|i: int, j: int| 0 <= i < j < s.len() ==> s[i].0 != s[j].0
}

/// The map an association vector denotes; on duplicate keys the later
/// element wins, matching push order.
spec fn map_of(s: Seq<(u32, SessionEntry)>) -> Map<u32, SessionEntry>
    decreases s.len(),
{
    if s.len() == 0 {
        Map::empty()
    } else {
        map_of(s.drop_last()).insert(s.last().0, s.last().1)
    }
}

proof fn lemma_map_of_dom(s: Seq<(u32, SessionEntry)>, k: u32)
    ensures
        map_of(s).dom().contains(k) <==> (exists|i: int| 0 <= i < s.len() && s[i].0 == k),
    decreases s.len(),
{
    if s.len() > 0 {
        let t = s.drop_last();
        lemma_map_of_dom(t, k);
        if s.last().0 == k {
            assert(s[s.len() - 1].0 == k);
        } else {
            if map_of(s).dom().contains(k) {
                let i = choose|i: int| 0 <= i < t.len() && t[i].0 == k;
                assert(s[i].0 == k);
            }
            if exists|i: int| 0 <= i < s.len() && s[i].0 == k {
                let i = choose|i: int| 0 <= i < s.len() && s[i].0 == k;
                assert(i < s.len() - 1);
                assert(t[i].0 == k);
            }
        }
    }
}

proof fn lemma_map_of_at(s: Seq<(u32, SessionEntry)>, i: int)
    requires
        unique_keys(s),
        0 <= i < s.len(),
    ensures
        map_of(s).dom().contains(s[i].0),
        map_of(s)[s[i].0] == s[i].1,
    decreases s.len(),
{
    let t = s.drop_last();
    if i < s.len() - 1 {
        assert(unique_keys(t));
        assert(t[i] == s[i]);
        lemma_map_of_at(t, i);
        assert(s.last().0 != s[i].0);
    }
}

/// The session table: a map from sender index to session entry, held as a
/// vector of pairs with pairwise-distinct indices.
pub struct SessionTable {
    entries: Vec<(u32, SessionEntry)>,
}

impl View for SessionTable {
    type V = Map<u32, SessionEntry>;

    closed spec fn view(&self) -> Map<u32, SessionEntry> {
        map_of(self.entries@)
    }
}

impl SessionTable {
    /// Well-formedness: one entry per sender index.
    pub closed spec fn wf(&self) -> bool {
        unique_keys(self.entries@)
    }

    /// An empty table.
    pub fn new() -> (t: SessionTable)
        ensures
            t.wf(),
            t@ == Map::<u32, SessionEntry>::empty(),
    {
        SessionTable { entries: Vec::new() }
    }

    /// The current address bound to `index`, if any entry exists — whether
    /// or not it has technically expired. Expiry is enforced only by the
    /// sweep of the next `sweep_and_upsert`, so the current time plays no
    /// part here.
    pub fn lookup(&self, index: u32, _now: u64) -> (r: Option<Endpoint>)
        requires
            self.wf(),
        ensures
            r == spec_lookup(self@, index),
    {
        let n: usize = self.entries.len();
        let mut i: usize = 0;
        while i < n
            invariant
                n == self.entries.len(),
                i <= n,
                self.wf(),
                forall|j: int| 0 <= j < i ==> self.entries@[j].0 != index,
            decreases n - i,
        {
            if self.entries[i].0 == index {
                proof {
                    lemma_map_of_at(self.entries@, i as int);
                }
                return Some(self.entries[i].1.addr);
            }
            i += 1;
        }
        proof {
            lemma_map_of_dom(self.entries@, index);
        }
        None
    }

    /// Removes every entry whose expiry has been reached, then binds `index`
    /// to `addr` until `now + SESSION_VALID_TIME` — overwriting any earlier
    /// binding for `index`. Sweep and insertion are one atomic mutation.
    pub fn sweep_and_upsert(&mut self, index: u32, addr: Endpoint, now: u64)
        requires
            old(self).wf(),
            now + SESSION_VALID_TIME <= u64::MAX,
        ensures
            final(self).wf(),
            final(self)@ == spec_upsert(old(self)@, index, addr, now),
    {
        let ghost orig: Seq<(u32, SessionEntry)> = self.entries@;
        let n: usize = self.entries.len();
        let mut kept: Vec<(u32, SessionEntry)> = Vec::new();
        let mut i: usize = 0;
        while i < n
            invariant
                self.entries@ == orig,
                n == orig.len(),
                i <= n,
                unique_keys(orig),
                unique_keys(kept@),
                forall|j: int| 0 <= j < kept@.len() ==> #[trigger] kept@[j].1.expires_at > now,
                forall|j: int| 0 <= j < kept@.len() ==> #[trigger] kept@[j].0 != index,
                forall|j: int|
                    0 <= j < kept@.len() ==> (exists|l: int|
                        0 <= l < i && orig[l] == #[trigger] kept@[j]),
                forall|l: int|
                    0 <= l < i && #[trigger] orig[l].1.expires_at > now && orig[l].0 != index
                        ==> (exists|j: int| 0 <= j < kept@.len() && kept@[j] == orig[l]),
            decreases n - i,
        {
            let ghost kpre = kept@;
            let (k, e) = self.entries[i];
            proof {
                assert(orig[i as int] == (k, e));
            }
            if e.expires_at > now && k != index {
                proof {
                    assert forall|j: int| 0 <= j < kept@.len() implies kept@[j].0 != k by {
                        let l = choose|l: int| 0 <= l < i && orig[l] == kept@[j];
                        assert(orig[l].0 == kept@[j].0);
                        assert(orig[i as int].0 == k);
                    }
                }
                kept.push((k, e));
                proof {
                    assert(kept@ == kpre.push(orig[i as int]));
                    assert forall|l: int|
                        0 <= l < i + 1 && #[trigger] orig[l].1.expires_at > now && orig[l].0
                            != index implies (exists|j: int|
                        0 <= j < kept@.len() && kept@[j] == orig[l]) by {
                        if l == i {
                            assert(kept@[kept@.len() - 1] == orig[l]);
                        } else {
                            let j = choose|j: int| 0 <= j < kpre.len() && kpre[j] == orig[l];
                            assert(kept@[j] == orig[l]);
                        }
                    }
                }
            } else {
                proof {
                    assert forall|l: int|
                        0 <= l < i + 1 && #[trigger] orig[l].1.expires_at > now && orig[l].0
                            != index implies (exists|j: int|
                        0 <= j < kept@.len() && kept@[j] == orig[l]) by {
                        assert(l != i);
                    }
                }
            }
            i += 1;
        }
        let ghost kb = kept@;
        let fresh = SessionEntry { addr, expires_at: now + SESSION_VALID_TIME };
        kept.push((index, fresh));
        let ghost fs = kept@;
        self.entries = kept;
        proof {
            assert(fs == kb.push((index, fresh)));
            assert(fs.last() == (index, fresh));
            assert forall|p: int, q: int| 0 <= p < q < fs.len() implies fs[p].0 != fs[q].0 by {
                if q < fs.len() - 1 {
                    assert(fs[p] == kb[p]);
                    assert(fs[q] == kb[q]);
                } else {
                    assert(fs[p] == kb[p]);
                    assert(kb[p].0 != index);
                }
            }
            assert(unique_keys(fs));
            let m0 = map_of(orig);
            let goal = spec_upsert(m0, index, addr, now);
            assert_maps_equal!(map_of(fs), goal, k => {
                if k == index {
                    lemma_map_of_at(fs, fs.len() - 1);
                    assert(map_of(fs)[index] == fresh);
                } else {
                    lemma_map_of_dom(fs, k);
                    lemma_map_of_dom(orig, k);
                    if map_of(fs).dom().contains(k) {
                        let j = choose|j: int| 0 <= j < fs.len() && fs[j].0 == k;
                        assert(j < fs.len() - 1);
                        assert(fs[j] == kb[j]);
                        let l = choose|l: int| 0 <= l < orig.len() && orig[l] == kb[j];
                        lemma_map_of_at(fs, j);
                        lemma_map_of_at(orig, l);
                        assert(m0[k] == orig[l].1);
                        assert(m0[k].expires_at > now);
                        assert(goal.dom().contains(k));
                        assert(goal[k] == m0[k]);
                    } else if goal.dom().contains(k) {
                        let l = choose|l: int| 0 <= l < orig.len() && orig[l].0 == k;
                        lemma_map_of_at(orig, l);
                        assert(orig[l].1 == m0[k]);
                        assert(orig[l].1.expires_at > now);
                        let j = choose|j: int| 0 <= j < kb.len() && kb[j] == orig[l];
                        assert(fs[j] == kb[j]);
                        assert(fs[j].0 == k);
                        assert(false);
                    }
                }
            });
        }
    }
}

/// Law: immediately after an upsert for an index, a lookup of that index
/// finds exactly the address just inserted; a second upsert for the same
/// index overwrites the first binding, whatever the times involved.
pub proof fn lemma_upsert_overwrites(
    m: Map<u32, SessionEntry>,
    index: u32,
    a: Endpoint,
    b: Endpoint,
    t: u64,
    t2: u64,
)
    ensures
        spec_lookup(spec_upsert(m, index, a, t), index) == Some(a),
        spec_lookup(spec_upsert(spec_upsert(m, index, a, t), index, b, t2), index) == Some(b),
{
}

/// Law: once an entry's lifetime has elapsed, any upsert for any other index
/// sweeps it away, and a later lookup of it finds nothing.
pub proof fn lemma_expired_entry_swept(
    m: Map<u32, SessionEntry>,
    index: u32,
    a: Endpoint,
    t: u64,
    other: u32,
    b: Endpoint,
    t2: u64,
)
    requires
        other != index,
        t + SESSION_VALID_TIME <= t2,
    ensures
        spec_lookup(spec_upsert(spec_upsert(m, index, a, t), other, b, t2), index) == None::<
            Endpoint,
        >,
{
    let m1 = spec_upsert(m, index, a, t);
    assert(m1[index].expires_at <= t2);
    assert(!spec_swept(m1, t2).dom().contains(index));
}

} // verus!

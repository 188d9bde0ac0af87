//! The key-value cache backend, modelled as process state.
//!
//! The store holds string keys and values with absolute expiry instants and
//! an availability flag.  An unavailable backend answers every read with a
//! miss and drops every write — the degraded behaviour the cache layers are
//! specified to fall back to; no operation ever fails.

use vstd::prelude::*;
use crate::assoc::{lemma_pairs_to_map_dom, lemma_pairs_to_map_index, lemma_pairs_to_map_remove,
    lemma_pairs_to_map_update, pairs_to_map, unique_keys};
use crate::text::str_eq;

verus! {

/// Saturating addition, for expiry instants.
pub open spec fn sat_add(a: u64, b: u64) -> u64 {
    if a + b > u64::MAX {
        u64::MAX
    } else {
        (a + b) as u64
    }
}

/// Whether `p` is a prefix of `k`.
pub open spec fn has_prefix(k: Seq<char>, p: Seq<char>) -> bool {
    p.len() <= k.len() && k.take(p.len() as int) == p
}

/// `m` without every key that starts with `p`.
pub open spec fn remove_prefixed(
    m: Map<Seq<char>, (Seq<char>, u64)>,
    p: Seq<char>,
) -> Map<Seq<char>, (Seq<char>, u64)> {
    Map::new(|k: Seq<char>| m.dom().contains(k) && !has_prefix(k, p), |k: Seq<char>| m[k])
}

/// The mathematical state of the cache backend.
pub ghost struct KvView {
    pub entries: Map<Seq<char>, (Seq<char>, u64)>,
    pub available: bool,
}

/// What a read returns: the unexpired value, through a live backend.
pub open spec fn kv_lookup(v: KvView, key: Seq<char>, now: u64) -> Option<Seq<char>> {
    if v.available && v.entries.contains_key(key) && v.entries[key].1 > now {
        Some(v.entries[key].0)
    } else {
        None
    }
}

/// A write with a time-to-live, dropped by an unavailable backend.
pub open spec fn kv_set(v: KvView, key: Seq<char>, value: Seq<char>, ttl: u64, now: u64) -> KvView {
    if v.available {
        KvView { entries: v.entries.insert(key, (value, sat_add(now, ttl))), ..v }
    } else {
        v
    }
}

/// A single-key delete, dropped by an unavailable backend.
pub open spec fn kv_del(v: KvView, key: Seq<char>) -> KvView {
    if v.available {
        KvView { entries: v.entries.remove(key), ..v }
    } else {
        v
    }
}

/// A prefix delete, dropped by an unavailable backend.
pub open spec fn kv_del_prefix(v: KvView, prefix: Seq<char>) -> KvView {
    if v.available {
        KvView { entries: remove_prefixed(v.entries, prefix), ..v }
    } else {
        v
    }
}

struct KvEntry {
    key: String,
    value: String,
    expires_at: u64,
}

/// An in-process cache backend: get, set with TTL, delete, prefix delete.
pub struct KvCache {
    entries: Vec<KvEntry>,
    available: bool,
}

impl View for KvCache {
    type V = KvView;

    open spec fn view(&self) -> KvView {
        KvView { entries: pairs_to_map(self.entry_views()), available: self.spec_available() }
    }
}

impl KvCache {
    /// The stored entries as mathematical pairs, in storage order.
    pub closed spec fn entry_views(&self) -> Seq<(Seq<char>, (Seq<char>, u64))> {
        self.entries@.map_values(|e: KvEntry| (e.key@, (e.value@, e.expires_at)))
    }

    pub closed spec fn spec_available(&self) -> bool {
        self.available
    }

    /// Keys are stored at most once.
    pub open spec fn wf(&self) -> bool {
        unique_keys(self.entry_views())
    }

    /// An empty, reachable backend.
    pub fn new() -> (r: KvCache)
        ensures
            r.wf(),
            r@.entries == Map::<Seq<char>, (Seq<char>, u64)>::empty(),
            r@.available,
    {
        let r = KvCache { entries: Vec::new(), available: true };
        proof {
            assert(r.entry_views() =~= Seq::empty());
        }
        r
    }

    /// Simulates the backend going down or coming back.
    pub fn set_available(&mut self, available: bool)
        ensures
            final(self)@.entries == old(self)@.entries,
            final(self)@.available == available,
            final(self).wf() == old(self).wf(),
    {
        self.available = available;
    }

    /// Finds the index storing `key`, if any.
    fn find_index(&self, key: &str) -> (r: Option<usize>)
        requires
            self.wf(),
        ensures
            match r {
                Some(i) => i < self.entry_views().len() && self.entry_views()[i as int].0 == key@,
                None => !self@.entries.contains_key(key@),
            },
    {
        proof {
            lemma_pairs_to_map_dom(self.entry_views());
        }
        let mut i: usize = 0;
        while i < self.entries.len()
            invariant
                i <= self.entries.len(),
                forall|j: int| 0 <= j < i ==> self.entry_views()[j].0 != key@,
            decreases self.entries.len() - i,
        {
            if str_eq(self.entries[i].key.as_str(), key) {
                return Some(i);
            }
            i += 1;
        }
        proof {
            lemma_pairs_to_map_dom(self.entry_views());
        }
        None
    }

    /// Reads a key; a miss when absent, expired, or the backend is down.
    pub fn get(&self, key: &str, now: u64) -> (r: Option<String>)
        requires
            self.wf(),
        ensures
            match r {
                Some(v) => kv_lookup(self@, key@, now) == Some(v@),
                None => kv_lookup(self@, key@, now) is None,
            },
    {
        if !self.available {
            return None;
        }
        match self.find_index(key) {
            None => None,
            Some(i) => {
                proof {
                    lemma_pairs_to_map_index(self.entry_views(), i as int);
                }
                if self.entries[i].expires_at > now {
                    Some(self.entries[i].value.clone())
                } else {
                    None
                }
            },
        }
    }

    /// Writes a key with a time-to-live; best effort, dropped when down.
    pub fn set_ex(&mut self, key: &str, value: &str, ttl: u64, now: u64)
        requires
            old(self).wf(),
        ensures
            final(self).wf(),
            final(self)@ == kv_set(old(self)@, key@, value@, ttl, now),
    {
        if !self.available {
            return ;
        }
        let expires_at: u64 = if ttl > u64::MAX - now {
            u64::MAX
        } else {
            now + ttl
        };
        let ghost e0 = self.entry_views();
        match self.find_index(key) {
            Some(i) => {
                self.entries.set(
                    i,
                    KvEntry { key: key.to_owned(), value: value.to_owned(), expires_at },
                );
                proof {
                    assert(self.entry_views() =~= e0.update(
                        i as int,
                        (e0[i as int].0, (value@, expires_at)),
                    ));
                    lemma_pairs_to_map_update(e0, i as int, (value@, expires_at));
                    assert(final(self)@ == kv_set(old(self)@, key@, value@, ttl, now));
                }
            },
            None => {
                proof {
                    lemma_pairs_to_map_dom(e0);
                }
                self.entries.push(
                    KvEntry { key: key.to_owned(), value: value.to_owned(), expires_at },
                );
                proof {
                    assert(self.entry_views().drop_last() =~= e0);
                    assert(self.entry_views().last() == (key@, (value@, expires_at)));
                    assert(unique_keys(self.entry_views())) by {
                        let e1 = self.entry_views();
                        assert forall|a: int, b: int| 0 <= a < b < e1.len() implies e1[a].0
                            != e1[b].0 by {
                            if b == e1.len() - 1 {
                                assert(e1[a] == e0[a]);
                                if e0[a].0 == key@ {
                                    assert(pairs_to_map(e0).dom().contains(key@));
                                }
                            } else {
                                assert(e1[a] == e0[a] && e1[b] == e0[b]);
                            }
                        }
                    }
                    assert(final(self)@ == kv_set(old(self)@, key@, value@, ttl, now));
                }
            },
        }
    }

    /// Deletes a key; best effort, dropped when down.
    pub fn del(&mut self, key: &str)
        requires
            old(self).wf(),
        ensures
            final(self).wf(),
            final(self)@ == kv_del(old(self)@, key@),
    {
        if !self.available {
            return ;
        }
        let ghost e0 = self.entry_views();
        match self.find_index(key) {
            Some(i) => {
                self.entries.remove(i);
                proof {
                    assert(self.entry_views() =~= e0.remove(i as int));
                    lemma_pairs_to_map_remove(e0, i as int);
                    assert(final(self)@ == kv_del(old(self)@, key@));
                }
            },
            None => {
                proof {
                    assert(old(self)@.entries.remove(key@) =~= old(self)@.entries);
                    assert(final(self)@ == kv_del(old(self)@, key@));
                }
            },
        }
    }

    /// Deletes every key with the given prefix; best effort, dropped when
    /// down.
    pub fn del_prefix(&mut self, prefix: &str)
        requires
            old(self).wf(),
        ensures
            final(self).wf(),
            final(self)@ == kv_del_prefix(old(self)@, prefix@),
    {
        if !self.available {
            return ;
        }
        let ghost m0 = old(self)@.entries;
        let mut i: usize = 0;
        while i < self.entries.len()
            invariant
                i <= self.entries.len(),
                self.available == old(self).available,
                self.available,
                unique_keys(self.entry_views()),
                forall|j: int| 0 <= j < i ==> !has_prefix(self.entry_views()[j].0, prefix@),
                remove_prefixed(pairs_to_map(self.entry_views()), prefix@) == remove_prefixed(
                    m0,
                    prefix@,
                ),
            decreases self.entries.len() - i,
        {
            let starts = prefix_matches(self.entries[i].key.as_str(), prefix);
            if starts {
                let ghost e = self.entry_views();
                proof {
                    assert(e[i as int].0 == self.entries@[i as int].key@);
                }
                self.entries.remove(i);
                proof {
                    let e2 = self.entry_views();
                    assert(e2 =~= e.remove(i as int));
                    lemma_pairs_to_map_remove(e, i as int);
                    assert(pairs_to_map(e2) == pairs_to_map(e).remove(e[i as int].0));
                    assert forall|j: int| 0 <= j < i implies !has_prefix(e2[j].0, prefix@) by {
                        assert(e2[j] == e[j]);
                    }
                    assert(remove_prefixed(pairs_to_map(e2), prefix@) =~= remove_prefixed(
                        pairs_to_map(e),
                        prefix@,
                    ));
                }
            } else {
                i += 1;
            }
        }
        proof {
            let e = self.entry_views();
            lemma_pairs_to_map_dom(e);
            assert forall|k: Seq<char>| pairs_to_map(e).dom().contains(k) implies !has_prefix(
                k,
                prefix@,
            ) by {
                let j = choose|j: int| 0 <= j < e.len() && e[j].0 == k;
            }
            assert(remove_prefixed(pairs_to_map(e), prefix@) =~= pairs_to_map(e));
            assert(final(self)@ == kv_del_prefix(old(self)@, prefix@));
        }
    }
}

/// An unavailable backend answers every read with a miss: the cache layers
/// degrade to their backing store and never fail the caller.
pub proof fn lemma_unavailable_reads_miss(v: KvView, key: Seq<char>, now: u64)
    requires
        !v.available,
    ensures
        kv_lookup(v, key, now) is None,
{
}

/// Whether `s` starts with `prefix`.
pub fn prefix_matches(s: &str, prefix: &str) -> (r: bool)
    ensures
        r == has_prefix(s@, prefix@),
{
    let plen: usize = prefix.unicode_len();
    let slen: usize = s.unicode_len();
    if plen > slen {
        return false;
    }
    let head = s.substring_char(0, plen);
    let r = str_eq(head, prefix);
    proof {
        assert(s@.subrange(0, plen as int) =~= s@.take(plen as int));
    }
    r
}

} // verus!

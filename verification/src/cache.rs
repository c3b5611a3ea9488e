//! The translation cache: a mapping from fingerprints to translated text.
//!
//! The store is content-addressed, so entries never need eviction: a key
//! recurs only for an identical request, and an overwrite is value-equal in
//! intended use. The caller loads the persisted snapshot into a `Cache`
//! before a translation call and saves it afterwards; this type only does
//! the map work, which is what the orchestrator's contracts build on.

use vstd::prelude::*;

use crate::chars::str_eq;

verus! {

/// The mapping that a key/value entry list denotes: later entries win.
pub open spec fn entries_map(es: Seq<(String, String)>) -> Map<Seq<char>, Seq<char>>
    decreases es.len(),
{
    if es.len() == 0 {
        Map::empty()
    } else {
        entries_map(es.drop_last()).insert(es.last().0@, es.last().1@)
    }
}

/// A fingerprint → translated-text mapping with one entry per key.
pub struct Cache {
    entries: Vec<(String, String)>,
}

impl View for Cache {
    type V = Map<Seq<char>, Seq<char>>;

    closed spec fn view(&self) -> Map<Seq<char>, Seq<char>> {
        entries_map(self.entries@)
    }
}

proof fn lemma_entries_map_contains(es: Seq<(String, String)>, k: Seq<char>)
    ensures
        entries_map(es).contains_key(k) <==> exists|i: int|
            0 <= i < es.len() && #[trigger] es[i].0@ == k,
    decreases es.len(),
{
    if es.len() > 0 {
        lemma_entries_map_contains(es.drop_last(), k);
        if es.last().0@ == k {
            assert(es[es.len() - 1].0@ == k);
        } else if entries_map(es).contains_key(k) {
            let i = choose|i: int| 0 <= i < es.drop_last().len() && #[trigger] es.drop_last()[i].0@
                == k;
            assert(es[i].0@ == k);
        } else {
            assert forall|i: int| 0 <= i < es.len() implies #[trigger] es[i].0@ != k by {
                if i < es.len() - 1 {
                    assert(es.drop_last()[i].0@ != k);
                }
            }
        }
    }
}

spec fn unique_keys(es: Seq<(String, String)>) -> bool {
    forall|i: int, j: int|
        0 <= i < j < es.len() ==> (#[trigger] es[i].0)@ != (#[trigger] es[j].0)@
}

proof fn lemma_entries_map_get(es: Seq<(String, String)>, i: int)
    requires
        unique_keys(es),
        0 <= i < es.len(),
    ensures
        entries_map(es).contains_key(es[i].0@),
        entries_map(es)[es[i].0@] == es[i].1@,
    decreases es.len(),
{
    if i == es.len() - 1 {
    } else {
        assert(es[i].0@ != es.last().0@);
        lemma_entries_map_get(es.drop_last(), i);
        assert(es.drop_last()[i] == es[i]);
    }
}

impl Cache {
    /// Each key occurs at most once in the entry list.
    pub closed spec fn wf(&self) -> bool {
        unique_keys(self.entries@)
    }

    /// An empty cache, as when no snapshot has been persisted yet.
    pub fn new() -> (c: Cache)
        ensures
            c.wf(),
            c@ == Map::<Seq<char>, Seq<char>>::empty(),
    {
        Cache { entries: Vec::new() }
    }

    /// Looks a fingerprint up.
    pub fn get(&self, key: &str) -> (r: Option<&String>)
        requires
            self.wf(),
        ensures
            match r {
                Some(v) => self@.contains_key(key@) && v@ == self@[key@],
                None => !self@.contains_key(key@),
            },
    {
        let n = self.entries.len();
        let mut i: usize = 0;
        while i < n
            invariant
                self.wf(),
                n == self.entries@.len(),
                i <= n,
                forall|j: int| 0 <= j < i ==> (#[trigger] self.entries@[j].0)@ != key@,
            decreases n - i,
        {
            if str_eq(self.entries[i].0.as_str(), key) {
                proof {
                    lemma_entries_map_get(self.entries@, i as int);
                }
                return Some(&self.entries[i].1);
            }
            i = i + 1;
        }
        proof {
            lemma_entries_map_contains(self.entries@, key@);
        }
        None
    }

    /// Whether a fingerprint is present.
    pub fn contains(&self, key: &str) -> (r: bool)
        requires
            self.wf(),
        ensures
            r == self@.contains_key(key@),
    {
        self.get(key).is_some()
    }

    /// Adds an entry, replacing any earlier value under the same key.
    pub fn insert(&mut self, key: String, value: String)
        requires
            old(self).wf(),
        ensures
            final(self).wf(),
            final(self)@ == old(self)@.insert(key@, value@),
    {
        let n = self.entries.len();
        let mut i: usize = 0;
        while i < n
            invariant
                old(self).wf(),
                n == self.entries@.len(),
                i <= n,
                self.entries@ == old(self).entries@,
                forall|j: int| 0 <= j < i ==> (#[trigger] self.entries@[j].0)@ != key@,
            decreases n - i,
        {
            if str_eq(self.entries[i].0.as_str(), key.as_str()) {
                proof {
                    lemma_update_at(self.entries@, i as int, (key, value));
                }
                self.entries[i] = (key, value);
                return;
            }
            i = i + 1;
        }
        proof {
            lemma_entries_map_contains(self.entries@, key@);
            assert(self.entries@.push((key, value)).drop_last() =~= self.entries@);
        }
        self.entries.push((key, value));
    }

    /// The entries as a list of pairs, for persisting the snapshot. Keys are
    /// unique; the list denotes exactly this cache's mapping.
    pub fn pairs(&self) -> (r: &Vec<(String, String)>)
        ensures
            entries_map(r@) == self@,
    {
        &self.entries
    }

    /// Rebuilds a cache from a persisted entry list; later duplicates win.
    pub fn from_pairs(pairs: &Vec<(String, String)>) -> (c: Cache)
        ensures
            c.wf(),
            c@ == entries_map(pairs@),
    {
        let mut c = Cache::new();
        let n = pairs.len();
        let mut i: usize = 0;
        proof {
            assert(pairs@.subrange(0, 0) =~= Seq::<(String, String)>::empty());
        }
        while i < n
            invariant
                n == pairs@.len(),
                i <= n,
                c.wf(),
                c@ == entries_map(pairs@.subrange(0, i as int)),
            decreases n - i,
        {
            let key = pairs[i].0.clone();
            let value = pairs[i].1.clone();
            c.insert(key, value);
            i = i + 1;
            proof {
                assert(pairs@.subrange(0, i as int).drop_last() =~= pairs@.subrange(0, i - 1));
                assert(pairs@.subrange(0, i as int).last() == pairs@[i - 1]);
            }
        }
        proof {
            assert(pairs@.subrange(0, n as int) =~= pairs@);
        }
        c
    }
}

proof fn lemma_update_at(es: Seq<(String, String)>, i: int, e: (String, String))
    requires
        unique_keys(es),
        0 <= i < es.len(),
        es[i].0@ == e.0@,
    ensures
        unique_keys(es.update(i, e)),
        entries_map(es.update(i, e)) == entries_map(es).insert(e.0@, e.1@),
    decreases es.len(),
{
    let es2 = es.update(i, e);
    assert forall|a: int, b: int| 0 <= a < b < es2.len() implies (#[trigger] es2[a].0)@ != (
    #[trigger] es2[b].0)@ by {
        assert(es[a].0@ != es[b].0@);
    }
    if i == es.len() - 1 {
        assert(es2.drop_last() =~= es.drop_last());
        assert(entries_map(es2) =~= entries_map(es).insert(e.0@, e.1@));
    } else {
        lemma_update_at(es.drop_last(), i, e);
        assert(es.drop_last()[i] == es[i]);
        assert(es2.drop_last() =~= es.drop_last().update(i, e));
        assert(es2.last() == es.last());
        assert(es.last().0@ != e.0@);
        assert(entries_map(es2) == entries_map(es.drop_last()).insert(e.0@, e.1@).insert(
            es.last().0@,
            es.last().1@,
        ));
        assert(entries_map(es2) =~= entries_map(es).insert(e.0@, e.1@));
    }
}

} // verus!

//! A small address-keyed table: a vector of entries with pairwise-distinct
//! keys, viewed in specifications as a `Map` from 20-byte addresses.

use vstd::prelude::*;

verus! {

/// Compares two 20-byte addresses byte for byte.
pub fn address_eq(a: &[u8; 20], b: &[u8; 20]) -> (r: bool)
    ensures
        r == (a@ == b@),
        r == (*a == *b),
{
    let mut i: usize = 0;
    while i < 20
        invariant
            i <= 20,
            forall|j: int| 0 <= j < i ==> a@[j] == b@[j],
        decreases 20 - i,
    {
        if a[i] != b[i] {
            return false;
        }
        i = i + 1;
    }
    proof {
        assert(a@ =~= b@);
        assert(*a =~= *b);
    }
    true
}

/// Compares two 32-byte digests byte for byte.
pub fn bytes32_eq(a: &[u8; 32], b: &[u8; 32]) -> (r: bool)
    ensures
        r == (a@ == b@),
        r == (*a == *b),
{
    let mut i: usize = 0;
    while i < 32
        invariant
            i <= 32,
            forall|j: int| 0 <= j < i ==> a@[j] == b@[j],
        decreases 32 - i,
    {
        if a[i] != b[i] {
            return false;
        }
        i = i + 1;
    }
    proof {
        assert(a@ =~= b@);
        assert(*a =~= *b);
    }
    true
}

/// The map that a sequence of key-value entries denotes; later entries win,
/// though a well-formed table never repeats a key.
pub open spec fn entries_map<V>(s: Seq<([u8; 20], V)>) -> Map<[u8; 20], V>
    decreases s.len(),
{
    if s.len() == 0 {
        Map::empty()
    } else {
        entries_map(s.drop_last()).insert(s.last().0, s.last().1)
    }
}

/// Pairwise-distinct keys.
pub open spec fn distinct_keys<V>(s: Seq<([u8; 20], V)>) -> bool {
    forall|i: int, j: int| 0 <= i < j < s.len() ==> (#[trigger] s[i]).0 != (#[trigger] s[j]).0
}

/// A key is in the denoted map exactly when some entry holds it.
pub proof fn lemma_entries_map_dom<V>(s: Seq<([u8; 20], V)>, k: [u8; 20])
    ensures
        entries_map(s).contains_key(k) <==> exists|i: int| 0 <= i < s.len() && (#[trigger] s[i]).0
            == k,
    decreases s.len(),
{
    if s.len() > 0 {
        lemma_entries_map_dom(s.drop_last(), k);
        if s.last().0 == k {
            assert(s[s.len() - 1].0 == k);
        } else if entries_map(s).contains_key(k) {
            let i = choose|i: int| 0 <= i < s.drop_last().len() && (#[trigger] s.drop_last()[i]).0
                == k;
            assert(s[i].0 == k);
        } else {
            assert forall|i: int| 0 <= i < s.len() implies (#[trigger] s[i]).0 != k by {
                if i < s.len() - 1 {
                    assert(s.drop_last()[i] == s[i]);
                }
            }
        }
    }
}

/// With distinct keys, the denoted map sends each entry's key to its value.
pub proof fn lemma_entries_map_index<V>(s: Seq<([u8; 20], V)>, i: int)
    requires
        distinct_keys(s),
        0 <= i < s.len(),
    ensures
        entries_map(s).contains_key(s[i].0),
        entries_map(s)[s[i].0] == s[i].1,
    decreases s.len(),
{
    if i == s.len() - 1 {
    } else {
        assert(s.drop_last()[i] == s[i]);
        lemma_entries_map_index(s.drop_last(), i);
        assert(s.last().0 != s[i].0);
    }
}

/// Updating the entry that holds a key denotes inserting over that key.
pub proof fn lemma_entries_map_update<V>(s: Seq<([u8; 20], V)>, i: int, v: V)
    requires
        distinct_keys(s),
        0 <= i < s.len(),
    ensures
        entries_map(s.update(i, (s[i].0, v))) =~= entries_map(s).insert(s[i].0, v),
        distinct_keys(s.update(i, (s[i].0, v))),
    decreases s.len(),
{
    let t = s.update(i, (s[i].0, v));
    assert forall|x: int, y: int| 0 <= x < y < t.len() implies (#[trigger] t[x]).0 != (
    #[trigger] t[y]).0 by {
        assert(t[x].0 == s[x].0 && t[y].0 == s[y].0);
    }
    if i == s.len() - 1 {
        assert(t.drop_last() =~= s.drop_last());
    } else {
        assert(t.drop_last() =~= s.drop_last().update(i, (s[i].0, v)));
        assert(s.drop_last()[i] == s[i]);
        lemma_entries_map_update(s.drop_last(), i, v);
        assert(s.last().0 != s[i].0);
        assert(t.last() == s.last());
        assert(entries_map(t) =~= entries_map(s).insert(s[i].0, v));
    }
}

/// Appending a fresh key denotes inserting it.
pub proof fn lemma_entries_map_push<V>(s: Seq<([u8; 20], V)>, k: [u8; 20], v: V)
    requires
        distinct_keys(s),
        forall|i: int| 0 <= i < s.len() ==> (#[trigger] s[i]).0 != k,
    ensures
        entries_map(s.push((k, v))) =~= entries_map(s).insert(k, v),
        distinct_keys(s.push((k, v))),
{
    assert(s.push((k, v)).drop_last() =~= s);
}

/// An address-keyed table with distinct keys.
pub struct AddrMap<V> {
    pub entries: Vec<([u8; 20], V)>,
}

impl<V> AddrMap<V> {
    /// The table's keys are pairwise distinct.
    pub open spec fn wf(&self) -> bool {
        distinct_keys(self.entries@)
    }

    /// The map the table denotes.
    pub open spec fn as_map(&self) -> Map<[u8; 20], V> {
        entries_map(self.entries@)
    }

    /// An empty table.
    pub fn new() -> (r: AddrMap<V>)
        ensures
            r.wf(),
            r.as_map() == Map::<[u8; 20], V>::empty(),
    {
        proof {
            assert(entries_map(Seq::<([u8; 20], V)>::empty()) =~= Map::<[u8; 20], V>::empty());
        }
        let r = AddrMap { entries: Vec::new() };
        proof {
            assert(r.entries@ =~= Seq::<([u8; 20], V)>::empty());
        }
        r
    }

    /// Finds the index of the entry holding a key, if any.
    pub fn find(&self, k: &[u8; 20]) -> (r: Option<usize>)
        requires
            self.wf(),
        ensures
            r matches Some(i) ==> i < self.entries@.len() && self.entries@[i as int].0 == *k,
            r is None ==> !self.as_map().contains_key(*k),
    {
        let n = self.entries.len();
        let mut i: usize = 0;
        while i < n
            invariant
                n == self.entries@.len(),
                i <= n,
                forall|j: int| 0 <= j < i ==> (#[trigger] self.entries@[j]).0 != *k,
            decreases n - i,
        {
            if address_eq(&self.entries[i].0, k) {
                return Some(i);
            }
            i = i + 1;
        }
        proof {
            lemma_entries_map_dom(self.entries@, *k);
        }
        None
    }

    /// Looks a key up.
    pub fn get(&self, k: &[u8; 20]) -> (r: Option<&V>)
        requires
            self.wf(),
        ensures
            r matches Some(v) ==> self.as_map().contains_key(*k) && *v == self.as_map()[*k],
            r is None ==> !self.as_map().contains_key(*k),
    {
        match self.find(k) {
            Some(i) => {
                proof {
                    lemma_entries_map_index(self.entries@, i as int);
                }
                Some(&self.entries[i].1)
            },
            None => None,
        }
    }

    /// Binds a key to a value, replacing any previous binding.
    pub fn set(&mut self, k: [u8; 20], v: V)
        requires
            old(self).wf(),
        ensures
            final(self).wf(),
            final(self).as_map() == old(self).as_map().insert(k, v),
    {
        match self.find(&k) {
            Some(i) => {
                proof {
                    lemma_entries_map_update(self.entries@, i as int, v);
                }
                let entry = &mut self.entries[i];
                entry.1 = v;
                proof {
                    assert(self.entries@ =~= old(self).entries@.update(
                        i as int,
                        (old(self).entries@[i as int].0, v),
                    ));
                }
            },
            None => {
                proof {
                    lemma_entries_map_dom(self.entries@, k);
                    assert forall|j: int| 0 <= j < self.entries@.len() implies (
                    #[trigger] self.entries@[j]).0 != k by {
                        if self.entries@[j].0 == k {
                            assert(entries_map(self.entries@).contains_key(k));
                        }
                    }
                    lemma_entries_map_push(self.entries@, k, v);
                }
                self.entries.push((k, v));
            },
        }
    }
}

} // verus!

//! A table keyed by text, such as running jobs by their id: each key at most once.
use vstd::prelude::*;
use crate::text::{str_eq, views};

verus! {

/// The map a list of key/value pairs stands for (a later pair wins).
pub open spec fn to_map<V>(s: Seq<(Seq<char>, V)>) -> Map<Seq<char>, V>
    decreases s.len(),
{
    if s.len() == 0 {
        Map::empty()
    } else {
        to_map(s.drop_last()).insert(s.last().0, s.last().1)
    }
}

/// No key occurs twice.
pub open spec fn keys_unique<V>(s: Seq<(Seq<char>, V)>) -> bool {
    forall|i: int, j: int| 0 <= i < j < s.len() ==> (#[trigger] s[i]).0 != (#[trigger] s[j]).0
}

proof fn lemma_to_map_dom<V>(s: Seq<(Seq<char>, V)>)
    ensures
        forall|k: Seq<char>| #[trigger] to_map(s).dom().contains(k) <==> exists|i: int| 0 <= i < s.len() && s[i].0 == k,
    decreases s.len(),
{
    if s.len() > 0 {
        let p = s.drop_last();
        lemma_to_map_dom(p);
        assert forall|k: Seq<char>| #[trigger] to_map(s).dom().contains(k) <==> exists|i: int| 0 <= i < s.len() && s[i].0 == k by {
            if to_map(s).dom().contains(k) {
                if k == s.last().0 {
                    assert(s[s.len() - 1].0 == k);
                } else {
                    assert(to_map(s) == to_map(p).insert(s.last().0, s.last().1));
                    assert(to_map(p).dom().contains(k));
                    assert(exists|i: int| 0 <= i < p.len() && p[i].0 == k);
                    let i = choose|i: int| 0 <= i < p.len() && p[i].0 == k;
                    assert(s[i] == p[i]);
                    assert(s[i].0 == k);
                }
            }
            if exists|i: int| 0 <= i < s.len() && s[i].0 == k {
                let i = choose|i: int| 0 <= i < s.len() && s[i].0 == k;
                assert(to_map(s) == to_map(p).insert(s.last().0, s.last().1));
                if i < s.len() - 1 {
                    assert(p[i] == s[i]);
                    assert(p[i].0 == k);
                    assert(to_map(p).dom().contains(k));
                } else {
                    assert(s.last().0 == k);
                }
            }
        }
    }
}

proof fn lemma_to_map_value<V>(s: Seq<(Seq<char>, V)>, i: int)
    requires
        keys_unique(s),
        0 <= i < s.len(),
    ensures
        to_map(s).dom().contains(s[i].0),
        to_map(s)[s[i].0] == s[i].1,
    decreases s.len(),
{
    lemma_to_map_dom(s);
    if i < s.len() - 1 {
        let p = s.drop_last();
        assert(keys_unique(p)) by {
            assert forall|a: int, b: int| 0 <= a < b < p.len() implies (#[trigger] p[a]).0 != (#[trigger] p[b]).0 by {
                assert(p[a] == s[a] && p[b] == s[b]);
            }
        }
        assert(p[i] == s[i]);
        lemma_to_map_value(p, i);
        assert(s[i].0 != s[s.len() - 1].0);
    }
}

proof fn lemma_to_map_update<V>(s: Seq<(Seq<char>, V)>, i: int, v: V)
    requires
        keys_unique(s),
        0 <= i < s.len(),
    ensures
        to_map(s.update(i, (s[i].0, v))) == to_map(s).insert(s[i].0, v),
    decreases s.len(),
{
    let t = s.update(i, (s[i].0, v));
    let k = s[i].0;
    if i == s.len() - 1 {
        assert(t.drop_last() == s.drop_last());
        assert(to_map(t) == to_map(s.drop_last()).insert(k, v));
        assert(to_map(s).insert(k, v) =~= to_map(s.drop_last()).insert(k, v));
    } else {
        let p = s.drop_last();
        assert(keys_unique(p)) by {
            assert forall|a: int, b: int| 0 <= a < b < p.len() implies (#[trigger] p[a]).0 != (#[trigger] p[b]).0 by {
                assert(p[a] == s[a] && p[b] == s[b]);
            }
        }
        assert(p[i] == s[i]);
        lemma_to_map_update(p, i, v);
        assert(t.drop_last() == p.update(i, (k, v)));
        assert(s.last().0 != k);
        assert(to_map(t) =~= to_map(s).insert(k, v));
    }
}

proof fn lemma_to_map_remove<V>(s: Seq<(Seq<char>, V)>, i: int)
    requires
        keys_unique(s),
        0 <= i < s.len(),
    ensures
        to_map(s.remove(i)) == to_map(s).remove(s[i].0),
        keys_unique(s.remove(i)),
    decreases s.len(),
{
    let k = s[i].0;
    let t = s.remove(i);
    assert(keys_unique(t)) by {
        assert forall|a: int, b: int| 0 <= a < b < t.len() implies (#[trigger] t[a]).0 != (#[trigger] t[b]).0 by {
            let a2 = if a < i { a } else { a + 1 };
            let b2 = if b < i { b } else { b + 1 };
            assert(t[a] == s[a2] && t[b] == s[b2]);
        }
    }
    let p = s.drop_last();
    if i == s.len() - 1 {
        assert(t == p);
        lemma_to_map_dom(p);
        assert(!to_map(p).dom().contains(k)) by {
            if to_map(p).dom().contains(k) {
                let j = choose|j: int| 0 <= j < p.len() && p[j].0 == k;
                assert(s[j] == p[j]);
            }
        }
        assert(to_map(s).remove(k) =~= to_map(p));
    } else {
        assert(keys_unique(p)) by {
            assert forall|a: int, b: int| 0 <= a < b < p.len() implies (#[trigger] p[a]).0 != (#[trigger] p[b]).0 by {
                assert(p[a] == s[a] && p[b] == s[b]);
            }
        }
        assert(p[i] == s[i]);
        lemma_to_map_remove(p, i);
        assert(t.drop_last() == p.remove(i));
        assert(t.last() == s.last());
        assert(s.last().0 != k);
        assert(to_map(t) =~= to_map(s).remove(k));
    }
}

/// A table of values keyed by text.
pub struct KeyedTable<V> {
    entries: Vec<(String, V)>,
}

/// The pairs of a table's entries, keys taken as text.
pub open spec fn pairs_of<V>(e: Seq<(String, V)>) -> Seq<(Seq<char>, V)> {
    e.map_values(|p: (String, V)| (p.0@, p.1))
}

impl<V> KeyedTable<V> {
    /// The entries as key/value pairs, in the order they were added.
    pub closed spec fn pairs(&self) -> Seq<(Seq<char>, V)> {
        pairs_of(self.entries@)
    }

    #[verifier::type_invariant]
    closed spec fn unique(&self) -> bool {
        keys_unique(self.pairs())
    }

    /// The table as a map.
    pub closed spec fn as_map(&self) -> Map<Seq<char>, V> {
        to_map(self.pairs())
    }

    /// An empty table.
    pub fn new() -> (r: Self)
        ensures
            r.as_map() == Map::<Seq<char>, V>::empty(),
    {
        let r = KeyedTable { entries: Vec::new() };
        assert(r.pairs() =~= Seq::<(Seq<char>, V)>::empty());
        r
    }

    fn find(&self, key: &str) -> (r: Option<usize>)
        ensures
            r is None ==> !self.as_map().dom().contains(key@),
            r matches Some(i) ==> i < self.pairs().len() && self.pairs()[i as int].0 == key@,
    {
        proof {
            use_type_invariant(self);
            lemma_to_map_dom(self.pairs());
        }
        let mut i: usize = 0;
        while i < self.entries.len()
            invariant
                i <= self.entries.len(),
                forall|j: int| 0 <= j < i ==> #[trigger] self.pairs()[j].0 != key@,
            decreases self.entries.len() - i,
        {
            assert(self.pairs()[i as int].0 == self.entries@[i as int].0@);
            if str_eq(self.entries[i].0.as_str(), key) {
                return Some(i);
            }
            i = i + 1;
        }
        None
    }

    /// Sets the value of `key`, replacing any value it had.
    pub fn insert(&mut self, key: String, value: V)
        ensures
            final(self).as_map() == old(self).as_map().insert(key@, value),
    {
        proof {
            use_type_invariant(&*self);
        }
        match self.find(key.as_str()) {
            Some(i) => {
                let ghost s = self.pairs();
                proof {
                    lemma_to_map_update(s, i as int, value);
                }
                let mut entries: Vec<(String, V)> = Vec::new();
                std::mem::swap(&mut entries, &mut self.entries);
                entries.set(i, (key, value));
                assert(pairs_of(entries@) =~= s.update(i as int, (s[i as int].0, value)));
                self.entries = entries;
                assert(self.pairs() == s.update(i as int, (s[i as int].0, value)));
            },
            None => {
                let ghost s = self.pairs();
                proof {
                    lemma_to_map_dom(s);
                }
                let mut entries: Vec<(String, V)> = Vec::new();
                std::mem::swap(&mut entries, &mut self.entries);
                let ghost k = key@;
                entries.push((key, value));
                assert(pairs_of(entries@) =~= s.push((k, value)));
                assert(s.push((k, value)).drop_last() == s);
                assert(to_map(s.push((k, value))) == to_map(s).insert(k, value));
                assert(keys_unique(s.push((k, value)))) by {
                    assert forall|a: int, b: int| 0 <= a < b < s.len() + 1 implies (#[trigger] s.push((k, value))[a]).0 != (#[trigger] s.push((k, value))[b]).0 by {
                        if b == s.len() {
                            assert(s.push((k, value))[a] == s[a]);
                        }
                    }
                }
                self.entries = entries;
            },
        }
    }

    /// Removes `key` and hands back its value, if it had one.
    pub fn take(&mut self, key: &str) -> (r: Option<V>)
        ensures
            final(self).as_map() == old(self).as_map().remove(key@),
            old(self).as_map().dom().contains(key@) ==> r == Some(old(self).as_map()[key@]),
            !old(self).as_map().dom().contains(key@) ==> r is None,
    {
        proof {
            use_type_invariant(&*self);
        }
        match self.find(key) {
            Some(i) => {
                let ghost s = self.pairs();
                proof {
                    lemma_to_map_value(s, i as int);
                    lemma_to_map_remove(s, i as int);
                }
                let mut entries: Vec<(String, V)> = Vec::new();
                std::mem::swap(&mut entries, &mut self.entries);
                let (_k, v) = entries.remove(i);
                assert(pairs_of(entries@) =~= s.remove(i as int));
                self.entries = entries;
                Some(v)
            },
            None => {
                assert(self.as_map().remove(key@) =~= self.as_map());
                None
            },
        }
    }

    /// The keys, in the order they were added.
    pub fn keys(&self) -> (r: Vec<String>)
        ensures
            views(r@).to_set() == self.as_map().dom(),
            views(r@).no_duplicates(),
    {
        proof {
            use_type_invariant(self);
            lemma_to_map_dom(self.pairs());
        }
        let mut r: Vec<String> = Vec::new();
        let mut i: usize = 0;
        while i < self.entries.len()
            invariant
                i <= self.entries.len(),
                keys_unique(self.pairs()),
                views(r@).len() == i,
                forall|j: int| 0 <= j < i ==> #[trigger] views(r@)[j] == self.pairs()[j].0,
            decreases self.entries.len() - i,
        {
            let ghost b = views(r@);
            r.push(self.entries[i].0.clone());
            assert(self.pairs()[i as int].0 == self.entries@[i as int].0@);
            assert(views(r@) =~= b.push(self.pairs()[i as int].0));
            i = i + 1;
        }
        let ghost ks = views(r@);
        assert(ks.no_duplicates()) by {
            assert forall|a: int, b: int| 0 <= a < ks.len() && 0 <= b < ks.len() && a != b implies ks[a] != ks[b] by {
                if a < b {
                    assert(self.pairs()[a].0 != self.pairs()[b].0);
                } else {
                    assert(self.pairs()[b].0 != self.pairs()[a].0);
                }
            }
        }
        assert(ks.to_set() =~= self.as_map().dom()) by {
            assert forall|k: Seq<char>| ks.to_set().contains(k) <==> self.as_map().dom().contains(k) by {
                if ks.to_set().contains(k) {
                    assert(ks.contains(k));
                    let j = choose|j: int| 0 <= j < ks.len() && ks[j] == k;
                    assert(self.pairs()[j].0 == k);
                }
                if self.as_map().dom().contains(k) {
                    let j = choose|j: int| 0 <= j < self.pairs().len() && self.pairs()[j].0 == k;
                    assert(ks[j] == k);
                    assert(ks.contains(k));
                }
            }
        }
        r
    }
}

} // verus!

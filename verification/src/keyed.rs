//! A small table from string keys to values, read as a map from the key's
//! characters to the value. Device ids, config keys and document keys are
//! kept in it.

use vstd::prelude::*;

verus! {

/// No key appears twice.
pub open spec fn unique_keys<V>(s: Seq<(String, V)>) -> bool {
    forall|i: int, j: int| 0 <= i < s.len() && 0 <= j < s.len() && i != j ==> s[i].0@ != s[j].0@
}

/// The map a list of entries with unique keys spells.
pub open spec fn entries_map<V>(s: Seq<(String, V)>) -> Map<Seq<char>, V> {
    Map::new(
        |k: Seq<char>| exists|i: int| 0 <= i < s.len() && s[i].0@ == k,
        |k: Seq<char>| s[choose|i: int| 0 <= i < s.len() && s[i].0@ == k].1,
    )
}

proof fn lemma_map_at<V>(s: Seq<(String, V)>, i: int)
    requires
        unique_keys(s),
        0 <= i < s.len(),
    ensures
        entries_map(s).contains_key(s[i].0@),
        entries_map(s)[s[i].0@] == s[i].1,
{
    let k = s[i].0@;
    assert(exists|j: int| 0 <= j < s.len() && s[j].0@ == k);
    let j = choose|j: int| 0 <= j < s.len() && s[j].0@ == k;
    assert(j == i);
}

proof fn lemma_map_push<V>(s: Seq<(String, V)>, e: (String, V))
    requires
        unique_keys(s),
        !entries_map(s).contains_key(e.0@),
    ensures
        unique_keys(s.push(e)),
        entries_map(s.push(e)) =~= entries_map(s).insert(e.0@, e.1),
{
    let t = s.push(e);
    assert forall|i: int, j: int| 0 <= i < t.len() && 0 <= j < t.len() && i != j implies t[i].0@
        != t[j].0@ by {
        if i < s.len() && j < s.len() {
        } else if i == s.len() {
            assert(t[j] == s[j]);
            if s[j].0@ == e.0@ {
                assert(entries_map(s).contains_key(e.0@));
            }
        } else {
            assert(t[i] == s[i]);
            if s[i].0@ == e.0@ {
                assert(entries_map(s).contains_key(e.0@));
            }
        }
    }
    assert forall|k: Seq<char>| #[trigger] entries_map(t).contains_key(k) == entries_map(s).insert(
        e.0@,
        e.1,
    ).contains_key(k) by {
        if entries_map(s).contains_key(k) {
            let j = choose|j: int| 0 <= j < s.len() && s[j].0@ == k;
            assert(t[j] == s[j]);
        }
        if k == e.0@ {
            assert(t[s.len() as int] == e);
        }
    }
    assert forall|k: Seq<char>| #[trigger] entries_map(t).contains_key(k) implies entries_map(t)[k]
        == entries_map(s).insert(e.0@, e.1)[k] by {
        let j = choose|j: int| 0 <= j < t.len() && t[j].0@ == k;
        lemma_map_at(t, j);
        if j < s.len() {
            assert(t[j] == s[j]);
            lemma_map_at(s, j);
        }
    }
}

proof fn lemma_map_remove<V>(s: Seq<(String, V)>, i: int)
    requires
        unique_keys(s),
        0 <= i < s.len(),
    ensures
        unique_keys(s.remove(i)),
        entries_map(s.remove(i)) =~= entries_map(s).remove(s[i].0@),
{
    let t = s.remove(i);
    let gone = s[i].0@;
    assert forall|p: int, q: int| 0 <= p < t.len() && 0 <= q < t.len() && p != q implies t[p].0@
        != t[q].0@ by {
        let pp = if p < i {
            p
        } else {
            p + 1
        };
        let qq = if q < i {
            q
        } else {
            q + 1
        };
        assert(t[p] == s[pp]);
        assert(t[q] == s[qq]);
    }
    assert forall|k: Seq<char>| #[trigger] entries_map(t).contains_key(k) == entries_map(s).remove(
        gone,
    ).contains_key(k) by {
        if entries_map(t).contains_key(k) {
            let j = choose|j: int| 0 <= j < t.len() && t[j].0@ == k;
            let jj = if j < i {
                j
            } else {
                j + 1
            };
            assert(t[j] == s[jj]);
            lemma_map_at(s, jj);
        }
        if entries_map(s).contains_key(k) && k != gone {
            let j = choose|j: int| 0 <= j < s.len() && s[j].0@ == k;
            let jj = if j < i {
                j
            } else {
                j - 1
            };
            assert(t[jj] == s[j]);
        }
    }
    assert forall|k: Seq<char>| #[trigger] entries_map(t).contains_key(k) implies entries_map(t)[k]
        == entries_map(s)[k] by {
        let j = choose|j: int| 0 <= j < t.len() && t[j].0@ == k;
        lemma_map_at(t, j);
        let jj = if j < i {
            j
        } else {
            j + 1
        };
        assert(t[j] == s[jj]);
        lemma_map_at(s, jj);
    }
}

proof fn lemma_map_update<V>(s: Seq<(String, V)>, i: int, v: V)
    requires
        unique_keys(s),
        0 <= i < s.len(),
    ensures
        unique_keys(s.update(i, (s[i].0, v))),
        entries_map(s.update(i, (s[i].0, v))) =~= entries_map(s).insert(s[i].0@, v),
{
    let t = s.update(i, (s[i].0, v));
    assert forall|k: Seq<char>| #[trigger] entries_map(t).contains_key(k) == entries_map(s).insert(
        s[i].0@,
        v,
    ).contains_key(k) by {
        if entries_map(s).contains_key(k) {
            let j = choose|j: int| 0 <= j < s.len() && s[j].0@ == k;
            assert(t[j].0@ == k);
        }
        if entries_map(t).contains_key(k) {
            let j = choose|j: int| 0 <= j < t.len() && t[j].0@ == k;
            assert(s[j].0@ == k);
        }
    }
    assert forall|k: Seq<char>| #[trigger] entries_map(t).contains_key(k) implies entries_map(t)[k]
        == entries_map(s).insert(s[i].0@, v)[k] by {
        let j = choose|j: int| 0 <= j < t.len() && t[j].0@ == k;
        lemma_map_at(t, j);
        if j != i {
            lemma_map_at(s, j);
        }
    }
}

proof fn lemma_map_empty<V>(s: Seq<(String, V)>)
    requires
        s.len() == 0,
    ensures
        entries_map(s) =~= Map::<Seq<char>, V>::empty(),
{
}

/// A table from string keys to values in which each key occurs once.
pub struct KeyedTable<V> {
    entries: Vec<(String, V)>,
}

impl<V> KeyedTable<V> {
    /// Each key occurs once.
    pub closed spec fn wf(&self) -> bool {
        unique_keys(self.entries@)
    }

    /// The table read as a map from key characters to values.
    pub closed spec fn view(&self) -> Map<Seq<char>, V> {
        entries_map(self.entries@)
    }

    /// The entries, in the order they were first inserted.
    pub closed spec fn listed(&self) -> Seq<(String, V)> {
        self.entries@
    }

    /// The entries list exactly the table's keys, each with its value.
    pub proof fn lemma_entries(&self)
        requires
            self.wf(),
        ensures
            unique_keys(self.listed()),
            forall|i: int|
                0 <= i < self.listed().len() ==> #[trigger] self.view().contains_key(
                    self.listed()[i].0@,
                ) && self.view()[self.listed()[i].0@] == self.listed()[i].1,
            forall|k: Seq<char>|
                #[trigger] self.view().contains_key(k) ==> exists|i: int|
                    0 <= i < self.listed().len() && self.listed()[i].0@ == k,
            self.view().dom().finite(),
            self.view().dom().len() == self.listed().len(),
    {
        assert forall|i: int| 0 <= i < self.listed().len() implies #[trigger] self.view().contains_key(
            self.listed()[i].0@,
        ) && self.view()[self.listed()[i].0@] == self.listed()[i].1 by {
            lemma_map_at(self.entries@, i);
        }
        assert forall|k: Seq<char>| #[trigger] self.view().contains_key(k) implies exists|i: int|
            0 <= i < self.listed().len() && self.listed()[i].0@ == k by {
            let s = self.entries@;
            assert(entries_map(s).dom().contains(k));
            let i = choose|i: int| 0 <= i < s.len() && s[i].0@ == k;
            assert(self.listed()[i].0@ == k);
        }
        lemma_dom_len(self.entries@);
    }

    /// An empty table.
    pub fn new() -> (t: KeyedTable<V>)
        ensures
            t.wf(),
            t.view() == Map::<Seq<char>, V>::empty(),
            t.listed().len() == 0,
    {
        let t = KeyedTable { entries: Vec::new() };
        proof {
            lemma_map_empty(t.entries@);
        }
        t
    }

    /// The number of keys.
    pub fn len(&self) -> (n: usize)
        requires
            self.wf(),
        ensures
            n == self.view().dom().len(),
    {
        proof {
            lemma_dom_len(self.entries@);
        }
        self.entries.len()
    }

    fn find(&self, key: &String) -> (r: Option<usize>)
        requires
            self.wf(),
        ensures
            match r {
                Some(i) => i < self.entries@.len() && self.entries@[i as int].0@ == key@,
                None => !self.view().contains_key(key@),
            },
    {
        let mut i: usize = 0;
        while i < self.entries.len()
            invariant
                0 <= i <= self.entries@.len(),
                forall|k: int| 0 <= k < i ==> self.entries@[k].0@ != key@,
            decreases self.entries@.len() - i,
        {
            if self.entries[i].0 == *key {
                return Some(i);
            }
            i = i + 1;
        }
        None
    }

    /// Whether `key` is in the table.
    pub fn contains(&self, key: &String) -> (r: bool)
        requires
            self.wf(),
        ensures
            r == self.view().contains_key(key@),
    {
        match self.find(key) {
            Some(i) => {
                proof {
                    lemma_map_at(self.entries@, i as int);
                }
                true
            },
            None => false,
        }
    }

    /// The value held under `key`.
    pub fn get(&self, key: &String) -> (r: Option<&V>)
        requires
            self.wf(),
        ensures
            match r {
                Some(v) => self.view().contains_key(key@) && self.view()[key@] == *v,
                None => !self.view().contains_key(key@),
            },
    {
        match self.find(key) {
            Some(i) => {
                proof {
                    lemma_map_at(self.entries@, i as int);
                }
                Some(&self.entries[i].1)
            },
            None => None,
        }
    }

    /// Holds `value` under `key`, and gives back what `key` held before.
    pub fn insert(&mut self, key: String, value: V) -> (prior: Option<V>)
        requires
            old(self).wf(),
        ensures
            final(self).wf(),
            final(self).view() == old(self).view().insert(key@, value),
            match prior {
                Some(v) => old(self).view().contains_key(key@) && old(self).view()[key@] == v,
                None => !old(self).view().contains_key(key@),
            },
    {
        match self.find(&key) {
            Some(i) => {
                proof {
                    lemma_map_at(self.entries@, i as int);
                    lemma_map_update(self.entries@, i as int, value);
                }
                let (k, v) = self.entries.remove(i);
                let ghost before = old(self).entries@;
                self.entries.insert(i, (k, value));
                assert(self.entries@ =~= before.update(i as int, (before[i as int].0, value)));
                Some(v)
            },
            None => {
                proof {
                    lemma_map_push(self.entries@, (key, value));
                }
                self.entries.push((key, value));
                None
            },
        }
    }

    /// Drops `key`, and gives back what it held.
    pub fn remove(&mut self, key: &String) -> (prior: Option<V>)
        requires
            old(self).wf(),
        ensures
            final(self).wf(),
            final(self).view() == old(self).view().remove(key@),
            match prior {
                Some(v) => old(self).view().contains_key(key@) && old(self).view()[key@] == v,
                None => !old(self).view().contains_key(key@),
            },
    {
        match self.find(key) {
            Some(i) => {
                proof {
                    lemma_map_at(self.entries@, i as int);
                    lemma_map_remove(self.entries@, i as int);
                }
                let (_k, v) = self.entries.remove(i);
                Some(v)
            },
            None => {
                assert(old(self).view().remove(key@) =~= old(self).view());
                None
            },
        }
    }

    /// The entries, in the order they were first inserted.
    pub fn entries(&self) -> (r: &Vec<(String, V)>)
        ensures
            r@ == self.listed(),
    {
        &self.entries
    }

    /// Empties the table and gives back every entry it held.
    pub fn take_all(&mut self) -> (all: Vec<(String, V)>)
        requires
            old(self).wf(),
        ensures
            final(self).wf(),
            final(self).view() == Map::<Seq<char>, V>::empty(),
            all@ == old(self).listed(),
    {
        let mut all: Vec<(String, V)> = Vec::new();
        std::mem::swap(&mut all, &mut self.entries);
        proof {
            lemma_map_empty(self.entries@);
        }
        all
    }
}

proof fn lemma_dom_len<V>(s: Seq<(String, V)>)
    requires
        unique_keys(s),
    ensures
        entries_map(s).dom().finite(),
        entries_map(s).dom().len() == s.len(),
    decreases s.len(),
{
    if s.len() == 0 {
        assert(entries_map(s).dom() =~= Set::<Seq<char>>::empty());
    } else {
        let t = s.drop_last();
        assert forall|i: int, j: int| 0 <= i < t.len() && 0 <= j < t.len() && i != j implies t[i].0@
            != t[j].0@ by {
            assert(t[i] == s[i]);
            assert(t[j] == s[j]);
        }
        lemma_dom_len(t);
        if entries_map(t).contains_key(s.last().0@) {
            let j = choose|j: int| 0 <= j < t.len() && t[j].0@ == s.last().0@;
            assert(s[j] == t[j]);
            assert(false);
        }
        lemma_map_push(t, s.last());
        assert(t.push(s.last()) =~= s);
    }
}

} // verus!

//! A map from text keys to values, kept as a list of entries with no key
//! twice, so that its entries can be walked in a fixed order.
use vstd::prelude::*;

verus! {

/// The map that a list of entries stands for: each entry, later ones
/// overriding earlier ones.
pub open spec fn entries_map<V>(s: Seq<(String, V)>) -> Map<Seq<char>, V>
    decreases s.len(),
{
    if s.len() == 0 {
        Map::empty()
    } else {
        entries_map(s.drop_last()).insert(s.last().0@, s.last().1)
    }
}

/// No key occurs twice among the entries.
pub open spec fn keys_unique<V>(s: Seq<(String, V)>) -> bool {
    forall|i: int, j: int| 0 <= i < j < s.len() ==> s[i].0@ != s[j].0@
}

/// The map holds exactly the keys of the entries, each with its value.
pub proof fn lemma_entries_map<V>(s: Seq<(String, V)>)
    requires
        keys_unique(s),
    ensures
        forall|i: int| 0 <= i < s.len() ==> #[trigger] entries_map(s).contains_key(s[i].0@)
            && entries_map(s)[s[i].0@] == s[i].1,
        forall|k: Seq<char>| #[trigger] entries_map(s).contains_key(k) ==> exists|i: int|
            0 <= i < s.len() && s[i].0@ == k,
    decreases s.len(),
{
    if s.len() > 0 {
        let f = s.drop_last();
        assert(keys_unique(f));
        lemma_entries_map(f);
        assert forall|k: Seq<char>| #[trigger] entries_map(s).contains_key(k) implies exists|i: int|
            0 <= i < s.len() && s[i].0@ == k by {
            if k != s.last().0@ {
                assert(entries_map(f).contains_key(k));
                let i = choose|i: int| 0 <= i < f.len() && f[i].0@ == k;
                assert(s[i] == f[i]);
            } else {
                assert(s[s.len() - 1].0@ == k);
            }
        }
        assert forall|i: int| 0 <= i < s.len() implies #[trigger] entries_map(s).contains_key(
            s[i].0@,
        ) && entries_map(s)[s[i].0@] == s[i].1 by {
            if i < s.len() - 1 {
                assert(f[i] == s[i]);
                assert(entries_map(f).contains_key(f[i].0@));
                assert(s[i].0@ != s[s.len() - 1].0@);
            }
        }
    }
}

/// Taking out the entry at `i` takes its key out of the map.
pub proof fn lemma_entries_map_remove<V>(s: Seq<(String, V)>, i: int)
    requires
        keys_unique(s),
        0 <= i < s.len(),
    ensures
        keys_unique(s.remove(i)),
        entries_map(s.remove(i)) == entries_map(s).remove(s[i].0@),
    decreases s.len(),
{
    let r = s.remove(i);
    assert forall|a: int, b: int| 0 <= a < b < r.len() implies r[a].0@ != r[b].0@ by {
        let a2 = if a < i { a } else { a + 1 };
        let b2 = if b < i { b } else { b + 1 };
        assert(r[a] == s[a2] && r[b] == s[b2]);
    }
    if i == s.len() - 1 {
        assert(r =~= s.drop_last());
        lemma_entries_map(r);
        assert forall|k| #[trigger] entries_map(r).contains_key(k) implies k != s[i].0@ by {
            let j = choose|j: int| 0 <= j < r.len() && r[j].0@ == k;
            assert(r[j] == s[j]);
        }
        assert(entries_map(r) =~= entries_map(s).remove(s[i].0@));
    } else {
        let f = s.drop_last();
        assert(keys_unique(f));
        lemma_entries_map_remove(f, i);
        assert(r.drop_last() =~= f.remove(i));
        assert(r.last() == s.last());
        assert(s.last().0@ != s[i].0@);
        assert(entries_map(r) =~= entries_map(s).remove(s[i].0@));
    }
}

/// A map from text keys to values, walkable in entry order.
pub struct AssocList<V> {
    entries: Vec<(String, V)>,
}

impl<V> AssocList<V> {
    /// The map.
    pub closed spec fn view(&self) -> Map<Seq<char>, V> {
        entries_map(self.entries@)
    }

    /// The entries, in order.
    pub closed spec fn entry_seq(&self) -> Seq<(String, V)> {
        self.entries@
    }

    /// No key occurs twice.
    pub closed spec fn wf(&self) -> bool {
        keys_unique(self.entries@)
    }

    /// The entries stand for the map.
    pub proof fn lemma_view(&self)
        requires
            self.wf(),
        ensures
            keys_unique(self.entry_seq()),
            self.view() == entries_map(self.entry_seq()),
    {
    }

    /// An empty map.
    pub fn new() -> (r: AssocList<V>)
        ensures
            r.wf(),
            r.view() == Map::<Seq<char>, V>::empty(),
    {
        AssocList { entries: Vec::new() }
    }

    /// Where `key` stands among the entries.
    fn position(&self, key: &str) -> (r: Option<usize>)
        requires
            self.wf(),
        ensures
            match r {
                Some(i) => i < self.entries@.len() && self.entries@[i as int].0@ == key@,
                None => !self.view().contains_key(key@),
            },
    {
        proof {
            lemma_entries_map(self.entries@);
        }
        let n = self.entries.len();
        for i in 0..n
            invariant
                n == self.entries@.len(),
                forall|j: int| 0 <= j < i ==> self.entries@[j].0@ != key@,
        {
            if self.entries[i].0 == key.to_owned() {
                return Some(i);
            }
        }
        None
    }

    /// The value under `key`, if any.
    pub fn get(&self, key: &str) -> (r: Option<&V>)
        requires
            self.wf(),
        ensures
            match r {
                Some(v) => self.view().contains_key(key@) && *v == self.view()[key@],
                None => !self.view().contains_key(key@),
            },
    {
        proof {
            lemma_entries_map(self.entries@);
        }
        match self.position(key) {
            Some(i) => {
                assert(entries_map(self.entries@).contains_key(self.entries@[i as int].0@));
                Some(&self.entries[i].1)
            },
            None => None,
        }
    }

    /// Takes `key` out of the map.
    pub fn remove(&mut self, key: &str)
        requires
            old(self).wf(),
        ensures
            final(self).wf(),
            final(self).view() == old(self).view().remove(key@),
    {
        match self.position(key) {
            Some(i) => {
                proof {
                    lemma_entries_map_remove(self.entries@, i as int);
                }
                self.entries.remove(i);
            },
            None => {
                assert(self.view() =~= old(self).view().remove(key@));
            },
        }
    }

    /// Stores `value` under `key`, replacing what was there.
    pub fn insert(&mut self, key: String, value: V)
        requires
            old(self).wf(),
        ensures
            final(self).wf(),
            final(self).view() == old(self).view().insert(key@, value),
    {
        self.remove(key.as_str());
        proof {
            lemma_entries_map(self.entries@);
        }
        let ghost before = self.entries@;
        self.entries.push((key, value));
        assert(self.entries@.drop_last() =~= before);
        assert forall|i: int, j: int| 0 <= i < j < self.entries@.len() implies self.entries@[i].0@
            != self.entries@[j].0@ by {
            if j == self.entries@.len() - 1 {
                assert(entries_map(before).contains_key(before[i].0@));
            } else {
                assert(before[i] == self.entries@[i] && before[j] == self.entries@[j]);
            }
        }
        assert(self.view() =~= old(self).view().insert(key@, value));
    }

    /// The entries, in order.
    pub fn entries(&self) -> (r: &Vec<(String, V)>)
        ensures
            r@ == self.entry_seq(),
    {
        &self.entries
    }
}

/// `m` without the keys whose value is `v`.
pub open spec fn drop_value<V>(m: Map<Seq<char>, V>, v: V) -> Map<Seq<char>, V> {
    Map::new(|k: Seq<char>| m.contains_key(k) && m[k] != v, |k: Seq<char>| m[k])
}

impl AssocList<i64> {
    /// Takes out every key whose value is `v`.
    pub fn remove_value(&mut self, v: i64)
        requires
            old(self).wf(),
        ensures
            final(self).wf(),
            final(self).view() == drop_value(old(self).view(), v),
    {
        let n = self.entries.len();
        let mut out: Vec<(String, i64)> = Vec::new();
        let ghost s = self.entries@;
        assert(s.take(0) =~= Seq::<(String, i64)>::empty());
        assert(entries_map(out@) =~= drop_value(entries_map(s.take(0)), v));
        for i in 0..n
            invariant
                n == s.len(),
                s == self.entries@,
                keys_unique(s),
                keys_unique(out@),
                forall|a: int|
                    0 <= a < out@.len() ==> exists|b: int| 0 <= b < i && s[b] == #[trigger] out@[a],
                entries_map(out@) == drop_value(entries_map(s.take(i as int)), v),
        {
            let ghost t = s.take(i as int);
            assert(s.take(i + 1) =~= t.push(s[i as int]));
            assert(s.take(i + 1).drop_last() =~= t);
            proof {
                assert(keys_unique(t));
                lemma_entries_map(t);
            }
            let key = self.entries[i].0.clone();
            let val = self.entries[i].1;
            if val != v {
                let ghost before = out@;
                out.push((key, val));
                assert(out@.drop_last() =~= before);
                assert forall|a: int, b: int| 0 <= a < b < out@.len() implies out@[a].0@
                    != out@[b].0@ by {
                    if b == out@.len() - 1 {
                        let c = choose|c: int| 0 <= c < i && s[c] == #[trigger] before[a];
                        assert(out@[a] == before[a]);
                    } else {
                        assert(out@[a] == before[a] && out@[b] == before[b]);
                    }
                }
                assert forall|a: int| 0 <= a < out@.len() implies exists|b: int|
                    0 <= b < i + 1 && s[b] == #[trigger] out@[a] by {
                    if a == out@.len() - 1 {
                        assert(s[i as int] == out@[a]);
                    } else {
                        assert(out@[a] == before[a]);
                        let c = choose|c: int| 0 <= c < i && s[c] == #[trigger] before[a];
                        assert(s[c] == out@[a]);
                    }
                }
                assert(entries_map(out@) =~= drop_value(entries_map(s.take(i + 1)), v));
            } else {
                assert(!entries_map(t).contains_key(s[i as int].0@)) by {
                    if entries_map(t).contains_key(s[i as int].0@) {
                        let c = choose|c: int| 0 <= c < t.len() && t[c].0@ == s[i as int].0@;
                        assert(t[c] == s[c]);
                    }
                }
                assert(entries_map(out@) =~= drop_value(entries_map(s.take(i + 1)), v));
            }
        }
        assert(s.take(n as int) =~= s);
        self.entries = out;
    }
}

} // verus!

//! The key-value table that masters and slaves serve.
use vstd::prelude::*;
use vstd::hash_map::StringHashMap;

verus! {

/// The contents of a table: key text to value text.
pub type Table = Map<Seq<char>, Seq<char>>;

/// `m` with every key of `keys` removed, one after the other.
pub open spec fn remove_each(m: Table, keys: Seq<Seq<char>>) -> Table
    decreases keys.len(),
{
    if keys.len() == 0 {
        m
    } else {
        remove_each(m, keys.drop_last()).remove(keys.last())
    }
}

/// How many of the removals of `remove_each(m, keys)` found their key.
pub open spec fn removed_count(m: Table, keys: Seq<Seq<char>>) -> nat
    decreases keys.len(),
{
    if keys.len() == 0 {
        0
    } else {
        removed_count(m, keys.drop_last()) + if remove_each(m, keys.drop_last()).contains_key(
            keys.last(),
        ) {
            1nat
        } else {
            0nat
        }
    }
}

/// Removing the keys one by one is removing the set of them at once.
pub proof fn lemma_remove_each_is_remove_keys(m: Table, keys: Seq<Seq<char>>)
    ensures
        remove_each(m, keys) == m.remove_keys(keys.to_set()),
    decreases keys.len(),
{
    if keys.len() == 0 {
        assert(keys.to_set() =~= Set::<Seq<char>>::empty());
        assert(m.remove_keys(keys.to_set()) =~= m);
    } else {
        lemma_remove_each_is_remove_keys(m, keys.drop_last());
        assert(keys.to_set() =~= keys.drop_last().to_set().insert(keys.last())) by {
            assert forall|k| keys.to_set().contains(k) implies keys.drop_last().to_set().insert(
                keys.last(),
            ).contains(k) by {
                let i = choose|i: int| 0 <= i < keys.len() && keys[i] == k;
                if i < keys.len() - 1 {
                    assert(keys.drop_last()[i] == k);
                }
            }
            assert forall|k| keys.drop_last().to_set().insert(keys.last()).contains(k) implies keys.to_set().contains(k) by {
                if k != keys.last() {
                    let i = choose|i: int| 0 <= i < keys.drop_last().len() && keys.drop_last()[i] == k;
                    assert(keys[i] == k);
                } else {
                    assert(keys[keys.len() - 1] == k);
                }
            }
        }
        assert(m.remove_keys(keys.drop_last().to_set()).remove(keys.last()) =~= m.remove_keys(
            keys.to_set(),
        ));
    }
}

/// The count of removals that found their key is the number of distinct
/// keys of `keys` that `m` held.
pub proof fn lemma_removed_count_is_hits(m: Table, keys: Seq<Seq<char>>)
    ensures
        removed_count(m, keys) == m.dom().intersect(keys.to_set()).len(),
    decreases keys.len(),
{
    if keys.len() == 0 {
        assert(m.dom().intersect(keys.to_set()) =~= Set::<Seq<char>>::empty());
    } else {
        let front = keys.drop_last();
        let k = keys.last();
        lemma_removed_count_is_hits(m, front);
        lemma_remove_each_is_remove_keys(m, front);
        let before = m.dom().intersect(front.to_set());
        let after = m.dom().intersect(keys.to_set());
        assert(keys.to_set() =~= front.to_set().insert(k)) by {
            assert forall|x| keys.to_set().contains(x) implies front.to_set().insert(k).contains(x) by {
                let i = choose|i: int| 0 <= i < keys.len() && keys[i] == x;
                if i < keys.len() - 1 {
                    assert(front[i] == x);
                }
            }
            assert forall|x| front.to_set().insert(k).contains(x) implies keys.to_set().contains(x) by {
                if x != k {
                    let i = choose|i: int| 0 <= i < front.len() && front[i] == x;
                    assert(keys[i] == x);
                } else {
                    assert(keys[keys.len() - 1] == x);
                }
            }
        }
        vstd::seq_lib::seq_to_set_is_finite(front);
        vstd::set::axiom_set_intersect_finite(m.dom(), front.to_set());
        if m.dom().contains(k) && !front.to_set().contains(k) {
            assert(after =~= before.insert(k));
            assert(!before.contains(k));
            assert(m.remove_keys(front.to_set()).contains_key(k));
        } else {
            assert(after =~= before);
            if m.dom().contains(k) {
                assert(!m.remove_keys(front.to_set()).contains_key(k));
            }
        }
    }
}

/// A key-value table with string keys and string values.
pub struct Db {
    map: StringHashMap<String>,
}

impl View for Db {
    type V = Table;

    closed spec fn view(&self) -> Table {
        self.map@.map_values(|v: String| v@)
    }
}

impl Db {
    /// An empty table.
    pub fn new() -> (r: Db)
        ensures
            r@ == Table::empty(),
    {
        let r = Db { map: StringHashMap::new() };
        assert(r@ =~= Table::empty());
        r
    }

    /// The value stored under `key`, if any.
    pub fn get(&self, key: &str) -> (r: Option<String>)
        ensures
            match r {
                Some(v) => self@.contains_key(key@) && v@ == self@[key@],
                None => !self@.contains_key(key@),
            },
    {
        match self.map.get(key) {
            Some(v) => Some(v.clone()),
            None => None,
        }
    }

    /// Whether `key` is stored.
    pub fn contains(&self, key: &str) -> (r: bool)
        ensures
            r == self@.contains_key(key@),
    {
        self.map.contains_key(key)
    }

    /// Stores `value` under `key`, replacing what was there.
    pub fn set(&mut self, key: String, value: String)
        ensures
            final(self)@ == old(self)@.insert(key@, value@),
    {
        self.map.insert(key, value);
        assert(self@ =~= old(self)@.insert(key@, value@));
    }

    /// Removes `key`; says whether it was stored.
    pub fn remove(&mut self, key: &str) -> (r: bool)
        ensures
            r == old(self)@.contains_key(key@),
            final(self)@ == old(self)@.remove(key@),
    {
        let had = self.map.contains_key(key);
        self.map.remove(key);
        assert(self@ =~= old(self)@.remove(key@));
        had
    }

    /// Removes each key of `keys` in turn and counts the removals that
    /// found their key.
    pub fn del(&mut self, keys: &Vec<String>) -> (r: i64)
        requires
            keys@.len() <= i64::MAX,
        ensures
            final(self)@ == remove_each(old(self)@, keys_view(keys@)),
            r == removed_count(old(self)@, keys_view(keys@)),
    {
        let n = keys.len();
        let mut num: i64 = 0;
        let ghost ks = keys_view(keys@);
        assert(ks.take(0) =~= Seq::<Seq<char>>::empty());
        for i in 0..n
            invariant
                n == keys@.len(),
                n <= i64::MAX,
                ks == keys_view(keys@),
                self@ == remove_each(old(self)@, ks.take(i as int)),
                num == removed_count(old(self)@, ks.take(i as int)),
                num <= i,
        {
            assert(ks.take(i + 1).drop_last() =~= ks.take(i as int));
            assert(ks.take(i + 1).last() == keys@[i as int]@);
            if self.remove(keys[i].as_str()) {
                num = num + 1;
            }
        }
        assert(ks.take(n as int) =~= ks);
        num
    }
}

/// The texts of a list of keys.
pub open spec fn keys_view(keys: Seq<String>) -> Seq<Seq<char>> {
    keys.map_values(|k: String| k@)
}

} // verus!

verus! {

/// A read gives back what the last write stored: after storing `v` under
/// `k`, a read of `k` finds `v`, and every other key reads as before.
pub proof fn lemma_read_after_write(m: Table, k: Seq<char>, v: Seq<char>, other: Seq<char>)
    ensures
        m.insert(k, v).contains_key(k),
        m.insert(k, v)[k] == v,
        other != k ==> m.insert(k, v).contains_key(other) == m.contains_key(other),
        other != k && m.contains_key(other) ==> m.insert(k, v)[other] == m[other],
{
}

/// A delete removes exactly the listed keys, and its count is the number
/// of distinct listed keys that were stored.
pub proof fn lemma_delete_effect(m: Table, keys: Seq<Seq<char>>)
    ensures
        forall|i: int| 0 <= i < keys.len() ==> !#[trigger] remove_each(m, keys).contains_key(
            keys[i],
        ),
        forall|k: Seq<char>| !keys.contains(k) ==> #[trigger] remove_each(m, keys).contains_key(k)
            == m.contains_key(k) && (m.contains_key(k) ==> remove_each(m, keys)[k] == m[k]),
        removed_count(m, keys) == m.dom().intersect(keys.to_set()).len(),
{
    lemma_remove_each_is_remove_keys(m, keys);
    lemma_removed_count_is_hits(m, keys);
    assert forall|i: int| 0 <= i < keys.len() implies !#[trigger] remove_each(m, keys).contains_key(
        keys[i],
    ) by {
        assert(keys.to_set().contains(keys[i]));
    }
}

} // verus!

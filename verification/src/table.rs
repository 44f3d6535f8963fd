use vstd::prelude::*;
use crate::types::{RuneId, SerializedOutPoint, Txid};

verus! {

/// A key of a table: a value that can be compared with another by what it stands for.
pub trait TableKey: View + Sized {
    fn same_key(&self, other: &Self) -> (b: bool)
        ensures
            b == (self@ == other@),
    ;
}

impl TableKey for u64 {
    fn same_key(&self, other: &u64) -> (b: bool) {
        *self == *other
    }
}

impl TableKey for u128 {
    fn same_key(&self, other: &u128) -> (b: bool) {
        *self == *other
    }
}

impl TableKey for Txid {
    fn same_key(&self, other: &Txid) -> (b: bool) {
        self.same(other)
    }
}

impl TableKey for Vec<u8> {
    fn same_key(&self, other: &Vec<u8>) -> (b: bool) {
        if self.len() != other.len() {
            return false;
        }
        let mut i: usize = 0;
        while i < self.len()
            invariant
                self@.len() == other@.len(),
                i <= self@.len(),
                forall|j: int| 0 <= j < i ==> self@[j] == other@[j],
            decreases self@.len() - i,
        {
            if self[i] != other[i] {
                return false;
            }
            i = i + 1;
        }
        assert(self@ =~= other@);
        true
    }
}

impl View for RuneId {
    type V = RuneId;

    open spec fn view(&self) -> RuneId {
        *self
    }
}

impl TableKey for RuneId {
    fn same_key(&self, other: &RuneId) -> (b: bool) {
        self.block == other.block && self.tx == other.tx
    }
}

impl View for SerializedOutPoint {
    type V = SerializedOutPoint;

    open spec fn view(&self) -> SerializedOutPoint {
        *self
    }
}

impl TableKey for SerializedOutPoint {
    fn same_key(&self, other: &SerializedOutPoint) -> (b: bool) {
        self.same(other)
    }
}

/// No key occurs twice in the entries.
pub open spec fn keys_distinct<K: View, V>(s: Seq<(K, V)>) -> bool {
    forall|i: int, j: int| 0 <= i < j < s.len() ==> s[i].0@ != s[j].0@
}

/// The map that a list of entries with distinct keys stands for.
pub open spec fn table_map<K: View, V: View>(s: Seq<(K, V)>) -> Map<K::V, V::V>
    decreases s.len(),
{
    if s.len() == 0 {
        Map::empty()
    } else {
        table_map(s.drop_last()).insert(s.last().0@, s.last().1@)
    }
}

pub(crate) proof fn lemma_table_map_dom<K: View, V: View>(s: Seq<(K, V)>)
    ensures
        forall|k: K::V| #[trigger] table_map(s).contains_key(k) <==> exists|i: int|
            0 <= i < s.len() && s[i].0@ == k,
    decreases s.len(),
{
    if s.len() > 0 {
        lemma_table_map_dom(s.drop_last());
        assert forall|k: K::V| #[trigger] table_map(s).contains_key(k) <==> exists|i: int|
            0 <= i < s.len() && s[i].0@ == k by {
            if table_map(s).contains_key(k) && k != s.last().0@ {
                assert(table_map(s.drop_last()).contains_key(k));
                let i = choose|i: int| 0 <= i < s.drop_last().len() && s.drop_last()[i].0@ == k;
                assert(s.drop_last()[i] == s[i]);
                assert(s[i].0@ == k);
            }
            if table_map(s).contains_key(k) && k == s.last().0@ {
                assert(s[s.len() - 1].0@ == k);
            }
            if exists|i: int| 0 <= i < s.len() && s[i].0@ == k {
                let i = choose|i: int| 0 <= i < s.len() && s[i].0@ == k;
                if i < s.len() - 1 {
                    assert(s.drop_last()[i] == s[i]);
                    assert(s.drop_last()[i].0@ == k);
                    assert(table_map(s.drop_last()).contains_key(k));
                } else {
                    assert(s.last().0@ == k);
                }
            }
        }
    }
}

proof fn lemma_table_map_value<K: View, V: View>(s: Seq<(K, V)>, i: int)
    requires
        keys_distinct(s),
        0 <= i < s.len(),
    ensures
        table_map(s).contains_key(s[i].0@),
        table_map(s)[s[i].0@] == s[i].1@,
    decreases s.len(),
{
    lemma_table_map_dom(s);
    if i < s.len() - 1 {
        lemma_table_map_value(s.drop_last(), i);
    }
}

proof fn lemma_table_map_update<K: View, V: View>(s: Seq<(K, V)>, i: int, e: (K, V))
    requires
        keys_distinct(s),
        0 <= i < s.len(),
        e.0@ == s[i].0@,
    ensures
        keys_distinct(s.update(i, e)),
        table_map(s.update(i, e)) == table_map(s).insert(e.0@, e.1@),
    decreases s.len(),
{
    let t = s.update(i, e);
    if i == s.len() - 1 {
        assert(t.drop_last() =~= s.drop_last());
        lemma_table_map_dom(s.drop_last());
        assert(table_map(t) =~= table_map(s).insert(e.0@, e.1@));
    } else {
        lemma_table_map_update(s.drop_last(), i, e);
        assert(t.drop_last() =~= s.drop_last().update(i, e));
        assert(table_map(t) =~= table_map(s).insert(e.0@, e.1@));
    }
}

proof fn lemma_table_map_remove<K: View, V: View>(s: Seq<(K, V)>, i: int)
    requires
        keys_distinct(s),
        0 <= i < s.len(),
    ensures
        keys_distinct(s.remove(i)),
        table_map(s.remove(i)) == table_map(s).remove(s[i].0@),
    decreases s.len(),
{
    let t = s.remove(i);
    if i == s.len() - 1 {
        assert(t =~= s.drop_last());
        lemma_table_map_dom(s.drop_last());
        assert(!table_map(s.drop_last()).contains_key(s[i].0@));
        assert(table_map(t) =~= table_map(s).remove(s[i].0@));
    } else {
        lemma_table_map_remove(s.drop_last(), i);
        assert(t.drop_last() =~= s.drop_last().remove(i));
        assert(t.last() == s.last());
        assert(table_map(t) =~= table_map(s).remove(s[i].0@));
    }
}

/// Values by key, each key at most once: a table of the index.
pub struct Table<K: TableKey, V: View> {
    entries: Vec<(K, V)>,
}

impl<K: TableKey, V: View> View for Table<K, V> {
    type V = Map<K::V, V::V>;

    closed spec fn view(&self) -> Map<K::V, V::V> {
        table_map(self.entries@)
    }
}

impl<K: TableKey, V: View> Table<K, V> {
    #[verifier::type_invariant]
    closed spec fn inv(self) -> bool {
        keys_distinct(self.entries@)
    }

    /// No entry.
    pub fn new() -> (t: Table<K, V>)
        ensures
            t@ == Map::<K::V, V::V>::empty(),
    {
        let t = Table { entries: Vec::new() };
        assert(t@ =~= Map::<K::V, V::V>::empty());
        t
    }

    fn find(&self, k: &K) -> (r: Option<usize>)
        ensures
            r matches Some(i) ==> i < self.entries@.len() && self.entries@[i as int].0@ == k@
                && self@.contains_key(k@) && self@[k@] == self.entries@[i as int].1@,
            r is None <==> !self@.contains_key(k@),
    {
        proof {
            use_type_invariant(self);
            lemma_table_map_dom(self.entries@);
        }
        let mut i: usize = 0;
        while i < self.entries.len()
            invariant
                i <= self.entries@.len(),
                keys_distinct(self.entries@),
                forall|j: int| 0 <= j < i ==> self.entries@[j].0@ != k@,
            decreases self.entries@.len() - i,
        {
            if self.entries[i].0.same_key(k) {
                proof {
                    lemma_table_map_value(self.entries@, i as int);
                }
                return Some(i);
            }
            i = i + 1;
        }
        None
    }

    /// The value of `k`, if it has one.
    pub fn get(&self, k: &K) -> (r: Option<&V>)
        ensures
            r is Some <==> self@.contains_key(k@),
            r matches Some(v) ==> self@[k@] == v@,
    {
        match self.find(k) {
            Some(i) => Some(&self.entries[i].1),
            None => None,
        }
    }

    /// Whether the table has no entry.
    pub fn is_empty(&self) -> (b: bool)
        ensures
            b == (self@ == Map::<K::V, V::V>::empty()),
    {
        proof {
            lemma_table_map_dom(self.entries@);
        }
        if self.entries.len() == 0 {
            assert(self@ =~= Map::<K::V, V::V>::empty());
            true
        } else {
            assert(self@.contains_key(self.entries@[0].0@));
            false
        }
    }

    /// Whether `k` has a value.
    pub fn contains(&self, k: &K) -> (b: bool)
        ensures
            b == self@.contains_key(k@),
    {
        self.find(k).is_some()
    }

    /// Sets the value of `k`, replacing the one it had.
    pub fn insert(&mut self, k: K, v: V)
        ensures
            final(self)@ == old(self)@.insert(k@, v@),
    {
        proof {
            use_type_invariant(&*self);
            lemma_table_map_dom(self.entries@);
        }
        let ghost before = self.entries@;
        let found = self.find(&k);
        let mut entries = Vec::new();
        std::mem::swap(&mut entries, &mut self.entries);
        match found {
            Some(i) => {
                let ghost e = (k, v);
                entries.set(i, (k, v));
                proof {
                    lemma_table_map_update(before, i as int, e);
                }
            },
            None => {
                let ghost kv = k@;
                entries.push((k, v));
                proof {
                    assert(entries@.drop_last() =~= before);
                    assert forall|a: int, b: int| 0 <= a < b < entries@.len() implies entries@[a].0@
                        != entries@[b].0@ by {
                        if b == entries@.len() - 1 && entries@[a].0@ == kv {
                            assert(before[a].0@ == kv);
                        }
                    }
                }
            },
        }
        self.entries = entries;
    }

    /// Removes the value of `k`, handing it back when there was one.
    pub fn remove(&mut self, k: &K) -> (r: Option<V>)
        ensures
            final(self)@ == old(self)@.remove(k@),
            r is Some <==> old(self)@.contains_key(k@),
            r matches Some(v) ==> old(self)@[k@] == v@,
    {
        proof {
            use_type_invariant(&*self);
        }
        let ghost before = self.entries@;
        match self.find(k) {
            Some(i) => {
                let mut entries = Vec::new();
                std::mem::swap(&mut entries, &mut self.entries);
                let (_, v) = entries.remove(i);
                proof {
                    lemma_table_map_remove(before, i as int);
                }
                self.entries = entries;
                Some(v)
            },
            None => {
                assert(old(self)@.remove(k@) =~= old(self)@);
                None
            },
        }
    }
}


impl<K: TableKey, V: View> Table<K, V> {
    /// The entries, each key once.
    pub fn into_entries(self) -> (v: Vec<(K, V)>)
        ensures
            keys_distinct(v@),
            table_map(v@) == self@,
    {
        proof {
            use_type_invariant(&self);
        }
        self.entries
    }

    /// Sets every value of `src`, replacing those this table had for the same keys.
    pub fn put_all(&mut self, src: Table<K, V>)
        ensures
            final(self)@ == old(self)@.union_prefer_right(src@),
    {
        let mut rest = src.into_entries();
        let ghost es = rest@;
        let n = rest.len();
        proof {
            assert(table_map(es.take(0)) =~= Map::<K::V, V::V>::empty());
            assert(old(self)@.union_prefer_right(Map::<K::V, V::V>::empty()) =~= old(self)@);
            assert(es.skip(0) =~= es);
        }
        let mut i: usize = 0;
        while rest.len() > 0
            invariant
                i <= es.len(),
                n == es.len(),
                rest@ == es.skip(i as int),
                self@ == old(self)@.union_prefer_right(table_map(es.take(i as int))),
            decreases rest@.len(),
        {
            let (k, v) = rest.remove(0);
            proof {
                assert((k, v) == es[i as int]);
                assert(es.take(i + 1).drop_last() =~= es.take(i as int));
                assert(es.take(i + 1).last() == es[i as int]);
                assert(rest@ =~= es.skip(i + 1));
            }
            self.insert(k, v);
            proof {
                assert(self@ =~= old(self)@.union_prefer_right(table_map(es.take(i + 1))));
            }
            i = i + 1;
        }
        assert(es.take(i as int) =~= es);
    }
}

} // verus!

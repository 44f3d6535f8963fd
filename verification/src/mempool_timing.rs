use vstd::prelude::*;
use crate::types::Txid;

verus! {

/// Time elapsed from `then` to `now`, in milliseconds; zero if `now` is earlier.
pub open spec fn elapsed(then: u64, now: u64) -> u64 {
    if now >= then {
        (now - then) as u64
    } else {
        0
    }
}

/// A map from transaction ids to the time at which they were seen, kept as a list of
/// entries with distinct ids.
pub struct TxTimes {
    entries: Vec<(Txid, u64)>,
}

/// The map that a list of entries with distinct ids stands for.
pub open spec fn entries_map(s: Seq<(Txid, u64)>) -> Map<Txid, u64>
    decreases s.len(),
{
    if s.len() == 0 {
        Map::empty()
    } else {
        entries_map(s.drop_last()).insert(s.last().0, s.last().1)
    }
}

/// No id occurs twice in the entries.
pub open spec fn distinct_ids(s: Seq<(Txid, u64)>) -> bool {
    forall|i: int, j: int| 0 <= i < j < s.len() ==> s[i].0 != s[j].0
}

proof fn lemma_entries_map_dom(s: Seq<(Txid, u64)>)
    ensures
        forall|t: Txid| #[trigger] entries_map(s).contains_key(t) <==> exists|i: int|
            0 <= i < s.len() && s[i].0 == t,
        entries_map(s).dom().finite(),
    decreases s.len(),
{
    if s.len() > 0 {
        lemma_entries_map_dom(s.drop_last());
        assert forall|t: Txid| #[trigger] entries_map(s).contains_key(t) <==> exists|i: int|
            0 <= i < s.len() && s[i].0 == t by {
            if entries_map(s).contains_key(t) {
                if t == s.last().0 {
                    assert(s[s.len() - 1].0 == t);
                } else {
                    let i = choose|i: int|
                        0 <= i < s.drop_last().len() && s.drop_last()[i].0 == t;
                    assert(s[i].0 == t);
                }
            }
            if exists|i: int| 0 <= i < s.len() && s[i].0 == t {
                let i = choose|i: int| 0 <= i < s.len() && s[i].0 == t;
                if i < s.len() - 1 {
                    assert(s.drop_last()[i].0 == t);
                }
            }
        }
    }
}

proof fn lemma_entries_map_value(s: Seq<(Txid, u64)>, i: int)
    requires
        distinct_ids(s),
        0 <= i < s.len(),
    ensures
        entries_map(s).contains_key(s[i].0),
        entries_map(s)[s[i].0] == s[i].1,
    decreases s.len(),
{
    lemma_entries_map_dom(s);
    if i < s.len() - 1 {
        lemma_entries_map_value(s.drop_last(), i);
    }
}

proof fn lemma_entries_map_push(s: Seq<(Txid, u64)>, e: (Txid, u64))
    ensures
        entries_map(s.push(e)) == entries_map(s).insert(e.0, e.1),
{
    assert(s.push(e).drop_last() =~= s);
}

/// The test that `retain_where` applies to an entry.
pub open spec fn passes(e: (Txid, u64), txid: Txid, by_time: bool, now: u64, min: u64) -> bool {
    if by_time {
        elapsed(e.1, now) < min
    } else {
        e.0 != txid
    }
}

impl View for TxTimes {
    type V = Map<Txid, u64>;

    closed spec fn view(&self) -> Map<Txid, u64> {
        entries_map(self.entries@)
    }
}

impl TxTimes {
    #[verifier::type_invariant]
    closed spec fn inv(self) -> bool {
        distinct_ids(self.entries@)
    }

    /// The empty map.
    pub fn new() -> (m: TxTimes)
        ensures
            m@ == Map::<Txid, u64>::empty(),
    {
        TxTimes { entries: Vec::new() }
    }

    /// The map's domain is finite.
    pub proof fn lemma_finite(&self)
        ensures
            self@.dom().finite(),
    {
        lemma_entries_map_dom(self.entries@);
    }

    fn find(&self, txid: &Txid) -> (r: Option<usize>)
        ensures
            r matches Some(i) ==> i < self.entries@.len() && self.entries@[i as int].0 == *txid,
            r is None <==> !self@.contains_key(*txid),
    {
        proof {
            lemma_entries_map_dom(self.entries@);
        }
        let mut i: usize = 0;
        while i < self.entries.len()
            invariant
                i <= self.entries@.len(),
                forall|j: int| 0 <= j < i ==> self.entries@[j].0 != *txid,
            decreases self.entries@.len() - i,
        {
            if self.entries[i].0.same(txid) {
                proof {
                    use_type_invariant(self);
                    lemma_entries_map_value(self.entries@, i as int);
                }
                return Some(i);
            }
            i = i + 1;
        }
        None
    }

    /// Whether `txid` has a time.
    pub fn contains_key(&self, txid: &Txid) -> (b: bool)
        ensures
            b == self@.contains_key(*txid),
    {
        self.find(txid).is_some()
    }

    /// The time of `txid`, if it has one.
    pub fn get(&self, txid: &Txid) -> (r: Option<u64>)
        ensures
            r is Some <==> self@.contains_key(*txid),
            r matches Some(t) ==> self@[*txid] == t,
    {
        proof {
            use_type_invariant(self);
        }
        match self.find(txid) {
            Some(i) => {
                proof {
                    lemma_entries_map_value(self.entries@, i as int);
                }
                Some(self.entries[i].1)
            },
            None => None,
        }
    }

    /// Gives `txid` the time `at`, replacing any time it had.
    pub fn insert(&mut self, txid: Txid, at: u64)
        ensures
            final(self)@ == old(self)@.insert(txid, at),
    {
        self.remove(&txid);
        let ghost before = self.entries@;
        proof {
            use_type_invariant(&*self);
            lemma_entries_map_dom(before);
        }
        let mut entries = Vec::new();
        std::mem::swap(&mut entries, &mut self.entries);
        entries.push((txid, at));
        proof {
            lemma_entries_map_push(before, (txid, at));
            assert forall|i: int, j: int| 0 <= i < j < entries@.len() implies entries@[i].0
                != entries@[j].0 by {
                if j == entries@.len() - 1 && entries@[i].0 == txid {
                    assert(before[i].0 == txid);
                    assert(entries_map(before).contains_key(txid));
                }
            }
            assert(entries_map(entries@) =~= old(self)@.insert(txid, at));
        }
        self.entries = entries;
    }

    /// Removes the time of `txid`, if any.
    pub fn remove(&mut self, txid: &Txid)
        ensures
            final(self)@ == old(self)@.remove(*txid),
    {
        self.retain_where(txid, false, 0, 0);
    }

    /// Keeps the entries that pass a test and returns the ids of the others.
    /// With `by_time`, an entry passes when less than `min` has elapsed from its time to `now`;
    /// otherwise, an entry passes when its id is not `txid`.
    fn retain_where(&mut self, txid: &Txid, by_time: bool, now: u64, min: u64) -> (dropped: Vec<
        Txid,
    >)
        ensures
            forall|t: Txid| #[trigger]
                final(self)@.contains_key(t) <==> old(self)@.contains_key(t) && passes(
                    (t, old(self)@[t]),
                    *txid,
                    by_time,
                    now,
                    min,
                ),
            forall|t: Txid| #[trigger]
                final(self)@.contains_key(t) ==> final(self)@[t] == old(self)@[t],
            forall|t: Txid|
                #[trigger] dropped@.contains(t) <==> old(self)@.contains_key(t)
                    && !final(self)@.contains_key(t),
            dropped@.no_duplicates(),
    {
        proof {
            use_type_invariant(&*self);
            lemma_entries_map_dom(self.entries@);
        }
        let ghost old_entries = self.entries@;
        let ghost test = |e: (Txid, u64)| passes(e, *txid, by_time, now, min);
        let mut kept: Vec<(Txid, u64)> = Vec::new();
        let mut dropped: Vec<Txid> = Vec::new();
        let ghost mut kept_src: Seq<int> = Seq::empty();
        let ghost mut dropped_src: Seq<int> = Seq::empty();
        let mut i: usize = 0;
        let n = self.entries.len();
        while i < n
            invariant
                n == old_entries.len(),
                old_entries == self.entries@,
                distinct_ids(old_entries),
                test == (|e: (Txid, u64)| passes(e, *txid, by_time, now, min)),
                i <= n,
                kept_src.len() == kept@.len(),
                dropped_src.len() == dropped@.len(),
                forall|k: int|
                    0 <= k < kept@.len() ==> 0 <= #[trigger] kept_src[k] < i && old_entries[kept_src[k]]
                        == kept@[k] && test(old_entries[kept_src[k]]),
                forall|k: int|
                    0 <= k < dropped@.len() ==> 0 <= #[trigger] dropped_src[k] < i
                        && old_entries[dropped_src[k]].0 == dropped@[k] && !test(
                        old_entries[dropped_src[k]],
                    ),
                forall|a: int, b: int|
                    0 <= a < b < kept@.len() ==> #[trigger] kept_src[a] < #[trigger] kept_src[b],
                forall|a: int, b: int|
                    0 <= a < b < dropped@.len() ==> #[trigger] dropped_src[a]
                        < #[trigger] dropped_src[b],
                forall|j: int|
                    #![trigger old_entries[j]]
                    0 <= j < i ==> if test(old_entries[j]) {
                        kept@.contains(old_entries[j])
                    } else {
                        dropped@.contains(old_entries[j].0)
                    },
            decreases n - i,
        {
            let e = self.entries[i];
            let pass = if by_time {
                let age = if now >= e.1 {
                    now - e.1
                } else {
                    0
                };
                age < min
            } else {
                !e.0.same(txid)
            };
            assert(pass == test(old_entries[i as int]));
            if pass {
                let ghost before = kept@;
                kept.push(e);
                proof {
                    kept_src = kept_src.push(i as int);
                    assert forall|j: int|
                        #![trigger old_entries[j]]
                        0 <= j < i + 1 implies if test(old_entries[j]) {
                        kept@.contains(old_entries[j])
                    } else {
                        dropped@.contains(old_entries[j].0)
                    } by {
                        if j == i {
                            assert(kept@[kept@.len() - 1] == old_entries[j]);
                        } else if test(old_entries[j]) {
                            let k = choose|k: int|
                                0 <= k < before.len() && before[k] == old_entries[j];
                            assert(kept@[k] == old_entries[j]);
                        }
                    }
                }
            } else {
                let ghost before = dropped@;
                dropped.push(e.0);
                proof {
                    dropped_src = dropped_src.push(i as int);
                    assert forall|j: int|
                        #![trigger old_entries[j]]
                        0 <= j < i + 1 implies if test(old_entries[j]) {
                        kept@.contains(old_entries[j])
                    } else {
                        dropped@.contains(old_entries[j].0)
                    } by {
                        if j == i {
                            assert(dropped@[dropped@.len() - 1] == old_entries[j].0);
                        } else if !test(old_entries[j]) {
                            let k = choose|k: int|
                                0 <= k < before.len() && before[k] == old_entries[j].0;
                            assert(dropped@[k] == old_entries[j].0);
                        }
                    }
                }
            }
            i = i + 1;
        }
        proof {
            assert forall|a: int, b: int| 0 <= a < b < kept@.len() implies kept@[a].0
                != kept@[b].0 by {
                assert(kept_src[a] < kept_src[b]);
            }
            assert forall|a: int, b: int| 0 <= a < b < dropped@.len() implies dropped@[a]
                != dropped@[b] by {
                assert(dropped_src[a] < dropped_src[b]);
            }
            lemma_entries_map_dom(kept@);
            let om = entries_map(old_entries);
            let km = entries_map(kept@);
            assert forall|t: Txid| #[trigger]
                km.contains_key(t) <==> om.contains_key(t) && test((t, om[t])) by {
                if km.contains_key(t) {
                    let k = choose|k: int| 0 <= k < kept@.len() && kept@[k].0 == t;
                    let j = kept_src[k];
                    lemma_entries_map_value(old_entries, j);
                }
                if om.contains_key(t) && test((t, om[t])) {
                    let j = choose|j: int| 0 <= j < n && old_entries[j].0 == t;
                    lemma_entries_map_value(old_entries, j);
                    assert(old_entries[j] == (t, om[t]));
                    assert(kept@.contains(old_entries[j]));
                    let k = choose|k: int| 0 <= k < kept@.len() && kept@[k] == old_entries[j];
                    assert(kept@[k].0 == t);
                }
            }
            assert forall|t: Txid| #[trigger] km.contains_key(t) implies km[t] == om[t] by {
                let k = choose|k: int| 0 <= k < kept@.len() && kept@[k].0 == t;
                let j = kept_src[k];
                lemma_entries_map_value(old_entries, j);
                lemma_entries_map_value(kept@, k);
            }
            assert forall|t: Txid| #[trigger]
                dropped@.contains(t) <==> om.contains_key(t) && !km.contains_key(t) by {
                if dropped@.contains(t) {
                    let k = choose|k: int| 0 <= k < dropped@.len() && dropped@[k] == t;
                    let j = dropped_src[k];
                    lemma_entries_map_value(old_entries, j);
                    if km.contains_key(t) {
                        let k2 = choose|k2: int| 0 <= k2 < kept@.len() && kept@[k2].0 == t;
                        let j2 = kept_src[k2];
                        assert(j2 == j);
                    }
                }
                if om.contains_key(t) && !km.contains_key(t) {
                    let j = choose|j: int| 0 <= j < n && old_entries[j].0 == t;
                    lemma_entries_map_value(old_entries, j);
                    if test(old_entries[j]) {
                        let k = choose|k: int| 0 <= k < kept@.len() && kept@[k] == old_entries[j];
                        assert(kept@[k].0 == t);
                    } else {
                        assert(dropped@.contains(old_entries[j].0));
                    }
                }
            }
        }
        self.entries = kept;
        dropped
    }

    /// Removes the entries whose time is at least `min` before `now` and returns their ids.
    pub fn take_aged(&mut self, now: u64, min: u64) -> (taken: Vec<Txid>)
        ensures
            forall|t: Txid| #[trigger]
                final(self)@.contains_key(t) <==> old(self)@.contains_key(t) && elapsed(
                    old(self)@[t],
                    now,
                ) < min,
            final(self)@.dom().finite(),
            forall|t: Txid| #[trigger]
                final(self)@.contains_key(t) ==> final(self)@[t] == old(self)@[t],
            forall|t: Txid| #[trigger]
                taken@.contains(t) <==> old(self)@.contains_key(t) && elapsed(old(self)@[t], now)
                    >= min,
            taken@.no_duplicates(),
    {
        let z = Txid::all_zeros();
        let taken = self.retain_where(&z, true, now, min);
        proof {
            self.lemma_finite();
        }
        taken
    }
}

} // verus!

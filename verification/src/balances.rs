use vstd::prelude::*;
use crate::types::RuneId;

verus! {

/// The balance of `id` in `m`: its amount, or zero when it has none.
pub open spec fn bal(m: Map<RuneId, nat>, id: RuneId) -> nat {
    if m.contains_key(id) {
        m[id]
    } else {
        0
    }
}

/// `m` with `amt` more of `id`; the entry is created when missing.
pub open spec fn credit(m: Map<RuneId, nat>, id: RuneId, amt: nat) -> Map<RuneId, nat> {
    m.insert(id, bal(m, id) + amt)
}

/// `m` with `amt` less of `id`.
pub open spec fn debit(m: Map<RuneId, nat>, id: RuneId, amt: nat) -> Map<RuneId, nat> {
    m.insert(id, (bal(m, id) - amt) as nat)
}

/// The map of a list of entries with distinct ids.
pub open spec fn balances_map(s: Seq<(RuneId, u128)>) -> Map<RuneId, nat>
    decreases s.len(),
{
    if s.len() == 0 {
        Map::empty()
    } else {
        balances_map(s.drop_last()).insert(s.last().0, s.last().1 as nat)
    }
}

/// No id occurs twice in the entries.
pub open spec fn distinct_rune_ids(s: Seq<(RuneId, u128)>) -> bool {
    forall|i: int, j: int| 0 <= i < j < s.len() ==> s[i].0 != s[j].0
}

pub proof fn lemma_balances_map_dom(s: Seq<(RuneId, u128)>)
    ensures
        forall|t: RuneId| #[trigger] balances_map(s).contains_key(t) <==> exists|i: int|
            0 <= i < s.len() && s[i].0 == t,
        balances_map(s).dom().finite(),
    decreases s.len(),
{
    if s.len() > 0 {
        lemma_balances_map_dom(s.drop_last());
        assert forall|t: RuneId| #[trigger] balances_map(s).contains_key(t) <==> exists|i: int|
            0 <= i < s.len() && s[i].0 == t by {
            if balances_map(s).contains_key(t) {
                if t == s.last().0 {
                    assert(s[s.len() - 1].0 == t);
                } else {
                    let i = choose|i: int|
                        0 <= i < s.drop_last().len() && s.drop_last()[i].0 == t;
                    assert(s[i].0 == t);
                }
            }
            if exists|i: int| 0 <= i < s.len() && s[i].0 == t {
                let i = choose|i: int| 0 <= i < s.len() && s[i].0 == t;
                if i < s.len() - 1 {
                    assert(s.drop_last()[i].0 == t);
                }
            }
        }
    }
}

pub proof fn lemma_balances_map_value(s: Seq<(RuneId, u128)>, i: int)
    requires
        distinct_rune_ids(s),
        0 <= i < s.len(),
    ensures
        balances_map(s).contains_key(s[i].0),
        balances_map(s)[s[i].0] == s[i].1 as nat,
    decreases s.len(),
{
    lemma_balances_map_dom(s);
    if i < s.len() - 1 {
        lemma_balances_map_value(s.drop_last(), i);
    }
}

/// Every amount of a list of entries fits in a `u128`.
pub proof fn lemma_balances_map_bounded(s: Seq<(RuneId, u128)>)
    ensures
        forall|id: RuneId| #[trigger] bal(balances_map(s), id) <= u128::MAX,
    decreases s.len(),
{
    if s.len() > 0 {
        lemma_balances_map_bounded(s.drop_last());
        assert forall|id: RuneId| #[trigger] bal(balances_map(s), id) <= u128::MAX by {
            if id != s.last().0 {
                assert(bal(balances_map(s.drop_last()), id) <= u128::MAX);
            }
        }
    }
}

/// Amounts of runes, by rune id.
pub struct Balances {
    entries: Vec<(RuneId, u128)>,
}

impl View for Balances {
    type V = Map<RuneId, nat>;

    closed spec fn view(&self) -> Map<RuneId, nat> {
        balances_map(self.entries@)
    }
}

impl Balances {
    #[verifier::type_invariant]
    closed spec fn inv(self) -> bool {
        distinct_rune_ids(self.entries@)
    }

    /// No balance.
    pub fn new() -> (b: Balances)
        ensures
            b@ == Map::<RuneId, nat>::empty(),
    {
        Balances { entries: Vec::new() }
    }

    /// Every balance fits in a `u128`.
    pub proof fn lemma_bounded(&self)
        ensures
            forall|id: RuneId| #[trigger] bal(self@, id) <= u128::MAX,
    {
        lemma_balances_map_bounded(self.entries@);
    }

    /// The entries in the order they were first made.
    pub closed spec fn order(&self) -> Seq<(RuneId, u128)> {
        self.entries@
    }

    /// A copy with the same entries in the same order.
    pub fn duplicate(&self) -> (b: Balances)
        ensures
            b@ == self@,
            b.order() == self.order(),
    {
        Balances { entries: self.entries() }
    }

    /// Every amount fits in a `u128`.
    pub closed spec fn fits(&self) -> bool {
        forall|id: RuneId| #[trigger] self@.contains_key(id) ==> self@[id] <= u128::MAX
    }

    fn find(&self, id: RuneId) -> (r: Option<usize>)
        ensures
            r matches Some(i) ==> i < self.entries@.len() && self.entries@[i as int].0 == id
                && self@.contains_key(id) && self@[id] == self.entries@[i as int].1 as nat,
            r is None <==> !self@.contains_key(id),
    {
        proof {
            use_type_invariant(self);
            lemma_balances_map_dom(self.entries@);
        }
        let mut i: usize = 0;
        while i < self.entries.len()
            invariant
                i <= self.entries@.len(),
                distinct_rune_ids(self.entries@),
                forall|j: int| 0 <= j < i ==> self.entries@[j].0 != id,
            decreases self.entries@.len() - i,
        {
            if self.entries[i].0 == id {
                proof {
                    lemma_balances_map_value(self.entries@, i as int);
                }
                return Some(i);
            }
            i = i + 1;
        }
        None
    }

    /// The amount of `id`, if it has an entry.
    pub fn get(&self, id: RuneId) -> (r: Option<u128>)
        ensures
            r is Some <==> self@.contains_key(id),
            r matches Some(v) ==> self@[id] == v as nat,
    {
        match self.find(id) {
            Some(i) => Some(self.entries[i].1),
            None => None,
        }
    }

    /// The entries, each id once.
    pub fn entries(&self) -> (v: Vec<(RuneId, u128)>)
        ensures
            distinct_rune_ids(v@),
            balances_map(v@) == self@,
            v@ == self.order(),
    {
        proof {
            use_type_invariant(self);
        }
        let mut v: Vec<(RuneId, u128)> = Vec::new();
        let mut i: usize = 0;
        while i < self.entries.len()
            invariant
                i <= self.entries@.len(),
                v@ == self.entries@.subrange(0, i as int),
            decreases self.entries@.len() - i,
        {
            v.push(self.entries[i]);
            i = i + 1;
            assert(v@ =~= self.entries@.subrange(0, i as int));
        }
        assert(self.entries@.subrange(0, self.entries@.len() as int) =~= self.entries@);
        v
    }

    /// Whether there is no entry.
    pub fn is_empty(&self) -> (b: bool)
        ensures
            b == (self@.dom() == Set::<RuneId>::empty()),
    {
        proof {
            lemma_balances_map_dom(self.entries@);
            if self.entries@.len() > 0 {
                assert(self@.contains_key(self.entries@[0].0));
            }
        }
        let b = self.entries.len() == 0;
        if b {
            assert(self@.dom() =~= Set::<RuneId>::empty());
        }
        b
    }

    /// Adds `amt` of `id`, creating its entry when missing.
    pub fn credit(&mut self, id: RuneId, amt: u128)
        requires
            bal(old(self)@, id) + amt <= u128::MAX,
        ensures
            final(self)@ == credit(old(self)@, id, amt as nat),
    {
        proof {
            use_type_invariant(&*self);
            lemma_balances_map_dom(self.entries@);
        }
        let ghost before = self.entries@;
        match self.find(id) {
            Some(i) => {
                let v = self.entries[i].1;
                let mut entries = Vec::new();
                std::mem::swap(&mut entries, &mut self.entries);
                entries.set(i, (id, v + amt));
                proof {
                    lemma_update_value(before, i as int, (v + amt) as u128);
                    assert(entries@ == before.update(i as int, (id, (v + amt) as u128)));
                }
                self.entries = entries;
            },
            None => {
                let mut entries = Vec::new();
                std::mem::swap(&mut entries, &mut self.entries);
                entries.push((id, amt));
                proof {
                    assert(entries@.drop_last() =~= before);
                    assert forall|a: int, b: int| 0 <= a < b < entries@.len() implies entries@[a].0
                        != entries@[b].0 by {
                        if b == entries@.len() - 1 && entries@[a].0 == id {
                            assert(before[a].0 == id);
                        }
                    }
                    assert(balances_map(entries@) =~= credit(old(self)@, id, amt as nat));
                }
                self.entries = entries;
            },
        }
    }

    /// Removes `amt` of `id`, which must have at least that much.
    pub fn debit(&mut self, id: RuneId, amt: u128)
        requires
            old(self)@.contains_key(id),
            amt <= old(self)@[id],
        ensures
            final(self)@ == debit(old(self)@, id, amt as nat),
    {
        proof {
            use_type_invariant(&*self);
        }
        let ghost before = self.entries@;
        let i = self.find(id).unwrap();
        let v = self.entries[i].1;
        let mut entries = Vec::new();
        std::mem::swap(&mut entries, &mut self.entries);
        entries.set(i, (id, v - amt));
        proof {
            lemma_update_value(before, i as int, (v - amt) as u128);
        }
        self.entries = entries;
    }
}

proof fn lemma_update_value(s: Seq<(RuneId, u128)>, i: int, v: u128)
    requires
        distinct_rune_ids(s),
        0 <= i < s.len(),
    ensures
        distinct_rune_ids(s.update(i, (s[i].0, v))),
        balances_map(s.update(i, (s[i].0, v))) == balances_map(s).insert(s[i].0, v as nat),
    decreases s.len(),
{
    let t = s.update(i, (s[i].0, v));
    if i == s.len() - 1 {
        assert(t.drop_last() =~= s.drop_last());
        lemma_balances_map_dom(s.drop_last());
        assert(balances_map(t) =~= balances_map(s).insert(s[i].0, v as nat));
    } else {
        lemma_update_value(s.drop_last(), i, v);
        assert(t.drop_last() =~= s.drop_last().update(i, (s[i].0, v)));
        assert(balances_map(t) =~= balances_map(s).insert(s[i].0, v as nat));
    }
}

} // verus!

use vstd::prelude::*;
use crate::balances::{
    bal, balances_map, credit, distinct_rune_ids, lemma_balances_map_dom, lemma_balances_map_value,
    Balances,
};
use crate::address::SpenderReference;
use crate::types::{RuneId, SerializedOutPoint};

verus! {

/// An amount of one rune.
#[derive(Clone, Copy, Debug)]
pub struct RuneAmount {
    pub rune_id: RuneId,
    pub amount: u128,
}

/// Whether `a` comes before `b`: by block, then by transaction.
pub open spec fn id_lt(a: RuneId, b: RuneId) -> bool {
    a.block < b.block || (a.block == b.block && a.tx < b.tx)
}

/// Whether the amounts are in strictly increasing order of rune id.
pub open spec fn sorted_by_id(s: Seq<RuneAmount>) -> bool {
    forall|a: int, b: int| 0 <= a < b < s.len() ==> id_lt(#[trigger] s[a].rune_id, #[trigger] s[b].rune_id)
}

/// Whether `runes` lists the balances of `m`: in increasing id order, each an entry of `m`,
/// and every entry of `m` listed.
pub open spec fn lists_balances(runes: Seq<RuneAmount>, m: Map<RuneId, nat>) -> bool {
    &&& sorted_by_id(runes)
    &&& forall|k: int| 0 <= k < runes.len() ==> m.contains_key(#[trigger] runes[k].rune_id)
        && m[runes[k].rune_id] == runes[k].amount
    &&& forall|id: RuneId| #[trigger] m.contains_key(id) ==> exists|k: int|
        0 <= k < runes.len() && runes[k].rune_id == id
}

fn id_less(a: RuneId, b: RuneId) -> (r: bool)
    ensures
        r == id_lt(a, b),
{
    a.block < b.block || (a.block == b.block && a.tx < b.tx)
}

/// The balances as a list of amounts in increasing order of rune id.
pub fn sorted_runes(b: &Balances) -> (v: Vec<RuneAmount>)
    ensures
        lists_balances(v@, b@),
{
    let entries = b.entries();
    proof {
        lemma_balances_map_dom(entries@);
    }
    let mut out: Vec<RuneAmount> = Vec::new();
    let ghost mut src: Seq<int> = Seq::empty();
    let ghost mut pos: Seq<int> = Seq::empty();
    let mut i: usize = 0;
    while i < entries.len()
        invariant
            i <= entries@.len(),
            distinct_rune_ids(entries@),
            sorted_by_id(out@),
            src.len() == out@.len(),
            forall|k: int| 0 <= k < out@.len() ==> 0 <= #[trigger] src[k] < i
                && entries@[src[k]].0 == out@[k].rune_id && entries@[src[k]].1 == out@[k].amount,
            pos.len() == i,
            forall|j: int| 0 <= j < i ==> 0 <= #[trigger] pos[j] < out@.len()
                && out@[pos[j]].rune_id == entries@[j].0,
        decreases entries@.len() - i,
    {
        let (id, amt) = entries[i];
        let mut p: usize = 0;
        while p < out.len() && id_less(out[p].rune_id, id)
            invariant
                p <= out@.len(),
                forall|q: int| 0 <= q < p ==> id_lt(#[trigger] out@[q].rune_id, id),
            decreases out@.len() - p,
        {
            p = p + 1;
        }
        let ghost old_out = out@;
        proof {
            assert forall|q: int| 0 <= q < old_out.len() implies #[trigger] old_out[q].rune_id != id by {
                assert(entries@[src[q]].0 == old_out[q].rune_id);
                assert(src[q] != i);
            }
            assert forall|q: int| p <= q < old_out.len() implies id_lt(id, #[trigger] old_out[q].rune_id) by {
                assert(!id_lt(old_out[p as int].rune_id, id));
                assert(old_out[p as int].rune_id != id);
                if q > p {
                    assert(id_lt(old_out[p as int].rune_id, old_out[q].rune_id));
                }
            }
        }
        out.insert(p, RuneAmount { rune_id: id, amount: amt });
        proof {
            let old_src = src;
            let old_pos = pos;
            src = old_src.insert(p as int, i as int);
            pos = Seq::new(
                (i + 1) as nat,
                |j: int| if j == i { p as int } else if old_pos[j] >= p { old_pos[j] + 1 } else { old_pos[j] },
            );
            assert forall|a: int, b: int| 0 <= a < b < out@.len() implies id_lt(
                #[trigger] out@[a].rune_id,
                #[trigger] out@[b].rune_id,
            ) by {
                if b < p {
                    assert(out@[a] == old_out[a] && out@[b] == old_out[b]);
                } else if b == p {
                    assert(out@[a] == old_out[a]);
                } else if a < p {
                    assert(out@[a] == old_out[a] && out@[b] == old_out[b - 1]);
                    assert(id_lt(old_out[a].rune_id, id));
                    assert(id_lt(id, old_out[b - 1].rune_id));
                } else if a == p {
                    assert(out@[b] == old_out[b - 1]);
                } else {
                    assert(out@[a] == old_out[a - 1] && out@[b] == old_out[b - 1]);
                }
            }
            assert forall|k: int| 0 <= k < out@.len() implies 0 <= #[trigger] src[k] < i + 1
                && entries@[src[k]].0 == out@[k].rune_id && entries@[src[k]].1 == out@[k].amount by {
                if k < p {
                    assert(src[k] == old_src[k] && out@[k] == old_out[k]);
                } else if k > p {
                    assert(src[k] == old_src[k - 1] && out@[k] == old_out[k - 1]);
                }
            }
            assert forall|j: int| 0 <= j < i + 1 implies 0 <= #[trigger] pos[j] < out@.len()
                && out@[pos[j]].rune_id == entries@[j].0 by {
                if j < i {
                    if old_pos[j] >= p {
                        assert(out@[old_pos[j] + 1] == old_out[old_pos[j]]);
                    } else {
                        assert(out@[old_pos[j]] == old_out[old_pos[j]]);
                    }
                }
            }
        }
        i = i + 1;
    }
    proof {
        assert forall|k: int| 0 <= k < out@.len() implies b@.contains_key(#[trigger] out@[k].rune_id)
            && b@[out@[k].rune_id] == out@[k].amount by {
            lemma_balances_map_value(entries@, src[k]);
        }
        assert forall|id: RuneId| #[trigger] b@.contains_key(id) implies exists|k: int|
            0 <= k < out@.len() && out@[k].rune_id == id by {
            let j = choose|j: int| 0 <= j < entries@.len() && entries@[j].0 == id;
            assert(out@[pos[j]].rune_id == id);
        }
    }
    out
}

/// Whether an output is spent, and if so by which input.
#[derive(Clone, Copy, Debug)]
pub enum SpentStatus {
    Unspent,
    Spent(SpenderReference),
}

/// What the index keeps of a transaction output: its runes, whether and by what it is spent,
/// and its value in satoshis.
#[derive(Clone, Debug)]
pub struct TxOutEntry {
    pub runes: Vec<RuneAmount>,
    pub spent: SpentStatus,
    pub value: u64,
}

/// An output entry as values: its runes, its spent status, and its value.
pub struct TxOutEntryView {
    pub runes: Seq<RuneAmount>,
    pub spent: SpentStatus,
    pub value: u64,
}

impl View for TxOutEntry {
    type V = TxOutEntryView;

    open spec fn view(&self) -> TxOutEntryView {
        TxOutEntryView { runes: self.runes@, spent: self.spent, value: self.value }
    }
}

fn copy_amounts(v: &Vec<RuneAmount>) -> (c: Vec<RuneAmount>)
    ensures
        c@ == v@,
{
    let mut c: Vec<RuneAmount> = Vec::new();
    let mut i: usize = 0;
    while i < v.len()
        invariant
            i <= v@.len(),
            c@ == v@.subrange(0, i as int),
        decreases v@.len() - i,
    {
        c.push(v[i]);
        i = i + 1;
        assert(c@ =~= v@.subrange(0, i as int));
    }
    assert(v@.subrange(0, v@.len() as int) =~= v@);
    c
}

impl TxOutEntry {
    /// A copy of the entry.
    pub fn duplicate(&self) -> (e: TxOutEntry)
        ensures
            e@ == self@,
    {
        TxOutEntry { runes: copy_amounts(&self.runes), spent: self.spent, value: self.value }
    }

    /// Whether the output holds any rune.
    pub fn has_runes(&self) -> (b: bool)
        ensures
            b == (self.runes@.len() > 0),
    {
        self.runes.len() > 0
    }
}

/// What a transaction changed: the outputs it spent, the outputs it created, the rune it
/// etched, the mint it made, what it burned, and whether it is a coinbase.
pub struct TransactionStateChange {
    pub inputs: Vec<SerializedOutPoint>,
    pub outputs: Vec<TxOutEntry>,
    pub etched: Option<(RuneId, u128)>,
    pub minted: Option<RuneAmount>,
    pub burned: Balances,
    pub is_coinbase: bool,
}

/// A state change as values; the burns are listed in the order they were recorded.
pub struct TransactionStateChangeView {
    pub inputs: Seq<SerializedOutPoint>,
    pub outputs: Seq<TxOutEntryView>,
    pub etched: Option<(RuneId, u128)>,
    pub minted: Option<RuneAmount>,
    pub burned: Seq<(RuneId, u128)>,
    pub is_coinbase: bool,
}

impl View for TransactionStateChange {
    type V = TransactionStateChangeView;

    open spec fn view(&self) -> TransactionStateChangeView {
        TransactionStateChangeView {
            inputs: self.inputs@,
            outputs: Seq::new(self.outputs@.len(), |i: int| self.outputs@[i]@),
            etched: self.etched,
            minted: self.minted,
            burned: self.burned.order(),
            is_coinbase: self.is_coinbase,
        }
    }
}

/// Whether some output of `outputs` holds a rune.
pub open spec fn some_output_has_runes(outputs: Seq<TxOutEntry>) -> bool {
    exists|i: int| 0 <= i < outputs.len() && #[trigger] outputs[i].runes@.len() > 0
}

/// The ids of the runes named by the outputs' balances.
pub open spec fn output_rune_ids(outputs: Seq<TxOutEntry>) -> Set<RuneId> {
    Set::new(
        |id: RuneId|
            exists|i: int, j: int|
                0 <= i < outputs.len() && 0 <= j < outputs[i].runes@.len() && #[trigger] outputs[i].runes@[j].rune_id
                    == id,
    )
}

/// Every rune a state change touches: burned, minted, etched, or held by an output.
pub open spec fn touched_rune_ids(c: &TransactionStateChange) -> Set<RuneId> {
    let burned = c.burned@.dom();
    let minted = match c.minted {
        Some(m) => set![m.rune_id],
        None => Set::empty(),
    };
    let etched = match c.etched {
        Some((id, _)) => set![id],
        None => Set::empty(),
    };
    burned.union(minted).union(etched).union(output_rune_ids(c.outputs@))
}

fn push_unique(v: &mut Vec<RuneId>, id: RuneId)
    requires
        old(v)@.no_duplicates(),
    ensures
        final(v)@.no_duplicates(),
        final(v)@.to_set() == old(v)@.to_set().insert(id),
{
    let mut i: usize = 0;
    while i < v.len()
        invariant
            v@ == old(v)@,
            old(v)@.no_duplicates(),
            i <= v@.len(),
            forall|j: int| 0 <= j < i ==> v@[j] != id,
        decreases v@.len() - i,
    {
        if v[i] == id {
            assert(v@.to_set().insert(id) =~= v@.to_set());
            return;
        }
        i = i + 1;
    }
    let ghost before = v@;
    v.push(id);
    proof {
        before.lemma_push_to_set_commute(id);
        assert forall|a: int, b: int| 0 <= a < b < v@.len() implies v@[a] != v@[b] by {
            if b == v@.len() - 1 {
                assert(before[a] != id);
            }
        }
    }
}

fn copy_outpoints(v: &Vec<SerializedOutPoint>) -> (c: Vec<SerializedOutPoint>)
    ensures
        c@ == v@,
{
    let mut c: Vec<SerializedOutPoint> = Vec::new();
    let mut i: usize = 0;
    while i < v.len()
        invariant
            i <= v@.len(),
            c@ == v@.subrange(0, i as int),
        decreases v@.len() - i,
    {
        c.push(v[i]);
        i = i + 1;
        assert(c@ =~= v@.subrange(0, i as int));
    }
    assert(v@.subrange(0, v@.len() as int) =~= v@);
    c
}

impl TransactionStateChange {
    /// A copy of the state change.
    pub fn duplicate(&self) -> (c: TransactionStateChange)
        ensures
            c@ == self@,
            c.burned@ == self.burned@,
    {
        let mut outputs: Vec<TxOutEntry> = Vec::new();
        let mut i: usize = 0;
        while i < self.outputs.len()
            invariant
                i <= self.outputs@.len(),
                outputs@.len() == i,
                forall|j: int| 0 <= j < i ==> #[trigger] outputs@[j]@ == self.outputs@[j]@,
            decreases self.outputs@.len() - i,
        {
            outputs.push(self.outputs[i].duplicate());
            i = i + 1;
        }
        let c = TransactionStateChange {
            inputs: copy_outpoints(&self.inputs),
            outputs,
            etched: self.etched,
            minted: self.minted,
            burned: self.burned.duplicate(),
            is_coinbase: self.is_coinbase,
        };
        assert(c@.outputs =~= self@.outputs);
        c
    }

    /// Whether the change moves, mints, etches or burns any rune.
    pub fn has_rune_updates(&self) -> (b: bool)
        ensures
            b == (some_output_has_runes(self.outputs@) || self.etched is Some || self.minted is Some
                || self.burned@.dom() != Set::<RuneId>::empty()),
    {
        let mut i: usize = 0;
        while i < self.outputs.len()
            invariant
                i <= self.outputs@.len(),
                forall|j: int| 0 <= j < i ==> #[trigger] self.outputs@[j].runes@.len() == 0,
            decreases self.outputs@.len() - i,
        {
            if self.outputs[i].has_runes() {
                return true;
            }
            i = i + 1;
        }
        self.etched.is_some() || self.minted.is_some() || !self.burned.is_empty()
    }

    /// The ids of every rune the change touches, each once.
    pub fn rune_ids(&self) -> (ids: Vec<RuneId>)
        ensures
            ids@.no_duplicates(),
            ids@.to_set() == touched_rune_ids(self),
    {
        let mut ids: Vec<RuneId> = Vec::new();
        let entries = self.burned.entries();
        let mut i: usize = 0;
        proof {
            crate::balances::lemma_balances_map_dom(entries@);
        }
        while i < entries.len()
            invariant
                i <= entries@.len(),
                ids@.no_duplicates(),
                ids@.to_set() == Set::new(|id: RuneId| exists|k: int| 0 <= k < i && entries@[k].0 == id),
            decreases entries@.len() - i,
        {
            push_unique(&mut ids, entries[i].0);
            proof {
                assert(ids@.to_set() =~= Set::new(
                    |id: RuneId| exists|k: int| 0 <= k < i + 1 && entries@[k].0 == id,
                )) by {
                    assert forall|id: RuneId| ids@.to_set().contains(id) implies exists|k: int|
                        0 <= k < i + 1 && entries@[k].0 == id by {
                        if id != entries@[i as int].0 {
                            let k = choose|k: int| 0 <= k < i && entries@[k].0 == id;
                        }
                    }
                }
            }
            i = i + 1;
        }
        assert(ids@.to_set() =~= self.burned@.dom());
        if let Some(m) = &self.minted {
            push_unique(&mut ids, m.rune_id);
        }
        if let Some((id, _)) = &self.etched {
            push_unique(&mut ids, *id);
        }
        let ghost base = ids@.to_set();
        let mut o: usize = 0;
        while o < self.outputs.len()
            invariant
                o <= self.outputs@.len(),
                ids@.no_duplicates(),
                ids@.to_set() == base.union(Set::new(
                    |id: RuneId|
                        exists|i: int, j: int|
                            0 <= i < o && 0 <= j < self.outputs@[i].runes@.len()
                                && #[trigger] self.outputs@[i].runes@[j].rune_id == id,
                )),
            decreases self.outputs@.len() - o,
        {
            let runes = &self.outputs[o].runes;
            let mut j: usize = 0;
            while j < runes.len()
                invariant
                    o < self.outputs@.len(),
                    runes@ == self.outputs@[o as int].runes@,
                    j <= runes@.len(),
                    ids@.no_duplicates(),
                    ids@.to_set() == base.union(Set::new(
                        |id: RuneId|
                            exists|i: int, k: int|
                                0 <= i < o && 0 <= k < self.outputs@[i].runes@.len()
                                    && #[trigger] self.outputs@[i].runes@[k].rune_id == id,
                    )).union(Set::new(|id: RuneId| exists|k: int| 0 <= k < j && runes@[k].rune_id == id)),
                decreases runes@.len() - j,
            {
                let ghost before = ids@.to_set();
                push_unique(&mut ids, runes[j].rune_id);
                proof {
                    let prev_outputs = Set::new(
                        |id: RuneId|
                            exists|i: int, k: int|
                                0 <= i < o && 0 <= k < self.outputs@[i].runes@.len()
                                    && #[trigger] self.outputs@[i].runes@[k].rune_id == id,
                    );
                    let old_part = Set::new(|id: RuneId| exists|k: int| 0 <= k < j && runes@[k].rune_id == id);
                    let new_part = Set::new(|id: RuneId| exists|k: int| 0 <= k < j + 1 && runes@[k].rune_id == id);
                    assert(new_part =~= old_part.insert(runes@[j as int].rune_id)) by {
                        assert forall|id: RuneId| new_part.contains(id) implies old_part.insert(
                            runes@[j as int].rune_id,
                        ).contains(id) by {
                            let k = choose|k: int| 0 <= k < j + 1 && runes@[k].rune_id == id;
                            if k < j {
                                assert(old_part.contains(id));
                            }
                        }
                        assert forall|id: RuneId| old_part.insert(runes@[j as int].rune_id).contains(id) implies new_part.contains(id) by {
                            if id == runes@[j as int].rune_id {
                                assert(runes@[j as int].rune_id == id);
                            } else {
                                let k = choose|k: int| 0 <= k < j && runes@[k].rune_id == id;
                                assert(0 <= k < j + 1 && runes@[k].rune_id == id);
                            }
                        }
                    }
                    assert(ids@.to_set() =~= base.union(prev_outputs).union(new_part));
                }
                j = j + 1;
            }
            proof {
                let prev_outputs = Set::new(
                    |id: RuneId|
                        exists|i: int, k: int|
                            0 <= i < o && 0 <= k < self.outputs@[i].runes@.len()
                                && #[trigger] self.outputs@[i].runes@[k].rune_id == id,
                );
                let next_outputs = Set::new(
                    |id: RuneId|
                        exists|i: int, k: int|
                            0 <= i < o + 1 && 0 <= k < self.outputs@[i].runes@.len()
                                && #[trigger] self.outputs@[i].runes@[k].rune_id == id,
                );
                let this_part = Set::new(|id: RuneId| exists|k: int| 0 <= k < runes@.len() && runes@[k].rune_id == id);
                assert(next_outputs =~= prev_outputs.union(this_part)) by {
                    assert forall|id: RuneId| next_outputs.contains(id) implies prev_outputs.union(this_part).contains(id) by {
                        let (i, k) = choose|i: int, k: int|
                            0 <= i < o + 1 && 0 <= k < self.outputs@[i].runes@.len()
                                && #[trigger] self.outputs@[i].runes@[k].rune_id == id;
                        if i < o {
                            assert(prev_outputs.contains(id));
                        } else {
                            assert(this_part.contains(id));
                        }
                    }
                    assert forall|id: RuneId| prev_outputs.union(this_part).contains(id) implies next_outputs.contains(id) by {
                        if prev_outputs.contains(id) {
                            let (i, k) = choose|i: int, k: int|
                                0 <= i < o && 0 <= k < self.outputs@[i].runes@.len()
                                    && #[trigger] self.outputs@[i].runes@[k].rune_id == id;
                            assert(self.outputs@[i].runes@[k].rune_id == id);
                        } else {
                            let k = choose|k: int| 0 <= k < runes@.len() && runes@[k].rune_id == id;
                            assert(self.outputs@[o as int].runes@[k].rune_id == id);
                        }
                    }
                }
                assert(ids@.to_set() =~= base.union(next_outputs));
            }
            o = o + 1;
        }
        proof {
            let all_outputs = Set::new(
                |id: RuneId|
                    exists|i: int, k: int|
                        0 <= i < self.outputs@.len() && 0 <= k < self.outputs@[i].runes@.len()
                            && #[trigger] self.outputs@[i].runes@[k].rune_id == id,
            );
            assert(all_outputs =~= output_rune_ids(self.outputs@));
            assert(ids@.to_set() =~= touched_rune_ids(self));
        }
        ids
    }
}

} // verus!

use vstd::prelude::*;
use crate::parser::is_op_return;
use crate::types::{SerializedOutPoint, Txid};

verus! {

/// The input that spends an output: the spending transaction and the input's index.
#[derive(Clone, Copy, Debug)]
pub struct SpenderReference {
    pub txid: Txid,
    pub vin: u32,
}

impl View for SpenderReference {
    type V = SpenderReference;

    open spec fn view(&self) -> SpenderReference {
        *self
    }
}

/// The outputs of one locking script that were created, and those that were spent.
pub type ScriptGroupView = (Seq<SerializedOutPoint>, Seq<SerializedOutPoint>);

/// Adds an output to the group of `script`: to its spent outputs or to its created ones.
pub open spec fn add_to_group(
    m: Map<Seq<u8>, ScriptGroupView>,
    script: Seq<u8>,
    o: SerializedOutPoint,
    spent: bool,
) -> Map<Seq<u8>, ScriptGroupView> {
    let g = if m.contains_key(script) {
        m[script]
    } else {
        (Seq::empty(), Seq::empty())
    };
    m.insert(script, if spent { (g.0, g.1.push(o)) } else { (g.0.push(o), g.1) })
}

/// The groups obtained by adding each `(script, output, spent)` in order.
pub open spec fn group_all(
    m: Map<Seq<u8>, ScriptGroupView>,
    items: Seq<(Seq<u8>, SerializedOutPoint, bool)>,
) -> Map<Seq<u8>, ScriptGroupView>
    decreases items.len(),
{
    if items.len() == 0 {
        m
    } else {
        let last = items.last();
        add_to_group(group_all(m, items.drop_last()), last.0, last.1, last.2)
    }
}

/// The groups of a list of entries with distinct scripts.
pub open spec fn groups_map(
    s: Seq<(Vec<u8>, Vec<SerializedOutPoint>, Vec<SerializedOutPoint>)>,
) -> Map<Seq<u8>, ScriptGroupView>
    decreases s.len(),
{
    if s.len() == 0 {
        Map::empty()
    } else {
        groups_map(s.drop_last()).insert(s.last().0@, (s.last().1@, s.last().2@))
    }
}

/// No script occurs twice in the entries.
pub open spec fn distinct_scripts(s: Seq<(Vec<u8>, Vec<SerializedOutPoint>, Vec<SerializedOutPoint>)>) -> bool {
    forall|i: int, j: int| 0 <= i < j < s.len() ==> s[i].0@ != s[j].0@
}

proof fn lemma_groups_map_dom(s: Seq<(Vec<u8>, Vec<SerializedOutPoint>, Vec<SerializedOutPoint>)>)
    ensures
        forall|k: Seq<u8>| #[trigger] groups_map(s).contains_key(k) <==> exists|i: int|
            0 <= i < s.len() && s[i].0@ == k,
    decreases s.len(),
{
    if s.len() > 0 {
        lemma_groups_map_dom(s.drop_last());
        assert forall|k: Seq<u8>| #[trigger] groups_map(s).contains_key(k) <==> exists|i: int|
            0 <= i < s.len() && s[i].0@ == k by {
            if groups_map(s).contains_key(k) && k == s.last().0@ {
                assert(s[s.len() - 1].0@ == k);
            }
            if groups_map(s).contains_key(k) && k != s.last().0@ {
                assert(groups_map(s.drop_last()).contains_key(k));
                let i = choose|i: int| 0 <= i < s.drop_last().len() && s.drop_last()[i].0@ == k;
                assert(s.drop_last()[i] == s[i]);
                assert(s[i].0@ == k);
            }
            if exists|i: int| 0 <= i < s.len() && s[i].0@ == k {
                let i = choose|i: int| 0 <= i < s.len() && s[i].0@ == k;
                if i < s.len() - 1 {
                    assert(s.drop_last()[i] == s[i]);
                    assert(s.drop_last()[i].0@ == k);
                    assert(groups_map(s.drop_last()).contains_key(k));
                } else {
                    assert(s.last().0@ == k);
                }
            }
        }
    }
}

proof fn lemma_groups_map_value(s: Seq<(Vec<u8>, Vec<SerializedOutPoint>, Vec<SerializedOutPoint>)>, i: int)
    requires
        distinct_scripts(s),
        0 <= i < s.len(),
    ensures
        groups_map(s).contains_key(s[i].0@),
        groups_map(s)[s[i].0@] == (s[i].1@, s[i].2@),
    decreases s.len(),
{
    lemma_groups_map_dom(s);
    if i < s.len() - 1 {
        lemma_groups_map_value(s.drop_last(), i);
    }
}

proof fn lemma_groups_map_update(
    s: Seq<(Vec<u8>, Vec<SerializedOutPoint>, Vec<SerializedOutPoint>)>,
    i: int,
    e: (Vec<u8>, Vec<SerializedOutPoint>, Vec<SerializedOutPoint>),
)
    requires
        distinct_scripts(s),
        0 <= i < s.len(),
        e.0@ == s[i].0@,
    ensures
        distinct_scripts(s.update(i, e)),
        groups_map(s.update(i, e)) == groups_map(s).insert(e.0@, (e.1@, e.2@)),
    decreases s.len(),
{
    let t = s.update(i, e);
    if i == s.len() - 1 {
        assert(t.drop_last() =~= s.drop_last());
        lemma_groups_map_dom(s.drop_last());
        assert(groups_map(t) =~= groups_map(s).insert(e.0@, (e.1@, e.2@)));
    } else {
        lemma_groups_map_update(s.drop_last(), i, e);
        assert(t.drop_last() =~= s.drop_last().update(i, e));
        assert(groups_map(t) =~= groups_map(s).insert(e.0@, (e.1@, e.2@)));
    }
}

fn bytes_eq(a: &Vec<u8>, b: &Vec<u8>) -> (r: bool)
    ensures
        r == (a@ == b@),
{
    if a.len() != b.len() {
        return false;
    }
    let mut i: usize = 0;
    while i < a.len()
        invariant
            a@.len() == b@.len(),
            i <= a@.len(),
            forall|j: int| 0 <= j < i ==> a@[j] == b@[j],
        decreases a@.len() - i,
    {
        if a[i] != b[i] {
            return false;
        }
        i = i + 1;
    }
    assert(a@ =~= b@);
    true
}

fn copy_bytes(a: &Vec<u8>) -> (c: Vec<u8>)
    ensures
        c@ == a@,
{
    let mut c: Vec<u8> = Vec::new();
    let mut i: usize = 0;
    while i < a.len()
        invariant
            i <= a@.len(),
            c@ == a@.subrange(0, i as int),
        decreases a@.len() - i,
    {
        c.push(a[i]);
        i = i + 1;
        assert(c@ =~= a@.subrange(0, i as int));
    }
    assert(a@.subrange(0, a@.len() as int) =~= a@);
    c
}

/// Outputs grouped by locking script: for each script, the outputs created and those spent.
pub struct ScriptGroups {
    entries: Vec<(Vec<u8>, Vec<SerializedOutPoint>, Vec<SerializedOutPoint>)>,
}

impl View for ScriptGroups {
    type V = Map<Seq<u8>, ScriptGroupView>;

    closed spec fn view(&self) -> Map<Seq<u8>, ScriptGroupView> {
        groups_map(self.entries@)
    }
}

impl ScriptGroups {
    #[verifier::type_invariant]
    closed spec fn inv(self) -> bool {
        distinct_scripts(self.entries@)
    }

    /// No group.
    pub fn new() -> (g: ScriptGroups)
        ensures
            g@ == Map::<Seq<u8>, ScriptGroupView>::empty(),
    {
        ScriptGroups { entries: Vec::new() }
    }

    /// Adds an output to the group of `script`.
    pub fn add(&mut self, script: &Vec<u8>, o: SerializedOutPoint, spent: bool)
        ensures
            final(self)@ == add_to_group(old(self)@, script@, o, spent),
    {
        proof {
            use_type_invariant(&*self);
            lemma_groups_map_dom(self.entries@);
        }
        let ghost before = self.entries@;
        let mut entries = Vec::new();
        std::mem::swap(&mut entries, &mut self.entries);
        let mut i: usize = 0;
        while i < entries.len()
            invariant
                entries@ == before,
                groups_map(before) == old(self)@,
                distinct_scripts(before),
                i <= before.len(),
                forall|j: int| 0 <= j < i ==> before[j].0@ != script@,
            decreases before.len() - i,
        {
            if bytes_eq(&entries[i].0, script) {
                let (s, mut created, mut spent_list) = entries.remove(i);
                proof {
                    lemma_groups_map_value(before, i as int);
                }
                if spent {
                    spent_list.push(o);
                } else {
                    created.push(o);
                }
                entries.insert(i, (s, created, spent_list));
                proof {
                    assert(entries@ =~= before.update(i as int, entries@[i as int]));
                    lemma_groups_map_update(before, i as int, entries@[i as int]);
                    assert(groups_map(entries@) =~= add_to_group(groups_map(before), script@, o, spent));
                }
                self.entries = entries;
                return;
            }
            i = i + 1;
        }
        let mut created: Vec<SerializedOutPoint> = Vec::new();
        let mut spent_list: Vec<SerializedOutPoint> = Vec::new();
        if spent {
            spent_list.push(o);
        } else {
            created.push(o);
        }
        entries.push((copy_bytes(script), created, spent_list));
        proof {
            assert(entries@.drop_last() =~= before);
            assert(!groups_map(before).contains_key(script@));
            assert forall|a: int, b: int| 0 <= a < b < entries@.len() implies entries@[a].0@
                != entries@[b].0@ by {
                if b == entries@.len() - 1 {
                    assert(before[a].0@ != script@);
                }
            }
            assert(created@ =~= (if spent { Seq::<SerializedOutPoint>::empty() } else { seq![o] }));
            assert(spent_list@ =~= (if spent { seq![o] } else { Seq::<SerializedOutPoint>::empty() }));
            assert(groups_map(entries@) =~= add_to_group(groups_map(before), script@, o, spent));
        }
        self.entries = entries;
    }

    /// The groups, one entry per script.
    pub fn into_entries(self) -> (v: Vec<(Vec<u8>, Vec<SerializedOutPoint>, Vec<SerializedOutPoint>)>)
        ensures
            distinct_scripts(v@),
            groups_map(v@) == self@,
    {
        proof {
            use_type_invariant(&self);
        }
        self.entries
    }
}

/// The outputs created and spent while indexing, kept to update the address index.
pub struct AddressUpdater {
    new_outpoints: Vec<(SerializedOutPoint, Vec<u8>)>,
    spent_outpoints: Vec<(SerializedOutPoint, SpenderReference)>,
}

/// The outputs created, with their locking scripts, in the order first recorded.
pub open spec fn new_items(v: Seq<(SerializedOutPoint, Vec<u8>)>) -> Seq<(SerializedOutPoint, Seq<u8>)> {
    Seq::new(v.len(), |i: int| (v[i].0, v[i].1@))
}

impl AddressUpdater {
    #[verifier::type_invariant]
    closed spec fn inv(self) -> bool {
        &&& forall|i: int, j: int|
            0 <= i < j < self.new_outpoints@.len() ==> self.new_outpoints@[i].0 != self.new_outpoints@[j].0
        &&& forall|i: int, j: int|
            0 <= i < j < self.spent_outpoints@.len() ==> self.spent_outpoints@[i].0
                != self.spent_outpoints@[j].0
    }

    /// The outputs created, with their locking scripts, in the order first recorded.
    pub closed spec fn created(&self) -> Seq<(SerializedOutPoint, Seq<u8>)> {
        new_items(self.new_outpoints@)
    }

    /// The outputs spent, with what spends them, in the order first recorded.
    pub closed spec fn spent(&self) -> Seq<(SerializedOutPoint, SpenderReference)> {
        self.spent_outpoints@
    }

    /// Nothing recorded.
    pub fn new() -> (u: AddressUpdater)
        ensures
            u.created() == Seq::<(SerializedOutPoint, Seq<u8>)>::empty(),
            u.spent() == Seq::<(SerializedOutPoint, SpenderReference)>::empty(),
    {
        let u = AddressUpdater { new_outpoints: Vec::new(), spent_outpoints: Vec::new() };
        assert(u.created() =~= Seq::<(SerializedOutPoint, Seq<u8>)>::empty());
        u
    }

    /// Records a created output and its locking script, replacing an earlier record of it.
    /// OP_RETURN outputs are not recorded.
    pub fn add_new_outpoint(&mut self, o: SerializedOutPoint, script_pubkey: Vec<u8>)
        ensures
            final(self).spent() == old(self).spent(),
            script_pubkey@.len() > 0 && script_pubkey@[0] == 0x6a ==> final(self).created() == old(
                self,
            ).created(),
            !(script_pubkey@.len() > 0 && script_pubkey@[0] == 0x6a) ==> match index_of(
                old(self).created(),
                o,
            ) {
                Some(i) => final(self).created() == old(self).created().update(i, (o, script_pubkey@)),
                None => final(self).created() == old(self).created().push((o, script_pubkey@)),
            },
    {
        proof {
            use_type_invariant(&*self);
        }
        if is_op_return(&script_pubkey) {
            return;
        }
        let ghost script = script_pubkey@;
        let ghost before = self.new_outpoints@;
        let mut news = Vec::new();
        std::mem::swap(&mut news, &mut self.new_outpoints);
        match find_created(&news, &o) {
            Some(i) => {
                proof {
                    lemma_index_of(new_items(before), o, i as int);
                }
                news.set(i, (o, script_pubkey));
                proof {
                    assert(new_items(news@) =~= new_items(before).update(i as int, (o, script)));
                    assert forall|a: int, b: int| 0 <= a < b < news@.len() implies news@[a].0 != news@[b].0 by {
                        assert(before[a].0 != before[b].0);
                    }
                }
            },
            None => {
                news.push((o, script_pubkey));
                proof {
                    lemma_index_of_none(new_items(before), o);
                    assert(new_items(news@) =~= new_items(before).push((o, script)));
                    assert forall|a: int, b: int| 0 <= a < b < news@.len() implies news@[a].0 != news@[b].0 by {
                        if b < before.len() {
                            assert(before[a].0 != before[b].0);
                        } else {
                            assert(new_items(before)[a].0 != o);
                        }
                    }
                }
            },
        }
        self.new_outpoints = news;
    }

    /// Records a spent output and what spends it, replacing an earlier record of it.
    pub fn add_spent_outpoint(&mut self, o: SerializedOutPoint, spender: SpenderReference)
        ensures
            final(self).created() == old(self).created(),
            match index_of(old(self).spent(), o) {
                Some(i) => final(self).spent() == old(self).spent().update(i, (o, spender)),
                None => final(self).spent() == old(self).spent().push((o, spender)),
            },
    {
        proof {
            use_type_invariant(&*self);
        }
        let ghost before = self.spent_outpoints@;
        let mut spent = Vec::new();
        std::mem::swap(&mut spent, &mut self.spent_outpoints);
        match find_spent(&spent, &o) {
            Some(i) => {
                proof {
                    lemma_index_of(before, o, i as int);
                }
                spent.set(i, (o, spender));
                proof {
                    assert forall|a: int, b: int| 0 <= a < b < spent@.len() implies spent@[a].0 != spent@[b].0 by {
                        assert(before[a].0 != before[b].0);
                    }
                }
            },
            None => {
                spent.push((o, spender));
                proof {
                    lemma_index_of_none(before, o);
                    assert forall|a: int, b: int| 0 <= a < b < spent@.len() implies spent@[a].0 != spent@[b].0 by {
                        if b < before.len() {
                            assert(before[a].0 != before[b].0);
                        }
                    }
                }
            },
        }
        self.spent_outpoints = spent;
    }

    /// The spent outputs that were not created since the last update, in the order recorded:
    /// their locking scripts must be looked up in the index.
    pub fn spent_lookups(&self) -> (v: Vec<SerializedOutPoint>)
        ensures
            v@ == spent_elsewhere(self.spent(), self.created()),
    {
        let mut v: Vec<SerializedOutPoint> = Vec::new();
        let mut i: usize = 0;
        while i < self.spent_outpoints.len()
            invariant
                i <= self.spent_outpoints@.len(),
                v@ == spent_elsewhere(self.spent().take(i as int), self.created()),
            decreases self.spent_outpoints@.len() - i,
        {
            let o = self.spent_outpoints[i].0;
            proof {
                assert(self.spent().take(i + 1).drop_last() =~= self.spent().take(i as int));
            }
            match find_created(&self.new_outpoints, &o) {
                Some(k) => {
                    proof {
                        lemma_index_of(new_items(self.new_outpoints@), o, k as int);
                    }
                },
                None => {
                    proof {
                        lemma_index_of_none(new_items(self.new_outpoints@), o);
                    }
                    v.push(o);
                },
            }
            i = i + 1;
        }
        proof {
            assert(self.spent().take(self.spent().len() as int) =~= self.spent());
        }
        v
    }

    /// Groups the outputs by locking script for a block: each looked-up spent output (with its
    /// script from the index) as spent, then each created output, as spent when it was also
    /// spent since the last update.
    pub fn group_for_block(&self, spent_scripts: &Vec<(SerializedOutPoint, Vec<u8>)>) -> (g: ScriptGroups)
        ensures
            g@ == group_all(
                group_all(Map::empty(), spent_items(new_items(spent_scripts@))),
                created_items(self.created(), self.spent()),
            ),
    {
        let mut g = ScriptGroups::new();
        let mut i: usize = 0;
        while i < spent_scripts.len()
            invariant
                i <= spent_scripts@.len(),
                g@ == group_all(Map::empty(), spent_items(new_items(spent_scripts@)).take(i as int)),
            decreases spent_scripts@.len() - i,
        {
            proof {
                assert(spent_items(new_items(spent_scripts@)).take(i + 1).drop_last()
                    =~= spent_items(new_items(spent_scripts@)).take(i as int));
            }
            g.add(&spent_scripts[i].1, spent_scripts[i].0, true);
            i = i + 1;
        }
        proof {
            assert(spent_items(new_items(spent_scripts@)).take(spent_scripts@.len() as int)
                =~= spent_items(new_items(spent_scripts@)));
        }
        let ghost base = g@;
        let mut k: usize = 0;
        while k < self.new_outpoints.len()
            invariant
                k <= self.new_outpoints@.len(),
                g@ == group_all(base, created_items(self.created(), self.spent()).take(k as int)),
            decreases self.new_outpoints@.len() - k,
        {
            let o = self.new_outpoints[k].0;
            let spent = match find_spent(&self.spent_outpoints, &o) {
                Some(j) => {
                    proof {
                        lemma_index_of(self.spent_outpoints@, o, j as int);
                    }
                    true
                },
                None => {
                    proof {
                        lemma_index_of_none(self.spent_outpoints@, o);
                    }
                    false
                },
            };
            proof {
                assert(created_items(self.created(), self.spent()).take(k + 1).drop_last()
                    =~= created_items(self.created(), self.spent()).take(k as int));
            }
            g.add(&self.new_outpoints[k].1, o, spent);
            k = k + 1;
        }
        proof {
            assert(created_items(self.created(), self.spent()).take(self.new_outpoints@.len() as int)
                =~= created_items(self.created(), self.spent()));
        }
        g
    }

    /// Groups the created outputs by locking script for the mempool, all as created.
    pub fn group_for_mempool(&self) -> (g: ScriptGroups)
        ensures
            g@ == group_all(Map::empty(), spent_items(self.created()).map_values(
                |t: (Seq<u8>, SerializedOutPoint, bool)| (t.0, t.1, false),
            )),
    {
        let ghost items = spent_items(self.created()).map_values(
            |t: (Seq<u8>, SerializedOutPoint, bool)| (t.0, t.1, false),
        );
        let mut g = ScriptGroups::new();
        let mut k: usize = 0;
        while k < self.new_outpoints.len()
            invariant
                k <= self.new_outpoints@.len(),
                items == spent_items(self.created()).map_values(
                    |t: (Seq<u8>, SerializedOutPoint, bool)| (t.0, t.1, false),
                ),
                g@ == group_all(Map::empty(), items.take(k as int)),
            decreases self.new_outpoints@.len() - k,
        {
            proof {
                assert(items.take(k + 1).drop_last() =~= items.take(k as int));
            }
            g.add(&self.new_outpoints[k].1, self.new_outpoints[k].0, false);
            k = k + 1;
        }
        proof {
            assert(items.take(self.new_outpoints@.len() as int) =~= items);
        }
        g
    }

    /// Forgets everything recorded.
    pub fn clear(&mut self)
        ensures
            final(self).created() == Seq::<(SerializedOutPoint, Seq<u8>)>::empty(),
            final(self).spent() == Seq::<(SerializedOutPoint, SpenderReference)>::empty(),
    {
        *self = AddressUpdater { new_outpoints: Vec::new(), spent_outpoints: Vec::new() };
        assert(self.created() =~= Seq::<(SerializedOutPoint, Seq<u8>)>::empty());
    }
}


/// The position of the first entry for `o`, if any.
pub open spec fn index_of<T>(s: Seq<(SerializedOutPoint, T)>, o: SerializedOutPoint) -> Option<int>
    decreases s.len(),
{
    if s.len() == 0 {
        None
    } else if s[0].0 == o {
        Some(0)
    } else {
        match index_of(s.drop_first(), o) {
            Some(i) => Some(i + 1),
            None => None,
        }
    }
}

proof fn lemma_index_of<T>(s: Seq<(SerializedOutPoint, T)>, o: SerializedOutPoint, i: int)
    requires
        0 <= i < s.len(),
        s[i].0 == o,
        forall|j: int| 0 <= j < i ==> s[j].0 != o,
    ensures
        index_of(s, o) == Some(i),
    decreases i,
{
    if i > 0 {
        lemma_index_of(s.drop_first(), o, i - 1);
    }
}

proof fn lemma_index_of_none<T>(s: Seq<(SerializedOutPoint, T)>, o: SerializedOutPoint)
    requires
        forall|j: int| 0 <= j < s.len() ==> s[j].0 != o,
    ensures
        index_of(s, o) is None,
    decreases s.len(),
{
    if s.len() > 0 {
        lemma_index_of_none(s.drop_first(), o);
    }
}

fn find_created(v: &Vec<(SerializedOutPoint, Vec<u8>)>, o: &SerializedOutPoint) -> (r: Option<usize>)
    ensures
        match r {
            Some(i) => i < v@.len() && v@[i as int].0 == *o && forall|j: int| 0 <= j < i ==> v@[j].0 != *o,
            None => forall|j: int| 0 <= j < v@.len() ==> v@[j].0 != *o,
        },
{
    let mut i: usize = 0;
    while i < v.len()
        invariant
            i <= v@.len(),
            forall|j: int| 0 <= j < i ==> v@[j].0 != *o,
        decreases v@.len() - i,
    {
        if v[i].0.same(o) {
            return Some(i);
        }
        i = i + 1;
    }
    None
}

/// The spent outputs that were not created since the last update, in order.
pub open spec fn spent_elsewhere(
    spent: Seq<(SerializedOutPoint, SpenderReference)>,
    created: Seq<(SerializedOutPoint, Seq<u8>)>,
) -> Seq<SerializedOutPoint>
    decreases spent.len(),
{
    if spent.len() == 0 {
        Seq::empty()
    } else {
        let rest = spent_elsewhere(spent.drop_last(), created);
        if index_of(created, spent.last().0) is None {
            rest.push(spent.last().0)
        } else {
            rest
        }
    }
}

/// Outputs with their scripts, each to be added as spent.
pub open spec fn spent_items(v: Seq<(SerializedOutPoint, Seq<u8>)>) -> Seq<(Seq<u8>, SerializedOutPoint, bool)> {
    Seq::new(v.len(), |i: int| (v[i].1, v[i].0, true))
}

/// Created outputs with their scripts, each to be added as spent when it was also spent.
pub open spec fn created_items(
    created: Seq<(SerializedOutPoint, Seq<u8>)>,
    spent: Seq<(SerializedOutPoint, SpenderReference)>,
) -> Seq<(Seq<u8>, SerializedOutPoint, bool)> {
    Seq::new(created.len(), |i: int| (created[i].1, created[i].0, index_of(spent, created[i].0) is Some))
}

fn find_spent(v: &Vec<(SerializedOutPoint, SpenderReference)>, o: &SerializedOutPoint) -> (r: Option<usize>)
    ensures
        match r {
            Some(i) => i < v@.len() && v@[i as int].0 == *o && forall|j: int| 0 <= j < i ==> v@[j].0 != *o,
            None => forall|j: int| 0 <= j < v@.len() ==> v@[j].0 != *o,
        },
{
    let mut i: usize = 0;
    while i < v.len()
        invariant
            i <= v@.len(),
            forall|j: int| 0 <= j < i ==> v@[j].0 != *o,
        decreases v@.len() - i,
    {
        if v[i].0.same(o) {
            return Some(i);
        }
        i = i + 1;
    }
    None
}

/// The group of `script` in `m`, or two empty lists when it has none.
pub open spec fn group_of(m: Map<Seq<u8>, ScriptGroupView>, script: Seq<u8>) -> ScriptGroupView {
    if m.contains_key(script) {
        m[script]
    } else {
        (Seq::empty(), Seq::empty())
    }
}

/// Picks the items of `script` that were spent (`spent`) or created (`!spent`).
pub open spec fn item_of(script: Seq<u8>, spent: bool) -> spec_fn((Seq<u8>, SerializedOutPoint, bool)) -> bool {
    |it: (Seq<u8>, SerializedOutPoint, bool)| it.0 == script && it.2 == spent
}

/// The output of an item.
pub open spec fn item_output() -> spec_fn((Seq<u8>, SerializedOutPoint, bool)) -> SerializedOutPoint {
    |it: (Seq<u8>, SerializedOutPoint, bool)| it.1
}

/// The outputs of `script` among `items` that were spent (`spent`) or created (`!spent`), in
/// the order of `items`.
pub open spec fn outputs_of(
    items: Seq<(Seq<u8>, SerializedOutPoint, bool)>,
    script: Seq<u8>,
    spent: bool,
) -> Seq<SerializedOutPoint> {
    items.filter(item_of(script, spent)).map_values(item_output())
}

/// Grouping items by script adds to each script's group exactly its own items: its created
/// outputs after those it had, and its spent outputs after those it had, each in the order of
/// the items; a script has a group when it had one or occurs among the items.
pub proof fn lemma_group_all_lists_outputs_by_script(
    m: Map<Seq<u8>, ScriptGroupView>,
    items: Seq<(Seq<u8>, SerializedOutPoint, bool)>,
    script: Seq<u8>,
)
    ensures
        group_all(m, items).contains_key(script) <==> (m.contains_key(script) || exists|i: int|
            0 <= i < items.len() && #[trigger] items[i].0 == script),
        group_of(group_all(m, items), script) == (
            group_of(m, script).0 + outputs_of(items, script, false),
            group_of(m, script).1 + outputs_of(items, script, true),
        ),
    decreases items.len(),
{
    broadcast use vstd::seq_lib::group_seq_properties;

    if items.len() == 0 {
        assert(items.filter(item_of(script, false)) =~= Seq::empty()) by {
            items.lemma_filter_len(item_of(script, false));
        }
        assert(items.filter(item_of(script, true)) =~= Seq::empty()) by {
            items.lemma_filter_len(item_of(script, true));
        }
        assert(group_of(m, script).0 + Seq::<SerializedOutPoint>::empty() =~= group_of(m, script).0);
        assert(group_of(m, script).1 + Seq::<SerializedOutPoint>::empty() =~= group_of(m, script).1);
    } else {
        let rest = items.drop_last();
        let last = items.last();
        assert(items =~= rest.push(last));
        lemma_group_all_lists_outputs_by_script(m, rest, script);
        rest.lemma_filter_push(last, item_of(script, false));
        rest.lemma_filter_push(last, item_of(script, true));
        rest.filter(item_of(script, false)).lemma_push_map_commute(item_output(), last);
        rest.filter(item_of(script, true)).lemma_push_map_commute(item_output(), last);
        let before = group_all(m, rest);
        let g = group_of(m, script);
        if last.0 == script {
            assert(items[items.len() - 1].0 == script);
            if last.2 {
                assert(group_of(group_all(m, items), script).1 =~= g.1 + outputs_of(items, script, true));
            } else {
                assert(group_of(group_all(m, items), script).0 =~= g.0 + outputs_of(items, script, false));
            }
        } else {
            assert(group_all(m, items).contains_key(script) == before.contains_key(script));
            assert((exists|i: int| 0 <= i < items.len() && #[trigger] items[i].0 == script) ==> (exists|
                i: int,
            | 0 <= i < rest.len() && #[trigger] rest[i].0 == script)) by {
                if exists|i: int| 0 <= i < items.len() && #[trigger] items[i].0 == script {
                    let i = choose|i: int| 0 <= i < items.len() && #[trigger] items[i].0 == script;
                    assert(rest[i] == items[i]);
                }
            }
            assert((exists|i: int| 0 <= i < rest.len() && #[trigger] rest[i].0 == script) ==> (exists|
                i: int,
            | 0 <= i < items.len() && #[trigger] items[i].0 == script)) by {
                if exists|i: int| 0 <= i < rest.len() && #[trigger] rest[i].0 == script {
                    let i = choose|i: int| 0 <= i < rest.len() && #[trigger] rest[i].0 == script;
                    assert(rest[i] == items[i]);
                }
            }
        }
    }
}

proof fn lemma_group_all_created(
    m: Map<Seq<u8>, ScriptGroupView>,
    items: Seq<(Seq<u8>, SerializedOutPoint, bool)>,
    p: spec_fn(SerializedOutPoint) -> bool,
)
    requires
        forall|s: Seq<u8>, k: int|
            #![trigger m[s].0[k]]
            m.contains_key(s) && 0 <= k < m[s].0.len() ==> p(m[s].0[k]),
        forall|i: int| 0 <= i < items.len() && !items[i].2 ==> p(#[trigger] items[i].1),
    ensures
        forall|s: Seq<u8>, k: int|
            #![trigger group_all(m, items)[s].0[k]]
            group_all(m, items).contains_key(s) && 0 <= k < group_all(m, items)[s].0.len() ==> p(
                group_all(m, items)[s].0[k],
            ),
    decreases items.len(),
{
    if items.len() > 0 {
        let rest = items.drop_last();
        assert forall|i: int| 0 <= i < rest.len() && !rest[i].2 implies p(#[trigger] rest[i].1) by {
            assert(rest[i] == items[i]);
        }
        lemma_group_all_created(m, rest, p);
        let before = group_all(m, rest);
        let last = items.last();
        let after = group_all(m, items);
        assert(!last.2 ==> p(items[items.len() - 1].1));
        assert forall|s: Seq<u8>, k: int|
            #![trigger after[s].0[k]]
            after.contains_key(s) && 0 <= k < after[s].0.len() implies p(after[s].0[k]) by {
            if s != last.0 {
                assert(after[s] == before[s]);
            } else if before.contains_key(s) {
                if !last.2 && k == before[s].0.len() {
                    assert(after[s].0[k] == last.1);
                } else {
                    assert(after[s].0[k] == before[s].0[k]);
                }
            } else {
                assert(after[s].0.len() <= 1);
                assert(after[s].0[k] == last.1);
            }
        }
    } else {
        assert(group_all(m, items) == m);
    }
}

/// When a block's outputs are grouped by script, an output that was created and also spent
/// since the last update is never listed as created, so that it leaves the address index.
pub proof fn lemma_spent_outputs_are_not_listed_as_created(
    created: Seq<(SerializedOutPoint, Seq<u8>)>,
    spent: Seq<(SerializedOutPoint, SpenderReference)>,
    looked_up: Seq<(SerializedOutPoint, Seq<u8>)>,
)
    ensures
        forall|s: Seq<u8>, k: int|
            #![trigger group_all(group_all(Map::empty(), spent_items(looked_up)), created_items(created, spent))[s].0[k]]
            group_all(group_all(Map::empty(), spent_items(looked_up)), created_items(created, spent)).contains_key(s)
                && 0 <= k < group_all(group_all(Map::empty(), spent_items(looked_up)), created_items(created, spent))[s].0.len()
                ==> index_of(
                spent,
                group_all(group_all(Map::empty(), spent_items(looked_up)), created_items(created, spent))[s].0[k],
            ) is None,
{
    let p = |o: SerializedOutPoint| index_of(spent, o) is None;
    let m0 = Map::<Seq<u8>, ScriptGroupView>::empty();
    lemma_group_all_created(m0, spent_items(looked_up), p);
    lemma_group_all_created(group_all(m0, spent_items(looked_up)), created_items(created, spent), p);
}

} // verus!

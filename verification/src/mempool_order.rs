use vstd::prelude::*;
use crate::txid_set::TxidSet;
use crate::types::Txid;

verus! {

/// Why mempool transactions could not be put in order.
#[derive(Clone, Copy, Debug, PartialEq, Eq, Structural)]
pub enum MempoolError {
    /// Some transactions depend on each other in a cycle.
    CycleDetected,
}

/// The ids of the transactions to order.
pub open spec fn tx_keys(txs: Seq<(Txid, Vec<Txid>)>) -> Seq<Txid> {
    Seq::new(txs.len(), |i: int| txs[i].0)
}

/// Transaction `a` must come before transaction `b`: `b` spends an output of `a`, and `a` is
/// one of the transactions to order and in the mempool.
#[verifier::opaque]
pub open spec fn depends(txs: Seq<(Txid, Vec<Txid>)>, mempool: Set<Txid>, a: Txid, b: Txid) -> bool {
    exists|i: int, j: int|
        #![trigger txs[i], txs[j]]
        0 <= i < txs.len() && 0 <= j < txs.len() && txs[i].0 == a && txs[j].0 == b
            && txs[j].1@.contains(a) && mempool.contains(a)
}

/// The dependencies among the transactions have a cycle: some non-empty set of them in which
/// every transaction depends on another one of the set.
pub open spec fn has_cycle(txs: Seq<(Txid, Vec<Txid>)>, mempool: Set<Txid>) -> bool {
    exists|s: Set<Txid>|
        #![trigger s.len()]
        s.finite() && s.len() > 0 && s.subset_of(tx_keys(txs).to_set()) && forall|b: Txid|
            #[trigger] s.contains(b) ==> exists|a: Txid| s.contains(a) && depends(txs, mempool, a, b)
}

/// `order` lists each transaction once, and every transaction after all those it depends on.
pub open spec fn is_topological_order(
    txs: Seq<(Txid, Vec<Txid>)>,
    mempool: Set<Txid>,
    order: Seq<Txid>,
) -> bool {
    &&& order.no_duplicates()
    &&& order.to_set() == tx_keys(txs).to_set()
    &&& forall|i: int, j: int|
        0 <= i < order.len() && 0 <= j < order.len() && depends(
            txs,
            mempool,
            #[trigger] order[i],
            #[trigger] order[j],
        ) ==> i < j
}

/// The number of entries of `s` that are in `open`.
pub open spec fn count_open(s: Seq<Txid>, open: Set<Txid>) -> nat
    decreases s.len(),
{
    if s.len() == 0 {
        0
    } else {
        count_open(s.drop_last(), open) + if open.contains(s.last()) {
            1nat
        } else {
            0nat
        }
    }
}

/// The number of entries of `s` equal to `k`.
pub open spec fn count_eq(s: Seq<Txid>, k: Txid) -> nat
    decreases s.len(),
{
    if s.len() == 0 {
        0
    } else {
        count_eq(s.drop_last(), k) + if s.last() == k {
            1nat
        } else {
            0nat
        }
    }
}

proof fn lemma_count_remove(s: Seq<Txid>, open: Set<Txid>, k: Txid)
    requires
        open.contains(k),
    ensures
        count_open(s, open.remove(k)) + count_eq(s, k) == count_open(s, open),
    decreases s.len(),
{
    if s.len() > 0 {
        lemma_count_remove(s.drop_last(), open, k);
    }
}

proof fn lemma_count_open_pos(s: Seq<Txid>, open: Set<Txid>)
    requires
        count_open(s, open) > 0,
    ensures
        exists|j: int| 0 <= j < s.len() && open.contains(s[j]),
    decreases s.len(),
{
    if open.contains(s.last()) {
        assert(open.contains(s[s.len() - 1]));
    } else {
        lemma_count_open_pos(s.drop_last(), open);
        let j = choose|j: int| 0 <= j < s.drop_last().len() && open.contains(s.drop_last()[j]);
        assert(s[j] == s.drop_last()[j]);
    }
}

proof fn lemma_count_open_zero(s: Seq<Txid>, open: Set<Txid>, j: int)
    requires
        count_open(s, open) == 0,
        0 <= j < s.len(),
    ensures
        !open.contains(s[j]),
    decreases s.len(),
{
    if j < s.len() - 1 {
        lemma_count_open_zero(s.drop_last(), open, j);
    }
}

fn exec_count_eq(s: &Vec<Txid>, k: &Txid) -> (c: usize)
    ensures
        c == count_eq(s@, *k),
{
    let mut c: usize = 0;
    let mut i: usize = 0;
    while i < s.len()
        invariant
            i <= s@.len(),
            c == count_eq(s@.subrange(0, i as int), *k),
            c <= i,
        decreases s@.len() - i,
    {
        proof {
            assert(s@.subrange(0, i + 1).drop_last() =~= s@.subrange(0, i as int));
        }
        if s[i].same(k) {
            c = c + 1;
        }
        i = i + 1;
    }
    assert(s@.subrange(0, s@.len() as int) =~= s@);
    c
}

/// No transaction id occurs twice among the transactions to order.
pub open spec fn distinct_keys(txs: Seq<(Txid, Vec<Txid>)>) -> bool {
    forall|i: int, j: int| 0 <= i < j < txs.len() ==> txs[i].0 != txs[j].0
}

/// The ids of the transactions not yet placed that are in the mempool.
pub open spec fn open_set(txs: Seq<(Txid, Vec<Txid>)>, mempool: Set<Txid>, placed: Seq<bool>) -> Set<
    Txid,
> {
    Set::new(
        |x: Txid|
            mempool.contains(x) && exists|a: int| 0 <= a < txs.len() && !placed[a] && txs[a].0 == x,
    )
}

proof fn lemma_open_set_place(
    txs: Seq<(Txid, Vec<Txid>)>,
    mempool: Set<Txid>,
    placed: Seq<bool>,
    a: int,
)
    requires
        distinct_keys(txs),
        placed.len() == txs.len(),
        0 <= a < txs.len(),
        !placed[a],
    ensures
        mempool.contains(txs[a].0) ==> open_set(txs, mempool, placed.update(a, true)) == open_set(
            txs,
            mempool,
            placed,
        ).remove(txs[a].0) && open_set(txs, mempool, placed).contains(txs[a].0),
        !mempool.contains(txs[a].0) ==> open_set(txs, mempool, placed.update(a, true)) == open_set(
            txs,
            mempool,
            placed,
        ),
{
    let p2 = placed.update(a, true);
    assert(open_set(txs, mempool, placed).contains(txs[a].0) == mempool.contains(txs[a].0));
    assert forall|x: Txid| #[trigger] open_set(txs, mempool, p2).contains(x) <==> open_set(
        txs,
        mempool,
        placed,
    ).contains(x) && x != txs[a].0 by {
        if open_set(txs, mempool, p2).contains(x) {
            let b = choose|b: int| 0 <= b < txs.len() && !p2[b] && txs[b].0 == x;
            assert(!placed[b]);
            assert(b != a);
        }
        if open_set(txs, mempool, placed).contains(x) && x != txs[a].0 {
            let b = choose|b: int| 0 <= b < txs.len() && !placed[b] && txs[b].0 == x;
            assert(b != a);
            assert(!p2[b]);
        }
    }
    if mempool.contains(txs[a].0) {
        assert(open_set(txs, mempool, p2) =~= open_set(txs, mempool, placed).remove(txs[a].0));
    } else {
        assert(open_set(txs, mempool, p2) =~= open_set(txs, mempool, placed));
    }
}

proof fn lemma_count_eq_zero(s: Seq<Txid>, k: Txid)
    requires
        !s.contains(k),
    ensures
        count_eq(s, k) == 0,
    decreases s.len(),
{
    if s.len() > 0 {
        assert(!s.drop_last().contains(k)) by {
            if s.drop_last().contains(k) {
                let j = choose|j: int| 0 <= j < s.drop_last().len() && s.drop_last()[j] == k;
                assert(s[j] == k);
            }
        }
        lemma_count_eq_zero(s.drop_last(), k);
        assert(s[s.len() - 1] != k);
    }
}

proof fn lemma_distinct_indices_bounded(q: Seq<usize>, n: nat, missing: int)
    requires
        q.no_duplicates(),
        forall|i: int| 0 <= i < q.len() ==> #[trigger] q[i] < n && q[i] != missing,
        0 <= missing < n,
    ensures
        q.len() < n,
{
    let qi = Seq::new(q.len(), |i: int| q[i] as int);
    assert(qi.no_duplicates()) by {
        assert forall|a: int, b: int| 0 <= a < b < qi.len() implies qi[a] != qi[b] by {
            assert(q[a] != q[b]);
        }
    }
    let full = vstd::set_lib::set_int_range(0, n as int);
    vstd::set_lib::lemma_int_range(0, n as int);
    let smaller = full.remove(missing);
    assert(full.contains(missing));
    assert(smaller.len() == n - 1);
    assert(qi.to_set().subset_of(smaller)) by {
        assert forall|x: int| qi.to_set().contains(x) implies smaller.contains(x) by {
            let k = choose|k: int| 0 <= k < qi.len() && qi[k] == x;
            assert(q[k] < n && q[k] != missing);
        }
    }
    qi.unique_seq_to_set();
    vstd::set_lib::lemma_len_subset(qi.to_set(), smaller);
}

proof fn lemma_prefix_outside(
    txs: Seq<(Txid, Vec<Txid>)>,
    mempool: Set<Txid>,
    order: Seq<Txid>,
    s: Set<Txid>,
    k: int,
)
    requires
        is_topological_order(txs, mempool, order),
        0 <= k <= order.len(),
        forall|b: Txid| #[trigger] s.contains(b) ==> exists|a: Txid| s.contains(a) && depends(txs, mempool, a, b),
    ensures
        forall|i: int| 0 <= i < k ==> !s.contains(#[trigger] order[i]),
    decreases k,
{
    if k > 0 {
        lemma_prefix_outside(txs, mempool, order, s, k - 1);
        let last = k - 1;
        if s.contains(order[last]) {
            let a = choose|a: Txid| s.contains(a) && depends(txs, mempool, a, order[last]);
            lemma_depends_key(txs, mempool, a, order[last]);
            assert(order.to_set().contains(a));
            let p = choose|p: int| 0 <= p < order.len() && order[p] == a;
            assert(depends(txs, mempool, order[p], order[last]));
            assert(p < last);
        }
    }
}

proof fn lemma_depends_key(txs: Seq<(Txid, Vec<Txid>)>, mempool: Set<Txid>, a: Txid, b: Txid)
    requires
        depends(txs, mempool, a, b),
    ensures
        tx_keys(txs).to_set().contains(a),
{
    reveal(depends);
    let (i0, j0) = choose|i: int, j: int|
        #![trigger txs[i], txs[j]]
        0 <= i < txs.len() && 0 <= j < txs.len() && txs[i].0 == a && txs[j].0 == b
            && txs[j].1@.contains(a) && mempool.contains(a);
    assert(tx_keys(txs)[i0] == a);
}

proof fn lemma_distinct_ints_bounded(q: Seq<int>, m: nat)
    requires
        q.no_duplicates(),
        forall|i: int| 0 <= i < q.len() ==> 0 <= #[trigger] q[i] < m,
    ensures
        q.len() <= m,
{
    let full = vstd::set_lib::set_int_range(0, m as int);
    vstd::set_lib::lemma_int_range(0, m as int);
    assert(q.to_set().subset_of(full)) by {
        assert forall|x: int| q.to_set().contains(x) implies full.contains(x) by {
            let k = choose|k: int| 0 <= k < q.len() && q[k] == x;
        }
    }
    q.unique_seq_to_set();
    vstd::set_lib::lemma_len_subset(q.to_set(), full);
}

/// A list in topological order leaves no room for a cycle.
pub proof fn lemma_topological_order_has_no_cycle(
    txs: Seq<(Txid, Vec<Txid>)>,
    mempool: Set<Txid>,
    order: Seq<Txid>,
)
    requires
        is_topological_order(txs, mempool, order),
    ensures
        !has_cycle(txs, mempool),
{
    if has_cycle(txs, mempool) {
        let s = choose|s: Set<Txid>|
            #![trigger s.len()]
            s.finite() && s.len() > 0 && s.subset_of(tx_keys(txs).to_set()) && forall|b: Txid|
                #[trigger] s.contains(b) ==> exists|a: Txid| s.contains(a) && depends(txs, mempool, a, b);
        lemma_prefix_outside(txs, mempool, order, s, order.len() as int);
        let b = s.choose();
        assert(s.contains(b));
        assert(tx_keys(txs).to_set().contains(b));
        assert(order.to_set().contains(b));
        let p = choose|p: int| 0 <= p < order.len() && order[p] == b;
        assert(!s.contains(order[p]));
    }
}

fn is_key(txs: &Vec<(Txid, Vec<Txid>)>, x: &Txid) -> (r: bool)
    ensures
        r == exists|a: int| 0 <= a < txs@.len() && txs@[a].0 == *x,
{
    let mut i: usize = 0;
    while i < txs.len()
        invariant
            i <= txs@.len(),
            forall|a: int| 0 <= a < i ==> txs@[a].0 != *x,
        decreases txs@.len() - i,
    {
        if txs[i].0.same(x) {
            return true;
        }
        i = i + 1;
    }
    false
}

fn initial_open_count(inputs: &Vec<Txid>, txs: &Vec<(Txid, Vec<Txid>)>, mempool: &TxidSet) -> (c:
    usize)
    ensures
        c == count_open(inputs@, open_set(txs@, mempool@, Seq::new(txs@.len(), |i: int| false))),
        c <= inputs@.len(),
{
    let ghost open0 = open_set(txs@, mempool@, Seq::new(txs@.len(), |i: int| false));
    let mut c: usize = 0;
    let mut i: usize = 0;
    while i < inputs.len()
        invariant
            i <= inputs@.len(),
            c == count_open(inputs@.subrange(0, i as int), open0),
            c <= i,
            open0 == open_set(txs@, mempool@, Seq::new(txs@.len(), |i: int| false)),
        decreases inputs@.len() - i,
    {
        proof {
            assert(inputs@.subrange(0, i + 1).drop_last() =~= inputs@.subrange(0, i as int));
        }
        let x = inputs[i];
        if mempool.contains(&x) && is_key(txs, &x) {
            proof {
                let a = choose|a: int| 0 <= a < txs@.len() && txs@[a].0 == x;
                assert(Seq::new(txs@.len(), |i: int| false)[a] == false);
                assert(open0.contains(x));
            }
            c = c + 1;
        } else {
            proof {
                if open0.contains(x) {
                    let a = choose|a: int|
                        0 <= a < txs@.len() && !Seq::new(txs@.len(), |i: int| false)[a] && txs@[a].0
                            == x;
                }
            }
        }
        i = i + 1;
    }
    assert(inputs@.subrange(0, inputs@.len() as int) =~= inputs@);
    c
}

/// Orders mempool transactions so that each comes after the transactions it spends from, as
/// far as those are among `tx_map` and in the mempool (Kahn's algorithm). Each entry of
/// `tx_map` is a transaction id with the ids of the transactions its inputs spend from.
/// Fails exactly when the dependencies have a cycle.
pub fn sort_transaction_order(mempool_entries: &TxidSet, tx_map: &Vec<(Txid, Vec<Txid>)>) -> (r:
    Result<Vec<Txid>, MempoolError>)
    requires
        distinct_keys(tx_map@),
    ensures
        r matches Ok(order) ==> is_topological_order(tx_map@, mempool_entries@, order@),
        r is Err <==> has_cycle(tx_map@, mempool_entries@),
{
    let n = tx_map.len();
    let ghost txs = tx_map@;
    let ghost mp = mempool_entries@;
    let ghost placed0 = Seq::new(n as nat, |i: int| false);
    let ghost open0 = open_set(txs, mp, placed0);
    let mut indeg: Vec<usize> = Vec::new();
    let mut enq: Vec<bool> = Vec::new();
    let mut queue: Vec<usize> = Vec::new();
    let ghost mut rank: Seq<int> = Seq::new(n as nat, |i: int| 0);
    let mut b: usize = 0;
    while b < n
        invariant
            n == txs.len(),
            txs == tx_map@,
            mp == mempool_entries@,
            b <= n,
            rank.len() == n,
            indeg@.len() == b,
            enq@.len() == b,
            open0 == open_set(txs, mp, placed0),
            placed0 == Seq::new(n as nat, |i: int| false),
            forall|x: int| 0 <= x < b ==> #[trigger] indeg@[x] == count_open(txs[x].1@, open0),
            forall|x: int| 0 <= x < b ==> #[trigger] enq@[x] == (indeg@[x] == 0),
            queue@.no_duplicates(),
            forall|i: int| 0 <= i < queue@.len() ==> #[trigger] queue@[i] < b,
            forall|i: int| 0 <= i < queue@.len() ==> enq@[#[trigger] queue@[i] as int] && rank[queue@[i] as int] == i,
            forall|x: int| 0 <= x < b && #[trigger] enq@[x] ==> 0 <= rank[x] < queue@.len() && queue@[rank[x]] == x,
        decreases n - b,
    {
        let c = initial_open_count(&tx_map[b].1, tx_map, mempool_entries);
        proof {
            assert(placed0 =~= Seq::new(tx_map@.len(), |i: int| false));
            assert(c == count_open(txs[b as int].1@, open0));
        }
        indeg.push(c);
        if c == 0 {
            enq.push(true);
            proof {
                rank = rank.update(b as int, queue@.len() as int);
            }
            let ghost q_before = queue@;
            queue.push(b);
            proof {
                assert forall|i: int, j: int| 0 <= i < j < queue@.len() implies queue@[i] != queue@[j] by {
                    if j == queue@.len() - 1 {
                        assert(q_before[i] < b);
                    }
                }
            }
        } else {
            enq.push(false);
        }
        b = b + 1;
    }
    let mut sorted: Vec<Txid> = Vec::new();
    let mut head: usize = 0;
    let ghost mut placed: Seq<bool> = placed0;
    proof {
        assert forall|x: int| 0 <= x < n implies #[trigger] placed[x] == (enq@[x] && rank[x] < head) by {
            if enq@[x] {
                assert(0 <= rank[x]);
            }
        }
        lemma_distinct_ints_bounded(Seq::new(queue@.len(), |i: int| queue@[i] as int), n as nat);
    }
    while head < queue.len()
        invariant
            n == txs.len(),
            txs == tx_map@,
            mp == mempool_entries@,
            distinct_keys(txs),
            indeg@.len() == n,
            enq@.len() == n,
            placed.len() == n,
            rank.len() == n,
            head <= queue@.len(),
            queue@.len() <= n,
            queue@.no_duplicates(),
            forall|i: int| 0 <= i < queue@.len() ==> #[trigger] queue@[i] < n,
            forall|i: int| 0 <= i < queue@.len() ==> enq@[#[trigger] queue@[i] as int] && rank[queue@[i] as int] == i,
            forall|x: int| 0 <= x < n && #[trigger] enq@[x] ==> 0 <= rank[x] < queue@.len() && queue@[rank[x]] == x,
            forall|x: int| 0 <= x < n ==> #[trigger] placed[x] == (enq@[x] && rank[x] < head),
            sorted@.len() == head,
            forall|i: int| 0 <= i < head ==> #[trigger] sorted@[i] == txs[queue@[i] as int].0,
            forall|x: int| 0 <= x < n ==> #[trigger] indeg@[x] == count_open(txs[x].1@, open_set(txs, mp, placed)),
            forall|x: int| 0 <= x < n ==> (#[trigger] enq@[x] <==> indeg@[x] == 0),
            forall|i: int, a: int|
                0 <= i < head && 0 <= a < n && #[trigger] txs[queue@[i] as int].1@.contains(#[trigger] txs[a].0)
                    && mp.contains(txs[a].0) ==> placed[a] && rank[a] < i,
        decreases n - head,
    {
        let a = queue[head];
        let key = tx_map[a].0;
        proof {
            assert(enq@[a as int]);
            assert(rank[a as int] == head);
            assert(!placed[a as int]);
            assert(indeg@[a as int] == 0);
            let open_now = open_set(txs, mp, placed);
            assert forall|a2: int|
                0 <= a2 < n && #[trigger] txs[a as int].1@.contains(txs[a2].0) && mp.contains(txs[a2].0)
                implies placed[a2] && rank[a2] < head by {
                let j = choose|j: int| 0 <= j < txs[a as int].1@.len() && txs[a as int].1@[j] == txs[a2].0;
                lemma_count_open_zero(txs[a as int].1@, open_now, j);
                if !placed[a2] {
                    assert(open_now.contains(txs[a2].0));
                }
            }
        }
        sorted.push(key);
        let ghost old_placed = placed;
        let ghost old_open = open_set(txs, mp, placed);
        proof {
            lemma_open_set_place(txs, mp, placed, a as int);
            placed = placed.update(a as int, true);
        }
        head = head + 1;
        proof {
            assert forall|i: int, a2: int|
                0 <= i < head && 0 <= a2 < n && #[trigger] txs[queue@[i] as int].1@.contains(#[trigger] txs[a2].0)
                    && mp.contains(txs[a2].0) implies placed[a2] && rank[a2] < i by {
                if i < head - 1 {
                    assert(old_placed[a2]);
                }
            }
        }
        let ghost q_outer = queue@;
        if mempool_entries.contains(&key) {
            let ghost new_open = open_set(txs, mp, placed);
            let mut x: usize = 0;
            while x < n
                invariant
                    n == txs.len(),
                    txs == tx_map@,
                    mp == mempool_entries@,
                    distinct_keys(txs),
                    key == txs[a as int].0,
                    new_open == old_open.remove(key),
                    old_open.contains(key),
                    new_open == open_set(txs, mp, placed),
                    x <= n,
                    indeg@.len() == n,
                    enq@.len() == n,
                    placed.len() == n,
                    rank.len() == n,
                    head <= queue@.len(),
                    q_outer.len() <= queue@.len(),
                    forall|i: int| 0 <= i < q_outer.len() ==> #[trigger] queue@[i] == q_outer[i],
                    queue@.no_duplicates(),
                    forall|i: int| 0 <= i < queue@.len() ==> #[trigger] queue@[i] < n,
                    forall|i: int| 0 <= i < queue@.len() ==> enq@[#[trigger] queue@[i] as int] && rank[queue@[i] as int] == i,
                    forall|y: int| 0 <= y < n && #[trigger] enq@[y] ==> 0 <= rank[y] < queue@.len() && queue@[rank[y]] == y,
                    forall|y: int| 0 <= y < n ==> #[trigger] placed[y] == (enq@[y] && rank[y] < head),
                    forall|y: int| 0 <= y < x ==> #[trigger] indeg@[y] == count_open(txs[y].1@, new_open),
                    forall|y: int| x <= y < n ==> #[trigger] indeg@[y] == count_open(txs[y].1@, old_open),
                    forall|y: int| 0 <= y < n ==> (#[trigger] enq@[y] <==> indeg@[y] == 0),
                decreases n - x,
            {
                let c = exec_count_eq(&tx_map[x].1, &key);
                proof {
                    lemma_count_remove(txs[x as int].1@, old_open, key);
                }
                if c > 0 {
                    let d = indeg[x] - c;
                    indeg.set(x, d);
                    if d == 0 {
                        proof {
                            assert(!enq@[x as int]);
                            lemma_distinct_ints_bounded(
                                Seq::new(queue@.len(), |i: int| queue@[i] as int),
                                n as nat,
                            );
                            assert(queue@.len() < n) by {
                                lemma_distinct_indices_bounded(queue@, n as nat, x as int);
                            }
                            rank = rank.update(x as int, queue@.len() as int);
                        }
                        enq.set(x, true);
                        let ghost q_before = queue@;
                        queue.push(x);
                        proof {
                            assert forall|i: int, j: int| 0 <= i < j < queue@.len() implies queue@[i] != queue@[j] by {
                                if j == queue@.len() - 1 {
                                    assert(enq@[q_before[i] as int]);
                                }
                            }
                        }
                    }
                }
                x = x + 1;
            }
        } else {
            proof {
                assert(open_set(txs, mp, placed) == old_open);
            }
        }
        proof {
            lemma_distinct_ints_bounded(Seq::new(queue@.len(), |i: int| queue@[i] as int), n as nat);
        }
    }
    if sorted.len() != n {
        proof {
            let mut missing: int = 0;
            assert(exists|x: int| 0 <= x < n && !enq@[x]) by {
                if forall|x: int| 0 <= x < n ==> enq@[x] {
                    let ranks = Seq::new(n as nat, |x: int| rank[x]);
                    assert(ranks.no_duplicates()) by {
                        assert forall|p: int, q: int| 0 <= p < q < ranks.len() implies ranks[p] != ranks[q] by {
                            assert(enq@[p] && enq@[q]);
                        }
                    }
                    assert forall|i: int| 0 <= i < ranks.len() implies 0 <= #[trigger] ranks[i] < queue@.len() by {
                        assert(enq@[i]);
                    }
                    lemma_distinct_ints_bounded(ranks, queue@.len() as nat);
                }
            }
            let x0 = choose|x: int| 0 <= x < n && !enq@[x];
            assert(!placed[x0]);
            let cyc = Set::new(|k: Txid| exists|x: int| 0 <= x < n && !placed[x] && txs[x].0 == k);
            assert(cyc.contains(txs[x0].0));
            assert(cyc.subset_of(tx_keys(txs).to_set())) by {
                assert forall|k: Txid| cyc.contains(k) implies tx_keys(txs).to_set().contains(k) by {
                    let x = choose|x: int| 0 <= x < n && !placed[x] && txs[x].0 == k;
                    assert(tx_keys(txs)[x] == k);
                }
            }
            vstd::seq_lib::seq_to_set_is_finite(tx_keys(txs));
            vstd::set_lib::lemma_len_subset(cyc, tx_keys(txs).to_set());
            if cyc.len() == 0 {
                cyc.lemma_len0_is_empty();
                assert(false);
            }
            assert forall|k: Txid| #[trigger] cyc.contains(k) implies exists|a2: Txid|
                cyc.contains(a2) && depends(txs, mp, a2, k) by {
                let x = choose|x: int| 0 <= x < n && !placed[x] && txs[x].0 == k;
                assert(!enq@[x]);
                let open_now = open_set(txs, mp, placed);
                lemma_count_open_pos(txs[x].1@, open_now);
                let j = choose|j: int| 0 <= j < txs[x].1@.len() && open_now.contains(txs[x].1@[j]);
                let y = txs[x].1@[j];
                let a2 = choose|a2: int| 0 <= a2 < n && !placed[a2] && txs[a2].0 == y;
                assert(cyc.contains(y));
                reveal(depends);
                assert(txs[x].1@.contains(y));
                assert(depends(txs, mp, y, k));
            }
            assert(has_cycle(txs, mp));
        }
        return Err(MempoolError::CycleDetected);
    }
    proof {
        assert forall|x: int| 0 <= x < n implies #[trigger] enq@[x] by {
            if !enq@[x] {
                lemma_distinct_indices_bounded(queue@, n as nat, x);
            }
        }
        assert(sorted@.no_duplicates()) by {
            assert forall|i: int, j: int| 0 <= i < j < sorted@.len() implies sorted@[i] != sorted@[j] by {
                assert(queue@[i] != queue@[j]);
            }
        }
        assert(sorted@.to_set() =~= tx_keys(txs).to_set()) by {
            assert forall|k: Txid| sorted@.to_set().contains(k) <==> tx_keys(txs).to_set().contains(k) by {
                if sorted@.to_set().contains(k) {
                    let i = choose|i: int| 0 <= i < sorted@.len() && sorted@[i] == k;
                    assert(tx_keys(txs)[queue@[i] as int] == k);
                }
                if tx_keys(txs).to_set().contains(k) {
                    let x = choose|x: int| 0 <= x < tx_keys(txs).len() && tx_keys(txs)[x] == k;
                    assert(enq@[x]);
                    assert(sorted@[rank[x]] == k);
                }
            }
        }
        assert forall|i: int, j: int|
            0 <= i < sorted@.len() && 0 <= j < sorted@.len() && depends(
                txs,
                mp,
                #[trigger] sorted@[i],
                #[trigger] sorted@[j],
            ) implies i < j by {
            reveal(depends);
            let (i0, j0) = choose|i0: int, j0: int|
                #![trigger txs[i0], txs[j0]]
                0 <= i0 < txs.len() && 0 <= j0 < txs.len() && txs[i0].0 == sorted@[i] && txs[j0].0
                    == sorted@[j] && txs[j0].1@.contains(sorted@[i]) && mp.contains(sorted@[i]);
            assert(i0 == queue@[i] as int);
            assert(j0 == queue@[j] as int);
            assert(txs[queue@[j] as int].1@.contains(txs[queue@[i] as int].0));
        }
        lemma_topological_order_has_no_cycle(txs, mp, sorted@);
    }
    Ok(sorted)
}

} // verus!

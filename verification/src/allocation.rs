use vstd::prelude::*;
use crate::balances::{bal, balances_map, credit, debit, distinct_rune_ids, Balances};
use crate::rune_entry::Etching;
use crate::types::RuneId;

verus! {

/// A transfer instruction of a runestone: move `amount` of `id` to output `output`
/// (`output` equal to the number of outputs means every output that is not an OP_RETURN;
/// an `amount` of zero means all that is left).
#[derive(Clone, Copy, Debug)]
pub struct Edict {
    pub id: RuneId,
    pub amount: u128,
    pub output: u32,
}

/// The rune protocol message of a transaction.
#[derive(Clone, Debug)]
pub enum Artifact {
    /// A valid runestone: its edicts, its default output, its etching and the rune it mints.
    Runestone { edicts: Vec<Edict>, pointer: Option<u32>, etching: Option<Etching>, mint: Option<RuneId> },
    /// A malformed runestone: every rune it would move is burned. It keeps the name it would
    /// etch and the rune it would mint.
    Cenotaph { etching: Option<u128>, mint: Option<RuneId> },
}

/// An artifact with its edicts as a sequence.
pub enum ArtifactView {
    Runestone { edicts: Seq<Edict>, pointer: Option<u32>, etching: Option<Etching>, mint: Option<RuneId> },
    Cenotaph { etching: Option<u128>, mint: Option<RuneId> },
}

impl View for Artifact {
    type V = ArtifactView;

    open spec fn view(&self) -> ArtifactView {
        match self {
            Artifact::Runestone { edicts, pointer, etching, mint } => ArtifactView::Runestone {
                edicts: edicts@,
                pointer: *pointer,
                etching: *etching,
                mint: *mint,
            },
            Artifact::Cenotaph { etching, mint } => ArtifactView::Cenotaph { etching: *etching, mint: *mint },
        }
    }
}

/// The premine of the rune a runestone etches: zero when it etches nothing or sets none.
pub open spec fn artifact_premine(a: Artifact) -> u128 {
    match a {
        Artifact::Runestone { etching: Some(e), .. } => match e.premine {
            Some(p) => p,
            None => 0,
        },
        _ => 0,
    }
}

/// The allocation state: what is still unallocated, and what each output has received.
pub struct AllocState {
    pub unallocated: Map<RuneId, nat>,
    pub allocated: Seq<Map<RuneId, nat>>,
}

/// The views of a list of balances.
pub open spec fn views(v: Seq<Balances>) -> Seq<Map<RuneId, nat>> {
    Seq::new(v.len(), |i: int| v[i]@)
}

/// Moves `amount` of `id` from the unallocated balance to output `output`; nothing happens
/// for a zero amount.
pub open spec fn allocate(s: AllocState, id: RuneId, amount: nat, output: int) -> AllocState {
    if amount > 0 {
        AllocState {
            unallocated: debit(s.unallocated, id, amount),
            allocated: s.allocated.update(output, credit(s.allocated[output], id, amount)),
        }
    } else {
        s
    }
}

/// The indices of the outputs that are not OP_RETURN outputs, in increasing order.
pub open spec fn destinations(op_return: Seq<bool>) -> Seq<int>
    decreases op_return.len(),
{
    if op_return.len() == 0 {
        Seq::empty()
    } else {
        let d = destinations(op_return.drop_last());
        if !op_return.last() {
            d.push(op_return.len() - 1)
        } else {
            d
        }
    }
}

/// The share of the `i`-th destination when a balance of `q * n + rem` is split evenly.
pub open spec fn share(q: nat, rem: nat, i: int) -> nat {
    if i < rem {
        q + 1
    } else {
        q
    }
}

/// The state after giving the first `k` destinations their even share.
pub open spec fn split_k(s: AllocState, id: RuneId, dests: Seq<int>, q: nat, rem: nat, k: nat)
    -> AllocState
    decreases k,
{
    if k == 0 {
        s
    } else {
        allocate(split_k(s, id, dests, q, rem, (k - 1) as nat), id, share(q, rem, k - 1), dests[k - 1])
    }
}

/// The state after giving the first `k` destinations `amount` each, or what is left.
pub open spec fn spread_k(s: AllocState, id: RuneId, dests: Seq<int>, amount: nat, k: nat)
    -> AllocState
    decreases k,
{
    if k == 0 {
        s
    } else {
        let p = spread_k(s, id, dests, amount, (k - 1) as nat);
        let left = bal(p.unallocated, id);
        allocate(p, id, if amount <= left { amount } else { left }, dests[k - 1])
    }
}

/// The rune an edict moves: its own id, or for the zero id the rune etched by the transaction.
pub open spec fn edict_rune(e: Edict, etched: Option<RuneId>) -> Option<RuneId> {
    if e.id.block == 0 && e.id.tx == 0 {
        etched
    } else {
        Some(e.id)
    }
}

/// The state after one edict.
pub open spec fn apply_edict(
    s: AllocState,
    e: Edict,
    etched: Option<RuneId>,
    op_return: Seq<bool>,
) -> AllocState {
    match edict_rune(e, etched) {
        None => s,
        Some(id) => if !s.unallocated.contains_key(id) {
            s
        } else {
            let balance = s.unallocated[id];
            if e.output == op_return.len() {
                let d = destinations(op_return);
                if d.len() == 0 {
                    s
                } else if e.amount == 0 {
                    split_k(s, id, d, balance / d.len(), balance % d.len(), d.len())
                } else {
                    spread_k(s, id, d, e.amount as nat, d.len())
                }
            } else {
                allocate(
                    s,
                    id,
                    if e.amount == 0 {
                        balance
                    } else if e.amount <= balance {
                        e.amount as nat
                    } else {
                        balance
                    },
                    e.output as int,
                )
            }
        },
    }
}

/// An edict that names one output moves the rune it names from the unallocated balance to that
/// output: all that is left for an amount of zero, otherwise the amount or what is left,
/// whichever is smaller. Every other output, and every other rune, stays as it was.
pub proof fn lemma_edict_to_one_output_moves_the_smaller_amount(
    s: AllocState,
    e: Edict,
    etched: Option<RuneId>,
    op_return: Seq<bool>,
    id: RuneId,
)
    requires
        edict_rune(e, etched) == Some(id),
        e.output != op_return.len(),
        e.output < s.allocated.len(),
    ensures
        ({
            let t = apply_edict(s, e, etched, op_return);
            let left = bal(s.unallocated, id) as int;
            let moved = if e.amount == 0 {
                left
            } else {
                vstd::math::min(e.amount as int, left)
            };
            &&& t.allocated.len() == s.allocated.len()
            &&& bal(t.allocated[e.output as int], id) == bal(s.allocated[e.output as int], id) + moved
            &&& bal(t.unallocated, id) == left - moved
            &&& forall|o: int|
                0 <= o < s.allocated.len() && o != e.output ==> #[trigger] t.allocated[o] == s.allocated[o]
            &&& forall|r: RuneId|
                r != id ==> #[trigger] bal(t.unallocated, r) == bal(s.unallocated, r) && bal(
                    t.allocated[e.output as int],
                    r,
                ) == bal(s.allocated[e.output as int], r)
        }),
{
}

/// The share of the `j`-th of `n` destinations when `left` is split evenly: the quotient, and
/// one more for each of the first `left % n` destinations.
pub open spec fn even_share(left: nat, n: nat, j: int) -> nat {
    left / n + if j < left % n {
        1nat
    } else {
        0nat
    }
}

/// What is left of `left` after `k` destinations took `amount` each while there was enough.
pub open spec fn spread_left(left: nat, amount: nat, k: nat) -> nat {
    if left >= k * amount {
        (left - k * amount) as nat
    } else {
        0
    }
}

/// What the `j`-th destination receives when each in turn takes `amount` of `left`, or what
/// remains when less is left.
pub open spec fn spread_share(left: nat, amount: nat, j: nat) -> nat {
    vstd::math::min(amount as int, spread_left(left, amount, j) as int) as nat
}

proof fn lemma_split_k_effect(s: AllocState, id: RuneId, d: Seq<int>, q: nat, rem: nat, k: nat)
    requires
        k <= d.len(),
        rem < d.len(),
        bal(s.unallocated, id) == q * d.len() + rem,
        forall|i: int| 0 <= i < d.len() ==> 0 <= #[trigger] d[i] < s.allocated.len(),
        forall|i: int, j: int| 0 <= i < j < d.len() ==> #[trigger] d[i] < #[trigger] d[j],
    ensures
        split_k(s, id, d, q, rem, k).allocated.len() == s.allocated.len(),
        forall|o: int|
            0 <= o < s.allocated.len() && (forall|i: int| 0 <= i < d.len() ==> d[i] != o)
                ==> #[trigger] split_k(s, id, d, q, rem, k).allocated[o] == s.allocated[o],
        forall|j: int|
            0 <= j < d.len() ==> bal(#[trigger] split_k(s, id, d, q, rem, k).allocated[d[j]], id)
                == bal(s.allocated[d[j]], id) + if j < k {
                share(q, rem, j)
            } else {
                0
            },
        bal(split_k(s, id, d, q, rem, k).unallocated, id) + shares_upto(q, rem, k) == bal(
            s.unallocated,
            id,
        ),
    decreases k,
{
    if k > 0 {
        let km1 = (k - 1) as nat;
        let len = d.len();
        lemma_split_k_effect(s, id, d, q, rem, km1);
        let p = split_k(s, id, d, q, rem, km1);
        let sh = share(q, rem, km1 as int);
        assert(km1 * q + q == k * q) by (nonlinear_arith)
            requires
                k == km1 + 1,
        ;
        assert(shares_upto(q, rem, km1) + sh == shares_upto(q, rem, k));
        assert(shares_upto(q, rem, k) <= q * len + rem) by (nonlinear_arith)
            requires
                k <= len,
                rem < len,
                shares_upto(q, rem, k) == k * q + if k <= rem {
                    k
                } else {
                    rem
                },
        ;
        let t = split_k(s, id, d, q, rem, k);
        assert(t == allocate(p, id, sh, d[km1 as int]));
        assert forall|j: int| 0 <= j < d.len() implies bal(#[trigger] t.allocated[d[j]], id)
            == bal(s.allocated[d[j]], id) + if j < k {
            share(q, rem, j)
        } else {
            0
        } by {
            if j != km1 {
                if j < km1 {
                    assert(d[j] < d[km1 as int]);
                } else {
                    assert(d[km1 as int] < d[j]);
                }
            }
        }
        assert forall|o: int|
            0 <= o < s.allocated.len() && (forall|i: int| 0 <= i < d.len() ==> d[i] != o)
                implies #[trigger] t.allocated[o] == s.allocated[o] by {
            assert(d[km1 as int] != o);
        }
    } else {
        assert(k * q == 0) by (nonlinear_arith)
            requires
                k == 0,
        ;
    }
}

proof fn lemma_spread_left_step(left: nat, amount: nat, k: nat)
    requires
        amount > 0,
    ensures
        spread_left(left, amount, k + 1) == spread_left(left, amount, k) - spread_share(
            left,
            amount,
            k,
        ),
        spread_share(left, amount, k) <= spread_left(left, amount, k),
{
    let k1 = (k + 1) as nat;
    assert(k1 * amount == k * amount + amount) by (nonlinear_arith)
        requires
            k1 == k + 1,
    ;
}

proof fn lemma_spread_k_effect(s: AllocState, id: RuneId, d: Seq<int>, amount: nat, k: nat)
    requires
        amount > 0,
        k <= d.len(),
        forall|i: int| 0 <= i < d.len() ==> 0 <= #[trigger] d[i] < s.allocated.len(),
        forall|i: int, j: int| 0 <= i < j < d.len() ==> #[trigger] d[i] < #[trigger] d[j],
    ensures
        spread_k(s, id, d, amount, k).allocated.len() == s.allocated.len(),
        forall|o: int|
            0 <= o < s.allocated.len() && (forall|i: int| 0 <= i < d.len() ==> d[i] != o)
                ==> #[trigger] spread_k(s, id, d, amount, k).allocated[o] == s.allocated[o],
        forall|j: int|
            0 <= j < d.len() ==> bal(#[trigger] spread_k(s, id, d, amount, k).allocated[d[j]], id)
                == bal(s.allocated[d[j]], id) + if j < k {
                spread_share(bal(s.unallocated, id), amount, j as nat)
            } else {
                0
            },
        bal(spread_k(s, id, d, amount, k).unallocated, id) == spread_left(
            bal(s.unallocated, id),
            amount,
            k,
        ),
    decreases k,
{
    let b = bal(s.unallocated, id);
    if k > 0 {
        let km1 = (k - 1) as nat;
        lemma_spread_k_effect(s, id, d, amount, km1);
        lemma_spread_left_step(b, amount, km1);
        let p = spread_k(s, id, d, amount, km1);
        let left = bal(p.unallocated, id);
        let t = spread_k(s, id, d, amount, k);
        assert(t == allocate(p, id, if amount <= left { amount } else { left }, d[km1 as int]));
        assert((if amount <= left { amount } else { left }) == spread_share(b, amount, km1));
        assert forall|j: int| 0 <= j < d.len() implies bal(#[trigger] t.allocated[d[j]], id)
            == bal(s.allocated[d[j]], id) + if j < k {
            spread_share(b, amount, j as nat)
        } else {
            0
        } by {
            if j != km1 {
                if j < km1 {
                    assert(d[j] < d[km1 as int]);
                } else {
                    assert(d[km1 as int] < d[j]);
                }
            }
        }
        assert forall|o: int|
            0 <= o < s.allocated.len() && (forall|i: int| 0 <= i < d.len() ==> d[i] != o)
                implies #[trigger] t.allocated[o] == s.allocated[o] by {
            assert(d[km1 as int] != o);
        }
    } else {
        assert(k * amount == 0) by (nonlinear_arith)
            requires
                k == 0,
        ;
    }
}

/// An edict to every output moves the rune it names to the outputs that are not OP_RETURN
/// outputs, taken in increasing order: with an amount of zero, all that is left, split evenly,
/// the first ones getting one more while the remainder lasts; otherwise the amount to each
/// in turn while enough is left, and then what remains. OP_RETURN outputs get nothing. With no
/// such output nothing moves.
pub proof fn lemma_edict_to_every_output_splits_or_spreads(
    s: AllocState,
    e: Edict,
    etched: Option<RuneId>,
    op_return: Seq<bool>,
    id: RuneId,
)
    requires
        edict_rune(e, etched) == Some(id),
        e.output == op_return.len(),
        s.allocated.len() == op_return.len(),
    ensures
        ({
            let t = apply_edict(s, e, etched, op_return);
            let d = destinations(op_return);
            let n = d.len();
            let left = bal(s.unallocated, id);
            &&& forall|j: int| 0 <= j < n ==> 0 <= #[trigger] d[j] < op_return.len() && !op_return[d[j]]
            &&& forall|i: int, j: int| 0 <= i < j < n ==> #[trigger] d[i] < #[trigger] d[j]
            &&& forall|v: int| 0 <= v < op_return.len() && !op_return[v] ==> #[trigger] d.contains(v)
            &&& t.allocated.len() == s.allocated.len()
            &&& forall|o: int|
                0 <= o < op_return.len() && op_return[o] ==> #[trigger] t.allocated[o] == s.allocated[o]
            &&& forall|j: int|
                0 <= j < n ==> bal(#[trigger] t.allocated[d[j]], id) == bal(s.allocated[d[j]], id)
                    + if e.amount == 0 {
                    even_share(left, n, j)
                } else {
                    spread_share(left, e.amount as nat, j as nat)
                }
            &&& bal(t.unallocated, id) == if n == 0 {
                left
            } else if e.amount == 0 {
                0
            } else {
                spread_left(left, e.amount as nat, n)
            }
        }),
{
    let d = destinations(op_return);
    let n = d.len();
    let left = bal(s.unallocated, id);
    let t = apply_edict(s, e, etched, op_return);
    lemma_destinations(op_return);
    assert forall|o: int| 0 <= o < op_return.len() && op_return[o] implies (forall|i: int|
        0 <= i < d.len() ==> d[i] != o) by {
        assert forall|i: int| 0 <= i < d.len() implies d[i] != o by {
            assert(!op_return[d[i]]);
        }
    }
    if !s.unallocated.contains_key(id) {
        assert(t == s);
        assert(left == 0);
        if n > 0 {
            assert(0nat / n == 0 && 0nat % n == 0) by (nonlinear_arith)
                requires
                    n > 0,
            ;
        }
        assert forall|j: int| 0 <= j < n implies #[trigger] spread_share(0, e.amount as nat, j as nat) == 0 by {
            if e.amount > 0 {
                assert(j * e.amount >= 0) by (nonlinear_arith)
                    requires
                        j >= 0,
                ;
            }
        }
    } else if n == 0 {
        assert(t == s);
    } else if e.amount == 0 {
        let q = left / n;
        let rem = left % n;
        assert(left == q * n + rem && rem < n) by (nonlinear_arith)
            requires
                n > 0,
                q == left / n,
                rem == left % n,
        ;
        lemma_split_k_effect(s, id, d, q, rem, n);
        assert(shares_upto(q, rem, n) == n * q + rem);
        assert(n * q == q * n) by (nonlinear_arith);
    } else {
        lemma_spread_k_effect(s, id, d, e.amount as nat, n);
    }
}

/// The state after the edicts, in order.
pub open spec fn apply_edicts(
    s: AllocState,
    edicts: Seq<Edict>,
    etched: Option<RuneId>,
    op_return: Seq<bool>,
) -> AllocState
    decreases edicts.len(),
{
    if edicts.len() == 0 {
        s
    } else {
        apply_edict(
            apply_edicts(s, edicts.drop_last(), etched, op_return),
            edicts.last(),
            etched,
            op_return,
        )
    }
}

/// The sum of two balance maps.
pub open spec fn merge(a: Map<RuneId, nat>, b: Map<RuneId, nat>) -> Map<RuneId, nat> {
    Map::new(|k: RuneId| a.contains_key(k) || b.contains_key(k), |k: RuneId| bal(a, k) + bal(b, k))
}

/// The entries of `m` whose amount is not zero.
pub open spec fn positive(m: Map<RuneId, nat>) -> Map<RuneId, nat> {
    Map::new(|k: RuneId| m.contains_key(k) && m[k] > 0, |k: RuneId| m[k])
}

/// `burned` plus everything allocated to the OP_RETURN outputs among the first `k`.
pub open spec fn burn_op_returns(
    burned: Map<RuneId, nat>,
    allocated: Seq<Map<RuneId, nat>>,
    op_return: Seq<bool>,
    k: nat,
) -> Map<RuneId, nat>
    decreases k,
{
    if k == 0 {
        burned
    } else {
        let b = burn_op_returns(burned, allocated, op_return, (k - 1) as nat);
        if op_return[k - 1] {
            merge(b, allocated[k - 1])
        } else {
            b
        }
    }
}

/// The output that receives what the edicts left: the pointer, or else the first output that
/// is not an OP_RETURN.
pub open spec fn default_output(pointer: Option<u32>, op_return: Seq<bool>) -> Option<int> {
    match pointer {
        Some(p) => Some(p as int),
        None => if destinations(op_return).len() > 0 {
            Some(destinations(op_return)[0])
        } else {
            None
        },
    }
}

/// The edicts of a runestone; none for a cenotaph or no artifact.
pub open spec fn artifact_edicts(a: Option<Artifact>) -> Seq<Edict> {
    match a {
        Some(Artifact::Runestone { edicts, .. }) => edicts@,
        _ => Seq::empty(),
    }
}

/// The pointer of a runestone; none for a cenotaph or no artifact.
pub open spec fn artifact_pointer(a: Option<Artifact>) -> Option<u32> {
    match a {
        Some(Artifact::Runestone { pointer, .. }) => pointer,
        _ => None,
    }
}

/// The unallocated balances before the edicts: the inputs' runes, plus the mint, plus the
/// premine of a rune etched by a runestone.
pub open spec fn initial_unallocated(
    inputs: Map<RuneId, nat>,
    artifact: Option<Artifact>,
    minted: Option<(RuneId, u128)>,
    etched: Option<RuneId>,
) -> Map<RuneId, nat> {
    let m = match minted {
        Some((id, amount)) => credit(inputs, id, amount as nat),
        None => inputs,
    };
    match (artifact, etched) {
        (Some(a), Some(id)) => if a is Runestone {
            credit(m, id, artifact_premine(a) as nat)
        } else {
            m
        },
        _ => m,
    }
}

/// `n` empty balance maps.
pub open spec fn empty_outputs(n: nat) -> Seq<Map<RuneId, nat>> {
    Seq::new(n, |i: int| Map::<RuneId, nat>::empty())
}

/// What each output receives and what is burned when a transaction with the given
/// OP_RETURN flags for its outputs spends `inputs`.
pub open spec fn spec_allocation(
    inputs: Map<RuneId, nat>,
    artifact: Option<Artifact>,
    minted: Option<(RuneId, u128)>,
    etched: Option<RuneId>,
    op_return: Seq<bool>,
) -> (Seq<Map<RuneId, nat>>, Map<RuneId, nat>) {
    let start = AllocState {
        unallocated: initial_unallocated(inputs, artifact, minted, etched),
        allocated: empty_outputs(op_return.len()),
    };
    match artifact {
        Some(Artifact::Cenotaph { .. }) => (
            start.allocated,
            burn_op_returns(start.unallocated, start.allocated, op_return, op_return.len()),
        ),
        _ => {
            let (edicts, pointer) = match artifact {
                Some(Artifact::Runestone { edicts, pointer, .. }) => (edicts@, pointer),
                _ => (Seq::empty(), None),
            };
            let s = apply_edicts(start, edicts, etched, op_return);
            let (allocated, burned) = match default_output(pointer, op_return) {
                Some(v) => (
                    s.allocated.update(v, merge(s.allocated[v], positive(s.unallocated))),
                    Map::empty(),
                ),
                None => (s.allocated, positive(s.unallocated)),
            };
            (allocated, burn_op_returns(burned, allocated, op_return, op_return.len()))
        },
    }
}

/// The amount of `id` held by the first `k` outputs.
pub open spec fn sum_all(allocated: Seq<Map<RuneId, nat>>, id: RuneId, k: nat) -> nat
    decreases k,
{
    if k == 0 {
        0
    } else {
        sum_all(allocated, id, (k - 1) as nat) + bal(allocated[k - 1], id)
    }
}

/// The amount of `id` held by the first `k` outputs that are not OP_RETURN outputs.
pub open spec fn sum_kept(
    allocated: Seq<Map<RuneId, nat>>,
    op_return: Seq<bool>,
    id: RuneId,
    k: nat,
) -> nat
    decreases k,
{
    if k == 0 {
        0
    } else {
        sum_kept(allocated, op_return, id, (k - 1) as nat) + if op_return[k - 1] {
            0
        } else {
            bal(allocated[k - 1], id)
        }
    }
}

/// Every unit of every rune is either still unallocated or held by one of the `n` outputs,
/// and the total of each rune is that of `total`.
pub open spec fn conserved(s: AllocState, total: Map<RuneId, nat>, n: nat) -> bool {
    &&& s.allocated.len() == n
    &&& forall|id: RuneId| #[trigger]
        bal(total, id) == bal(s.unallocated, id) + sum_all(s.allocated, id, n)
}

proof fn lemma_sum_all_update(a: Seq<Map<RuneId, nat>>, v: int, m: Map<RuneId, nat>, id: RuneId, k: nat)
    requires
        0 <= v < a.len(),
        k <= a.len(),
    ensures
        v < k ==> sum_all(a.update(v, m), id, k) + bal(a[v], id) == sum_all(a, id, k) + bal(m, id),
        v >= k ==> sum_all(a.update(v, m), id, k) == sum_all(a, id, k),
    decreases k,
{
    if k > 0 {
        lemma_sum_all_update(a, v, m, id, (k - 1) as nat);
    }
}

proof fn lemma_term_le_sum(a: Seq<Map<RuneId, nat>>, v: int, id: RuneId, k: nat)
    requires
        0 <= v < k,
    ensures
        bal(a[v], id) <= sum_all(a, id, k),
    decreases k,
{
    if v < k - 1 {
        lemma_term_le_sum(a, v, id, (k - 1) as nat);
    }
}

proof fn lemma_allocate_conserves(
    s: AllocState,
    total: Map<RuneId, nat>,
    n: nat,
    id: RuneId,
    amount: nat,
    output: int,
)
    requires
        conserved(s, total, n),
        0 <= output < n,
        amount > 0 ==> s.unallocated.contains_key(id) && amount <= s.unallocated[id],
    ensures
        conserved(allocate(s, id, amount, output), total, n),
        allocate(s, id, amount, output).unallocated.dom() == s.unallocated.dom(),
{
    let t = allocate(s, id, amount, output);
    if amount > 0 {
        assert(t.unallocated.dom() =~= s.unallocated.dom());
        assert forall|x: RuneId| #[trigger]
            bal(total, x) == bal(t.unallocated, x) + sum_all(t.allocated, x, n) by {
            lemma_sum_all_update(
                s.allocated,
                output,
                credit(s.allocated[output], id, amount),
                x,
                n,
            );
        }
    }
}

/// The shares given to the first `k` of `n` destinations when `q * n + rem` is split.
pub open spec fn shares_upto(q: nat, rem: nat, k: nat) -> nat {
    k * q + if k <= rem {
        k
    } else {
        rem
    }
}

proof fn lemma_split_k(
    s: AllocState,
    total: Map<RuneId, nat>,
    n: nat,
    id: RuneId,
    d: Seq<int>,
    q: nat,
    rem: nat,
    k: nat,
)
    requires
        conserved(s, total, n),
        s.unallocated.contains_key(id),
        d.len() > 0,
        s.unallocated[id] == q * d.len() + rem,
        rem < d.len(),
        k <= d.len(),
        forall|i: int| 0 <= i < d.len() ==> 0 <= #[trigger] d[i] < n,
    ensures
        conserved(split_k(s, id, d, q, rem, k), total, n),
        split_k(s, id, d, q, rem, k).unallocated.dom() == s.unallocated.dom(),
        split_k(s, id, d, q, rem, k).unallocated[id] + shares_upto(q, rem, k) == s.unallocated[id],
        k < d.len() ==> share(q, rem, k as int) <= split_k(s, id, d, q, rem, k).unallocated[id],
    decreases k,
{
    let len = d.len();
    if k < len {
        let k1 = (k + 1) as nat;
        assert(k1 * q == k * q + q) by (nonlinear_arith)
            requires
                k1 == k + 1,
        ;
        assert(shares_upto(q, rem, k) + share(q, rem, k as int) == shares_upto(q, rem, k1));
        assert(shares_upto(q, rem, k1) <= q * len + rem) by (nonlinear_arith)
            requires
                k1 <= len,
                rem < len,
                shares_upto(q, rem, k1) == k1 * q + if k1 <= rem {
                    k1
                } else {
                    rem
                },
        ;
    }
    if k > 0 {
        let km1 = (k - 1) as nat;
        lemma_split_k(s, total, n, id, d, q, rem, km1);
        let p = split_k(s, id, d, q, rem, km1);
        let len = d.len();
        assert(km1 * q + q == k * q) by (nonlinear_arith)
            requires
                k == km1 + 1,
        ;
        assert(shares_upto(q, rem, km1) + share(q, rem, km1 as int) == shares_upto(q, rem, k));
        assert(shares_upto(q, rem, k) <= q * len + rem) by (nonlinear_arith)
            requires
                k <= len,
                rem < len,
                shares_upto(q, rem, k) == k * q + if k <= rem {
                    k
                } else {
                    rem
                },
        ;
        lemma_allocate_conserves(p, total, n, id, share(q, rem, km1 as int), d[km1 as int]);
        let sh = share(q, rem, km1 as int);
        assert(sh <= p.unallocated[id]);
        assert(split_k(s, id, d, q, rem, k) == allocate(p, id, sh, d[km1 as int]));
        if sh > 0 {
            assert(split_k(s, id, d, q, rem, k).unallocated[id] == p.unallocated[id] - sh);
        }
        assert(p.unallocated[id] + shares_upto(q, rem, km1) == s.unallocated[id]);
    } else {
        assert(k * q == 0) by (nonlinear_arith)
            requires
                k == 0,
        ;
        assert(shares_upto(q, rem, k) == 0);
    }
}

proof fn lemma_spread_k(
    s: AllocState,
    total: Map<RuneId, nat>,
    n: nat,
    id: RuneId,
    d: Seq<int>,
    amount: nat,
    k: nat,
)
    requires
        conserved(s, total, n),
        s.unallocated.contains_key(id),
        k <= d.len(),
        forall|i: int| 0 <= i < d.len() ==> 0 <= #[trigger] d[i] < n,
    ensures
        conserved(spread_k(s, id, d, amount, k), total, n),
        spread_k(s, id, d, amount, k).unallocated.dom() == s.unallocated.dom(),
    decreases k,
{
    if k > 0 {
        let km1 = (k - 1) as nat;
        lemma_spread_k(s, total, n, id, d, amount, km1);
        let p = spread_k(s, id, d, amount, km1);
        let left = bal(p.unallocated, id);
        lemma_allocate_conserves(
            p,
            total,
            n,
            id,
            if amount <= left {
                amount
            } else {
                left
            },
            d[km1 as int],
        );
    }
}

proof fn lemma_destinations(op_return: Seq<bool>)
    ensures
        forall|i: int|
            0 <= i < destinations(op_return).len() ==> 0 <= #[trigger] destinations(op_return)[i]
                < op_return.len() && !op_return[destinations(op_return)[i]],
        forall|i: int, j: int|
            0 <= i < j < destinations(op_return).len() ==> #[trigger] destinations(op_return)[i]
                < #[trigger] destinations(op_return)[j],
        forall|v: int|
            0 <= v < op_return.len() && !op_return[v] ==> #[trigger] destinations(
                op_return,
            ).contains(v),
    decreases op_return.len(),
{
    if op_return.len() > 0 {
        let prev = op_return.drop_last();
        lemma_destinations(prev);
        let d = destinations(op_return);
        assert(prev.len() == op_return.len() - 1);
        assert(d == if !op_return.last() {
            destinations(prev).push(op_return.len() - 1)
        } else {
            destinations(prev)
        });
        assert forall|v: int|
            0 <= v < op_return.len() && !op_return[v] implies #[trigger] d.contains(v) by {
            if v < op_return.len() - 1 {
                assert(prev[v] == op_return[v]);
                assert(!prev[v]);
                assert(destinations(prev).contains(v));
                let j = choose|j: int| 0 <= j < destinations(prev).len() && destinations(prev)[j] == v;
                assert(d[j] == v);
            } else {
                assert(d[d.len() - 1] == v);
            }
        }
    }
}

proof fn lemma_apply_edict_conserves(
    s: AllocState,
    total: Map<RuneId, nat>,
    e: Edict,
    etched: Option<RuneId>,
    op_return: Seq<bool>,
)
    requires
        conserved(s, total, op_return.len()),
        e.output <= op_return.len(),
    ensures
        conserved(apply_edict(s, e, etched, op_return), total, op_return.len()),
        apply_edict(s, e, etched, op_return).unallocated.dom() == s.unallocated.dom(),
{
    let n = op_return.len();
    match edict_rune(e, etched) {
        None => {},
        Some(id) => if s.unallocated.contains_key(id) {
            let balance = s.unallocated[id];
            if e.output == n {
                let d = destinations(op_return);
                lemma_destinations(op_return);
                if d.len() > 0 {
                    if e.amount == 0 {
                        let len = d.len();
                        assert(balance == (balance / len) * len + balance % len) by (nonlinear_arith)
                            requires
                                len > 0,
                        ;
                        assert(balance / len * len == len * (balance / len)) by (nonlinear_arith);
                        lemma_split_k(s, total, n, id, d, balance / len, balance % len, len);
                    } else {
                        lemma_spread_k(s, total, n, id, d, e.amount as nat, d.len());
                    }
                }
            } else {
                lemma_allocate_conserves(
                    s,
                    total,
                    n,
                    id,
                    if e.amount == 0 {
                        balance
                    } else if e.amount <= balance {
                        e.amount as nat
                    } else {
                        balance
                    },
                    e.output as int,
                );
            }
        },
    }
}

proof fn lemma_apply_edicts_conserves(
    s: AllocState,
    total: Map<RuneId, nat>,
    edicts: Seq<Edict>,
    etched: Option<RuneId>,
    op_return: Seq<bool>,
)
    requires
        conserved(s, total, op_return.len()),
        forall|i: int| 0 <= i < edicts.len() ==> #[trigger] edicts[i].output <= op_return.len(),
    ensures
        conserved(apply_edicts(s, edicts, etched, op_return), total, op_return.len()),
        apply_edicts(s, edicts, etched, op_return).unallocated.dom() == s.unallocated.dom(),
    decreases edicts.len(),
{
    if edicts.len() > 0 {
        let prev = edicts.drop_last();
        assert forall|i: int| 0 <= i < prev.len() implies #[trigger] prev[i].output <= op_return.len() by {
            assert(prev[i] == edicts[i]);
        }
        lemma_apply_edicts_conserves(s, total, prev, etched, op_return);
        assert(edicts.last() == edicts[edicts.len() - 1]);
        lemma_apply_edict_conserves(
            apply_edicts(s, prev, etched, op_return),
            total,
            edicts.last(),
            etched,
            op_return,
        );
    }
}

proof fn lemma_bal_merge(a: Map<RuneId, nat>, b: Map<RuneId, nat>, id: RuneId)
    ensures
        bal(merge(a, b), id) == bal(a, id) + bal(b, id),
{
}

proof fn lemma_bal_positive(m: Map<RuneId, nat>, id: RuneId)
    ensures
        bal(positive(m), id) == bal(m, id),
{
}

proof fn lemma_sum_all_empty(n: nat, id: RuneId, k: nat)
    requires
        k <= n,
    ensures
        sum_all(empty_outputs(n), id, k) == 0,
    decreases k,
{
    if k > 0 {
        lemma_sum_all_empty(n, id, (k - 1) as nat);
    }
}

proof fn lemma_burn_op_returns(
    b: Map<RuneId, nat>,
    a: Seq<Map<RuneId, nat>>,
    op_return: Seq<bool>,
    id: RuneId,
    k: nat,
)
    requires
        k <= op_return.len(),
    ensures
        bal(burn_op_returns(b, a, op_return, k), id) + sum_kept(a, op_return, id, k) == bal(b, id)
            + sum_all(a, id, k),
    decreases k,
{
    if k > 0 {
        lemma_burn_op_returns(b, a, op_return, id, (k - 1) as nat);
        lemma_bal_merge(burn_op_returns(b, a, op_return, (k - 1) as nat), a[k - 1], id);
    }
}

proof fn lemma_sum_kept_empty(n: nat, op_return: Seq<bool>, id: RuneId, k: nat)
    requires
        k <= n,
    ensures
        sum_kept(empty_outputs(n), op_return, id, k) == 0,
    decreases k,
{
    if k > 0 {
        lemma_sum_kept_empty(n, op_return, id, (k - 1) as nat);
    }
}

/// A cenotaph gives no output any rune: everything the transaction holds, with what it mints,
/// is burned.
pub proof fn lemma_cenotaph_burns_everything(
    inputs: Map<RuneId, nat>,
    artifact: Option<Artifact>,
    minted: Option<(RuneId, u128)>,
    etched: Option<RuneId>,
    op_return: Seq<bool>,
    id: RuneId,
)
    requires
        artifact matches Some(Artifact::Cenotaph { .. }),
    ensures
        spec_allocation(inputs, artifact, minted, etched, op_return).0.len() == op_return.len(),
        forall|o: int|
            0 <= o < op_return.len() ==> bal(
                #[trigger] spec_allocation(inputs, artifact, minted, etched, op_return).0[o],
                id,
            ) == 0,
        bal(spec_allocation(inputs, artifact, minted, etched, op_return).1, id) == bal(inputs, id)
            + match minted {
            Some((m, a)) => if m == id {
                a as int
            } else {
                0
            },
            None => 0,
        },
{
    let n = op_return.len();
    let total = initial_unallocated(inputs, artifact, minted, etched);
    lemma_burn_op_returns(total, empty_outputs(n), op_return, id, n);
    lemma_sum_all_empty(n, id, n);
    lemma_sum_kept_empty(n, op_return, id, n);
}

/// What a transaction holds before its edicts: for every rune, what its inputs hold, plus the
/// amount it mints of that rune, plus the premine when a runestone etches that rune.
pub proof fn lemma_unallocated_holds_inputs_mint_and_premine(
    inputs: Map<RuneId, nat>,
    artifact: Option<Artifact>,
    minted: Option<(RuneId, u128)>,
    etched: Option<RuneId>,
    id: RuneId,
)
    ensures
        bal(initial_unallocated(inputs, artifact, minted, etched), id) == bal(inputs, id) + (match minted {
            Some((m, a)) => if m == id {
                a as int
            } else {
                0
            },
            None => 0,
        }) + (match (artifact, etched) {
            (Some(a), Some(e)) => if e == id && a is Runestone {
                artifact_premine(a) as int
            } else {
                0
            },
            _ => 0,
        }),
{
}

/// The output that receives what the edicts leave is the pointer when there is one, and
/// otherwise the first output that is not an OP_RETURN output; there is none when every
/// output is an OP_RETURN output and no pointer is given.
pub proof fn lemma_default_output_is_pointer_or_first_kept(pointer: Option<u32>, op_return: Seq<bool>)
    ensures
        pointer matches Some(p) ==> default_output(pointer, op_return) == Some(p as int),
        pointer is None ==> (default_output(pointer, op_return) is None <==> forall|v: int|
            0 <= v < op_return.len() ==> #[trigger] op_return[v]),
        pointer is None && default_output(pointer, op_return) is Some ==> ({
            let v = default_output(pointer, op_return)->0;
            &&& 0 <= v < op_return.len()
            &&& !op_return[v]
            &&& forall|u: int| 0 <= u < v ==> #[trigger] op_return[u]
        }),
{
    lemma_destinations(op_return);
    let d = destinations(op_return);
    if pointer is None {
        if d.len() > 0 {
            let v = d[0];
            assert forall|u: int| 0 <= u < v implies #[trigger] op_return[u] by {
                if !op_return[u] {
                    assert(d.contains(u));
                    let i = choose|i: int| 0 <= i < d.len() && d[i] == u;
                    if i > 0 {
                        assert(d[0] < d[i]);
                    }
                }
            }
            assert(!op_return[v]);
        } else {
            assert forall|v: int| 0 <= v < op_return.len() implies #[trigger] op_return[v] by {
                if !op_return[v] {
                    assert(d.contains(v));
                }
            }
        }
    }
}

proof fn lemma_split_k_len(s: AllocState, id: RuneId, d: Seq<int>, q: nat, rem: nat, k: nat)
    requires
        k <= d.len(),
        forall|i: int| 0 <= i < d.len() ==> 0 <= #[trigger] d[i] < s.allocated.len(),
    ensures
        split_k(s, id, d, q, rem, k).allocated.len() == s.allocated.len(),
    decreases k,
{
    if k > 0 {
        lemma_split_k_len(s, id, d, q, rem, (k - 1) as nat);
    }
}

proof fn lemma_spread_k_len(s: AllocState, id: RuneId, d: Seq<int>, amount: nat, k: nat)
    requires
        k <= d.len(),
        forall|i: int| 0 <= i < d.len() ==> 0 <= #[trigger] d[i] < s.allocated.len(),
    ensures
        spread_k(s, id, d, amount, k).allocated.len() == s.allocated.len(),
    decreases k,
{
    if k > 0 {
        lemma_spread_k_len(s, id, d, amount, (k - 1) as nat);
    }
}

proof fn lemma_apply_edicts_len(s: AllocState, edicts: Seq<Edict>, etched: Option<RuneId>, op_return: Seq<bool>)
    requires
        s.allocated.len() == op_return.len(),
        forall|i: int| 0 <= i < edicts.len() ==> #[trigger] edicts[i].output <= op_return.len(),
    ensures
        apply_edicts(s, edicts, etched, op_return).allocated.len() == s.allocated.len(),
    decreases edicts.len(),
{
    if edicts.len() > 0 {
        let front = edicts.drop_last();
        assert forall|i: int| 0 <= i < front.len() implies #[trigger] front[i].output <= op_return.len() by {
            assert(front[i] == edicts[i]);
        }
        lemma_apply_edicts_len(s, front, etched, op_return);
        let p = apply_edicts(s, front, etched, op_return);
        let e = edicts.last();
        assert(e.output <= op_return.len());
        lemma_destinations(op_return);
        match edict_rune(e, etched) {
            Some(id) => if p.unallocated.contains_key(id) {
                let balance = p.unallocated[id];
                let d = destinations(op_return);
                if d.len() > 0 {
                    lemma_split_k_len(p, id, d, balance / d.len(), balance % d.len(), d.len());
                    lemma_spread_k_len(p, id, d, e.amount as nat, d.len());
                }
            },
            None => {},
        }
    }
}

/// After the edicts of a runestone, what is left goes whole to the default output, adding to
/// what the edicts gave it; every other output keeps what the edicts gave it. With no default
/// output, no output gets more than the edicts gave it.
pub proof fn lemma_leftover_goes_to_default_output(
    inputs: Map<RuneId, nat>,
    artifact: Option<Artifact>,
    minted: Option<(RuneId, u128)>,
    etched: Option<RuneId>,
    op_return: Seq<bool>,
    id: RuneId,
)
    requires
        !(artifact matches Some(Artifact::Cenotaph { .. })),
        forall|i: int|
            0 <= i < artifact_edicts(artifact).len() ==> #[trigger] artifact_edicts(artifact)[i].output
                <= op_return.len(),
        default_output(artifact_pointer(artifact), op_return) matches Some(v) ==> 0 <= v
            < op_return.len(),
    ensures
        ({
            let start = AllocState {
                unallocated: initial_unallocated(inputs, artifact, minted, etched),
                allocated: empty_outputs(op_return.len()),
            };
            let s = apply_edicts(start, artifact_edicts(artifact), etched, op_return);
            let out = spec_allocation(inputs, artifact, minted, etched, op_return).0;
            match default_output(artifact_pointer(artifact), op_return) {
                Some(v) => {
                    &&& out.len() == s.allocated.len()
                    &&& bal(out[v], id) == bal(s.allocated[v], id) + bal(s.unallocated, id)
                    &&& forall|o: int| 0 <= o < out.len() && o != v ==> #[trigger] out[o] == s.allocated[o]
                },
                None => out == s.allocated,
            }
        }),
{
    match default_output(artifact_pointer(artifact), op_return) {
        Some(v) => {
            let start = AllocState {
                unallocated: initial_unallocated(inputs, artifact, minted, etched),
                allocated: empty_outputs(op_return.len()),
            };
            let s = apply_edicts(start, artifact_edicts(artifact), etched, op_return);
            lemma_apply_edicts_len(start, artifact_edicts(artifact), etched, op_return);
            lemma_bal_merge(s.allocated[v], positive(s.unallocated), id);
            lemma_bal_positive(s.unallocated, id);
        },
        None => {},
    }
}

/// The runes of a transaction are conserved: for every rune, what the inputs held plus what
/// was minted and premined equals what the outputs that are not OP_RETURN outputs receive plus
/// what is burned.
pub proof fn lemma_allocation_conserves_runes(
    inputs: Map<RuneId, nat>,
    artifact: Option<Artifact>,
    minted: Option<(RuneId, u128)>,
    etched: Option<RuneId>,
    op_return: Seq<bool>,
    id: RuneId,
)
    requires
        artifact matches Some(Artifact::Runestone { edicts, pointer, .. }) ==> (forall|i: int|
            0 <= i < edicts@.len() ==> #[trigger] edicts@[i].output <= op_return.len()) && (
        pointer matches Some(p) ==> p < op_return.len()),
    ensures
        bal(initial_unallocated(inputs, artifact, minted, etched), id) == sum_kept(
            spec_allocation(inputs, artifact, minted, etched, op_return).0,
            op_return,
            id,
            op_return.len(),
        ) + bal(spec_allocation(inputs, artifact, minted, etched, op_return).1, id),
{
    let n = op_return.len();
    let total = initial_unallocated(inputs, artifact, minted, etched);
    let start = AllocState { unallocated: total, allocated: empty_outputs(n) };
    assert forall|x: RuneId| #[trigger]
        bal(total, x) == bal(start.unallocated, x) + sum_all(start.allocated, x, n) by {
        lemma_sum_all_empty(n, x, n);
    }
    assert(conserved(start, total, n));
    let (alloc, burned) = spec_allocation(inputs, artifact, minted, etched, op_return);
    match artifact {
        Some(Artifact::Cenotaph { .. }) => {
            lemma_burn_op_returns(total, start.allocated, op_return, id, n);
            lemma_sum_all_empty(n, id, n);
        },
        _ => {
            let (edicts, pointer) = match artifact {
                Some(Artifact::Runestone { edicts, pointer, .. }) => (edicts@, pointer),
                _ => (Seq::empty(), None),
            };
            lemma_apply_edicts_conserves(start, total, edicts, etched, op_return);
            let st = apply_edicts(start, edicts, etched, op_return);
            assert(bal(total, id) == bal(st.unallocated, id) + sum_all(st.allocated, id, n));
            lemma_destinations(op_return);
            match default_output(pointer, op_return) {
                Some(v) => {
                    if pointer is None {
                        assert(0 <= destinations(op_return)[0] < n);
                    }
                    let m = merge(st.allocated[v], positive(st.unallocated));
                    lemma_sum_all_update(st.allocated, v, m, id, n);
                    lemma_bal_merge(st.allocated[v], positive(st.unallocated), id);
                    lemma_bal_positive(st.unallocated, id);
                    lemma_burn_op_returns(
                        Map::empty(),
                        st.allocated.update(v, m),
                        op_return,
                        id,
                        n,
                    );
                },
                None => {
                    lemma_bal_positive(st.unallocated, id);
                    lemma_burn_op_returns(
                        positive(st.unallocated),
                        st.allocated,
                        op_return,
                        id,
                        n,
                    );
                },
            }
        },
    }
}

/// The state that an unallocated balance and a list of output balances stand for.
pub open spec fn state_of(unallocated: Balances, allocated: Seq<Balances>) -> AllocState {
    AllocState { unallocated: unallocated@, allocated: views(allocated) }
}

/// Every rune's total fits in a `u128`.
pub open spec fn bounded(total: Map<RuneId, nat>) -> bool {
    forall|id: RuneId| #[trigger] bal(total, id) <= u128::MAX
}

fn credit_output(allocated: &mut Vec<Balances>, output: usize, id: RuneId, amount: u128)
    requires
        output < old(allocated)@.len(),
        bal(old(allocated)@[output as int]@, id) + amount <= u128::MAX,
    ensures
        views(final(allocated)@) == views(old(allocated)@).update(
            output as int,
            credit(old(allocated)@[output as int]@, id, amount as nat),
        ),
        final(allocated)@.len() == old(allocated)@.len(),
{
    let mut b = Balances::new();
    std::mem::swap(&mut b, &mut allocated[output]);
    b.credit(id, amount);
    allocated.set(output, b);
    assert(views(allocated@) =~= views(old(allocated)@).update(
        output as int,
        credit(old(allocated)@[output as int]@, id, amount as nat),
    ));
}

fn exec_allocate(
    unallocated: &mut Balances,
    allocated: &mut Vec<Balances>,
    id: RuneId,
    amount: u128,
    output: usize,
    Ghost(total): Ghost<Map<RuneId, nat>>,
)
    requires
        conserved(state_of(*old(unallocated), old(allocated)@), total, old(allocated)@.len() as nat),
        bounded(total),
        output < old(allocated)@.len(),
        amount > 0 ==> old(unallocated)@.contains_key(id) && amount <= old(unallocated)@[id],
    ensures
        state_of(*final(unallocated), final(allocated)@) == allocate(
            state_of(*old(unallocated), old(allocated)@),
            id,
            amount as nat,
            output as int,
        ),
        final(allocated)@.len() == old(allocated)@.len(),
{
    if amount > 0 {
        let ghost n = allocated@.len() as nat;
        proof {
            lemma_term_le_sum(views(allocated@), output as int, id, n);
            assert(bal(total, id) == bal(unallocated@, id) + sum_all(views(allocated@), id, n));
            assert(views(allocated@)[output as int] == allocated@[output as int]@);
        }
        unallocated.debit(id, amount);
        credit_output(allocated, output, id, amount);
    }
}

/// The indices of the outputs that are not OP_RETURN outputs, in increasing order.
fn exec_destinations(op_return: &Vec<bool>) -> (d: Vec<usize>)
    ensures
        d@.len() == destinations(op_return@).len(),
        forall|i: int| 0 <= i < d@.len() ==> #[trigger] d@[i] as int == destinations(op_return@)[i],
{
    let mut d: Vec<usize> = Vec::new();
    let mut i: usize = 0;
    while i < op_return.len()
        invariant
            i <= op_return@.len(),
            d@.len() == destinations(op_return@.subrange(0, i as int)).len(),
            forall|j: int| 0 <= j < d@.len() ==> #[trigger] d@[j] as int == destinations(
                op_return@.subrange(0, i as int),
            )[j],
        decreases op_return@.len() - i,
    {
        proof {
            assert(op_return@.subrange(0, i + 1).drop_last() =~= op_return@.subrange(0, i as int));
        }
        if !op_return[i] {
            d.push(i);
        }
        i = i + 1;
    }
    assert(op_return@.subrange(0, op_return@.len() as int) =~= op_return@);
    d
}

fn exec_apply_edict(
    unallocated: &mut Balances,
    allocated: &mut Vec<Balances>,
    e: Edict,
    etched: Option<RuneId>,
    op_return: &Vec<bool>,
    dests: &Vec<usize>,
    Ghost(total): Ghost<Map<RuneId, nat>>,
)
    requires
        conserved(state_of(*old(unallocated), old(allocated)@), total, op_return@.len()),
        bounded(total),
        e.output <= op_return@.len(),
        dests@.len() == destinations(op_return@).len(),
        forall|i: int| 0 <= i < dests@.len() ==> #[trigger] dests@[i] as int == destinations(
            op_return@,
        )[i],
    ensures
        state_of(*final(unallocated), final(allocated)@) == apply_edict(
            state_of(*old(unallocated), old(allocated)@),
            e,
            etched,
            op_return@,
        ),
        conserved(state_of(*final(unallocated), final(allocated)@), total, op_return@.len()),
{
    let ghost s0 = state_of(*unallocated, allocated@);
    let ghost n = op_return@.len();
    proof {
        lemma_apply_edict_conserves(s0, total, e, etched, op_return@);
        lemma_destinations(op_return@);
    }
    let id = if e.id.block == 0 && e.id.tx == 0 {
        match etched {
            None => {
                return ;
            },
            Some(x) => x,
        }
    } else {
        e.id
    };
    let balance = match unallocated.get(id) {
        None => {
            return ;
        },
        Some(b) => b,
    };
    if e.output as usize == op_return.len() {
        let len = dests.len();
        if len == 0 {
            return ;
        }
        let ghost d = destinations(op_return@);
        if e.amount == 0 {
            let q = balance / (len as u128);
            let rem = balance % (len as u128);
            proof {
                assert(balance == (balance / len as u128) * len + balance % len as u128) by (
                nonlinear_arith)
                    requires
                        len > 0,
                ;
                assert(balance / len as u128 * len == len * (balance / len as u128)) by (
                nonlinear_arith);
            }
            let mut i: usize = 0;
            while i < len
                invariant
                    i <= len,
                    len == d.len(),
                    len == dests@.len(),
                    len > 0,
                    n == op_return@.len(),
                    s0.unallocated.contains_key(id),
                    s0.unallocated[id] == balance,
                    balance == q * len + rem,
                    rem < len,
                    conserved(s0, total, n),
                    bounded(total),
                    forall|j: int| 0 <= j < len ==> #[trigger] dests@[j] as int == d[j],
                    forall|j: int| 0 <= j < d.len() ==> 0 <= #[trigger] d[j] < n,
                    state_of(*unallocated, allocated@) == split_k(
                        s0,
                        id,
                        d,
                        q as nat,
                        rem as nat,
                        i as nat,
                    ),
                decreases len - i,
            {
                proof {
                    lemma_split_k(s0, total, n, id, d, q as nat, rem as nat, i as nat);
                }
                let amount = if (i as u128) < rem {
                    q + 1
                } else {
                    q
                };
                exec_allocate(unallocated, allocated, id, amount, dests[i], Ghost(total));
                i = i + 1;
            }
        } else {
            let mut i: usize = 0;
            while i < len
                invariant
                    i <= len,
                    len == d.len(),
                    len == dests@.len(),
                    n == op_return@.len(),
                    s0.unallocated.contains_key(id),
                    conserved(s0, total, n),
                    bounded(total),
                    forall|j: int| 0 <= j < len ==> #[trigger] dests@[j] as int == d[j],
                    forall|j: int| 0 <= j < d.len() ==> 0 <= #[trigger] d[j] < n,
                    state_of(*unallocated, allocated@) == spread_k(
                        s0,
                        id,
                        d,
                        e.amount as nat,
                        i as nat,
                    ),
                decreases len - i,
            {
                proof {
                    lemma_spread_k(s0, total, n, id, d, e.amount as nat, i as nat);
                }
                let left = match unallocated.get(id) {
                    Some(b) => b,
                    None => 0,
                };
                let amount = if e.amount <= left {
                    e.amount
                } else {
                    left
                };
                exec_allocate(unallocated, allocated, id, amount, dests[i], Ghost(total));
                i = i + 1;
            }
        }
    } else {
        let amount = if e.amount == 0 {
            balance
        } else if e.amount <= balance {
            e.amount
        } else {
            balance
        };
        exec_allocate(unallocated, allocated, id, amount, e.output as usize, Ghost(total));
    }
}

proof fn lemma_sum_all_mono(a: Seq<Map<RuneId, nat>>, id: RuneId, k: nat, n: nat)
    requires
        k <= n,
    ensures
        sum_all(a, id, k) <= sum_all(a, id, n),
    decreases n,
{
    if k < n {
        lemma_sum_all_mono(a, id, k, (n - 1) as nat);
    }
}

/// `m` itself, or its entries whose amount is not zero.
pub open spec fn select(m: Map<RuneId, nat>, only_positive: bool) -> Map<RuneId, nat> {
    if only_positive {
        positive(m)
    } else {
        m
    }
}

/// Adds the balances of `src` (only those not zero, with `only_positive`) to `target`.
fn merge_into(target: &mut Balances, src: &Balances, only_positive: bool)
    requires
        forall|id: RuneId| #[trigger] bal(old(target)@, id) + bal(src@, id) <= u128::MAX,
    ensures
        final(target)@ == merge(old(target)@, select(src@, only_positive)),
{
    let entries = src.entries();
    let ghost orig = target@;
    let mut i: usize = 0;
    proof {
        assert(merge(orig, select(balances_map(entries@.subrange(0, 0)), only_positive)) =~= orig);
        lemma_balances_map_dom_pub(entries@);
    }
    while i < entries.len()
        invariant
            i <= entries@.len(),
            distinct_rune_ids(entries@),
            balances_map(entries@) == src@,
            forall|id: RuneId| #[trigger] bal(orig, id) + bal(src@, id) <= u128::MAX,
            target@ == merge(orig, select(balances_map(entries@.subrange(0, i as int)), only_positive)),
        decreases entries@.len() - i,
    {
        let (id, b) = entries[i];
        let ghost prefix = entries@.subrange(0, i as int);
        proof {
            assert(entries@.subrange(0, i + 1).drop_last() =~= prefix);
            lemma_prefix_fresh(entries@, i as int);
            crate::balances::lemma_balances_map_value(entries@, i as int);
            assert(bal(src@, id) == b);
            assert(bal(target@, id) == bal(orig, id));
        }
        if !only_positive || b > 0 {
            target.credit(id, b);
        }
        proof {
            let m2 = balances_map(entries@.subrange(0, i + 1));
            assert(m2 == balances_map(prefix).insert(id, b as nat));
            assert(target@ =~= merge(orig, select(m2, only_positive)));
        }
        i = i + 1;
    }
    assert(entries@.subrange(0, entries@.len() as int) =~= entries@);
}

proof fn lemma_balances_map_dom_pub(s: Seq<(RuneId, u128)>)
    ensures
        balances_map(s).dom().finite(),
{
    crate::balances::lemma_balances_map_dom(s);
}

proof fn lemma_prefix_fresh(s: Seq<(RuneId, u128)>, i: int)
    requires
        distinct_rune_ids(s),
        0 <= i < s.len(),
    ensures
        !balances_map(s.subrange(0, i)).contains_key(s[i].0),
{
    crate::balances::lemma_balances_map_dom(s.subrange(0, i));
    if balances_map(s.subrange(0, i)).contains_key(s[i].0) {
        let j = choose|j: int| 0 <= j < i && s.subrange(0, i)[j].0 == s[i].0;
        assert(s[j].0 == s[i].0);
    }
}

/// What each output receives and what is burned.
pub struct RuneAllocation {
    /// The balances given to each output, by output index.
    pub allocated: Vec<Balances>,
    /// The balances burned.
    pub burned: Balances,
}

/// Allocates the runes of a transaction to its outputs following its runestone: `inputs` are
/// the runes of the outputs it spends, `minted` the rune and amount of a valid mint, `etched`
/// the id of a rune it etches, and `op_return` tells which of its outputs are OP_RETURN
/// outputs. Edicts must not name an output past the end, nor the pointer an output at all past
/// the last, as the runestone decoder guarantees.
pub fn allocate_runes(
    inputs: Balances,
    artifact: &Option<Artifact>,
    minted: Option<(RuneId, u128)>,
    etched: Option<RuneId>,
    op_return: &Vec<bool>,
) -> (r: RuneAllocation)
    requires
        bounded(initial_unallocated(inputs@, *artifact, minted, etched)),
        *artifact matches Some(Artifact::Runestone { edicts, pointer, .. }) ==> (forall|i: int|
            0 <= i < edicts@.len() ==> #[trigger] edicts@[i].output <= op_return@.len()) && (
        pointer matches Some(p) ==> p < op_return@.len()),
    ensures
        r.allocated@.len() == op_return@.len(),
        views(r.allocated@) == spec_allocation(inputs@, *artifact, minted, etched, op_return@).0,
        r.burned@ == spec_allocation(inputs@, *artifact, minted, etched, op_return@).1,
{
    let ghost total = initial_unallocated(inputs@, *artifact, minted, etched);
    let ghost n = op_return@.len();
    let mut unallocated = inputs;
    if let Some((id, amount)) = minted {
        proof {
            assert(bal(credit(inputs@, id, amount as nat), id) <= bal(total, id));
        }
        unallocated.credit(id, amount);
    }
    if let Some(Artifact::Runestone { etching, .. }) = artifact {
        if let Some(id) = etched {
            let premine: u128 = match etching {
                Some(e) => match e.premine {
                    Some(p) => p,
                    None => 0,
                },
                None => 0,
            };
            assert(premine == artifact_premine(artifact->0));
            assert(total == credit(unallocated@, id, premine as nat));
            assert(bal(total, id) <= u128::MAX);
            unallocated.credit(id, premine);
        }
    }
    assert(unallocated@ == total);
    let mut allocated: Vec<Balances> = Vec::new();
    let mut k: usize = 0;
    while k < op_return.len()
        invariant
            k <= op_return@.len(),
            allocated@.len() == k,
            forall|j: int| 0 <= j < k ==> #[trigger] allocated@[j]@ == Map::<RuneId, nat>::empty(),
        decreases op_return@.len() - k,
    {
        allocated.push(Balances::new());
        k = k + 1;
    }
    assert(views(allocated@) =~= empty_outputs(n));
    let ghost start = AllocState { unallocated: total, allocated: empty_outputs(n) };
    proof {
        assert forall|x: RuneId| #[trigger]
            bal(total, x) == bal(start.unallocated, x) + sum_all(start.allocated, x, n) by {
            lemma_sum_all_empty(n, x, n);
        }
    }
    let dests = exec_destinations(op_return);
    proof {
        lemma_destinations(op_return@);
    }
    let mut burned: Balances;
    match artifact {
        Some(Artifact::Cenotaph { .. }) => {
            burned = unallocated;
        },
        _ => {
            let ghost edicts_s = artifact_edicts(*artifact);
            let pointer: Option<u32> = match artifact {
                Some(Artifact::Runestone { edicts, pointer, .. }) => {
                    let mut i: usize = 0;
                    while i < edicts.len()
                        invariant
                            i <= edicts@.len(),
                            edicts_s == edicts@,
                            n == op_return@.len(),
                            bounded(total),
                            forall|j: int| 0 <= j < edicts@.len() ==> #[trigger] edicts@[j].output <= n,
                            dests@.len() == destinations(op_return@).len(),
                            forall|j: int| 0 <= j < dests@.len() ==> #[trigger] dests@[j] as int
                                == destinations(op_return@)[j],
                            conserved(state_of(unallocated, allocated@), total, n),
                            state_of(unallocated, allocated@) == apply_edicts(
                                start,
                                edicts@.subrange(0, i as int),
                                etched,
                                op_return@,
                            ),
                        decreases edicts@.len() - i,
                    {
                        proof {
                            assert(edicts@.subrange(0, i + 1).drop_last() =~= edicts@.subrange(
                                0,
                                i as int,
                            ));
                            assert(edicts@.subrange(0, i + 1).last() == edicts@[i as int]);
                        }
                        exec_apply_edict(
                            &mut unallocated,
                            &mut allocated,
                            edicts[i],
                            etched,
                            op_return,
                            &dests,
                            Ghost(total),
                        );
                        i = i + 1;
                    }
                    assert(edicts@.subrange(0, edicts@.len() as int) =~= edicts@);
                    *pointer
                },
                _ => {
                    assert(apply_edicts(start, Seq::empty(), etched, op_return@) == start);
                    None
                },
            };
            let ghost st = state_of(unallocated, allocated@);
            assert(st == apply_edicts(start, edicts_s, etched, op_return@));
            let vout: Option<usize> = match pointer {
                Some(p) => Some(p as usize),
                None => if dests.len() > 0 {
                    Some(dests[0])
                } else {
                    None
                },
            };
            match vout {
                Some(v) => {
                    proof {
                        assert forall|x: RuneId| #[trigger]
                            bal(allocated@[v as int]@, x) + bal(unallocated@, x) <= u128::MAX by {
                            lemma_term_le_sum(views(allocated@), v as int, x, n);
                            assert(views(allocated@)[v as int] == allocated@[v as int]@);
                            assert(bal(total, x) == bal(unallocated@, x) + sum_all(
                                views(allocated@),
                                x,
                                n,
                            ));
                        }
                    }
                    let mut b = Balances::new();
                    std::mem::swap(&mut b, &mut allocated[v]);
                    merge_into(&mut b, &unallocated, true);
                    allocated.set(v, b);
                    burned = Balances::new();
                    proof {
                        assert(views(allocated@) =~= st.allocated.update(
                            v as int,
                            merge(st.allocated[v as int], positive(st.unallocated)),
                        ));
                    }
                },
                None => {
                    proof {
                        assert forall|x: RuneId| #[trigger]
                            bal(Map::<RuneId, nat>::empty(), x) + bal(unallocated@, x) <= u128::MAX by {
                            assert(bal(total, x) == bal(unallocated@, x) + sum_all(
                                views(allocated@),
                                x,
                                n,
                            ));
                        }
                    }
                    burned = Balances::new();
                    merge_into(&mut burned, &unallocated, true);
                    proof {
                        assert(merge(Map::empty(), positive(unallocated@)) =~= positive(
                            unallocated@,
                        ));
                    }
                },
            }
        },
    }
    let ghost base = burned@;
    let ghost alloc_final = views(allocated@);
    proof {
        assert forall|x: RuneId| #[trigger]
            bal(total, x) == bal(base, x) + sum_all(alloc_final, x, n) by {
            match *artifact {
                Some(Artifact::Cenotaph { .. }) => {
                    lemma_sum_all_empty(n, x, n);
                },
                _ => {
                    let st = apply_edicts(start, artifact_edicts(*artifact), etched, op_return@);
                    lemma_apply_edicts_conserves(
                        start,
                        total,
                        artifact_edicts(*artifact),
                        etched,
                        op_return@,
                    );
                    lemma_bal_positive(st.unallocated, x);
                    match default_output(artifact_pointer(*artifact), op_return@) {
                        Some(v) => {
                            let m = merge(st.allocated[v], positive(st.unallocated));
                            lemma_sum_all_update(st.allocated, v, m, x, n);
                            lemma_bal_merge(st.allocated[v], positive(st.unallocated), x);
                        },
                        None => {},
                    }
                },
            }
        }
    }
    let mut v: usize = 0;
    while v < op_return.len()
        invariant
            v <= op_return@.len(),
            n == op_return@.len(),
            allocated@.len() == n,
            views(allocated@) == alloc_final,
            bounded(total),
            forall|x: RuneId| #[trigger] bal(total, x) == bal(base, x) + sum_all(alloc_final, x, n),
            burned@ == burn_op_returns(base, alloc_final, op_return@, v as nat),
        decreases op_return@.len() - v,
    {
        if op_return[v] {
            proof {
                assert forall|x: RuneId| #[trigger]
                    bal(burned@, x) + bal(allocated@[v as int]@, x) <= u128::MAX by {
                    lemma_burn_op_returns(base, alloc_final, op_return@, x, v as nat);
                    lemma_sum_all_mono(alloc_final, x, (v + 1) as nat, n);
                    assert(alloc_final[v as int] == allocated@[v as int]@);
                    assert(sum_all(alloc_final, x, (v + 1) as nat) == sum_all(alloc_final, x, v as nat)
                        + bal(alloc_final[v as int], x));
                    assert(bal(total, x) <= u128::MAX);
                }
            }
            merge_into(&mut burned, &allocated[v], false);
        }
        v = v + 1;
    }
    proof {
        assert(views(allocated@) == spec_allocation(inputs@, *artifact, minted, etched, op_return@).0);
    }
    RuneAllocation { allocated, burned }
}

} // verus!

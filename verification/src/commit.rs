use vstd::prelude::*;
use bitcoin::{Script, Witness};
use ordinals::{Rune, Runestone};
use crate::parser::{byte_strings, TransactionData};
use crate::runes::{reserved_threshold, rune_is_reserved, NamedEtchingChecks, TransactionParser};
use crate::types::SerializedOutPoint;

use crate::index_state::{IndexState, IndexView};

verus! {

/// The bytes a rune commits to: its value in little-endian order without trailing zeros.
pub open spec fn commitment_bytes(rune: u128) -> Seq<u8>
    decreases rune,
{
    if rune == 0 {
        Seq::empty()
    } else {
        seq![(rune % 256) as u8] + commitment_bytes(rune / 256)
    }
}

/// Whether the last element of a witness stack of at least two is an annex: it starts with
/// the byte 0x50.
pub open spec fn has_annex(witness: Seq<Seq<u8>>) -> bool {
    witness.len() >= 2 && witness.last().len() > 0 && witness.last()[0] == 0x50
}

/// The leaf script that bitcoin's `Witness::tapscript` finds in a witness stack: none for a
/// key-path spend (one element, or two with an annex); otherwise the element before the
/// control block, which is the last element, or the one before the annex.
pub open spec fn witness_tapscript(witness: Seq<Seq<u8>>) -> Option<Seq<u8>> {
    let n = witness.len();
    if n <= 1 || (n == 2 && has_annex(witness)) {
        None
    } else if has_annex(witness) {
        Some(witness[n - 3])
    } else {
        Some(witness[n - 2])
    }
}

/// The instructions that bitcoin's `Script::instructions` reads from a script: for each, the
/// bytes it pushes, `None` for an opcode, or an error, after which nothing more is read.
pub uninterp spec fn script_instructions(script: Seq<u8>) -> Seq<Result<Option<Seq<u8>>, ()>>;

/// The view of a list of read instructions.
pub open spec fn instructions_view(v: Seq<Result<Option<Vec<u8>>, ()>>) -> Seq<Result<Option<Seq<u8>>, ()>> {
    Seq::new(
        v.len(),
        |i: int| match v[i] {
            Ok(Some(b)) => Ok(Some(b@)),
            Ok(None) => Ok(None),
            Err(_) => Err(()),
        },
    )
}

/// ordinals' `Rune::commitment`: the rune's little-endian bytes, trailing zeros dropped.
#[verifier::external_body]
fn rune_commitment(rune: u128) -> (c: Vec<u8>)
    ensures
        c@ == commitment_bytes(rune),
{
    Rune(rune).commitment()
}

/// ordinals' `Runestone::COMMIT_CONFIRMATIONS`: how many confirmations a commitment needs.
#[verifier::external_body]
fn commit_confirmations() -> (n: u16)
    ensures
        n == 6,
{
    Runestone::COMMIT_CONFIRMATIONS
}

/// bitcoin's `Witness::tapscript`: the leaf script of a witness stack, if it holds one, as
/// `witness_tapscript` states it.
#[verifier::external_body]
#[allow(deprecated)]
fn tapscript(witness: &Vec<Vec<u8>>) -> (s: Option<Vec<u8>>)
    ensures
        match s {
            Some(b) => witness_tapscript(byte_strings(witness@)) == Some(b@),
            None => witness_tapscript(byte_strings(witness@)) is None,
        },
{
    Witness::from_slice(witness).tapscript().map(|s| s.to_bytes())
}

/// bitcoin's `Script::instructions`, each instruction read as the bytes it pushes or as an
/// opcode. The result is named, not stated.
#[verifier::external_body]
fn instructions(script: &Vec<u8>) -> (v: Vec<Result<Option<Vec<u8>>, ()>>)
    ensures
        instructions_view(v@) == script_instructions(script@),
{
    Script::from_bytes(script).instructions().map(|i| i.map(|i| i.push_bytes().map(|p| p.as_bytes().to_vec())).map_err(|_| ())).collect()
}

/// bitcoin's `Script::is_p2tr`: a version 1 witness program of 32 bytes.
#[verifier::external_body]
pub(crate) fn is_p2tr(script: &Vec<u8>) -> (b: bool)
    ensures
        b == (script@.len() == 34 && script@[0] == 0x51 && script@[1] == 0x20),
{
    Script::from_bytes(script).is_p2tr()
}

/// How many of the leading instructions of `ins` push `commitment`, up to the first error.
pub open spec fn matching_pushes(ins: Seq<Result<Option<Seq<u8>>, ()>>, commitment: Seq<u8>) -> nat
    decreases ins.len(),
{
    if ins.len() == 0 {
        0
    } else {
        match ins[0] {
            Err(_) => 0,
            Ok(Some(b)) => (if b == commitment { 1nat } else { 0nat }) + matching_pushes(
                ins.drop_first(),
                commitment,
            ),
            Ok(None) => matching_pushes(ins.drop_first(), commitment),
        }
    }
}

/// How many times an input's tapscript pushes `commitment` before an unreadable instruction.
pub open spec fn input_matches(witness: Seq<Seq<u8>>, commitment: Seq<u8>) -> nat {
    match witness_tapscript(witness) {
        Some(s) => matching_pushes(script_instructions(s), commitment),
        None => 0,
    }
}

/// The outputs whose spending must be checked to see whether a transaction commits to a rune:
/// each input's spent output, once for every push of the commitment in its tapscript, in
/// order.
pub open spec fn commitment_candidates_spec(tx: TransactionData, commitment: Seq<u8>) -> Seq<SerializedOutPoint> {
    candidates_upto(tx, commitment, tx.input@.len() as int)
}

/// The candidates among the first `k` inputs.
pub open spec fn candidates_upto(tx: TransactionData, commitment: Seq<u8>, k: int) -> Seq<SerializedOutPoint>
    decreases k,
{
    if k <= 0 {
        Seq::empty()
    } else {
        candidates_upto(tx, commitment, k - 1) + Seq::new(
            input_matches(byte_strings(tx.input@[k - 1].witness@), commitment),
            |j: int| tx.input@[k - 1].previous_output,
        )
    }
}

proof fn lemma_matching_pushes_step(ins: Seq<Result<Option<Seq<u8>>, ()>>, commitment: Seq<u8>, k: int)
    requires
        0 <= k < ins.len(),
        forall|j: int| 0 <= j < k ==> !(ins[j] is Err),
    ensures
        !(ins[k] is Err) ==> matching_pushes(ins, commitment) == matching_pushes(ins.take(k), commitment)
            + matching_pushes(ins.skip(k), commitment),
        ins[k] is Err ==> matching_pushes(ins, commitment) == matching_pushes(ins.take(k), commitment),
    decreases k,
{
    if k > 0 {
        lemma_matching_pushes_step(ins.drop_first(), commitment, k - 1);
        assert(ins.drop_first().take(k - 1) =~= ins.take(k).drop_first());
        assert(ins.drop_first().skip(k - 1) =~= ins.skip(k));
    } else {
        assert(ins.take(0) =~= Seq::<Result<Option<Seq<u8>>, ()>>::empty());
        assert(ins.skip(0) =~= ins);
    }
}

proof fn lemma_matching_pushes_push(ins: Seq<Result<Option<Seq<u8>>, ()>>, commitment: Seq<u8>, k: int)
    requires
        0 <= k < ins.len(),
        forall|j: int| 0 <= j <= k ==> !(ins[j] is Err),
    ensures
        matching_pushes(ins.take(k + 1), commitment) == matching_pushes(ins.take(k), commitment) + (
        match ins[k] {
            Ok(Some(b)) => if b == commitment {
                1nat
            } else {
                0nat
            },
            _ => 0nat,
        }),
    decreases k,
{
    if k > 0 {
        lemma_matching_pushes_push(ins.drop_first(), commitment, k - 1);
        assert(ins.drop_first().take(k) =~= ins.take(k + 1).drop_first());
        assert(ins.drop_first().take(k - 1) =~= ins.take(k).drop_first());
    } else {
        assert(ins.take(1).drop_first() =~= Seq::<Result<Option<Seq<u8>>, ()>>::empty());
        assert(ins.take(0) =~= Seq::<Result<Option<Seq<u8>>, ()>>::empty());
    }
}

fn push_repeated(out: &mut Vec<SerializedOutPoint>, o: SerializedOutPoint, count: usize)
    ensures
        final(out)@ == old(out)@ + Seq::new(count as nat, |j: int| o),
{
    let mut i: usize = 0;
    while i < count
        invariant
            i <= count,
            out@ == old(out)@ + Seq::new(i as nat, |j: int| o),
        decreases count - i,
    {
        out.push(o);
        i = i + 1;
        assert(out@ =~= old(out)@ + Seq::new(i as nat, |j: int| o));
    }
}

fn count_matching(script: &Vec<u8>, commitment: &Vec<u8>) -> (n: usize)
    ensures
        n == matching_pushes(script_instructions(script@), commitment@),
{
    let ins = instructions(script);
    let ghost g = script_instructions(script@);
    let mut n: usize = 0;
    let mut k: usize = 0;
    while k < ins.len()
        invariant
            g == script_instructions(script@),
            instructions_view(ins@) == g,
            k <= ins@.len(),
            forall|j: int| 0 <= j < k ==> !(#[trigger] g[j] is Err),
            n == matching_pushes(g.take(k as int), commitment@),
            n <= k,
        decreases ins@.len() - k,
    {
        assert(g[k as int] == instructions_view(ins@)[k as int]);
        match &ins[k] {
            Err(_) => {
                proof {
                    assert(ins@[k as int] is Err);
                    assert(g[k as int] is Err);
                    lemma_matching_pushes_step(g, commitment@, k as int);
                }
                return n;
            },
            Ok(Some(bytes)) => {
                proof {
                    lemma_matching_pushes_push(g, commitment@, k as int);
                }
                if bytes_equal(bytes, commitment) {
                    n = n + 1;
                }
            },
            Ok(None) => {
                proof {
                    lemma_matching_pushes_push(g, commitment@, k as int);
                }
            },
        }
        k = k + 1;
    }
    proof {
        assert(g.take(g.len() as int) =~= g);
    }
    n
}

fn bytes_equal(a: &Vec<u8>, b: &Vec<u8>) -> (r: bool)
    ensures
        r == (a@ == b@),
{
    if a.len() != b.len() {
        return false;
    }
    let mut i: usize = 0;
    while i < a.len()
        invariant
            a@.len() == b@.len(),
            i <= a@.len(),
            forall|j: int| 0 <= j < i ==> a@[j] == b@[j],
        decreases a@.len() - i,
    {
        if a[i] != b[i] {
            return false;
        }
        i = i + 1;
    }
    assert(a@ =~= b@);
    true
}

/// The outputs to check, in order, to decide whether `tx` commits to `rune`: the output each
/// input spends, once for every push of the rune's commitment in the input's tapscript before
/// an unreadable instruction. The transaction commits to the rune when one of them is a
/// taproot output confirmed long enough.
pub fn commitment_candidates(tx: &TransactionData, rune: u128) -> (v: Vec<SerializedOutPoint>)
    ensures
        v@ == commitment_candidates_spec(*tx, commitment_bytes(rune)),
{
    let commitment = rune_commitment(rune);
    let mut out: Vec<SerializedOutPoint> = Vec::new();
    let mut i: usize = 0;
    while i < tx.input.len()
        invariant
            commitment@ == commitment_bytes(rune),
            i <= tx.input@.len(),
            out@ == candidates_upto(*tx, commitment@, i as int),
        decreases tx.input@.len() - i,
    {
        let count: usize = match tapscript(&tx.input[i].witness) {
            Some(script) => count_matching(&script, &commitment),
            None => 0,
        };
        push_repeated(&mut out, tx.input[i].previous_output, count);
        i = i + 1;
    }
    out
}

impl TransactionParser {
    /// Whether a commitment made in an output with this locking script, confirmed at
    /// `commit_height`, counts at the parser's height: the output must be taproot and have at
    /// least as many confirmations as ordinals asks of a commitment.
    pub fn validate_commit_output(&self, script_pubkey: &Vec<u8>, commit_height: u64) -> (b: bool)
        requires
            commit_height <= self.height,
        ensures
            b == (script_pubkey@.len() == 34 && script_pubkey@[0] == 0x51 && script_pubkey@[1] == 0x20
                && self.height - commit_height + 1 >= 6),
    {
        if !is_p2tr(script_pubkey) {
            return false;
        }
        let confirmations = self.height - commit_height;
        confirmations >= commit_confirmations() as u64 - 1
    }
}


/// Whether a locking script is a taproot output: a version 1 witness program of 32 bytes.
pub open spec fn spec_is_p2tr(script: Seq<u8>) -> bool {
    script.len() == 34 && script[0] == 0x51 && script[1] == 0x20
}

/// The outcome of looking for an etching's commitment in the index.
#[derive(Clone, Copy, Debug)]
pub enum CommitCheck {
    /// A committing output is taproot and confirmed long enough.
    Committed,
    /// No candidate commits.
    NotCommitted,
    /// The index does not hold this output's transaction or confirming block: the node
    /// decides.
    AskNode(SerializedOutPoint),
}

/// The candidates, in order, as the index decides them: the first taproot output confirmed
/// long enough commits; a candidate whose transaction, or (for a taproot output) confirming
/// block, the index does not hold is left to the node.
pub open spec fn commit_check(s: IndexView, height: u64, cands: Seq<SerializedOutPoint>) -> CommitCheck
    decreases cands.len(),
{
    if cands.len() == 0 {
        CommitCheck::NotCommitted
    } else {
        let o = cands[0];
        if !s.transactions.contains_key(o.txid@) {
            CommitCheck::AskNode(o)
        } else if !spec_is_p2tr(s.transactions[o.txid@].output[o.vout as int].script_pubkey) {
            commit_check(s, height, cands.drop_first())
        } else if !s.confirming_blocks.contains_key(o.txid@) {
            CommitCheck::AskNode(o)
        } else if height - s.confirming_blocks[o.txid@].height + 1 >= 6 {
            CommitCheck::Committed
        } else {
            commit_check(s, height, cands.drop_first())
        }
    }
}

/// Whether candidate `o` commits as the index records it: its output is taproot and its
/// transaction was confirmed at least six blocks deep at `height`, counting the confirming
/// block.
pub open spec fn committing_candidate(s: IndexView, height: u64, o: SerializedOutPoint) -> bool {
    &&& s.transactions.contains_key(o.txid@)
    &&& spec_is_p2tr(s.transactions[o.txid@].output[o.vout as int].script_pubkey)
    &&& s.confirming_blocks.contains_key(o.txid@)
    &&& height - s.confirming_blocks[o.txid@].height + 1 >= 6
}

/// Whether the index can tell on its own that candidate `o` does not commit: it holds the
/// output's transaction, and the output is not taproot or its confirming block is known and
/// fewer than six blocks deep.
pub open spec fn failing_candidate(s: IndexView, height: u64, o: SerializedOutPoint) -> bool {
    &&& s.transactions.contains_key(o.txid@)
    &&& (!spec_is_p2tr(s.transactions[o.txid@].output[o.vout as int].script_pubkey) || (
    s.confirming_blocks.contains_key(o.txid@) && height - s.confirming_blocks[o.txid@].height + 1
        < 6))
}

/// The index decides the candidates in order: they commit exactly when some candidate is a
/// taproot output confirmed at least six blocks deep and every candidate before it is known
/// not to commit; they do not commit exactly when every candidate is known not to commit; and
/// the node is asked about the first candidate that is neither.
pub proof fn lemma_commit_check_finds_the_first_deciding_candidate(
    s: IndexView,
    height: u64,
    cands: Seq<SerializedOutPoint>,
)
    ensures
        commit_check(s, height, cands) is Committed <==> exists|i: int|
            0 <= i < cands.len() && committing_candidate(s, height, #[trigger] cands[i]) && forall|
                j: int,
            | 0 <= j < i ==> failing_candidate(s, height, #[trigger] cands[j]),
        commit_check(s, height, cands) is NotCommitted <==> forall|j: int|
            0 <= j < cands.len() ==> failing_candidate(s, height, #[trigger] cands[j]),
        commit_check(s, height, cands) matches CommitCheck::AskNode(o) ==> exists|i: int|
            0 <= i < cands.len() && cands[i] == o && !committing_candidate(s, height, #[trigger] cands[i])
                && !failing_candidate(s, height, cands[i]) && forall|j: int|
                0 <= j < i ==> failing_candidate(s, height, #[trigger] cands[j]),
    decreases cands.len(),
{
    if cands.len() > 0 {
        let rest = cands.drop_first();
        lemma_commit_check_finds_the_first_deciding_candidate(s, height, rest);
        let o = cands[0];
        assert forall|j: int| 0 <= j < rest.len() implies rest[j] == cands[j + 1] by {}
        if failing_candidate(s, height, o) {
            assert(commit_check(s, height, cands) == commit_check(s, height, rest));
            if commit_check(s, height, rest) is Committed {
                let i = choose|i: int|
                    0 <= i < rest.len() && committing_candidate(s, height, #[trigger] rest[i]) && forall|
                        j: int,
                    | 0 <= j < i ==> failing_candidate(s, height, #[trigger] rest[j]);
                assert(cands[i + 1] == rest[i]);
                assert forall|j: int| 0 <= j < i + 1 implies failing_candidate(s, height, #[trigger] cands[j]) by {
                    if j > 0 {
                        assert(cands[j] == rest[j - 1]);
                    }
                }
            } else {
                assert(!committing_candidate(s, height, o));
                if exists|i: int|
                    0 <= i < cands.len() && committing_candidate(s, height, #[trigger] cands[i]) && forall|
                        j: int,
                    | 0 <= j < i ==> failing_candidate(s, height, #[trigger] cands[j]) {
                    let i = choose|i: int|
                        0 <= i < cands.len() && committing_candidate(s, height, #[trigger] cands[i]) && forall|
                            j: int,
                        | 0 <= j < i ==> failing_candidate(s, height, #[trigger] cands[j]);
                    assert(i > 0);
                    assert(rest[i - 1] == cands[i]);
                    assert forall|j: int| 0 <= j < i - 1 implies failing_candidate(s, height, #[trigger] rest[j]) by {
                        assert(rest[j] == cands[j + 1]);
                    }
                }
            }
            if forall|j: int| 0 <= j < rest.len() ==> failing_candidate(s, height, #[trigger] rest[j]) {
                assert forall|j: int| 0 <= j < cands.len() implies failing_candidate(s, height, #[trigger] cands[j]) by {
                    if j > 0 {
                        assert(cands[j] == rest[j - 1]);
                    }
                }
            }
            if forall|j: int| 0 <= j < cands.len() ==> failing_candidate(s, height, #[trigger] cands[j]) {
                assert forall|j: int| 0 <= j < rest.len() implies failing_candidate(s, height, #[trigger] rest[j]) by {
                    assert(rest[j] == cands[j + 1]);
                }
            }
            if let CommitCheck::AskNode(x) = commit_check(s, height, rest) {
                let i = choose|i: int|
                    0 <= i < rest.len() && rest[i] == x && !committing_candidate(s, height, #[trigger] rest[i])
                        && !failing_candidate(s, height, rest[i]) && forall|j: int|
                        0 <= j < i ==> failing_candidate(s, height, #[trigger] rest[j]);
                assert(cands[i + 1] == rest[i]);
                assert forall|j: int| 0 <= j < i + 1 implies failing_candidate(s, height, #[trigger] cands[j]) by {
                    if j > 0 {
                        assert(cands[j] == rest[j - 1]);
                    }
                }
            }
        } else if committing_candidate(s, height, o) {
            assert(commit_check(s, height, cands) is Committed);
            assert(!failing_candidate(s, height, cands[0]));
        } else {
            assert(commit_check(s, height, cands) == CommitCheck::AskNode(o));
            assert(!failing_candidate(s, height, cands[0]));
            if exists|i: int|
                0 <= i < cands.len() && committing_candidate(s, height, #[trigger] cands[i]) && forall|
                    j: int,
                | 0 <= j < i ==> failing_candidate(s, height, #[trigger] cands[j]) {
                let i = choose|i: int|
                    0 <= i < cands.len() && committing_candidate(s, height, #[trigger] cands[i]) && forall|
                        j: int,
                    | 0 <= j < i ==> failing_candidate(s, height, #[trigger] cands[j]);
                if i > 0 {
                    assert(failing_candidate(s, height, cands[0]));
                }
            }
        }
    }
}

/// Whether deciding the candidates from the index reads only what is there: each output it
/// looks at exists in its recorded transaction, and each confirming block it looks at is not
/// above `height`.
pub open spec fn commit_check_defined(s: IndexView, height: u64, cands: Seq<SerializedOutPoint>) -> bool
    decreases cands.len(),
{
    if cands.len() == 0 {
        true
    } else {
        let o = cands[0];
        if !s.transactions.contains_key(o.txid@) {
            true
        } else if o.vout >= s.transactions[o.txid@].output.len() {
            false
        } else if !spec_is_p2tr(s.transactions[o.txid@].output[o.vout as int].script_pubkey) {
            commit_check_defined(s, height, cands.drop_first())
        } else if !s.confirming_blocks.contains_key(o.txid@) {
            true
        } else if s.confirming_blocks[o.txid@].height > height {
            false
        } else if height - s.confirming_blocks[o.txid@].height + 1 >= 6 {
            true
        } else {
            commit_check_defined(s, height, cands.drop_first())
        }
    }
}

impl TransactionParser {
    /// Whether the transaction commits to `rune`, as far as the index can tell: the inputs
    /// whose tapscripts push the rune's commitment are tried in order, each by the recorded
    /// transaction and confirming block of the output it spends.
    pub fn tx_commits_to_rune(&self, index: &IndexState, tx: &TransactionData, rune: u128) -> (r:
        CommitCheck)
        requires
            commit_check_defined(
                index@,
                self.height,
                commitment_candidates_spec(*tx, commitment_bytes(rune)),
            ),
        ensures
            r == commit_check(index@, self.height, commitment_candidates_spec(*tx, commitment_bytes(rune))),
    {
        let cands = commitment_candidates(tx, rune);
        let ghost all = cands@;
        let mut i: usize = 0;
        assert(all.skip(0) =~= all);
        while i < cands.len()
            invariant
                i <= all.len(),
                cands@ == all,
                all == commitment_candidates_spec(*tx, commitment_bytes(rune)),
                commit_check_defined(index@, self.height, all.skip(i as int)),
                commit_check(index@, self.height, all) == commit_check(index@, self.height, all.skip(i as int)),
            decreases all.len() - i,
        {
            let o = cands[i];
            let ghost rest = all.skip(i as int);
            assert(rest[0] == o);
            assert(rest.drop_first() =~= all.skip(i + 1));
            let committed = match index.transactions.get(&o.txid) {
                Some(t) => t,
                None => {
                    return CommitCheck::AskNode(o);
                },
            };
            let script = &committed.output[o.vout as usize].script_pubkey;
            if is_p2tr(script) {
                let block = match index.confirming_blocks.get(&o.txid) {
                    Some(b) => *b,
                    None => {
                        return CommitCheck::AskNode(o);
                    },
                };
                if self.height - block.height >= commit_confirmations() as u64 - 1 {
                    return CommitCheck::Committed;
                }
            }
            i = i + 1;
        }
        assert(all.skip(i as int) =~= Seq::<SerializedOutPoint>::empty());
        CommitCheck::NotCommitted
    }
}


/// What the index tells about a named etching: the checks, or the output whose commitment
/// only the node can decide.
#[derive(Clone, Copy, Debug)]
pub enum EtchingLookup {
    Checks(NamedEtchingChecks),
    AskNode(SerializedOutPoint),
}

/// Whether a named etching of `rune` is looked at further than its name: the rune has no id
/// yet, is not below the minimum and is not reserved. Only then is its commitment checked.
pub open spec fn commitment_needed(s: IndexView, p: TransactionParser, rune: u128) -> bool {
    !s.rune_ids.contains_key(rune) && rune >= p.minimum_rune && rune < reserved_threshold()
}

impl TransactionParser {
    /// The checks on an etching of `rune` by `tx`: whether the rune already has an id and,
    /// when that and its name leave the etching possible, whether the transaction commits to
    /// it as far as the index can tell.
    pub fn etching_checks(&self, index: &IndexState, tx: &TransactionData, rune: u128) -> (r:
        EtchingLookup)
        requires
            commitment_needed(index@, *self, rune) ==> commit_check_defined(
                index@,
                self.height,
                commitment_candidates_spec(*tx, commitment_bytes(rune)),
            ),
        ensures
            !commitment_needed(index@, *self, rune) ==> r == EtchingLookup::Checks(
                NamedEtchingChecks {
                    already_exists: index@.rune_ids.contains_key(rune),
                    commits: false,
                },
            ),
            commitment_needed(index@, *self, rune) ==> r == match commit_check(
                index@,
                self.height,
                commitment_candidates_spec(*tx, commitment_bytes(rune)),
            ) {
                CommitCheck::Committed => EtchingLookup::Checks(
                    NamedEtchingChecks { already_exists: false, commits: true },
                ),
                CommitCheck::NotCommitted => EtchingLookup::Checks(
                    NamedEtchingChecks { already_exists: false, commits: false },
                ),
                CommitCheck::AskNode(o) => EtchingLookup::AskNode(o),
            },
    {
        let known = index.rune_ids.contains(&rune);
        if known || rune < self.minimum_rune || rune_is_reserved(rune) {
            return EtchingLookup::Checks(NamedEtchingChecks { already_exists: known, commits: false });
        }
        match self.tx_commits_to_rune(index, tx, rune) {
            CommitCheck::Committed => EtchingLookup::Checks(
                NamedEtchingChecks { already_exists: false, commits: true },
            ),
            CommitCheck::NotCommitted => EtchingLookup::Checks(
                NamedEtchingChecks { already_exists: false, commits: false },
            ),
            CommitCheck::AskNode(o) => EtchingLookup::AskNode(o),
        }
    }
}

} // verus!

use vstd::prelude::*;
use bitcoin::consensus::deserialize;
use bitcoin::Transaction;
use ordinals::Artifact::{Cenotaph as OrdCenotaph, Runestone as OrdRunestone};
use ordinals::{Rune, Runestone};
use crate::allocation::{Artifact, ArtifactView, Edict};
use crate::rune_entry::{Etching, Terms};
use crate::types::{RuneId, SerializedOutPoint, Txid};

verus! {

/// An input of a transaction: the output it spends and its witness stack.
#[derive(Clone, Debug)]
pub struct TxInput {
    pub previous_output: SerializedOutPoint,
    pub witness: Vec<Vec<u8>>,
}

/// An output of a transaction: its value in satoshis and its locking script.
#[derive(Clone, Debug)]
pub struct TxOutput {
    pub value: u64,
    pub script_pubkey: Vec<u8>,
}

/// A transaction, as far as rune indexing reads it.
#[derive(Clone, Debug)]
pub struct TransactionData {
    pub input: Vec<TxInput>,
    pub output: Vec<TxOutput>,
}

/// An input as bytes: the spent transaction's id, the spent output's index, the witness.
pub struct TxInputView {
    pub txid: Seq<u8>,
    pub vout: u32,
    pub witness: Seq<Seq<u8>>,
}

/// An output as bytes: its value and its locking script.
pub struct TxOutputView {
    pub value: u64,
    pub script_pubkey: Seq<u8>,
}

/// A transaction as bytes.
pub struct TransactionView {
    pub input: Seq<TxInputView>,
    pub output: Seq<TxOutputView>,
}

/// The byte strings of a list of byte vectors.
pub open spec fn byte_strings(v: Seq<Vec<u8>>) -> Seq<Seq<u8>> {
    Seq::new(v.len(), |i: int| v[i]@)
}

impl View for TxInput {
    type V = TxInputView;

    open spec fn view(&self) -> TxInputView {
        TxInputView {
            txid: self.previous_output.txid@,
            vout: self.previous_output.vout,
            witness: byte_strings(self.witness@),
        }
    }
}

impl View for TxOutput {
    type V = TxOutputView;

    open spec fn view(&self) -> TxOutputView {
        TxOutputView { value: self.value, script_pubkey: self.script_pubkey@ }
    }
}

impl View for TransactionData {
    type V = TransactionView;

    open spec fn view(&self) -> TransactionView {
        TransactionView {
            input: Seq::new(self.input@.len(), |i: int| self.input@[i]@),
            output: Seq::new(self.output@.len(), |i: int| self.output@[i]@),
        }
    }
}

pub(crate) fn copy_bytes(a: &Vec<u8>) -> (c: Vec<u8>)
    ensures
        c@ == a@,
{
    let mut c: Vec<u8> = Vec::new();
    let mut i: usize = 0;
    while i < a.len()
        invariant
            i <= a@.len(),
            c@ == a@.subrange(0, i as int),
        decreases a@.len() - i,
    {
        c.push(a[i]);
        i = i + 1;
        assert(c@ =~= a@.subrange(0, i as int));
    }
    assert(a@.subrange(0, a@.len() as int) =~= a@);
    c
}

impl TxInput {
    /// A copy of the input.
    pub fn duplicate(&self) -> (c: TxInput)
        ensures
            c@ == self@,
            c.previous_output == self.previous_output,
    {
        let mut witness: Vec<Vec<u8>> = Vec::new();
        let mut i: usize = 0;
        while i < self.witness.len()
            invariant
                i <= self.witness@.len(),
                witness@.len() == i,
                forall|j: int| 0 <= j < i ==> #[trigger] witness@[j]@ == self.witness@[j]@,
            decreases self.witness@.len() - i,
        {
            witness.push(copy_bytes(&self.witness[i]));
            i = i + 1;
        }
        let c = TxInput { previous_output: self.previous_output, witness };
        assert(byte_strings(c.witness@) =~= byte_strings(self.witness@));
        c
    }
}

impl TransactionData {
    /// A copy of the transaction.
    pub fn duplicate(&self) -> (c: TransactionData)
        ensures
            c@ == self@,
            c.input@.len() == self.input@.len(),
            forall|j: int|
                0 <= j < self.input@.len() ==> (#[trigger] c.input@[j]).previous_output
                    == self.input@[j].previous_output,
    {
        let mut input: Vec<TxInput> = Vec::new();
        let mut i: usize = 0;
        while i < self.input.len()
            invariant
                i <= self.input@.len(),
                input@.len() == i,
                forall|j: int| 0 <= j < i ==> #[trigger] input@[j]@ == self.input@[j]@,
                forall|j: int|
                    0 <= j < i ==> (#[trigger] input@[j]).previous_output == self.input@[j].previous_output,
            decreases self.input@.len() - i,
        {
            input.push(self.input[i].duplicate());
            i = i + 1;
        }
        let mut output: Vec<TxOutput> = Vec::new();
        let mut k: usize = 0;
        while k < self.output.len()
            invariant
                k <= self.output@.len(),
                output@.len() == k,
                forall|j: int| 0 <= j < k ==> #[trigger] output@[j]@ == self.output@[j]@,
            decreases self.output@.len() - k,
        {
            output.push(TxOutput { value: self.output[k].value, script_pubkey: copy_bytes(&self.output[k].script_pubkey) });
            k = k + 1;
        }
        let c = TransactionData { input, output };
        assert(c@.input =~= self@.input);
        assert(c@.output =~= self@.output);
        c
    }
}

/// An edict as ordinals holds it: block and transaction of the rune id, amount, output.
pub type RawEdict = (u64, u32, u128, u32);

/// Minting terms as ordinals holds them: amount, cap, height window, offset window.
pub type RawTerms = (Option<u128>, Option<u128>, (Option<u64>, Option<u64>), (Option<u64>, Option<u64>));

/// An etching as ordinals holds it: divisibility, premine, rune, spacers, symbol, terms,
/// turbo.
pub type RawEtching = (Option<u8>, Option<u128>, Option<u128>, Option<u32>, Option<char>, Option<RawTerms>, bool);

/// What ordinals deciphers: the rune minted, then either a runestone's edicts, pointer and
/// etching, or a cenotaph's etched rune name.
pub type RawArtifact = (Option<(u64, u32)>, Result<(Vec<RawEdict>, Option<u32>, Option<RawEtching>), Option<u128>>);

/// A deciphered artifact with its edicts as a sequence.
pub type RawArtifactView = (Option<(u64, u32)>, Result<(Seq<RawEdict>, Option<u32>, Option<RawEtching>), Option<u128>>);

/// The view of a deciphered artifact.
pub open spec fn raw_artifact_view(a: RawArtifact) -> RawArtifactView {
    (a.0, match a.1 {
        Ok((edicts, pointer, etching)) => Ok((edicts@, pointer, etching)),
        Err(rune) => Err(rune),
    })
}

/// The transaction that bitcoin's consensus decoding reads from `raw`, if it reads one.
pub uninterp spec fn decoded(raw: Seq<u8>) -> Option<TransactionView>;

/// What ordinals' `Runestone::decipher` finds in the transaction encoded by `raw`.
pub uninterp spec fn deciphered(raw: Seq<u8>) -> Option<RawArtifactView>;

/// The id that bitcoin's `Transaction::compute_txid` gives the transaction encoded by `raw`,
/// as bytes in the order they are stored.
pub uninterp spec fn computed_txid(raw: Seq<u8>) -> Seq<u8>;

/// Decodes a transaction with bitcoin's `consensus::deserialize`, keeping its inputs'
/// spent outputs and witnesses and its outputs' values and scripts, and computes its id with
/// `Transaction::compute_txid`. Both results are named, not stated.
#[verifier::external_body]
pub(crate) fn decode_with_txid(raw: &Vec<u8>) -> (r: Option<(TransactionData, Txid)>)
    ensures
        match r {
            Some((t, id)) => decoded(raw@) == Some(t@) && id@ == computed_txid(raw@),
            None => decoded(raw@) is None,
        },
{
    let tx: Transaction = deserialize(raw).ok()?;
    let id = Txid { bytes: bitcoin::hashes::Hash::to_byte_array(tx.compute_txid()) };
    Some((TransactionData {
        input: tx.input.iter().map(|i| TxInput { previous_output: SerializedOutPoint { txid: Txid { bytes: bitcoin::hashes::Hash::to_byte_array(i.previous_output.txid) }, vout: i.previous_output.vout }, witness: i.witness.to_vec() }).collect(),
        output: tx.output.iter().map(|o| TxOutput { value: o.value.to_sat(), script_pubkey: o.script_pubkey.to_bytes() }).collect(),
    }, id))
}


/// Decodes the transaction in `raw` and calls ordinals' `Runestone::decipher` on it. The
/// result is named, not stated. What is stated is what the decoder checks: an artifact comes
/// only from a transaction that decodes, no edict names an output past one after the last,
/// and a pointer names an existing output.
#[verifier::external_body]
fn decipher(raw: &Vec<u8>) -> (a: Option<RawArtifact>)
    ensures
        match a {
            Some(x) => deciphered(raw@) == Some(raw_artifact_view(x)),
            None => deciphered(raw@) is None,
        },
        a is Some ==> decoded(raw@) is Some,
        a matches Some((_, Ok((edicts, pointer, _)))) ==> (forall|i: int| 0 <= i < edicts@.len()
            ==> #[trigger] edicts@[i].3 <= decoded(raw@)->0.output.len()) && (pointer matches Some(
            p,
        ) ==> p < decoded(raw@)->0.output.len()),
{
    let a = Runestone::decipher(&deserialize(raw).ok()?)?;
    Some((a.mint().map(|i| (i.block, i.tx)), match a {
        OrdCenotaph(c) => Err(c.etching.map(Rune::n)),
        OrdRunestone(r) => Ok((r.edicts.iter().map(|e| (e.id.block, e.id.tx, e.amount, e.output)).collect(), r.pointer,
            r.etching.map(|e| (e.divisibility, e.premine, e.rune.map(Rune::n), e.spacers, e.symbol, e.terms.map(|t| (t.amount, t.cap, t.height, t.offset)), e.turbo)))),
    }))
}

/// bitcoin's `Script::is_op_return`: whether a script starts with `OP_RETURN` (`0x6a`).
#[verifier::external_body]
pub(crate) fn is_op_return(script: &Vec<u8>) -> (b: bool)
    ensures
        b == (script@.len() > 0 && script@[0] == 0x6a),
{
    bitcoin::Script::from_bytes(script).is_op_return()
}

/// The edict an ordinals edict stands for.
pub open spec fn edict_of_raw(e: RawEdict) -> Edict {
    Edict { id: RuneId { block: e.0, tx: e.1 }, amount: e.2, output: e.3 }
}

/// The terms that ordinals terms stand for.
pub open spec fn terms_of_raw(t: RawTerms) -> Terms {
    Terms { amount: t.0, cap: t.1, height: t.2, offset: t.3 }
}

/// The etching that an ordinals etching stands for.
pub open spec fn etching_of_raw(e: RawEtching) -> Etching {
    Etching {
        divisibility: e.0,
        premine: e.1,
        rune: e.2,
        spacers: e.3,
        symbol: e.4,
        terms: match e.5 {
            Some(t) => Some(terms_of_raw(t)),
            None => None,
        },
        turbo: e.6,
    }
}

/// The artifact that a deciphered ordinals artifact stands for.
pub open spec fn artifact_of_raw(a: RawArtifactView) -> ArtifactView {
    let mint = match a.0 {
        Some((block, tx)) => Some(RuneId { block, tx }),
        None => None,
    };
    match a.1 {
        Ok((edicts, pointer, etching)) => ArtifactView::Runestone {
            edicts: Seq::new(edicts.len(), |i: int| edict_of_raw(edicts[i])),
            pointer,
            etching: match etching {
                Some(e) => Some(etching_of_raw(e)),
                None => None,
            },
            mint,
        },
        Err(rune) => ArtifactView::Cenotaph { etching: rune, mint },
    }
}

/// The view of an optional artifact.
pub open spec fn artifact_view(a: Option<Artifact>) -> Option<ArtifactView> {
    match a {
        Some(x) => Some(x@),
        None => None,
    }
}

/// Whether a runestone's edicts and pointer name outputs of a transaction with `n` outputs:
/// an edict may name one past the last (meaning every output), a pointer may not.
pub open spec fn artifact_fits(a: ArtifactView, n: nat) -> bool {
    match a {
        ArtifactView::Runestone { edicts, pointer, .. } => (forall|i: int|
            0 <= i < edicts.len() ==> #[trigger] edicts[i].output <= n) && (pointer matches Some(p)
            ==> p < n),
        ArtifactView::Cenotaph { .. } => true,
    }
}

impl Artifact {
    /// Whether the artifact's edicts and pointer name outputs of a transaction with `n`
    /// outputs.
    pub fn fits(&self, n: usize) -> (b: bool)
        ensures
            b == artifact_fits(self@, n as nat),
    {
        match self {
            Artifact::Runestone { edicts, pointer, .. } => {
                let mut i: usize = 0;
                while i < edicts.len()
                    invariant
                        i <= edicts@.len(),
                        self@ is Runestone,
                        self@->Runestone_edicts == edicts@,
                        forall|j: int| 0 <= j < i ==> #[trigger] edicts@[j].output <= n,
                    decreases edicts@.len() - i,
                {
                    if edicts[i].output as usize > n {
                        assert(self@->Runestone_edicts[i as int] == edicts@[i as int]);
                        return false;
                    }
                    i = i + 1;
                }
                assert forall|j: int| 0 <= j < self@->Runestone_edicts.len() implies #[trigger] self@->Runestone_edicts[j].output <= n by {
                    assert(self@->Runestone_edicts[j] == edicts@[j]);
                }
                match pointer {
                    Some(p) => (*p as usize) < n,
                    None => true,
                }
            },
            Artifact::Cenotaph { .. } => true,
        }
    }
}

fn terms_from_raw(t: RawTerms) -> (r: Terms)
    ensures
        r == terms_of_raw(t),
{
    Terms { amount: t.0, cap: t.1, height: t.2, offset: t.3 }
}

fn etching_from_raw(e: RawEtching) -> (r: Etching)
    ensures
        r == etching_of_raw(e),
{
    let terms = match e.5 {
        Some(t) => Some(terms_from_raw(t)),
        None => None,
    };
    Etching {
        divisibility: e.0,
        premine: e.1,
        rune: e.2,
        spacers: e.3,
        symbol: e.4,
        terms,
        turbo: e.6,
    }
}

fn artifact_from_raw(a: RawArtifact) -> (r: Artifact)
    ensures
        r@ == artifact_of_raw(raw_artifact_view(a)),
{
    let mint = match a.0 {
        Some((block, tx)) => Some(RuneId { block, tx }),
        None => None,
    };
    match a.1 {
        Ok((raw_edicts, pointer, etching)) => {
            let mut edicts: Vec<Edict> = Vec::new();
            let mut i: usize = 0;
            while i < raw_edicts.len()
                invariant
                    i <= raw_edicts@.len(),
                    edicts@.len() == i,
                    forall|j: int| 0 <= j < i ==> #[trigger] edicts@[j] == edict_of_raw(raw_edicts@[j]),
                decreases raw_edicts@.len() - i,
            {
                let e = raw_edicts[i];
                edicts.push(Edict { id: RuneId { block: e.0, tx: e.1 }, amount: e.2, output: e.3 });
                i = i + 1;
            }
            let etching = match etching {
                Some(e) => Some(etching_from_raw(e)),
                None => None,
            };
            let r = Artifact::Runestone { edicts, pointer, etching, mint };
            assert(r@ =~= artifact_of_raw(raw_artifact_view(a))) by {
                assert(edicts@ =~= Seq::new(raw_edicts@.len(), |i: int| edict_of_raw(raw_edicts@[i])));
            }
            r
        },
        Err(rune) => Artifact::Cenotaph { etching: rune, mint },
    }
}

/// The transaction encoded by `raw`, as bitcoin's consensus decoding reads it.
pub fn decode_transaction(raw: &Vec<u8>) -> (r: Option<TransactionData>)
    ensures
        match r {
            Some(t) => decoded(raw@) == Some(t@),
            None => decoded(raw@) is None,
        },
{
    match decode_with_txid(raw) {
        Some((t, _)) => Some(t),
        None => None,
    }
}

/// The rune artifact of the transaction encoded by `raw`, as ordinals deciphers it. An
/// artifact comes only from a transaction that decodes, and its edicts and pointer name
/// outputs of that transaction.
pub fn decipher_transaction(raw: &Vec<u8>) -> (a: Option<Artifact>)
    ensures
        artifact_view(a) == match deciphered(raw@) {
            Some(x) => Some(artifact_of_raw(x)),
            None => None,
        },
        a is Some ==> decoded(raw@) is Some,
        a matches Some(x) ==> artifact_fits(x@, decoded(raw@)->0.output.len()),
{
    match decipher(raw) {
        Some(x) => {
            let r = artifact_from_raw(x);
            proof {
                if r is Runestone {
                    let n = decoded(raw@)->0.output.len();
                    assert forall|i: int| 0 <= i < r@->Runestone_edicts.len() implies #[trigger] r@->Runestone_edicts[i].output <= n by {
                        assert(r@->Runestone_edicts[i] == edict_of_raw(x.1->Ok_0.0@[i]));
                    }
                }
            }
            Some(r)
        },
        None => None,
    }
}

} // verus!

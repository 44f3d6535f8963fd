use vstd::prelude::*;

verus! {

broadcast use vstd::array::group_array_axioms;

/// A transaction id: 32 raw bytes, in the byte order in which they are stored.
#[derive(Clone, Copy, Debug)]
pub struct Txid {
    pub bytes: [u8; 32],
}

impl View for Txid {
    type V = Seq<u8>;

    open spec fn view(&self) -> Seq<u8> {
        self.bytes@
    }
}

impl Txid {
    /// The id whose 32 bytes are all zero.
    pub fn all_zeros() -> (t: Txid)
        ensures
            t@ == Seq::new(32, |i: int| 0u8),
    {
        let t = Txid { bytes: [0u8; 32] };
        assert(t@ =~= Seq::new(32, |i: int| 0u8));
        t
    }

    /// Builds an id from exactly 32 bytes.
    pub fn from_slice(bytes: &[u8]) -> (t: Txid)
        requires
            bytes@.len() == 32,
        ensures
            t@ == bytes@,
    {
        let mut a = [0u8; 32];
        let mut i: usize = 0;
        while i < 32
            invariant
                bytes@.len() == 32,
                i <= 32,
                forall|j: int| 0 <= j < i ==> a@[j] == bytes@[j],
            decreases 32 - i,
        {
            a[i] = bytes[i];
            i = i + 1;
        }
        assert(a@ =~= bytes@);
        Txid { bytes: a }
    }

    /// Whether two ids hold the same bytes.
    pub fn same(&self, other: &Txid) -> (b: bool)
        ensures
            b == (*self == *other),
            b == (self@ == other@),
    {
        let mut i: usize = 0;
        while i < 32
            invariant
                i <= 32,
                forall|j: int| 0 <= j < i ==> self@[j] == other@[j],
            decreases 32 - i,
        {
            if self.bytes[i] != other.bytes[i] {
                return false;
            }
            i = i + 1;
        }
        assert(self@ =~= other@);
        proof {
            lemma_txid_view_injective(*self, *other);
        }
        true
    }
}

/// Two ids with equal bytes are equal.
pub proof fn lemma_txid_view_injective(a: Txid, b: Txid)
    requires
        a@ == b@,
    ensures
        a == b,
{
    assert(a.bytes =~= b.bytes);
}

/// A block hash: 32 raw bytes, in the byte order in which they are stored.
#[derive(Clone, Copy, Debug)]
pub struct BlockHash {
    pub bytes: [u8; 32],
}

impl View for BlockHash {
    type V = Seq<u8>;

    open spec fn view(&self) -> Seq<u8> {
        self.bytes@
    }
}

impl BlockHash {
    /// Whether two hashes hold the same bytes.
    pub fn same(&self, other: &BlockHash) -> (b: bool)
        ensures
            b == (self@ == other@),
    {
        let mut i: usize = 0;
        while i < 32
            invariant
                i <= 32,
                forall|j: int| 0 <= j < i ==> self@[j] == other@[j],
            decreases 32 - i,
        {
            if self.bytes[i] != other.bytes[i] {
                return false;
            }
            i = i + 1;
        }
        assert(self@ =~= other@);
        true
    }
}

/// An output of a transaction: the transaction's id and the output's index.
#[derive(Clone, Copy, Debug)]
pub struct SerializedOutPoint {
    pub txid: Txid,
    pub vout: u32,
}

impl SerializedOutPoint {
    /// The outpoint of output `vout` of transaction `txid`.
    pub fn from_txid_vout(txid: &Txid, vout: u32) -> (o: SerializedOutPoint)
        ensures
            o.txid == *txid,
            o.vout == vout,
    {
        SerializedOutPoint { txid: *txid, vout }
    }

    /// Whether two outpoints are the same.
    pub fn same(&self, other: &SerializedOutPoint) -> (b: bool)
        ensures
            b == (*self == *other),
    {
        self.vout == other.vout && self.txid.same(&other.txid)
    }
}

/// The id of a rune: the height of the block and the index of the transaction that etched it.
#[derive(Clone, Copy, Debug, PartialEq, Eq, Structural)]
pub struct RuneId {
    pub block: u64,
    pub tx: u32,
}

impl RuneId {
    /// The default id, block 0 and transaction 0, which edicts use to refer to the rune
    /// etched by the same transaction.
    pub fn zero() -> (r: RuneId)
        ensures
            r.block == 0 && r.tx == 0,
    {
        RuneId { block: 0, tx: 0 }
    }
}

} // verus!

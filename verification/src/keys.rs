use vstd::prelude::*;
use vstd::slice::*;
use crate::types::{RuneId, SerializedOutPoint, Txid};

verus! {

/// The eight little-endian bytes of `x`.
pub open spec fn le_u64(x: u64) -> Seq<u8> {
    seq![
        x as u8,
        (x >> 8u64) as u8,
        (x >> 16u64) as u8,
        (x >> 24u64) as u8,
        (x >> 32u64) as u8,
        (x >> 40u64) as u8,
        (x >> 48u64) as u8,
        (x >> 56u64) as u8,
    ]
}

/// The four little-endian bytes of `x`.
pub open spec fn le_u32(x: u32) -> Seq<u8> {
    seq![x as u8, (x >> 8u32) as u8, (x >> 16u32) as u8, (x >> 24u32) as u8]
}

/// The number whose little-endian bytes are `b[0..8]`.
pub open spec fn u64_of_le(b: Seq<u8>) -> u64 {
    (b[0] as u64) | ((b[1] as u64) << 8u64) | ((b[2] as u64) << 16u64) | ((b[3] as u64) << 24u64)
        | ((b[4] as u64) << 32u64) | ((b[5] as u64) << 40u64) | ((b[6] as u64) << 48u64) | ((
    b[7] as u64) << 56u64)
}

/// The number whose little-endian bytes are `b[0..4]`.
pub open spec fn u32_of_le(b: Seq<u8>) -> u32 {
    (b[0] as u32) | ((b[1] as u32) << 8u32) | ((b[2] as u32) << 16u32) | ((b[3] as u32) << 24u32)
}

/// The 36 bytes of an outpoint: the txid's 32 bytes, then the output index, little-endian.
pub open spec fn outpoint_bytes(o: SerializedOutPoint) -> Seq<u8> {
    o.txid@ + le_u32(o.vout)
}

/// The 12 bytes of a rune id: the block, then the transaction index, little-endian.
pub open spec fn rune_id_bytes(r: RuneId) -> Seq<u8> {
    le_u64(r.block) + le_u32(r.tx)
}

/// The bytes of the string `rune_index:`.
pub open spec fn rune_index_prefix() -> Seq<u8> {
    seq![114u8, 117, 110, 101, 95, 105, 110, 100, 101, 120, 58]
}

/// The bytes of the string `rune:`.
pub open spec fn rune_prefix() -> Seq<u8> {
    seq![114u8, 117, 110, 101, 58]
}

/// The byte `:`.
pub open spec fn colon() -> u8 {
    58u8
}

proof fn lemma_u64_le_roundtrip(x: u64)
    ensures
        u64_of_le(le_u64(x)) == x,
{
    let b0 = x as u8;
    let b1 = (x >> 8u64) as u8;
    let b2 = (x >> 16u64) as u8;
    let b3 = (x >> 24u64) as u8;
    let b4 = (x >> 32u64) as u8;
    let b5 = (x >> 40u64) as u8;
    let b6 = (x >> 48u64) as u8;
    let b7 = (x >> 56u64) as u8;
    assert((b0 as u64) | ((b1 as u64) << 8u64) | ((b2 as u64) << 16u64) | ((b3 as u64) << 24u64)
        | ((b4 as u64) << 32u64) | ((b5 as u64) << 40u64) | ((b6 as u64) << 48u64) | ((
    b7 as u64) << 56u64) == x) by (bit_vector)
        requires
            b0 == x as u8,
            b1 == (x >> 8u64) as u8,
            b2 == (x >> 16u64) as u8,
            b3 == (x >> 24u64) as u8,
            b4 == (x >> 32u64) as u8,
            b5 == (x >> 40u64) as u8,
            b6 == (x >> 48u64) as u8,
            b7 == (x >> 56u64) as u8,
    ;
}

proof fn lemma_u32_le_roundtrip(x: u32)
    ensures
        u32_of_le(le_u32(x)) == x,
{
    let b0 = x as u8;
    let b1 = (x >> 8u32) as u8;
    let b2 = (x >> 16u32) as u8;
    let b3 = (x >> 24u32) as u8;
    assert((b0 as u32) | ((b1 as u32) << 8u32) | ((b2 as u32) << 16u32) | ((b3 as u32) << 24u32)
        == x) by (bit_vector)
        requires
            b0 == x as u8,
            b1 == (x >> 8u32) as u8,
            b2 == (x >> 16u32) as u8,
            b3 == (x >> 24u32) as u8,
    ;
}

proof fn lemma_le_u64_of_bytes(b: Seq<u8>)
    requires
        b.len() == 8,
    ensures
        le_u64(u64_of_le(b)) == b,
{
    let (b0, b1, b2, b3, b4, b5, b6, b7) = (b[0], b[1], b[2], b[3], b[4], b[5], b[6], b[7]);
    let x = u64_of_le(b);
    assert(x as u8 == b0 && (x >> 8u64) as u8 == b1 && (x >> 16u64) as u8 == b2 && (x >> 24u64) as u8
        == b3 && (x >> 32u64) as u8 == b4 && (x >> 40u64) as u8 == b5 && (x >> 48u64) as u8 == b6
        && (x >> 56u64) as u8 == b7) by (bit_vector)
        requires
            x == (b0 as u64) | ((b1 as u64) << 8u64) | ((b2 as u64) << 16u64) | ((b3 as u64)
                << 24u64) | ((b4 as u64) << 32u64) | ((b5 as u64) << 40u64) | ((b6 as u64)
                << 48u64) | ((b7 as u64) << 56u64),
    ;
    assert(le_u64(x) =~= b);
}

proof fn lemma_le_u32_of_bytes(b: Seq<u8>)
    requires
        b.len() == 4,
    ensures
        le_u32(u32_of_le(b)) == b,
{
    let (b0, b1, b2, b3) = (b[0], b[1], b[2], b[3]);
    let x = u32_of_le(b);
    assert(x as u8 == b0 && (x >> 8u32) as u8 == b1 && (x >> 16u32) as u8 == b2 && (x >> 24u32) as u8
        == b3) by (bit_vector)
        requires
            x == (b0 as u32) | ((b1 as u32) << 8u32) | ((b2 as u32) << 16u32) | ((b3 as u32)
                << 24u32),
    ;
    assert(le_u32(x) =~= b);
}

fn push_le_u64(v: &mut Vec<u8>, x: u64)
    ensures
        final(v)@ == old(v)@ + le_u64(x),
{
    v.push(x as u8);
    v.push((x >> 8) as u8);
    v.push((x >> 16) as u8);
    v.push((x >> 24) as u8);
    v.push((x >> 32) as u8);
    v.push((x >> 40) as u8);
    v.push((x >> 48) as u8);
    v.push((x >> 56) as u8);
    assert(v@ =~= old(v)@ + le_u64(x));
}

fn push_le_u32(v: &mut Vec<u8>, x: u32)
    ensures
        final(v)@ == old(v)@ + le_u32(x),
{
    v.push(x as u8);
    v.push((x >> 8) as u8);
    v.push((x >> 16) as u8);
    v.push((x >> 24) as u8);
    assert(v@ =~= old(v)@ + le_u32(x));
}

fn extend_from(v: &mut Vec<u8>, s: &[u8])
    ensures
        final(v)@ == old(v)@ + s@,
{
    let mut i: usize = 0;
    while i < s.len()
        invariant
            i <= s@.len(),
            v@ == old(v)@ + s@.subrange(0, i as int),
        decreases s@.len() - i,
    {
        v.push(s[i]);
        i = i + 1;
        assert(v@ =~= old(v)@ + s@.subrange(0, i as int));
    }
    assert(s@.subrange(0, s@.len() as int) =~= s@);
}

fn read_le_u32(b: &[u8], at: usize) -> (x: u32)
    requires
        at + 4 <= b@.len(),
    ensures
        x == u32_of_le(b@.subrange(at as int, at + 4)),
{
    (b[at] as u32) | ((b[at + 1] as u32) << 8) | ((b[at + 2] as u32) << 16) | ((b[at + 3] as u32)
        << 24)
}

fn read_le_u64(b: &[u8], at: usize) -> (x: u64)
    requires
        at + 8 <= b@.len(),
    ensures
        x == u64_of_le(b@.subrange(at as int, at + 8)),
{
    (b[at] as u64) | ((b[at + 1] as u64) << 8) | ((b[at + 2] as u64) << 16) | ((b[at + 3] as u64)
        << 24) | ((b[at + 4] as u64) << 32) | ((b[at + 5] as u64) << 40) | ((b[at + 6] as u64)
        << 48) | ((b[at + 7] as u64) << 56)
}

/// The 36 bytes that identify an outpoint in the store.
pub fn outpoint_to_bytes(outpoint: &SerializedOutPoint) -> (v: Vec<u8>)
    ensures
        v@ == outpoint_bytes(*outpoint),
{
    let mut v: Vec<u8> = Vec::new();
    extend_from(&mut v, outpoint.txid.bytes.as_slice());
    push_le_u32(&mut v, outpoint.vout);
    v
}

/// Reads an outpoint from exactly 36 bytes; any other length is refused.
pub fn outpoint_from_bytes(bytes: &[u8]) -> (r: Result<SerializedOutPoint, &'static str>)
    ensures
        bytes@.len() != 36 <==> r is Err,
        r matches Ok(o) ==> outpoint_bytes(o) == bytes@,
{
    if bytes.len() != 36 {
        return Err("Invalid length for OutPoint, expected 36 bytes");
    }
    let vout = read_le_u32(bytes, 32);
    let txid = Txid::from_slice(slice_subrange(bytes, 0, 32));
    let o = SerializedOutPoint { txid, vout };
    proof {
        lemma_le_u32_of_bytes(bytes@.subrange(32, 36));
        assert(outpoint_bytes(o) =~= bytes@);
    }
    Ok(o)
}

/// Converts a rune id to its 12 bytes.
pub fn rune_id_to_bytes(rune_id: &RuneId) -> (v: Vec<u8>)
    ensures
        v@ == rune_id_bytes(*rune_id),
{
    let mut v: Vec<u8> = Vec::new();
    push_le_u64(&mut v, rune_id.block);
    push_le_u32(&mut v, rune_id.tx);
    assert(v@ =~= rune_id_bytes(*rune_id));
    v
}

/// Reads a rune id from exactly 12 bytes; any other length is refused.
pub fn rune_id_from_bytes(bytes: &[u8]) -> (r: Result<RuneId, &'static str>)
    ensures
        bytes@.len() != 12 <==> r is Err,
        r matches Ok(id) ==> rune_id_bytes(id) == bytes@,
{
    if bytes.len() != 12 {
        return Err("Invalid length for RuneId, expected 12 bytes");
    }
    let block = read_le_u64(bytes, 0);
    let tx = read_le_u32(bytes, 8);
    let id = RuneId { block, tx };
    proof {
        lemma_le_u64_of_bytes(bytes@.subrange(0, 8));
        lemma_le_u32_of_bytes(bytes@.subrange(8, 12));
        assert(rune_id_bytes(id) =~= bytes@);
    }
    Ok(id)
}

/// The prefix under which all outpoints of a script pubkey are stored: the script's bytes
/// followed by `:`.
pub fn script_pubkey_search_key(script_pubkey: &[u8]) -> (v: Vec<u8>)
    ensures
        v@ == script_pubkey@.push(colon()),
{
    let mut v: Vec<u8> = Vec::new();
    extend_from(&mut v, script_pubkey);
    v.push(58u8);
    assert(v@ =~= script_pubkey@.push(colon()));
    v
}

/// The key of one outpoint of a script pubkey: the search key followed by the outpoint's bytes.
pub fn script_pubkey_outpoint_to_bytes(script_pubkey: &[u8], outpoint: &SerializedOutPoint) -> (v:
    Vec<u8>)
    ensures
        v@ == script_pubkey@.push(colon()) + outpoint_bytes(*outpoint),
{
    let prefix = script_pubkey_search_key(script_pubkey);
    let mut v: Vec<u8> = Vec::new();
    extend_from(&mut v, prefix.as_slice());
    let ob = outpoint_to_bytes(outpoint);
    extend_from(&mut v, ob.as_slice());
    assert(v@ =~= script_pubkey@.push(colon()) + outpoint_bytes(*outpoint));
    v
}

/// Reads the outpoint at the end of a script-pubkey key. The key must be longer than an
/// outpoint; the byte before the last 36 must be `:`.
pub fn parse_outpoint_from_script_pubkey_key(key: &[u8]) -> (r: Result<
    SerializedOutPoint,
    &'static str,
>)
    requires
        key@.len() > 36,
    ensures
        key@[key@.len() - 37] != colon() <==> r is Err,
        r matches Ok(o) ==> outpoint_bytes(o) == key@.subrange(key@.len() - 36, key@.len() as int),
{
    let script_pubkey_len = key.len() - 36;
    if key[script_pubkey_len - 1] != 58u8 {
        return Err("Invalid key format: missing delimiter");
    }
    outpoint_from_bytes(slice_subrange(key, script_pubkey_len, key.len()))
}

fn push_bytes(v: &mut Vec<u8>, bytes: &[u8])
    ensures
        final(v)@ == old(v)@ + bytes@,
{
    extend_from(v, bytes);
}

/// The key under which the number of transactions of a rune is stored.
pub fn rune_index_key(rune_id: &RuneId) -> (v: Vec<u8>)
    ensures
        v@ == rune_index_prefix() + rune_id_bytes(*rune_id),
{
    let prefix: [u8; 11] = [114, 117, 110, 101, 95, 105, 110, 100, 101, 120, 58];
    assert(prefix@ =~= rune_index_prefix());
    let mut v: Vec<u8> = Vec::new();
    push_bytes(&mut v, prefix.as_slice());
    let id = rune_id_to_bytes(rune_id);
    push_bytes(&mut v, id.as_slice());
    assert(v@ =~= rune_index_prefix() + rune_id_bytes(*rune_id));
    v
}

/// The key of the `index`-th transaction of a rune: `rune:`, the rune id's bytes, `:`, and the
/// index, little-endian.
pub fn rune_transaction_key(rune_id: &RuneId, index: u64) -> (v: Vec<u8>)
    ensures
        v@ == (rune_prefix() + rune_id_bytes(*rune_id)).push(colon()) + le_u64(index),
{
    let prefix: [u8; 5] = [114, 117, 110, 101, 58];
    assert(prefix@ =~= rune_prefix());
    let mut v: Vec<u8> = Vec::new();
    push_bytes(&mut v, prefix.as_slice());
    let id = rune_id_to_bytes(rune_id);
    push_bytes(&mut v, id.as_slice());
    v.push(58u8);
    push_le_u64(&mut v, index);
    assert(v@ =~= (rune_prefix() + rune_id_bytes(*rune_id)).push(colon()) + le_u64(index));
    v
}

/// Reading a rune id back from its bytes gives the same id.
pub proof fn lemma_rune_id_bytes_roundtrip(r: RuneId)
    ensures
        u64_of_le(rune_id_bytes(r).subrange(0, 8)) == r.block,
        u32_of_le(rune_id_bytes(r).subrange(8, 12)) == r.tx,
{
    assert(rune_id_bytes(r).subrange(0, 8) =~= le_u64(r.block));
    assert(rune_id_bytes(r).subrange(8, 12) =~= le_u32(r.tx));
    lemma_u64_le_roundtrip(r.block);
    lemma_u32_le_roundtrip(r.tx);
}

/// Two rune ids with the same bytes are the same id: the encoding loses nothing.
pub proof fn lemma_rune_id_bytes_injective(a: RuneId, b: RuneId)
    requires
        rune_id_bytes(a) == rune_id_bytes(b),
    ensures
        a == b,
{
    lemma_rune_id_bytes_roundtrip(a);
    lemma_rune_id_bytes_roundtrip(b);
}

/// Two outpoints with the same bytes are the same outpoint.
pub proof fn lemma_outpoint_bytes_injective(a: SerializedOutPoint, b: SerializedOutPoint)
    requires
        outpoint_bytes(a) == outpoint_bytes(b),
    ensures
        a == b,
{
    assert(outpoint_bytes(a).subrange(0, 32) =~= a.txid@);
    assert(outpoint_bytes(b).subrange(0, 32) =~= b.txid@);
    assert(outpoint_bytes(a).subrange(32, 36) =~= le_u32(a.vout));
    assert(outpoint_bytes(b).subrange(32, 36) =~= le_u32(b.vout));
    lemma_u32_le_roundtrip(a.vout);
    lemma_u32_le_roundtrip(b.vout);
    crate::types::lemma_txid_view_injective(a.txid, b.txid);
}

} // verus!

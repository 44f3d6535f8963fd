use vstd::prelude::*;
use vstd::slice::{slice_subrange, slice_to_vec};
use vstd::utf8::{
    char_is_scalar, char_u32_cast, decode_utf8, encode_utf8, encode_utf8_decode_utf8,
    encode_utf8_valid_utf8, is_ascii_chars_encode_utf8, is_scalar, valid_utf8,
};
use crate::codec::{
    enc_bool, enc_opt, le, lemma_pow256_values, lemma_rd, lemma_rd_bool, lemma_rd_opt, pow256, rd,
    rd_bool, rd_opt, read_bool, read_le, read_opt, write_bool, write_le, write_opt,
};
use crate::inscription_id::{
    lemma_txid_hex_ascii, lemma_txid_hex_round_trip, txid_display, txid_hex, txid_of_hex, txid_parse,
};
use crate::rune_entry::{InscriptionId, RuneEntry, SpacedRune, Terms};
use crate::types::{lemma_txid_view_injective, Txid};

verus! {

/// An optional `u128` as a number.
pub open spec fn nat_of_u128(o: Option<u128>) -> Option<nat> {
    match o {
        Some(x) => Some(x as nat),
        None => None,
    }
}

/// An optional `u64` as a number.
pub open spec fn nat_of_u64(o: Option<u64>) -> Option<nat> {
    match o {
        Some(x) => Some(x as nat),
        None => None,
    }
}

/// A text as stored: the length of its UTF-8 bytes in four bytes, then the bytes.
pub open spec fn enc_string(chars: Seq<char>) -> Seq<u8> {
    le(encode_utf8(chars).len(), 4) + encode_utf8(chars)
}

/// The stored form of a rune's symbol: a flag, then the character's code in four bytes.
pub open spec fn enc_symbol(s: Option<char>) -> Seq<u8> {
    enc_opt(
        match s {
            Some(c) => Some((c as u32) as nat),
            None => None,
        },
        4,
    )
}

/// The stored form of minting terms: a flag, then the amount, the cap, and the height and
/// offset windows, each an optional number.
pub open spec fn enc_terms(t: Option<Terms>) -> Seq<u8> {
    match t {
        Some(t) => enc_bool(true) + enc_opt(nat_of_u128(t.amount), 16) + enc_opt(nat_of_u128(t.cap), 16)
            + enc_opt(nat_of_u64(t.height.0), 8) + enc_opt(nat_of_u64(t.height.1), 8) + enc_opt(
            nat_of_u64(t.offset.0),
            8,
        ) + enc_opt(nat_of_u64(t.offset.1), 8),
        None => enc_bool(false),
    }
}

/// The stored form of an optional inscription id: a flag, then the transaction id's 32
/// bytes and the index in four bytes.
pub open spec fn enc_inscription(i: Option<InscriptionId>) -> Seq<u8> {
    match i {
        Some(i) => enc_bool(true) + i.txid@ + le(i.index as nat, 4),
        None => enc_bool(false),
    }
}

/// The stored block, burned amount and divisibility of an entry.
pub open spec fn head_bytes(e: RuneEntry) -> Seq<u8> {
    le(e.block as nat, 8) + le(e.burned as nat, 16) + le(e.divisibility as nat, 1)
}

/// The stored mints, number, premine, rune and spacers of an entry.
pub open spec fn mid_bytes(e: RuneEntry) -> Seq<u8> {
    le(e.mints as nat, 16) + le(e.number as nat, 8) + le(e.premine as nat, 16) + le(
        e.spaced_rune.rune as nat,
        16,
    ) + le(e.spaced_rune.spacers as nat, 4)
}

/// The stored pending burns and mints, timestamp and turbo flag of an entry.
pub open spec fn tail_bytes(e: RuneEntry) -> Seq<u8> {
    le(e.pending_burns as nat, 16) + le(e.pending_mints as nat, 16) + le(e.timestamp as nat, 8)
        + enc_bool(e.turbo)
}

/// The stored form of a rune entry: its fields in order, numbers little-endian, the etching
/// transaction as its displayed text.
pub open spec fn rune_entry_bytes(e: RuneEntry) -> Seq<u8> {
    head_bytes(e) + enc_string(txid_hex(e.etching@)) + mid_bytes(e) + enc_symbol(e.symbol) + enc_terms(
        e.terms,
    ) + enc_inscription(e.inscription_id) + tail_bytes(e)
}

/// The transaction id whose bytes are `b`.
pub open spec fn txid_from_bytes(b: Seq<u8>) -> Txid {
    choose|t: Txid| t@ == b
}

/// Reads a stored transaction id text: its length, then UTF-8 bytes that spell 64 hex digits.
#[verifier::opaque]
pub open spec fn rd_txid_text(s: Seq<u8>) -> Option<(Seq<u8>, Seq<u8>)> {
    match rd(4, s) {
        Some((n, r)) => if r.len() >= n && valid_utf8(r.take(n as int)) && txid_of_hex(
            decode_utf8(r.take(n as int)),
        ) is Some {
            Some((txid_of_hex(decode_utf8(r.take(n as int)))->0, r.skip(n as int)))
        } else {
            None
        },
        None => None,
    }
}

/// Reads a stored symbol: a flag, then a code that must be a character's.
#[verifier::opaque]
pub open spec fn rd_symbol(s: Seq<u8>) -> Option<(Option<char>, Seq<u8>)> {
    match rd_opt(4, s) {
        Some((Some(v), r)) => if is_scalar(v as u32) {
            Some((Some((v as u32) as char), r))
        } else {
            None
        },
        Some((None, r)) => Some((None, r)),
        None => None,
    }
}

/// A number read from 16 bytes, as a `u128`.
pub open spec fn opt_u128(o: Option<nat>) -> Option<u128> {
    match o {
        Some(x) => Some(x as u128),
        None => None,
    }
}

/// A number read from 8 bytes, as a `u64`.
pub open spec fn opt_u64(o: Option<nat>) -> Option<u64> {
    match o {
        Some(x) => Some(x as u64),
        None => None,
    }
}

/// Reads the six optional numbers of stored terms.
#[verifier::opaque]
pub open spec fn rd_term_fields(s: Seq<u8>) -> Option<(Terms, Seq<u8>)> {
    match rd_opt(16, s) {
        Some((amount, r1)) => match rd_opt(16, r1) {
            Some((cap, r2)) => match rd_opt(8, r2) {
                Some((h0, r3)) => match rd_opt(8, r3) {
                    Some((h1, r4)) => match rd_opt(8, r4) {
                        Some((o0, r5)) => match rd_opt(8, r5) {
                            Some((o1, r6)) => Some(
                                (
                                    Terms {
                                        amount: opt_u128(amount),
                                        cap: opt_u128(cap),
                                        height: (opt_u64(h0), opt_u64(h1)),
                                        offset: (opt_u64(o0), opt_u64(o1)),
                                    },
                                    r6,
                                ),
                            ),
                            None => None,
                        },
                        None => None,
                    },
                    None => None,
                },
                None => None,
            },
            None => None,
        },
        None => None,
    }
}

/// Reads stored terms: a flag, then the terms when there are some.
#[verifier::opaque]
pub open spec fn rd_terms(s: Seq<u8>) -> Option<(Option<Terms>, Seq<u8>)> {
    match rd_bool(s) {
        Some((false, r)) => Some((None, r)),
        Some((true, r)) => match rd_term_fields(r) {
            Some((t, r2)) => Some((Some(t), r2)),
            None => None,
        },
        None => None,
    }
}

/// Reads a stored optional inscription id.
#[verifier::opaque]
pub open spec fn rd_inscription(s: Seq<u8>) -> Option<(Option<InscriptionId>, Seq<u8>)> {
    match rd_bool(s) {
        Some((false, r)) => Some((None, r)),
        Some((true, r)) => if r.len() >= 32 {
            match rd(4, r.skip(32)) {
                Some((index, r2)) => Some(
                    (Some(InscriptionId { txid: txid_from_bytes(r.take(32)), index: index as u32 }), r2),
                ),
                None => None,
            }
        } else {
            None
        },
        None => None,
    }
}

/// Reads the block, burned amount and divisibility of a stored entry.
#[verifier::opaque]
pub open spec fn rd_head(s: Seq<u8>) -> Option<((nat, nat, nat), Seq<u8>)> {
    match rd(8, s) {
        Some((block, r1)) => match rd(16, r1) {
            Some((burned, r2)) => match rd(1, r2) {
                Some((divisibility, r3)) => Some(((block, burned, divisibility), r3)),
                None => None,
            },
            None => None,
        },
        None => None,
    }
}

/// Reads the mints, number, premine, rune and spacers of a stored entry.
#[verifier::opaque]
pub open spec fn rd_mid(s: Seq<u8>) -> Option<((nat, nat, nat, nat, nat), Seq<u8>)> {
    match rd(16, s) {
        Some((mints, r1)) => match rd(8, r1) {
            Some((number, r2)) => match rd(16, r2) {
                Some((premine, r3)) => match rd(16, r3) {
                    Some((rune, r4)) => match rd(4, r4) {
                        Some((spacers, r5)) => Some(((mints, number, premine, rune, spacers), r5)),
                        None => None,
                    },
                    None => None,
                },
                None => None,
            },
            None => None,
        },
        None => None,
    }
}

/// Reads the pending burns and mints, timestamp and turbo flag of a stored entry.
#[verifier::opaque]
pub open spec fn rd_tail(s: Seq<u8>) -> Option<((nat, nat, nat, bool), Seq<u8>)> {
    match rd(16, s) {
        Some((pending_burns, r1)) => match rd(16, r1) {
            Some((pending_mints, r2)) => match rd(8, r2) {
                Some((timestamp, r3)) => match rd_bool(r3) {
                    Some((turbo, r4)) => Some(((pending_burns, pending_mints, timestamp, turbo), r4)),
                    None => None,
                },
                None => None,
            },
            None => None,
        },
        None => None,
    }
}

/// The entry stored at the front of `s`, if it holds one; bytes after it are ignored.
pub open spec fn spec_load_rune_entry(s: Seq<u8>) -> Option<RuneEntry> {
    match rd_head(s) {
        Some(((block, burned, divisibility), r1)) => match rd_txid_text(r1) {
            Some((etching, r2)) => match rd_mid(r2) {
                Some(((mints, number, premine, rune, spacers), r3)) => match rd_symbol(r3) {
                    Some((symbol, r4)) => match rd_terms(r4) {
                        Some((terms, r5)) => match rd_inscription(r5) {
                            Some((inscription_id, r6)) => match rd_tail(r6) {
                                Some(((pending_burns, pending_mints, timestamp, turbo), _)) => Some(
                                    RuneEntry {
                                        block: block as u64,
                                        burned: burned as u128,
                                        divisibility: divisibility as u8,
                                        etching: txid_from_bytes(etching),
                                        mints: mints as u128,
                                        number: number as u64,
                                        premine: premine as u128,
                                        spaced_rune: SpacedRune {
                                            rune: rune as u128,
                                            spacers: spacers as u32,
                                        },
                                        symbol,
                                        terms,
                                        pending_burns: pending_burns as u128,
                                        pending_mints: pending_mints as u128,
                                        inscription_id,
                                        timestamp: timestamp as u64,
                                        turbo,
                                    },
                                ),
                                None => None,
                            },
                            None => None,
                        },
                        None => None,
                    },
                    None => None,
                },
                None => None,
            },
            None => None,
        },
        None => None,
    }
}

proof fn lemma_txid_from_bytes(t: Txid)
    ensures
        txid_from_bytes(t@) == t,
{
    assert(exists|x: Txid| #[trigger] x.view() == t@) by {
        assert(t.view() == t@);
    }
    let c = txid_from_bytes(t@);
    lemma_txid_view_injective(c, t);
}

proof fn lemma_rd_txid_text(t: Txid, rest: Seq<u8>)
    ensures
        rd_txid_text(enc_string(txid_hex(t@)) + rest) == Some((t@, rest)),
{
    reveal(rd_txid_text);
    let chars = txid_hex(t@);
    let bytes = encode_utf8(chars);
    lemma_txid_hex_ascii(t@);
    is_ascii_chars_encode_utf8(chars);
    encode_utf8_valid_utf8(chars);
    encode_utf8_decode_utf8(chars);
    lemma_txid_hex_round_trip(t@);
    lemma_pow256_values();
    assert(enc_string(chars) + rest =~= le(64, 4) + (bytes + rest));
    lemma_rd(64, 4, bytes + rest);
    assert((bytes + rest).take(64) =~= bytes);
    assert((bytes + rest).skip(64) =~= rest);
}

proof fn lemma_rd_head(block: nat, burned: nat, divisibility: nat, rest: Seq<u8>)
    requires
        block < pow256(8),
        burned < pow256(16),
        divisibility < pow256(1),
    ensures
        rd_head(le(block, 8) + le(burned, 16) + le(divisibility, 1) + rest) == Some(
            ((block, burned, divisibility), rest),
        ),
{
    reveal(rd_head);
    let s = le(block, 8) + le(burned, 16) + le(divisibility, 1) + rest;
    assert(s =~= le(block, 8) + (le(burned, 16) + (le(divisibility, 1) + rest)));
    lemma_rd(block, 8, le(burned, 16) + (le(divisibility, 1) + rest));
    lemma_rd(burned, 16, le(divisibility, 1) + rest);
    lemma_rd(divisibility, 1, rest);
}

proof fn lemma_rd_mid(mints: nat, number: nat, premine: nat, rune: nat, spacers: nat, rest: Seq<u8>)
    requires
        mints < pow256(16),
        number < pow256(8),
        premine < pow256(16),
        rune < pow256(16),
        spacers < pow256(4),
    ensures
        rd_mid(le(mints, 16) + le(number, 8) + le(premine, 16) + le(rune, 16) + le(spacers, 4) + rest)
            == Some(((mints, number, premine, rune, spacers), rest)),
{
    reveal(rd_mid);
    let s = le(mints, 16) + le(number, 8) + le(premine, 16) + le(rune, 16) + le(spacers, 4) + rest;
    assert(s =~= le(mints, 16) + (le(number, 8) + (le(premine, 16) + (le(rune, 16) + (le(spacers, 4)
        + rest)))));
    lemma_rd(mints, 16, le(number, 8) + (le(premine, 16) + (le(rune, 16) + (le(spacers, 4) + rest))));
    lemma_rd(number, 8, le(premine, 16) + (le(rune, 16) + (le(spacers, 4) + rest)));
    lemma_rd(premine, 16, le(rune, 16) + (le(spacers, 4) + rest));
    lemma_rd(rune, 16, le(spacers, 4) + rest);
    lemma_rd(spacers, 4, rest);
}

proof fn lemma_rd_tail(pending_burns: nat, pending_mints: nat, timestamp: nat, turbo: bool, rest: Seq<u8>)
    requires
        pending_burns < pow256(16),
        pending_mints < pow256(16),
        timestamp < pow256(8),
    ensures
        rd_tail(le(pending_burns, 16) + le(pending_mints, 16) + le(timestamp, 8) + enc_bool(turbo) + rest)
            == Some(((pending_burns, pending_mints, timestamp, turbo), rest)),
{
    reveal(rd_tail);
    let s = le(pending_burns, 16) + le(pending_mints, 16) + le(timestamp, 8) + enc_bool(turbo) + rest;
    assert(s =~= le(pending_burns, 16) + (le(pending_mints, 16) + (le(timestamp, 8) + (enc_bool(turbo)
        + rest))));
    lemma_rd(pending_burns, 16, le(pending_mints, 16) + (le(timestamp, 8) + (enc_bool(turbo) + rest)));
    lemma_rd(pending_mints, 16, le(timestamp, 8) + (enc_bool(turbo) + rest));
    lemma_rd(timestamp, 8, enc_bool(turbo) + rest);
    lemma_rd_bool(turbo, rest);
}

proof fn lemma_rd_symbol(sym: Option<char>, rest: Seq<u8>)
    ensures
        rd_symbol(enc_symbol(sym) + rest) == Some((sym, rest)),
{
    reveal(rd_symbol);
    lemma_pow256_values();
    match sym {
        Some(c) => {
            let v = (c as u32) as nat;
            lemma_rd_opt(Some(v), 4, rest);
            char_is_scalar(c);
            char_u32_cast(c, c as u32);
        },
        None => {
            lemma_rd_opt(None, 4, rest);
        },
    }
}

proof fn lemma_opt_u128(o: Option<u128>)
    ensures
        opt_u128(nat_of_u128(o)) == o,
        nat_of_u128(o) matches Some(v) ==> v < pow256(16),
{
    lemma_pow256_values();
}

proof fn lemma_opt_u64(o: Option<u64>)
    ensures
        opt_u64(nat_of_u64(o)) == o,
        nat_of_u64(o) matches Some(v) ==> v < pow256(8),
{
    lemma_pow256_values();
}

#[verifier::rlimit(60)]
#[verifier::spinoff_prover]
proof fn lemma_rd_term_fields(t: Terms, rest: Seq<u8>)
    ensures
        rd_term_fields(
            enc_opt(nat_of_u128(t.amount), 16) + enc_opt(nat_of_u128(t.cap), 16) + enc_opt(
                nat_of_u64(t.height.0),
                8,
            ) + enc_opt(nat_of_u64(t.height.1), 8) + enc_opt(nat_of_u64(t.offset.0), 8) + enc_opt(
                nat_of_u64(t.offset.1),
                8,
            ) + rest,
        ) == Some((t, rest)),
{
    reveal(rd_term_fields);
    let a = enc_opt(nat_of_u128(t.amount), 16);
    let c = enc_opt(nat_of_u128(t.cap), 16);
    let h0 = enc_opt(nat_of_u64(t.height.0), 8);
    let h1 = enc_opt(nat_of_u64(t.height.1), 8);
    let o0 = enc_opt(nat_of_u64(t.offset.0), 8);
    let o1 = enc_opt(nat_of_u64(t.offset.1), 8);
    assert(a + c + h0 + h1 + o0 + o1 + rest =~= a + (c + (h0 + (h1 + (o0 + (o1 + rest))))));
    lemma_opt_u128(t.amount);
    lemma_opt_u128(t.cap);
    lemma_opt_u64(t.height.0);
    lemma_opt_u64(t.height.1);
    lemma_opt_u64(t.offset.0);
    lemma_opt_u64(t.offset.1);
    lemma_rd_opt(nat_of_u128(t.amount), 16, c + (h0 + (h1 + (o0 + (o1 + rest)))));
    lemma_rd_opt(nat_of_u128(t.cap), 16, h0 + (h1 + (o0 + (o1 + rest))));
    lemma_rd_opt(nat_of_u64(t.height.0), 8, h1 + (o0 + (o1 + rest)));
    lemma_rd_opt(nat_of_u64(t.height.1), 8, o0 + (o1 + rest));
    lemma_rd_opt(nat_of_u64(t.offset.0), 8, o1 + rest);
    lemma_rd_opt(nat_of_u64(t.offset.1), 8, rest);
}

proof fn lemma_rd_terms(t: Option<Terms>, rest: Seq<u8>)
    ensures
        rd_terms(enc_terms(t) + rest) == Some((t, rest)),
{
    reveal(rd_terms);
    match t {
        Some(t) => {
            let fields = enc_opt(nat_of_u128(t.amount), 16) + enc_opt(nat_of_u128(t.cap), 16)
                + enc_opt(nat_of_u64(t.height.0), 8) + enc_opt(nat_of_u64(t.height.1), 8) + enc_opt(
                nat_of_u64(t.offset.0),
                8,
            ) + enc_opt(nat_of_u64(t.offset.1), 8);
            assert(enc_terms(Some(t)) + rest =~= enc_bool(true) + (fields + rest));
            lemma_rd_bool(true, fields + rest);
            lemma_rd_term_fields(t, rest);
        },
        None => {
            lemma_rd_bool(false, rest);
        },
    }
}

proof fn lemma_rd_inscription(i: Option<InscriptionId>, rest: Seq<u8>)
    ensures
        rd_inscription(enc_inscription(i) + rest) == Some((i, rest)),
{
    reveal(rd_inscription);
    lemma_pow256_values();
    match i {
        Some(id) => {
            let r = id.txid@ + (le(id.index as nat, 4) + rest);
            assert(enc_inscription(i) + rest =~= enc_bool(true) + r);
            lemma_rd_bool(true, r);
            assert(r.take(32) =~= id.txid@);
            assert(r.skip(32) =~= le(id.index as nat, 4) + rest);
            lemma_rd(id.index as nat, 4, rest);
            lemma_txid_from_bytes(id.txid);
        },
        None => {
            lemma_rd_bool(false, rest);
        },
    }
}

/// Loading what storing an entry wrote gives the entry back, whatever bytes follow it.
#[verifier::rlimit(60)]
#[verifier::spinoff_prover]
pub proof fn lemma_rune_entry_round_trip(e: RuneEntry, rest: Seq<u8>)
    ensures
        spec_load_rune_entry(rune_entry_bytes(e) + rest) == Some(e),
{
    lemma_pow256_values();
    let head = head_bytes(e);
    let text = enc_string(txid_hex(e.etching@));
    let mid = mid_bytes(e);
    let sym = enc_symbol(e.symbol);
    let terms = enc_terms(e.terms);
    let ins = enc_inscription(e.inscription_id);
    let tail = tail_bytes(e);
    let r6 = tail + rest;
    let r5 = ins + r6;
    let r4 = terms + r5;
    let r3 = sym + r4;
    let r2 = mid + r3;
    let r1 = text + r2;
    assert(rune_entry_bytes(e) + rest =~= head + r1);
    lemma_rd_head(e.block as nat, e.burned as nat, e.divisibility as nat, r1);
    lemma_rd_txid_text(e.etching, r2);
    lemma_rd_mid(
        e.mints as nat,
        e.number as nat,
        e.premine as nat,
        e.spaced_rune.rune as nat,
        e.spaced_rune.spacers as nat,
        r3,
    );
    lemma_rd_symbol(e.symbol, r4);
    lemma_rd_terms(e.terms, r5);
    lemma_rd_inscription(e.inscription_id, r6);
    lemma_rd_tail(e.pending_burns as nat, e.pending_mints as nat, e.timestamp as nat, e.turbo, rest);
    lemma_txid_from_bytes(e.etching);
}

/// std's `char::from_u32`: the character with this code, when the code is a Unicode scalar
/// value.
#[verifier::external_body]
fn char_from_u32(v: u32) -> (c: Option<char>)
    ensures
        c == (if is_scalar(v) {
            Some(v as char)
        } else {
            None
        }),
{
    char::from_u32(v)
}

/// std's `String::from_utf8`: the text the bytes encode, when they are valid UTF-8.
#[verifier::external_body]
fn utf8_string(bytes: Vec<u8>) -> (s: Option<String>)
    ensures
        match s {
            Some(t) => valid_utf8(bytes@) && t@ == decode_utf8(bytes@),
            None => !valid_utf8(bytes@),
        },
{
    String::from_utf8(bytes).ok()
}

fn append_bytes(v: &mut Vec<u8>, s: &[u8])
    ensures
        final(v)@ == old(v)@ + s@,
{
    let mut i: usize = 0;
    while i < s.len()
        invariant
            i <= s@.len(),
            v@ == old(v)@ + s@.subrange(0, i as int),
        decreases s@.len() - i,
    {
        v.push(s[i]);
        i = i + 1;
        assert(v@ =~= old(v)@ + s@.subrange(0, i as int));
    }
    assert(s@.subrange(0, s@.len() as int) =~= s@);
}

fn write_opt_u64(v: &mut Vec<u8>, o: Option<u64>)
    ensures
        final(v)@ == old(v)@ + enc_opt(nat_of_u64(o), 8),
{
    let w: Option<u128> = match o {
        Some(x) => Some(x as u128),
        None => None,
    };
    write_opt(v, w, 8);
}

fn write_opt_u128(v: &mut Vec<u8>, o: Option<u128>)
    ensures
        final(v)@ == old(v)@ + enc_opt(nat_of_u128(o), 16),
{
    write_opt(v, o, 16);
}

fn write_head(v: &mut Vec<u8>, e: &RuneEntry)
    ensures
        final(v)@ == old(v)@ + head_bytes(*e),
{
    write_le(v, e.block as u128, 8);
    write_le(v, e.burned, 16);
    write_le(v, e.divisibility as u128, 1);
    assert(v@ =~= old(v)@ + head_bytes(*e));
}

fn write_etching_text(v: &mut Vec<u8>, t: &Txid)
    ensures
        final(v)@ == old(v)@ + enc_string(txid_hex(t@)),
{
    let text = txid_display(t);
    let bytes = text.as_str().as_bytes();
    proof {
        lemma_txid_hex_ascii(t@);
        is_ascii_chars_encode_utf8(text@);
    }
    let n = bytes.len();
    assert(n == 64);
    write_le(v, n as u128, 4);
    append_bytes(v, bytes);
    assert(v@ =~= old(v)@ + enc_string(txid_hex(t@)));
}

fn write_mid(v: &mut Vec<u8>, e: &RuneEntry)
    ensures
        final(v)@ == old(v)@ + mid_bytes(*e),
{
    write_le(v, e.mints, 16);
    write_le(v, e.number as u128, 8);
    write_le(v, e.premine, 16);
    write_le(v, e.spaced_rune.rune, 16);
    write_le(v, e.spaced_rune.spacers as u128, 4);
    assert(v@ =~= old(v)@ + mid_bytes(*e));
}

fn write_symbol(v: &mut Vec<u8>, symbol: Option<char>)
    ensures
        final(v)@ == old(v)@ + enc_symbol(symbol),
{
    let code: Option<u128> = match symbol {
        Some(c) => Some(c as u32 as u128),
        None => None,
    };
    write_opt(v, code, 4);
}

fn write_terms(v: &mut Vec<u8>, terms: Option<Terms>)
    ensures
        final(v)@ == old(v)@ + enc_terms(terms),
{
    match terms {
        Some(t) => {
            write_bool(v, true);
            write_opt_u128(v, t.amount);
            write_opt_u128(v, t.cap);
            write_opt_u64(v, t.height.0);
            write_opt_u64(v, t.height.1);
            write_opt_u64(v, t.offset.0);
            write_opt_u64(v, t.offset.1);
        },
        None => {
            write_bool(v, false);
        },
    }
    assert(v@ =~= old(v)@ + enc_terms(terms));
}

fn write_inscription(v: &mut Vec<u8>, inscription_id: Option<InscriptionId>)
    ensures
        final(v)@ == old(v)@ + enc_inscription(inscription_id),
{
    match inscription_id {
        Some(id) => {
            write_bool(v, true);
            append_bytes(v, id.txid.bytes.as_slice());
            write_le(v, id.index as u128, 4);
        },
        None => {
            write_bool(v, false);
        },
    }
    assert(v@ =~= old(v)@ + enc_inscription(inscription_id));
}

fn write_tail(v: &mut Vec<u8>, e: &RuneEntry)
    ensures
        final(v)@ == old(v)@ + tail_bytes(*e),
{
    write_le(v, e.pending_burns, 16);
    write_le(v, e.pending_mints, 16);
    write_le(v, e.timestamp as u128, 8);
    write_bool(v, e.turbo);
    assert(v@ =~= old(v)@ + tail_bytes(*e));
}

/// The bytes under which a rune entry is stored.
pub fn store_rune_entry(e: &RuneEntry) -> (v: Vec<u8>)
    ensures
        v@ == rune_entry_bytes(*e),
{
    let mut v: Vec<u8> = Vec::new();
    write_head(&mut v, e);
    write_etching_text(&mut v, &e.etching);
    write_mid(&mut v, e);
    write_symbol(&mut v, e.symbol);
    write_terms(&mut v, e.terms);
    write_inscription(&mut v, e.inscription_id);
    write_tail(&mut v, e);
    assert(v@ =~= rune_entry_bytes(*e));
    v
}

fn read_head(b: &[u8], pos: usize) -> (r: Option<((u64, u128, u8), usize)>)
    requires
        pos <= b@.len(),
    ensures
        match rd_head(b@.skip(pos as int)) {
            Some(((x, y, z), rest)) => r matches Some(((a, c, d), p)) && a == x && c == y && d == z
                && p <= b@.len() && b@.skip(p as int) == rest,
            None => r is None,
        },
{
    reveal(rd_head);
    proof {
        lemma_pow256_values();
    }
    let (block, p1) = match read_le(b, pos, 8) {
        Some(x) => x,
        None => return None,
    };
    let (burned, p2) = match read_le(b, p1, 16) {
        Some(x) => x,
        None => return None,
    };
    let (divisibility, p3) = match read_le(b, p2, 1) {
        Some(x) => x,
        None => return None,
    };
    proof {
        reveal(rd);
    }
    Some(((block as u64, burned, divisibility as u8), p3))
}

fn read_txid_text(b: &[u8], pos: usize) -> (r: Option<(Txid, usize)>)
    requires
        pos <= b@.len(),
    ensures
        match rd_txid_text(b@.skip(pos as int)) {
            Some((t, rest)) => r matches Some((x, p)) && x@ == t && p <= b@.len() && b@.skip(p as int)
                == rest,
            None => r is None,
        },
{
    reveal(rd_txid_text);
    let (n, p) = match read_le(b, pos, 4) {
        Some(x) => x,
        None => return None,
    };
    let remaining: u128 = (b.len() - p) as u128;
    if remaining < n {
        return None;
    }
    let end = p + n as usize;
    let text_bytes = slice_to_vec(slice_subrange(b, p, end));
    let ghost r = b@.skip(p as int);
    proof {
        assert(text_bytes@ =~= r.take(n as int));
        assert(b@.skip(end as int) =~= r.skip(n as int));
    }
    let text = match utf8_string(text_bytes) {
        Some(t) => t,
        None => return None,
    };
    match txid_parse(text.as_str()) {
        Ok(t) => Some((t, end)),
        Err(_) => None,
    }
}

fn read_mid(b: &[u8], pos: usize) -> (r: Option<((u128, u64, u128, u128, u32), usize)>)
    requires
        pos <= b@.len(),
    ensures
        match rd_mid(b@.skip(pos as int)) {
            Some(((m, n, pm, ru, sp), rest)) => r matches Some(((a, c, d, f, g), p)) && a == m && c == n
                && d == pm && f == ru && g == sp && p <= b@.len() && b@.skip(p as int) == rest,
            None => r is None,
        },
{
    reveal(rd_mid);
    proof {
        lemma_pow256_values();
    }
    let (mints, p1) = match read_le(b, pos, 16) {
        Some(x) => x,
        None => return None,
    };
    let (number, p2) = match read_le(b, p1, 8) {
        Some(x) => x,
        None => return None,
    };
    let (premine, p3) = match read_le(b, p2, 16) {
        Some(x) => x,
        None => return None,
    };
    let (rune, p4) = match read_le(b, p3, 16) {
        Some(x) => x,
        None => return None,
    };
    let (spacers, p5) = match read_le(b, p4, 4) {
        Some(x) => x,
        None => return None,
    };
    Some(((mints, number as u64, premine, rune, spacers as u32), p5))
}

fn read_tail(b: &[u8], pos: usize) -> (r: Option<((u128, u128, u64, bool), usize)>)
    requires
        pos <= b@.len(),
    ensures
        match rd_tail(b@.skip(pos as int)) {
            Some(((pb, pm, ts, tu), rest)) => r matches Some(((a, c, d, f), p)) && a == pb && c == pm
                && d == ts && f == tu && p <= b@.len() && b@.skip(p as int) == rest,
            None => r is None,
        },
{
    reveal(rd_tail);
    proof {
        lemma_pow256_values();
    }
    let (pending_burns, p1) = match read_le(b, pos, 16) {
        Some(x) => x,
        None => return None,
    };
    let (pending_mints, p2) = match read_le(b, p1, 16) {
        Some(x) => x,
        None => return None,
    };
    let (timestamp, p3) = match read_le(b, p2, 8) {
        Some(x) => x,
        None => return None,
    };
    let (turbo, p4) = match read_bool(b, p3) {
        Some(x) => x,
        None => return None,
    };
    Some(((pending_burns, pending_mints, timestamp as u64, turbo), p4))
}

fn read_symbol(b: &[u8], pos: usize) -> (r: Option<(Option<char>, usize)>)
    requires
        pos <= b@.len(),
    ensures
        match rd_symbol(b@.skip(pos as int)) {
            Some((c, rest)) => r matches Some((x, p)) && x == c && p <= b@.len() && b@.skip(p as int)
                == rest,
            None => r is None,
        },
{
    reveal(rd_symbol);
    proof {
        lemma_pow256_values();
    }
    match read_opt(b, pos, 4) {
        Some((Some(v), p)) => match char_from_u32(v as u32) {
            Some(c) => Some((Some(c), p)),
            None => None,
        },
        Some((None, p)) => Some((None, p)),
        None => None,
    }
}

fn read_opt_u64(b: &[u8], pos: usize) -> (r: Option<(Option<u64>, usize)>)
    requires
        pos <= b@.len(),
    ensures
        match rd_opt(8, b@.skip(pos as int)) {
            Some((o, rest)) => r matches Some((x, p)) && x == opt_u64(o) && p <= b@.len() && b@.skip(
                p as int,
            ) == rest,
            None => r is None,
        },
{
    proof {
        lemma_pow256_values();
        reveal(rd_opt);
        reveal(rd);
    }
    match read_opt(b, pos, 8) {
        Some((Some(v), p)) => Some((Some(v as u64), p)),
        Some((None, p)) => Some((None, p)),
        None => None,
    }
}

fn read_opt_u128(b: &[u8], pos: usize) -> (r: Option<(Option<u128>, usize)>)
    requires
        pos <= b@.len(),
    ensures
        match rd_opt(16, b@.skip(pos as int)) {
            Some((o, rest)) => r matches Some((x, p)) && x == opt_u128(o) && p <= b@.len() && b@.skip(
                p as int,
            ) == rest,
            None => r is None,
        },
{
    read_opt(b, pos, 16)
}

fn read_terms(b: &[u8], pos: usize) -> (r: Option<(Option<Terms>, usize)>)
    requires
        pos <= b@.len(),
    ensures
        match rd_terms(b@.skip(pos as int)) {
            Some((t, rest)) => r matches Some((x, p)) && x == t && p <= b@.len() && b@.skip(p as int)
                == rest,
            None => r is None,
        },
{
    reveal(rd_terms);
    reveal(rd_term_fields);
    let (present, p0) = match read_bool(b, pos) {
        Some(x) => x,
        None => return None,
    };
    if !present {
        return Some((None, p0));
    }
    let (amount, p1) = match read_opt_u128(b, p0) {
        Some(x) => x,
        None => return None,
    };
    let (cap, p2) = match read_opt_u128(b, p1) {
        Some(x) => x,
        None => return None,
    };
    let (h0, p3) = match read_opt_u64(b, p2) {
        Some(x) => x,
        None => return None,
    };
    let (h1, p4) = match read_opt_u64(b, p3) {
        Some(x) => x,
        None => return None,
    };
    let (o0, p5) = match read_opt_u64(b, p4) {
        Some(x) => x,
        None => return None,
    };
    let (o1, p6) = match read_opt_u64(b, p5) {
        Some(x) => x,
        None => return None,
    };
    Some((Some(Terms { amount, cap, height: (h0, h1), offset: (o0, o1) }), p6))
}

fn read_inscription(b: &[u8], pos: usize) -> (r: Option<(Option<InscriptionId>, usize)>)
    requires
        pos <= b@.len(),
    ensures
        match rd_inscription(b@.skip(pos as int)) {
            Some((i, rest)) => r matches Some((x, p)) && x == i && p <= b@.len() && b@.skip(p as int)
                == rest,
            None => r is None,
        },
{
    reveal(rd_inscription);
    proof {
        lemma_pow256_values();
    }
    let (present, p0) = match read_bool(b, pos) {
        Some(x) => x,
        None => return None,
    };
    if !present {
        return Some((None, p0));
    }
    if b.len() - p0 < 32 {
        return None;
    }
    let txid = Txid::from_slice(slice_subrange(b, p0, p0 + 32));
    let ghost r0 = b@.skip(p0 as int);
    proof {
        assert(txid@ =~= r0.take(32));
        assert(b@.skip(p0 + 32) =~= r0.skip(32));
        lemma_txid_from_bytes(txid);
    }
    let (index, p1) = match read_le(b, p0 + 32, 4) {
        Some(x) => x,
        None => return None,
    };
    Some((Some(InscriptionId { txid, index: index as u32 }), p1))
}

/// The rune entry stored at the front of `bytes`, if they hold one; bytes after it are
/// ignored.
pub fn load_rune_entry(bytes: &[u8]) -> (r: Option<RuneEntry>)
    ensures
        r == spec_load_rune_entry(bytes@),
{
    assert(bytes@.skip(0) =~= bytes@);
    let ((block, burned, divisibility), p1) = match read_head(bytes, 0) {
        Some(x) => x,
        None => return None,
    };
    let (etching, p2) = match read_txid_text(bytes, p1) {
        Some(x) => x,
        None => return None,
    };
    let ((mints, number, premine, rune, spacers), p3) = match read_mid(bytes, p2) {
        Some(x) => x,
        None => return None,
    };
    let (symbol, p4) = match read_symbol(bytes, p3) {
        Some(x) => x,
        None => return None,
    };
    let (terms, p5) = match read_terms(bytes, p4) {
        Some(x) => x,
        None => return None,
    };
    let (inscription_id, p6) = match read_inscription(bytes, p5) {
        Some(x) => x,
        None => return None,
    };
    let ((pending_burns, pending_mints, timestamp, turbo), _) = match read_tail(bytes, p6) {
        Some(x) => x,
        None => return None,
    };
    proof {
        lemma_txid_from_bytes(etching);
    }
    Some(
        RuneEntry {
            block,
            burned,
            divisibility,
            etching,
            mints,
            number,
            premine,
            spaced_rune: SpacedRune { rune, spacers },
            symbol,
            terms,
            pending_burns,
            pending_mints,
            inscription_id,
            timestamp,
            turbo,
        },
    )
}

} // verus!

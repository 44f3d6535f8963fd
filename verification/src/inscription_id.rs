use vstd::prelude::*;
use vstd::string::*;
use crate::rune_entry::InscriptionId;
use crate::types::Txid;

verus! {

/// The lower-case hex digit of `n`, for `n` below sixteen.
pub open spec fn hex_digit(n: int) -> char {
    if n < 10 {
        (48 + n) as char
    } else {
        (87 + n) as char
    }
}

/// The value of a hex digit of either case.
pub open spec fn hex_value(c: char) -> Option<int> {
    if '0' <= c && c <= '9' {
        Some(c as int - 48)
    } else if 'a' <= c && c <= 'f' {
        Some(c as int - 87)
    } else if 'A' <= c && c <= 'F' {
        Some(c as int - 55)
    } else {
        None
    }
}

/// How a transaction id is displayed: its 32 bytes in reverse order, as lower-case hex.
pub open spec fn txid_hex(bytes: Seq<u8>) -> Seq<char> {
    Seq::new(
        64,
        |i: int|
            if i % 2 == 0 {
                hex_digit(bytes[31 - i / 2] as int / 16)
            } else {
                hex_digit(bytes[31 - i / 2] as int % 16)
            },
    )
}

/// Whether every character is a hex digit.
pub open spec fn is_hex(s: Seq<char>) -> bool {
    forall|i: int| 0 <= i < s.len() ==> hex_value(#[trigger] s[i]) is Some
}

/// The transaction id a displayed id stands for: 64 hex digits of either case, read as the
/// bytes in reverse order.
pub open spec fn txid_of_hex(s: Seq<char>) -> Option<Seq<u8>> {
    if s.len() == 64 && is_hex(s) {
        Some(
            Seq::new(
                32,
                |j: int| (16 * hex_value(s[62 - 2 * j])->0 + hex_value(s[63 - 2 * j])->0) as u8,
            ),
        )
    } else {
        None
    }
}

/// The decimal digit character of `d`, for `d` below ten.
pub open spec fn digit_char(d: int) -> char {
    (48 + d) as char
}

/// The decimal numeral of `n`, without leading zeros.
pub open spec fn decimal(n: nat) -> Seq<char>
    decreases n,
{
    if n < 10 {
        seq![digit_char(n as int)]
    } else {
        decimal(n / 10).push(digit_char((n % 10) as int))
    }
}

/// Whether `c` is a decimal digit.
pub open spec fn is_digit(c: char) -> bool {
    '0' <= c && c <= '9'
}

/// The value of a string of decimal digits.
pub open spec fn digits_value(s: Seq<char>) -> nat
    decreases s.len(),
{
    if s.len() == 0 {
        0
    } else {
        digits_value(s.drop_last()) * 10 + (s.last() as int - 48) as nat
    }
}

/// The `u32` a numeral stands for: an optional `+` and at least one decimal digit, with a
/// value that fits.
pub open spec fn u32_of_decimal(s: Seq<char>) -> Option<u32> {
    let d = if s.len() > 0 && s[0] == '+' {
        s.drop_first()
    } else {
        s
    };
    if d.len() > 0 && (forall|i: int| 0 <= i < d.len() ==> is_digit(#[trigger] d[i])) && digits_value(d)
        <= u32::MAX {
        Some(digits_value(d) as u32)
    } else {
        None
    }
}

/// bitcoin's display of a `Txid`: the bytes in reverse order as lower-case hex.
#[verifier::external_body]
pub(crate) fn txid_display(t: &Txid) -> (s: String)
    ensures
        s@ == txid_hex(t@),
{
    <bitcoin::Txid as bitcoin::hashes::Hash>::from_byte_array(t.bytes).to_string()
}

/// bitcoin's `Txid::from_str`: 64 hex digits read as the bytes in reverse order; the error
/// is kept as its message.
#[verifier::external_body]
pub(crate) fn txid_parse(s: &str) -> (r: Result<Txid, String>)
    ensures
        match r {
            Ok(t) => txid_of_hex(s@) == Some(t@),
            Err(_) => txid_of_hex(s@) is None,
        },
{
    match s.parse::<bitcoin::Txid>() {
        Ok(t) => Ok(Txid { bytes: bitcoin::hashes::Hash::to_byte_array(t) }),
        Err(e) => Err(e.to_string()),
    }
}

/// std's display of a `u32`: its decimal numeral.
#[verifier::external_body]
fn u32_display(n: u32) -> (s: String)
    ensures
        s@ == decimal(n as nat),
{
    n.to_string()
}

/// std's `u32::from_str`: an optional `+` and decimal digits whose value fits; the error is
/// kept as its message.
#[verifier::external_body]
fn u32_parse(s: &str) -> (r: Result<u32, String>)
    ensures
        match r {
            Ok(n) => u32_of_decimal(s@) == Some(n),
            Err(_) => u32_of_decimal(s@) is None,
        },
{
    s.parse::<u32>().map_err(|e| e.to_string())
}

/// Why a text is not an inscription id.
#[derive(Clone, Debug)]
pub enum ParseError {
    /// A character that is not ASCII.
    Character(char),
    /// Too short to hold a transaction id, a separator and an index.
    Length(usize),
    /// The character where the `i` separator belongs.
    Separator(char),
    /// The transaction id is not 64 hex digits; the message says why.
    Txid(String),
    /// The index is not a `u32`; the message says why.
    Index(String),
}

/// What parsing a text gives, errors told apart by kind.
pub enum ParseOutcome {
    Id(Seq<u8>, u32),
    Character(char),
    Length(nat),
    Separator(char),
    Txid,
    Index,
}

/// Whether `c` is an ASCII character.
pub open spec fn is_ascii_char(c: char) -> bool {
    '\0' <= c && c <= '\u{7f}'
}

/// How a text parses as an inscription id: the first character that is not ASCII is refused,
/// then a text shorter than 66 characters, then a character other than `i` after the 64 of the
/// transaction id, then a transaction id that is not hex, then an index that is not a `u32`.
pub open spec fn spec_parse_inscription_id(s: Seq<char>) -> ParseOutcome {
    if exists|i: int| 0 <= i < s.len() && !is_ascii_char(#[trigger] s[i]) {
        let i = choose|i: int|
            0 <= i < s.len() && !is_ascii_char(#[trigger] s[i]) && forall|j: int|
                0 <= j < i ==> is_ascii_char(#[trigger] s[j]);
        ParseOutcome::Character(s[i])
    } else if s.len() < 66 {
        ParseOutcome::Length(s.len())
    } else if s[64] != 'i' {
        ParseOutcome::Separator(s[64])
    } else if txid_of_hex(s.subrange(0, 64)) is None {
        ParseOutcome::Txid
    } else if u32_of_decimal(s.subrange(65, s.len() as int)) is None {
        ParseOutcome::Index
    } else {
        ParseOutcome::Id(
            txid_of_hex(s.subrange(0, 64))->0,
            u32_of_decimal(s.subrange(65, s.len() as int))->0,
        )
    }
}

/// How an inscription id is displayed: its transaction id, `i`, and its index in decimal.
pub open spec fn spec_display_inscription_id(txid: Seq<u8>, index: u32) -> Seq<char> {
    txid_hex(txid) + seq!['i'] + decimal(index as nat)
}

fn first_non_ascii(s: &str) -> (r: Option<usize>)
    ensures
        match r {
            Some(i) => i < s@.len() && !is_ascii_char(s@[i as int]) && forall|j: int|
                0 <= j < i ==> is_ascii_char(#[trigger] s@[j]),
            None => forall|j: int| 0 <= j < s@.len() ==> is_ascii_char(#[trigger] s@[j]),
        },
{
    let n = s.unicode_len();
    let mut i: usize = 0;
    while i < n
        invariant
            n == s@.len(),
            i <= n,
            forall|j: int| 0 <= j < i ==> is_ascii_char(#[trigger] s@[j]),
        decreases n - i,
    {
        let c = s.get_char(i);
        if c > '\u{7f}' {
            return Some(i);
        }
        i = i + 1;
    }
    None
}

impl InscriptionId {
    /// The id as text: its transaction id, `i`, and its index in decimal.
    pub fn to_string(&self) -> (s: String)
        ensures
            s@ == spec_display_inscription_id(self.txid@, self.index),
    {
        let mut s = txid_display(&self.txid);
        s.append("i");
        let index = u32_display(self.index);
        s.append(index.as_str());
        proof {
            reveal_strlit("i");
        }
        s
    }

    /// Parses an id from text: 64 hex digits of a transaction id, `i`, and a decimal index.
    pub fn parse(s: &str) -> (r: Result<InscriptionId, ParseError>)
        ensures
            match spec_parse_inscription_id(s@) {
                ParseOutcome::Id(txid, index) => r matches Ok(id) && id.txid@ == txid && id.index
                    == index,
                ParseOutcome::Character(c) => r matches Err(ParseError::Character(d)) && d == c,
                ParseOutcome::Length(n) => r matches Err(ParseError::Length(m)) && m == n,
                ParseOutcome::Separator(c) => r matches Err(ParseError::Separator(d)) && d == c,
                ParseOutcome::Txid => r matches Err(ParseError::Txid(_)),
                ParseOutcome::Index => r matches Err(ParseError::Index(_)),
            },
    {
        match first_non_ascii(s) {
            Some(i) => {
                let c = s.get_char(i);
                proof {
                    let k = choose|k: int|
                        0 <= k < s@.len() && !is_ascii_char(#[trigger] s@[k]) && forall|j: int|
                            0 <= j < k ==> is_ascii_char(#[trigger] s@[j]);
                    if k < i {
                        assert(is_ascii_char(s@[k]));
                    }
                    if i < k {
                        assert(is_ascii_char(s@[i as int]));
                    }
                }
                return Err(ParseError::Character(c));
            },
            None => {},
        }
        proof {
            assert(is_ascii(s)) by {
                assert forall|j: int| 0 <= j < s@.len() implies '\0' <= #[trigger] s@[j] <= '\u{7f}' by {
                    assert(is_ascii_char(s@[j]));
                }
            }
        }
        let n = s.unicode_len();
        if n < 66 {
            return Err(ParseError::Length(n));
        }
        let separator = s.get_char(64);
        if separator != 'i' {
            return Err(ParseError::Separator(separator));
        }
        let txid_text = s.substring_ascii(0, 64);
        let index_text = s.substring_ascii(65, n);
        let txid = match txid_parse(txid_text) {
            Ok(t) => t,
            Err(e) => {
                return Err(ParseError::Txid(e));
            },
        };
        let index = match u32_parse(index_text) {
            Ok(v) => v,
            Err(e) => {
                return Err(ParseError::Index(e));
            },
        };
        Ok(InscriptionId { txid, index })
    }
}

impl std::str::FromStr for InscriptionId {
    type Err = ParseError;

    fn from_str(s: &str) -> (r: Result<InscriptionId, ParseError>)
        ensures
            match spec_parse_inscription_id(s@) {
                ParseOutcome::Id(txid, index) => r matches Ok(id) && id.txid@ == txid && id.index
                    == index,
                ParseOutcome::Character(c) => r matches Err(ParseError::Character(d)) && d == c,
                ParseOutcome::Length(n) => r matches Err(ParseError::Length(m)) && m == n,
                ParseOutcome::Separator(c) => r matches Err(ParseError::Separator(d)) && d == c,
                ParseOutcome::Txid => r matches Err(ParseError::Txid(_)),
                ParseOutcome::Index => r matches Err(ParseError::Index(_)),
            },
    {
        InscriptionId::parse(s)
    }
}

impl Txid {
    /// Parses a transaction id from its display: 64 hex digits, the bytes in reverse order.
    pub fn from_hex(s: &str) -> (r: Option<Txid>)
        ensures
            match r {
                Some(t) => txid_of_hex(s@) == Some(t@),
                None => txid_of_hex(s@) is None,
            },
    {
        match txid_parse(s) {
            Ok(t) => Some(t),
            Err(_) => None,
        }
    }

    /// The display of the id: its bytes in reverse order as lower-case hex.
    pub fn to_hex(&self) -> (s: String)
        ensures
            s@ == txid_hex(self@),
    {
        txid_display(self)
    }
}

/// Reading a hex digit gives its value back.
pub proof fn lemma_hex_digit_value(n: int)
    requires
        0 <= n < 16,
    ensures
        hex_value(hex_digit(n)) == Some(n),
{
}

/// Reading the display of a transaction id gives its bytes back.
pub proof fn lemma_txid_hex_round_trip(bytes: Seq<u8>)
    requires
        bytes.len() == 32,
    ensures
        txid_of_hex(txid_hex(bytes)) == Some(bytes),
{
    let s = txid_hex(bytes);
    assert forall|i: int| 0 <= i < s.len() implies hex_value(#[trigger] s[i]) is Some by {
        let b = bytes[31 - i / 2];
        lemma_hex_digit_value(b as int / 16);
        lemma_hex_digit_value(b as int % 16);
    }
    let t = txid_of_hex(s)->0;
    assert forall|j: int| 0 <= j < 32 implies t[j] == bytes[j] by {
        let b = bytes[j];
        assert(62 - 2 * j == 2 * (31 - j));
        assert((62 - 2 * j) / 2 == 31 - j);
        assert((63 - 2 * j) / 2 == 31 - j);
        assert((62 - 2 * j) % 2 == 0);
        assert((63 - 2 * j) % 2 == 1);
        lemma_hex_digit_value(b as int / 16);
        lemma_hex_digit_value(b as int % 16);
    }
    assert(t =~= bytes);
}

/// The display of a transaction id is 64 ASCII characters.
pub proof fn lemma_txid_hex_ascii(bytes: Seq<u8>)
    requires
        bytes.len() == 32,
    ensures
        txid_hex(bytes).len() == 64,
        forall|i: int| 0 <= i < 64 ==> '\0' <= #[trigger] txid_hex(bytes)[i] <= '\u{7f}',
{
    assert forall|i: int| 0 <= i < 64 implies '\0' <= #[trigger] txid_hex(bytes)[i] <= '\u{7f}' by {
        let b = bytes[31 - i / 2];
        lemma_hex_digit_value(b as int / 16);
        lemma_hex_digit_value(b as int % 16);
    }
}

proof fn lemma_decimal_digits(n: nat)
    ensures
        decimal(n).len() > 0,
        forall|i: int| 0 <= i < decimal(n).len() ==> is_digit(#[trigger] decimal(n)[i]),
        digits_value(decimal(n)) == n,
    decreases n,
{
    if n >= 10 {
        lemma_decimal_digits(n / 10);
        let d = decimal(n);
        assert(d.drop_last() =~= decimal(n / 10));
        assert forall|i: int| 0 <= i < d.len() implies is_digit(#[trigger] d[i]) by {
            if i < d.len() - 1 {
                assert(d[i] == decimal(n / 10)[i]);
            }
        }
    } else {
        assert(digits_value(decimal(n)) == digits_value(decimal(n).drop_last()) * 10 + n);
        assert(decimal(n).drop_last() =~= Seq::<char>::empty());
    }
}

/// Displaying an inscription id and parsing the text gives the id back.
pub proof fn lemma_inscription_id_round_trip(txid: Seq<u8>, index: u32)
    requires
        txid.len() == 32,
    ensures
        spec_parse_inscription_id(spec_display_inscription_id(txid, index)) == ParseOutcome::Id(
            txid,
            index,
        ),
{
    let s = spec_display_inscription_id(txid, index);
    let h = txid_hex(txid);
    let d = decimal(index as nat);
    lemma_decimal_digits(index as nat);
    lemma_txid_hex_round_trip(txid);
    assert(s.subrange(0, 64) =~= h);
    assert(s.subrange(65, s.len() as int) =~= d);
    assert(s[64] == 'i');
    assert forall|i: int| 0 <= i < s.len() implies is_ascii_char(#[trigger] s[i]) by {
        if i < 64 {
            let b = txid[31 - i / 2];
            lemma_hex_digit_value(b as int / 16);
            lemma_hex_digit_value(b as int % 16);
            assert(s[i] == h[i]);
        } else if i > 64 {
            assert(s[i] == d[i - 65]);
            assert(is_digit(d[i - 65]));
        }
    }
    assert(d[0] != '+') by {
        assert(is_digit(d[0]));
    }
    assert(u32_of_decimal(d) == Some(index));
}

} // verus!

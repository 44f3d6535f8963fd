use vstd::prelude::*;

verus! {

/// The `n` little-endian bytes of `x` (its low bytes, when it does not fit).
pub open spec fn le(x: nat, n: nat) -> Seq<u8>
    decreases n,
{
    if n == 0 {
        Seq::empty()
    } else {
        seq![(x % 256) as u8] + le(x / 256, (n - 1) as nat)
    }
}

/// The number whose little-endian bytes are `b`.
pub open spec fn le_value(b: Seq<u8>) -> nat
    decreases b.len(),
{
    if b.len() == 0 {
        0
    } else {
        b[0] as nat + 256 * le_value(b.drop_first())
    }
}

/// `256` to the power `n`.
pub open spec fn pow256(n: nat) -> nat
    decreases n,
{
    if n == 0 {
        1
    } else {
        256 * pow256((n - 1) as nat)
    }
}

/// Reads an `n`-byte little-endian number from the front of `s`, with what follows it.
#[verifier::opaque]
pub open spec fn rd(n: nat, s: Seq<u8>) -> Option<(nat, Seq<u8>)> {
    if s.len() >= n {
        Some((le_value(s.take(n as int)), s.skip(n as int)))
    } else {
        None
    }
}

/// The byte of a flag: one for true, zero for false.
pub open spec fn enc_bool(b: bool) -> Seq<u8> {
    seq![if b { 1u8 } else { 0u8 }]
}

/// Reads a flag: a byte that is zero or one.
#[verifier::opaque]
pub open spec fn rd_bool(s: Seq<u8>) -> Option<(bool, Seq<u8>)> {
    if s.len() >= 1 && s[0] <= 1 {
        Some((s[0] == 1, s.skip(1)))
    } else {
        None
    }
}

/// An optional `n`-byte number: a flag, then the number when there is one.
pub open spec fn enc_opt(o: Option<nat>, n: nat) -> Seq<u8> {
    match o {
        Some(v) => enc_bool(true) + le(v, n),
        None => enc_bool(false),
    }
}

/// Reads an optional `n`-byte number.
#[verifier::opaque]
pub open spec fn rd_opt(n: nat, s: Seq<u8>) -> Option<(Option<nat>, Seq<u8>)> {
    match rd_bool(s) {
        Some((true, r)) => match rd(n, r) {
            Some((v, r2)) => Some((Some(v), r2)),
            None => None,
        },
        Some((false, r)) => Some((None, r)),
        None => None,
    }
}

proof fn lemma_le_len(x: nat, n: nat)
    ensures
        le(x, n).len() == n,
    decreases n,
{
    if n > 0 {
        lemma_le_len(x / 256, (n - 1) as nat);
    }
}

proof fn lemma_pow256_pos(n: nat)
    ensures
        pow256(n) >= 1,
    decreases n,
{
    if n > 0 {
        lemma_pow256_pos((n - 1) as nat);
    }
}

/// The bytes of a number that fits give it back.
pub proof fn lemma_le_value(x: nat, n: nat)
    requires
        x < pow256(n),
    ensures
        le_value(le(x, n)) == x,
        le(x, n).len() == n,
    decreases n,
{
    lemma_le_len(x, n);
    if n > 0 {
        lemma_pow256_pos((n - 1) as nat);
        assert(x / 256 < pow256((n - 1) as nat)) by (nonlinear_arith)
            requires
                x < 256 * pow256((n - 1) as nat),
        ;
        lemma_le_value(x / 256, (n - 1) as nat);
        assert(le(x, n).drop_first() =~= le(x / 256, (n - 1) as nat));
    }
}

/// Reading a number from its bytes gives it back, and what follows.
pub proof fn lemma_rd(x: nat, n: nat, rest: Seq<u8>)
    requires
        x < pow256(n),
    ensures
        rd(n, le(x, n) + rest) == Some((x, rest)),
{
    reveal(rd);
    lemma_le_value(x, n);
    assert((le(x, n) + rest).take(n as int) =~= le(x, n));
    assert((le(x, n) + rest).skip(n as int) =~= rest);
}

/// Reading a flag from its byte gives it back, and what follows.
pub proof fn lemma_rd_bool(b: bool, rest: Seq<u8>)
    ensures
        rd_bool(enc_bool(b) + rest) == Some((b, rest)),
{
    reveal(rd_bool);
    assert((enc_bool(b) + rest).skip(1) =~= rest);
}

/// Reading an optional number from its bytes gives it back, and what follows.
pub proof fn lemma_rd_opt(o: Option<nat>, n: nat, rest: Seq<u8>)
    requires
        o matches Some(v) ==> v < pow256(n),
    ensures
        rd_opt(n, enc_opt(o, n) + rest) == Some((o, rest)),
{
    reveal(rd_opt);
    match o {
        Some(v) => {
            assert(enc_opt(o, n) + rest =~= enc_bool(true) + (le(v, n) + rest));
            lemma_rd_bool(true, le(v, n) + rest);
            lemma_rd(v, n, rest);
        },
        None => {
            lemma_rd_bool(false, rest);
        },
    }
}

/// The powers of 256 that bound the integer types.
pub proof fn lemma_pow256_values()
    ensures
        pow256(1) == 0x100,
        pow256(4) == 0x1_0000_0000,
        pow256(8) == 0x1_0000_0000_0000_0000,
        pow256(16) == 0x1_0000_0000_0000_0000_0000_0000_0000_0000,
{
    reveal_with_fuel(pow256, 17);
}

/// Appends the `n` little-endian bytes of `x`.
pub fn write_le(v: &mut Vec<u8>, x: u128, n: usize)
    requires
        n <= 16,
    ensures
        final(v)@ == old(v)@ + le(x as nat, n as nat),
{
    let mut k: usize = 0;
    let mut y: u128 = x;
    let ghost start = v@;
    while k < n
        invariant
            k <= n,
            v@ + le(y as nat, (n - k) as nat) == start + le(x as nat, n as nat),
        decreases n - k,
    {
        let ghost before = v@;
        v.push((y % 256) as u8);
        proof {
            assert(le(y as nat, (n - k) as nat) == seq![(y % 256) as u8] + le((y / 256) as nat, (n - k - 1) as nat));
            assert(v@ + le((y / 256) as nat, (n - k - 1) as nat) =~= before + le(y as nat, (n - k) as nat));
        }
        y = y / 256;
        k = k + 1;
    }
    assert(le(y as nat, 0) =~= Seq::<u8>::empty());
    assert(v@ =~= start + le(x as nat, n as nat));
}

/// Appends a flag.
pub fn write_bool(v: &mut Vec<u8>, b: bool)
    ensures
        final(v)@ == old(v)@ + enc_bool(b),
{
    v.push(if b { 1u8 } else { 0u8 });
    assert(v@ =~= old(v)@ + enc_bool(b));
}

/// Appends an optional `n`-byte number.
pub fn write_opt(v: &mut Vec<u8>, o: Option<u128>, n: usize)
    requires
        n <= 16,
    ensures
        final(v)@ == old(v)@ + enc_opt(
            match o {
                Some(x) => Some(x as nat),
                None => None,
            },
            n as nat,
        ),
{
    match o {
        Some(x) => {
            write_bool(v, true);
            write_le(v, x, n);
            assert(v@ =~= old(v)@ + enc_opt(Some(x as nat), n as nat));
        },
        None => {
            write_bool(v, false);
        },
    }
}

/// Reads the `n`-byte little-endian number at `pos`, and the position after it.
pub fn read_le(b: &[u8], pos: usize, n: usize) -> (r: Option<(u128, usize)>)
    requires
        n <= 16,
        pos <= b@.len(),
    ensures
        match rd(n as nat, b@.skip(pos as int)) {
            Some((x, rest)) => r matches Some((y, p)) && y as nat == x && p <= b@.len() && b@.skip(
                p as int,
            ) == rest,
            None => r is None,
        },
        r matches Some((y, _)) ==> (y as nat) < pow256(n as nat),
{
    reveal(rd);
    if b.len() - pos < n {
        return None;
    }
    let ghost s = b@.skip(pos as int);
    let len = b.len();
    assert(b@.len() == len);
    let mut x: u128 = 0;
    let mut k: usize = n;
    proof {
        lemma_pow256_values();
    }
    while k > 0
        invariant
            k <= n <= 16,
            pos + n <= b@.len(),
            b@.len() <= usize::MAX,
            s == b@.skip(pos as int),
            x as nat == le_value(s.take(n as int).skip(k as int)),
            le_value(s.take(n as int).skip(k as int)) < pow256((n - k) as nat),
        decreases k,
    {
        let byte = b[pos + (k - 1)];
        let ghost t = s.take(n as int);
        proof {
            assert(t.skip(k - 1).drop_first() =~= t.skip(k as int));
            assert(t.skip(k - 1)[0] == byte);
            assert(pow256((n - k + 1) as nat) == 256 * pow256((n - k) as nat));
            assert(le_value(t.skip(k - 1)) == byte as nat + 256 * le_value(t.skip(k as int)));
            lemma_pow256_values();
            lemma_pow256_mono((n - k + 1) as nat, 16);
            assert(byte as nat + 256 * le_value(t.skip(k as int)) < pow256((n - k + 1) as nat)) by (nonlinear_arith)
                requires
                    le_value(t.skip(k as int)) < pow256((n - k) as nat),
                    pow256((n - k + 1) as nat) == 256 * pow256((n - k) as nat),
                    byte < 256,
            ;
        }
        x = (byte as u128) + 256 * x;
        k = k - 1;
    }
    proof {
        assert(s.take(n as int).skip(0) =~= s.take(n as int));
        assert(b@.skip((pos + n) as int) =~= s.skip(n as int));
    }
    Some((x, pos + n))
}

proof fn lemma_pow256_mono(a: nat, b: nat)
    requires
        a <= b,
    ensures
        pow256(a) <= pow256(b),
    decreases b,
{
    if a < b {
        lemma_pow256_mono(a, (b - 1) as nat);
        lemma_pow256_pos((b - 1) as nat);
    }
}

/// Reads the flag at `pos`, and the position after it.
pub fn read_bool(b: &[u8], pos: usize) -> (r: Option<(bool, usize)>)
    requires
        pos <= b@.len(),
    ensures
        match rd_bool(b@.skip(pos as int)) {
            Some((x, rest)) => r matches Some((y, p)) && y == x && p <= b@.len() && b@.skip(p as int)
                == rest,
            None => r is None,
        },
{
    reveal(rd_bool);
    if pos >= b.len() || b[pos] > 1 {
        return None;
    }
    assert(b@.skip((pos + 1) as int) =~= b@.skip(pos as int).skip(1));
    Some((b[pos] == 1, pos + 1))
}

/// Reads the optional `n`-byte number at `pos`, and the position after it.
pub fn read_opt(b: &[u8], pos: usize, n: usize) -> (r: Option<(Option<u128>, usize)>)
    requires
        n <= 16,
        pos <= b@.len(),
    ensures
        match rd_opt(n as nat, b@.skip(pos as int)) {
            Some((x, rest)) => r matches Some((y, p)) && (match (x, y) {
                (Some(a), Some(c)) => a == c as nat,
                (None, None) => true,
                _ => false,
            }) && p <= b@.len() && b@.skip(p as int) == rest,
            None => r is None,
        },
{
    reveal(rd_opt);
    match read_bool(b, pos) {
        None => None,
        Some((false, p)) => Some((None, p)),
        Some((true, p)) => match read_le(b, p, n) {
            Some((x, q)) => Some((Some(x), q)),
            None => None,
        },
    }
}

} // verus!

use vstd::prelude::*;

verus! {

/// Why a byte string is not a well-formed encoding.
#[derive(Debug, Clone, Copy, PartialEq, Eq, Structural)]
pub enum WireError {
    /// The input ended inside a key, a value or a length-delimited payload.
    UnexpectedEnd,
    /// A varint ran past ten bytes, or its value does not fit in 64 bits.
    MalformedVarint,
    /// A key named field number 0, or one above the protobuf maximum.
    InvalidFieldNumber,
    /// A key used a wire type this codec does not carry (groups, or 6 and 7).
    UnsupportedWireType,
    /// A declared field arrived with a wire type its declaration does not allow.
    WrongWireType,
    /// A string field's payload was not UTF-8.
    InvalidUtf8,
    /// A packed repeated field's payload was not a whole number of values.
    MalformedPacked,
}

/// The bytes of the base-128 varint that encodes `v`, least significant group first.
pub open spec fn encode_varint(v: u64) -> Seq<u8>
    decreases v,
{
    if v < 128 {
        seq![v as u8]
    } else {
        seq![((v % 128) + 128) as u8] + encode_varint(v / 128)
    }
}

/// How many bytes the varint at the start of `s` takes, looking at most `budget` bytes.
pub open spec fn varint_scan(s: Seq<u8>, budget: nat) -> Result<nat, WireError>
    decreases budget,
{
    if s.len() == 0 {
        Err(WireError::UnexpectedEnd)
    } else if s[0] < 128 {
        Ok(1)
    } else if budget <= 1 {
        Err(WireError::MalformedVarint)
    } else {
        match varint_scan(s.drop_first(), (budget - 1) as nat) {
            Ok(n) => Ok(n + 1),
            Err(e) => Err(e),
        }
    }
}

/// The number the first `n` bytes of `s` denote as base-128 digits, least significant first.
pub open spec fn varint_value(s: Seq<u8>, n: nat) -> nat
    decreases n,
{
    if n == 0 || s.len() == 0 {
        0
    } else {
        ((s[0] as nat) % 128) + 128 * varint_value(s.drop_first(), (n - 1) as nat)
    }
}

/// The varint at the start of `s`: its value and how many bytes it takes.
pub open spec fn parse_varint(s: Seq<u8>) -> Result<(u64, nat), WireError> {
    match varint_scan(s, 10) {
        Ok(n) => if varint_value(s, n) <= u64::MAX {
            Ok((varint_value(s, n) as u64, n))
        } else {
            Err(WireError::MalformedVarint)
        },
        Err(e) => Err(e),
    }
}

pub open spec fn pow128(n: nat) -> nat
    decreases n,
{
    if n == 0 {
        1
    } else {
        128 * pow128((n - 1) as nat)
    }
}

proof fn lemma_pow128_pos(n: nat)
    ensures
        pow128(n) >= 1,
    decreases n,
{
    if n > 0 {
        lemma_pow128_pos((n - 1) as nat);
    }
}

proof fn lemma_varint_value_bound(s: Seq<u8>, n: nat)
    ensures
        varint_value(s, n) < pow128(n),
    decreases n,
{
    lemma_pow128_pos(n);
    if n > 0 && s.len() > 0 {
        lemma_varint_value_bound(s.drop_first(), (n - 1) as nat);
    }
}

proof fn lemma_varint_scan_bounds(s: Seq<u8>, budget: nat)
    ensures
        varint_scan(s, budget) matches Ok(n) ==> 1 <= n <= s.len() && (n <= budget || n == 1),
    decreases budget,
{
    if s.len() > 0 && s[0] >= 128 && budget > 1 {
        lemma_varint_scan_bounds(s.drop_first(), (budget - 1) as nat);
    }
}

/// A varint always takes at least one byte and never more than the input holds.
pub proof fn lemma_parse_varint_len(s: Seq<u8>)
    ensures
        parse_varint(s) matches Ok((v, n)) ==> 1 <= n <= s.len() && n <= 10,
{
    lemma_varint_scan_bounds(s, 10);
}

/// What follows a varint does not change how it reads.
pub proof fn lemma_parse_varint_extend(s: Seq<u8>, t: Seq<u8>)
    requires
        parse_varint(s) is Ok,
    ensures
        parse_varint(s + t) == parse_varint(s),
{
    lemma_varint_scan_extend(s, t, 10);
    lemma_parse_varint_len(s);
    if let Ok((v, n)) = parse_varint(s) {
        lemma_varint_value_extend(s, t, n);
    }
}

proof fn lemma_varint_scan_extend(s: Seq<u8>, t: Seq<u8>, budget: nat)
    requires
        varint_scan(s, budget) is Ok,
    ensures
        varint_scan(s + t, budget) == varint_scan(s, budget),
    decreases budget,
{
    assert((s + t)[0] == s[0]);
    if s[0] >= 128 && budget > 1 {
        assert((s + t).drop_first() =~= s.drop_first() + t);
        lemma_varint_scan_extend(s.drop_first(), t, (budget - 1) as nat);
    }
}

proof fn lemma_varint_value_extend(s: Seq<u8>, t: Seq<u8>, n: nat)
    requires
        n <= s.len(),
    ensures
        varint_value(s + t, n) == varint_value(s, n),
    decreases n,
{
    if n > 0 && s.len() > 0 {
        assert((s + t)[0] == s[0]);
        assert((s + t).drop_first() =~= s.drop_first() + t);
        lemma_varint_value_extend(s.drop_first(), t, (n - 1) as nat);
    }
}

/// Reads the varint that starts at `pos`: its value and the position just past it.
pub fn read_varint(buf: &[u8], pos: usize) -> (r: Result<(u64, usize), WireError>)
    requires
        pos <= buf@.len(),
    ensures
        match parse_varint(buf@.skip(pos as int)) {
            Ok((v, n)) => r matches Ok((x, end)) && x == v && end == pos + n,
            Err(e) => r == Err::<(u64, usize), WireError>(e),
        },
{
    let ghost s = buf@.skip(pos as int);
    let avail = buf.len() - pos;
    let mut k: usize = 0;
    assert(s.skip(0) =~= s);
    while k < avail && buf[pos + k] >= 128 && k < 9
        invariant
            avail == buf@.len() - pos,
            pos + avail == buf.len(),
            s == buf@.skip(pos as int),
            k <= 9,
            k <= avail,
            varint_scan(s, 10) == (match varint_scan(s.skip(k as int), (10 - k) as nat) {
                Ok(n) => Ok::<nat, WireError>(n + k as nat),
                Err(e) => Err::<nat, WireError>(e),
            }),
        decreases 9 - k,
    {
        assert(s.skip(k as int).drop_first() =~= s.skip(k + 1));
        k = k + 1;
    }
    if k >= avail {
        return Err(WireError::UnexpectedEnd);
    }
    if buf[pos + k] >= 128 {
        return Err(WireError::MalformedVarint);
    }
    let end = k + 1;
    assert(varint_scan(s, 10) == Ok::<nat, WireError>(end as nat));
    let mut acc: u128 = 0;
    let mut j: usize = end;
    while j > 0
        invariant
            s == buf@.skip(pos as int),
            j <= end <= 10,
            end <= avail == buf@.len() - pos,
            pos + avail == buf.len(),
            acc == varint_value(s.skip(j as int), (end - j) as nat),
            acc < pow128((end - j) as nat),
        decreases j,
    {
        proof {
            assert(s.skip(j - 1).drop_first() =~= s.skip(j as int));
            assert(pow128((end - j + 1) as nat) == 128 * pow128((end - j) as nat));
            assert(pow128((end - j) as nat) <= pow128(10)) by {
                lemma_pow128_mono((end - j) as nat, 10);
            }
            assert(pow128(10) == 1180591620717411303424nat) by {
                reveal_with_fuel(pow128, 11);
            }
        }
        j = j - 1;
        let b = buf[pos + j];
        acc = acc * 128 + (b % 128) as u128;
    }
    assert(s.skip(0) =~= s);
    if acc > 0xffff_ffff_ffff_ffffu128 {
        Err(WireError::MalformedVarint)
    } else {
        Ok((acc as u64, pos + end))
    }
}

proof fn lemma_pow128_mono(a: nat, b: nat)
    requires
        a <= b,
    ensures
        pow128(a) <= pow128(b),
    decreases b,
{
    if a < b {
        lemma_pow128_mono(a, (b - 1) as nat);
    }
}

/// Appends the varint encoding of `v` to `out`.
pub fn put_varint(out: &mut Vec<u8>, v: u64)
    ensures
        final(out)@ == old(out)@ + encode_varint(v),
{
    let mut x = v;
    while x >= 128
        invariant
            out@ + encode_varint(x) == old(out)@ + encode_varint(v),
        decreases x,
    {
        let b = ((x % 128) + 128) as u8;
        let ghost before = out@;
        out.push(b);
        assert(before + encode_varint(x) =~= out@ + encode_varint(x / 128));
        x = x / 128;
    }
    let ghost before = out@;
    out.push(x as u8);
    assert(before + encode_varint(x) =~= out@);
}

/// A varint takes between one and ten bytes.
pub proof fn lemma_encode_varint_len(v: u64)
    ensures
        1 <= encode_varint(v).len() <= 10,
{
    assert(pow128(10) == 1180591620717411303424nat) by {
        reveal_with_fuel(pow128, 11);
    }
    lemma_encode_varint_len_below(v, 10);
}

proof fn lemma_encode_varint_len_below(v: u64, k: nat)
    requires
        k >= 1,
        v < pow128(k),
    ensures
        1 <= encode_varint(v).len() <= k,
    decreases v,
{
    if v >= 128 {
        assert(pow128(k) == 128 * pow128((k - 1) as nat));
        if k == 1 {
            assert(pow128(0) == 1);
        } else {
            lemma_encode_varint_len_below(v / 128, (k - 1) as nat);
        }
    }
}

proof fn lemma_varint_prefix(v: u64, rest: Seq<u8>, budget: nat)
    requires
        encode_varint(v).len() <= budget,
    ensures
        varint_scan(encode_varint(v) + rest, budget) == Ok::<nat, WireError>(
            encode_varint(v).len(),
        ),
        varint_value(encode_varint(v) + rest, encode_varint(v).len()) == v,
    decreases v,
{
    let s = encode_varint(v) + rest;
    if v >= 128 {
        assert(s.drop_first() =~= encode_varint(v / 128) + rest);
        lemma_varint_prefix(v / 128, rest, (budget - 1) as nat);
        assert(s[0] == ((v % 128) + 128) as u8);
        assert((s[0] as nat) % 128 == v % 128);
        assert(encode_varint(v).len() == 1 + encode_varint(v / 128).len());
        assert(varint_value(s, encode_varint(v).len()) == (v % 128) + 128 * (v / 128));
    } else {
        assert(s.drop_first() =~= rest);
        assert(s[0] == v as u8);
        assert(varint_value(s, 1) == (s[0] as nat) % 128 + 128 * varint_value(s.drop_first(), 0));
    }
}

/// Reading back an encoded varint gives the value and its length, whatever follows it.
pub proof fn lemma_varint_roundtrip(v: u64, rest: Seq<u8>)
    ensures
        parse_varint(encode_varint(v) + rest) == Ok::<(u64, nat), WireError>(
            (v, encode_varint(v).len()),
        ),
{
    lemma_encode_varint_len(v);
    lemma_varint_prefix(v, rest, 10);
}

} // verus!

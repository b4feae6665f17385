//! The decisions of opening a connection to a connection manager: where an endpoint
//! points, and the WebSocket upgrade handshake that the TLS stream then carries.

use sha1::Digest;
use vstd::prelude::*;
use vstd::string::StringExecFns;
use vstd::utf8::{decode_utf8, encode_utf8, is_ascii_chars};

use crate::codec::utf8_str;
use crate::http::{last_index_exec, last_index_of, lemma_last_index_of, push_decimal, decimal_bytes};
use crate::text::{
    chars_of, eq_ignore_ascii_case, find_chars_at, find_from, is_whitespace_exec,
    lemma_find_from, lemma_trailing_ws_start, parse_unsigned, parse_unsigned_exec,
    span_eq_ignore_case, sub_chars, trailing_ws_start, trim, trim_span,
};

verus! {

broadcast use vstd::utf8::encode_utf8_decode_utf8, vstd::utf8::encode_utf8_valid_utf8,
    vstd::utf8::is_ascii_chars_encode_utf8;

/// Why a connection could not be opened.
#[derive(Debug, Clone, PartialEq, Eq)]
pub enum ConnectError {
    /// The endpoint's port is not a port number.
    BadPort(String),
    /// The server refused the upgrade; the status line it sent.
    Refused(String),
    /// The server's handshake answer is not the one the key calls for.
    BadHandshake(String),
}

// ---------------------------------------------------------------------------
// Endpoints.
// ---------------------------------------------------------------------------

/// The host and port of a directory endpoint, `host:port` or a bare host meaning port 443.
pub open spec fn spec_split_endpoint(endpoint: Seq<char>) -> Option<(Seq<char>, u16)> {
    match last_index_of(endpoint, ':') {
        Some(c) => match parse_unsigned(endpoint.skip(c + 1), 10, 0xffff) {
            Some(port) => Some((endpoint.take(c), port as u16)),
            None => None,
        },
        None => Some((endpoint, 443)),
    }
}

pub open spec fn bad_port_prefix() -> Seq<char> {
    seq!['b', 'a', 'd', ' ', 'p', 'o', 'r', 't', ' ', 'i', 'n', ' ']
}

/// Splits an endpoint the way the directory writes them into host and port.
pub fn split_endpoint(endpoint: &str) -> (r: Result<(&str, u16), ConnectError>)
    ensures
        match spec_split_endpoint(endpoint@) {
            Some((host, port)) => r matches Ok((h, p)) && h@ == host && p == port,
            None => r matches Err(ConnectError::BadPort(m)) && m@ == bad_port_prefix()
                + endpoint@,
        },
{
    let s = chars_of(endpoint);
    let n = s.len();
    proof {
        lemma_last_index_of(s@, ':');
    }
    match last_index_exec(&s, ':') {
        Some(c) => {
            assert(s@.subrange(c + 1, n as int) =~= s@.skip(c + 1));
            match parse_unsigned_exec(&s, c + 1, n, 10, 0xffff) {
                Some(port) => {
                    let host = endpoint.substring_char(0, c);
                    assert(host@ =~= s@.take(c as int));
                    Ok((host, port as u16))
                },
                None => {
                    let mut message = "bad port in ".to_owned();
                    proof {
                        reveal_strlit("bad port in ");
                    }
                    assert(message@ =~= bad_port_prefix());
                    message.append(endpoint);
                    Err(ConnectError::BadPort(message))
                },
            }
        },
        None => Ok((endpoint, 443)),
    }
}

// ---------------------------------------------------------------------------
// Base64.
// ---------------------------------------------------------------------------

/// The base64 alphabet's character for a six-bit value, as ASCII.
pub open spec fn b64_digit(v: u32) -> u8 {
    if v < 26 {
        (65 + v) as u8
    } else if v < 52 {
        (97 + v - 26) as u8
    } else if v < 62 {
        (48 + v - 52) as u8
    } else if v == 62 {
        43
    } else {
        47
    }
}

/// Three bytes as one 24-bit value, the first most significant.
pub open spec fn triple(b0: u8, b1: u8, b2: u8) -> u32 {
    ((b0 as u32) << 16) | ((b1 as u32) << 8) | (b2 as u32)
}

/// The four characters one group of one to three bytes becomes, padded with `=`.
pub open spec fn b64_group(g: Seq<u8>) -> Seq<u8> {
    let t = triple(g[0], if g.len() > 1 { g[1] } else { 0 }, if g.len() > 2 { g[2] } else { 0 });
    seq![
        b64_digit((t >> 18) & 0x3f),
        b64_digit((t >> 12) & 0x3f),
        if g.len() > 1 { b64_digit((t >> 6) & 0x3f) } else { 61u8 },
        if g.len() > 2 { b64_digit(t & 0x3f) } else { 61u8 },
    ]
}

/// The standard base64 encoding of `b`, with padding, as ASCII.
pub open spec fn base64_bytes(b: Seq<u8>) -> Seq<u8>
    decreases b.len(),
{
    if b.len() == 0 {
        Seq::empty()
    } else if b.len() <= 3 {
        b64_group(b)
    } else {
        b64_group(b.take(3)) + base64_bytes(b.skip(3))
    }
}

/// The standard base64 encoding of `b`, with padding.
pub open spec fn base64(b: Seq<u8>) -> Seq<char> {
    base64_bytes(b).map_values(|x: u8| x as char)
}

fn b64_digit_exec(v: u32) -> (r: u8)
    requires
        v < 64,
    ensures
        r == b64_digit(v),
        r < 128,
{
    if v < 26 {
        (65 + v) as u8
    } else if v < 52 {
        (97 + v - 26) as u8
    } else if v < 62 {
        (48 + v - 52) as u8
    } else if v == 62 {
        43
    } else {
        47
    }
}

proof fn lemma_base64_ascii(b: Seq<u8>)
    ensures
        forall|i: int| 0 <= i < base64_bytes(b).len() ==> #[trigger] base64_bytes(b)[i] < 128,
    decreases b.len(),
{
    if b.len() > 3 {
        lemma_base64_ascii(b.skip(3));
        let t = triple(b[0], b[1], b[2]);
        assert((t >> 18) & 0x3f < 64 && (t >> 12) & 0x3f < 64 && (t >> 6) & 0x3f < 64 && t & 0x3f
            < 64) by (bit_vector);
        assert forall|i: int| 0 <= i < base64_bytes(b).len() implies #[trigger] base64_bytes(
            b,
        )[i] < 128 by {
            if i >= 4 {
                assert(base64_bytes(b)[i] == base64_bytes(b.skip(3))[i - 4]);
            }
        }
    } else if b.len() > 0 {
        let t = triple(b[0], if b.len() > 1 { b[1] } else { 0 }, if b.len() > 2 { b[2] } else { 0 });
        assert((t >> 18) & 0x3f < 64 && (t >> 12) & 0x3f < 64 && (t >> 6) & 0x3f < 64 && t & 0x3f
            < 64) by (bit_vector);
    }
}

/// The base64 alphabet of RFC 4648, section 4: the character each six-bit value stands for.
pub open spec fn rfc4648_alphabet() -> Seq<char> {
    seq![
        'A', 'B', 'C', 'D', 'E', 'F', 'G', 'H', 'I', 'J', 'K', 'L', 'M', 'N', 'O', 'P', 'Q', 'R',
        'S', 'T', 'U', 'V', 'W', 'X', 'Y', 'Z', 'a', 'b', 'c', 'd', 'e', 'f', 'g', 'h', 'i', 'j',
        'k', 'l', 'm', 'n', 'o', 'p', 'q', 'r', 's', 't', 'u', 'v', 'w', 'x', 'y', 'z', '0', '1',
        '2', '3', '4', '5', '6', '7', '8', '9', '+', '/',
    ]
}

/// Each six-bit value is written as the character the alphabet gives it.
proof fn lemma_b64_digit_alphabet(v: u32)
    requires
        v < 64,
    ensures
        b64_digit(v) as char == rfc4648_alphabet()[v as int],
{
    assert(rfc4648_alphabet() =~= Seq::new(64, |i: int| b64_digit(i as u32) as char));
}

/// Different six-bit values are written as different characters, so the encoding can be
/// read back.
pub proof fn lemma_b64_digit_injective(v: u32, w: u32)
    requires
        v < 64,
        w < 64,
        v != w,
    ensures
        b64_digit(v) != b64_digit(w),
{
}

/// The characters of group `j` of the encoding are those of the group of at most three
/// input bytes at `3 * j`.
proof fn lemma_base64_group_at(b: Seq<u8>, j: int)
    requires
        0 <= j,
        3 * j < b.len(),
    ensures
        4 * j + 4 <= base64_bytes(b).len(),
        base64_bytes(b).subrange(4 * j, 4 * j + 4) == b64_group(
            b.subrange(3 * j, if 3 * j + 3 <= b.len() { 3 * j + 3 } else { b.len() as int }),
        ),
    decreases j,
{
    if j == 0 {
        if b.len() <= 3 {
            assert(b.subrange(0, b.len() as int) =~= b);
        } else {
            assert(b.subrange(0, 3) =~= b.take(3));
            assert(base64_bytes(b).subrange(0, 4) =~= b64_group(b.take(3)));
        }
    } else {
        let r = b.skip(3);
        lemma_base64_group_at(r, j - 1);
        assert(base64_bytes(b) == b64_group(b.take(3)) + base64_bytes(r));
        assert(base64_bytes(b).subrange(4 * j, 4 * j + 4) =~= base64_bytes(r).subrange(
            4 * (j - 1),
            4 * (j - 1) + 4,
        ));
        assert(r.subrange(
            3 * (j - 1),
            if 3 * (j - 1) + 3 <= r.len() { 3 * (j - 1) + 3 } else { r.len() as int },
        ) =~= b.subrange(3 * j, if 3 * j + 3 <= b.len() { 3 * j + 3 } else { b.len() as int }));
    }
}

/// Four characters for every started group of three bytes.
proof fn lemma_base64_len(b: Seq<u8>)
    ensures
        base64_bytes(b).len() == 4 * ((b.len() + 2) / 3),
    decreases b.len(),
{
    if b.len() > 3 {
        lemma_base64_len(b.skip(3));
    }
}

/// The six-bit values of a group of three bytes, as the alphabet writes them.
proof fn lemma_group_digits(x: u8, y: u8, z: u8)
    ensures
        b64_group(seq![x, y, z]) == seq![
            b64_digit((x >> 2) as u32),
            b64_digit((((x & 3) << 4) | (y >> 4)) as u32),
            b64_digit((((y & 15) << 2) | (z >> 6)) as u32),
            b64_digit((z & 63) as u32),
        ],
        b64_group(seq![x, y]) == seq![
            b64_digit((x >> 2) as u32),
            b64_digit((((x & 3) << 4) | (y >> 4)) as u32),
            b64_digit(((y & 15) << 2) as u32),
            61u8,
        ],
        b64_group(seq![x]) == seq![
            b64_digit((x >> 2) as u32),
            b64_digit(((x & 3) << 4) as u32),
            61u8,
            61u8,
        ],
{
    let t = triple(x, y, z);
    assert((t >> 18) & 0x3f == (x >> 2) as u32 && (t >> 12) & 0x3f == (((x & 3) << 4) | (y
        >> 4)) as u32 && (t >> 6) & 0x3f == (((y & 15) << 2) | (z >> 6)) as u32 && t & 0x3f == (z
        & 63) as u32) by (bit_vector)
        requires
            t == ((x as u32) << 16) | ((y as u32) << 8) | (z as u32),
    ;
    let t2 = triple(x, y, 0);
    assert((t2 >> 18) & 0x3f == (x >> 2) as u32 && (t2 >> 12) & 0x3f == (((x & 3) << 4) | (y
        >> 4)) as u32 && (t2 >> 6) & 0x3f == ((y & 15) << 2) as u32) by (bit_vector)
        requires
            t2 == ((x as u32) << 16) | ((y as u32) << 8) | (0u8 as u32),
    ;
    let t1 = triple(x, 0, 0);
    assert((t1 >> 18) & 0x3f == (x >> 2) as u32 && (t1 >> 12) & 0x3f == ((x & 3) << 4) as u32)
        by (bit_vector)
        requires
            t1 == ((x as u32) << 16) | ((0u8 as u32) << 8) | (0u8 as u32),
    ;
    assert(seq![x, y, z].len() == 3 && seq![x, y].len() == 2);
}

/// Standard base64, as RFC 4648 defines it: every full group of three input bytes
/// `x, y, z` at `3 * j` becomes, at `4 * j`, the alphabet's characters for the six-bit
/// values `x >> 2`, `(x & 3) << 4 | y >> 4`, `(y & 15) << 2 | z >> 6` and `z & 63`.
pub proof fn lemma_base64_full_group(b: Seq<u8>, j: int)
    requires
        0 <= j,
        3 * j + 3 <= b.len(),
    ensures
        ({
            let a = rfc4648_alphabet();
            let c = base64(b);
            let (x, y, z) = (b[3 * j], b[3 * j + 1], b[3 * j + 2]);
            &&& c[4 * j] == a[(x >> 2) as int]
            &&& c[4 * j + 1] == a[(((x & 3) << 4) | (y >> 4)) as int]
            &&& c[4 * j + 2] == a[(((y & 15) << 2) | (z >> 6)) as int]
            &&& c[4 * j + 3] == a[(z & 63) as int]
        }),
{
    let (x, y, z) = (b[3 * j], b[3 * j + 1], b[3 * j + 2]);
    lemma_base64_group_at(b, j);
    assert(b.subrange(3 * j, 3 * j + 3) =~= seq![x, y, z]);
    lemma_group_digits(x, y, z);
    assert((x >> 2) < 64 && (((x & 3) << 4) | (y >> 4)) < 64 && (((y & 15) << 2) | (z >> 6)) < 64
        && (z & 63) < 64) by (bit_vector);
    lemma_b64_digit_alphabet((x >> 2) as u32);
    lemma_b64_digit_alphabet((((x & 3) << 4) | (y >> 4)) as u32);
    lemma_b64_digit_alphabet((((y & 15) << 2) | (z >> 6)) as u32);
    lemma_b64_digit_alphabet((z & 63) as u32);
    let bb = base64_bytes(b);
    assert(bb[4 * j] == bb.subrange(4 * j, 4 * j + 4)[0]);
    assert(bb[4 * j + 1] == bb.subrange(4 * j, 4 * j + 4)[1]);
    assert(bb[4 * j + 2] == bb.subrange(4 * j, 4 * j + 4)[2]);
    assert(bb[4 * j + 3] == bb.subrange(4 * j, 4 * j + 4)[3]);
}

/// Standard base64, as RFC 4648 defines it: four characters for every started group of
/// three bytes; a last group of one byte `x` ends in the characters for `x >> 2` and
/// `(x & 3) << 4` and two `=`, a last group of two bytes `x, y` in those for `x >> 2`,
/// `(x & 3) << 4 | y >> 4` and `(y & 15) << 2` and one `=`.
pub proof fn lemma_base64_tail(b: Seq<u8>)
    ensures
        base64(b).len() == 4 * ((b.len() + 2) / 3),
        ({
            let a = rfc4648_alphabet();
            let c = base64(b);
            let n = b.len() as int;
            let m = c.len() as int;
            &&& n % 3 == 1 ==> c[m - 4] == a[(b[n - 1] >> 2) as int] && c[m - 3] == a[((b[n
                - 1] & 3) << 4) as int] && c[m - 2] == '=' && c[m - 1] == '='
            &&& n % 3 == 2 ==> c[m - 4] == a[(b[n - 2] >> 2) as int] && c[m - 3] == a[(((b[n
                - 2] & 3) << 4) | (b[n - 1] >> 4)) as int] && c[m - 2] == a[((b[n - 1] & 15)
                << 2) as int] && c[m - 1] == '='
        }),
{
    lemma_base64_len(b);
    let n = b.len() as int;
    if n % 3 != 0 {
        let j = n / 3;
        lemma_base64_group_at(b, j);
        let bb = base64_bytes(b);
        let m = bb.len() as int;
        assert(4 * j + 4 == m);
        let g = bb.subrange(4 * j, 4 * j + 4);
        assert(bb[m - 4] == g[0] && bb[m - 3] == g[1] && bb[m - 2] == g[2] && bb[m - 1] == g[3]);
        if n % 3 == 1 {
            let x = b[n - 1];
            assert(b.subrange(3 * j, n) =~= seq![x]);
            lemma_group_digits(x, 0, 0);
            assert((x >> 2) < 64 && ((x & 3) << 4) < 64) by (bit_vector);
            lemma_b64_digit_alphabet((x >> 2) as u32);
            lemma_b64_digit_alphabet(((x & 3) << 4) as u32);
        } else {
            let x = b[n - 2];
            let y = b[n - 1];
            assert(b.subrange(3 * j, n) =~= seq![x, y]);
            lemma_group_digits(x, y, 0);
            assert((x >> 2) < 64 && (((x & 3) << 4) | (y >> 4)) < 64 && ((y & 15) << 2) < 64)
                by (bit_vector);
            lemma_b64_digit_alphabet((x >> 2) as u32);
            lemma_b64_digit_alphabet((((x & 3) << 4) | (y >> 4)) as u32);
            lemma_b64_digit_alphabet(((y & 15) << 2) as u32);
        }
    }
}

/// Encodes `input` as standard base64, with padding.
pub fn base64_encode(input: &[u8]) -> (r: String)
    ensures
        r@ == base64(input@),
{
    let n = input.len();
    let mut out: Vec<u8> = Vec::new();
    let mut i: usize = 0;
    assert(input@.skip(0) =~= input@);
    assert(out@ + base64_bytes(input@.skip(0)) =~= base64_bytes(input@));
    while i < n
        invariant
            n == input@.len(),
            i <= n,
            out@ + base64_bytes(input@.skip(i as int)) == base64_bytes(input@),
        decreases n - i,
    {
        let len = if n - i >= 3 {
            3
        } else {
            n - i
        };
        let b0 = input[i];
        let b1 = if len > 1 {
            input[i + 1]
        } else {
            0
        };
        let b2 = if len > 2 {
            input[i + 2]
        } else {
            0
        };
        let t: u32 = ((b0 as u32) << 16) | ((b1 as u32) << 8) | (b2 as u32);
        assert((t >> 18) & 0x3f < 64 && (t >> 12) & 0x3f < 64 && (t >> 6) & 0x3f < 64 && t & 0x3f
            < 64) by (bit_vector);
        let ghost before = out@;
        out.push(b64_digit_exec((t >> 18) & 0x3f));
        out.push(b64_digit_exec((t >> 12) & 0x3f));
        if len > 1 {
            out.push(b64_digit_exec((t >> 6) & 0x3f));
        } else {
            out.push(61);
        }
        if len > 2 {
            out.push(b64_digit_exec(t & 0x3f));
        } else {
            out.push(61);
        }
        let ghost rest = input@.skip(i as int);
        let ghost g = if rest.len() <= 3 {
            rest
        } else {
            rest.take(3)
        };
        assert(g.len() == len);
        assert(g[0] == b0);
        assert(len > 1 ==> g[1] == b1);
        assert(len > 2 ==> g[2] == b2);
        assert(out@ =~= before + b64_group(g));
        proof {
            if rest.len() > 3 {
                assert(rest.skip(3) =~= input@.skip(i + 3));
            } else {
                assert(input@.skip(i + len) =~= Seq::<u8>::empty());
            }
        }
        i = i + len;
    }
    assert(input@.skip(i as int) =~= Seq::<u8>::empty());
    assert(out@ =~= base64_bytes(input@));
    proof {
        lemma_base64_ascii(input@);
    }
    let ghost chars = base64(input@);
    assert(is_ascii_chars(chars));
    assert(encode_utf8(chars) =~= out@);
    let text = utf8_str(out.as_slice());
    match text {
        Some(t) => {
            assert(decode_utf8(encode_utf8(t@)) == t@);
            assert(decode_utf8(encode_utf8(chars)) == chars);
            t.to_owned()
        },
        None => {
            assert(false);
            String::new()
        },
    }
}

// ---------------------------------------------------------------------------
// The WebSocket upgrade.
// ---------------------------------------------------------------------------

/// The GUID RFC 6455 has a server append to the client's key before hashing it.
pub const WEBSOCKET_GUID: &'static str = "258EAFA5-E914-47DA-95CA-C5AB0DC85B11";

/// What SHA-1 makes of `data`.
pub uninterp spec fn sha1_of(data: Seq<u8>) -> Seq<u8>;

/// `sha1::Sha1::digest`: the SHA-1 hash of `data`. The hash is named, not stated; the
/// contract adds only that it is 20 bytes, which the output type fixes.
#[verifier::external_body]
fn sha1_digest(data: &[u8]) -> (r: Vec<u8>)
    ensures
        r@ == sha1_of(data@),
        r@.len() == 20,
{
    sha1::Sha1::digest(data).to_vec()
}

/// `getrandom::getrandom`, filling `n` fresh bytes: `None` when the system refuses. What the
/// bytes are is chance; the contract says only how many there are.
#[verifier::external_body]
pub(crate) fn random_bytes(n: usize) -> (r: Option<Vec<u8>>)
    ensures
        r matches Some(v) ==> v@.len() == n,
{
    let mut buf = vec![0u8; n];
    match getrandom::getrandom(&mut buf) {
        Ok(()) => Some(buf),
        Err(_) => None,
    }
}

pub open spec fn guid_chars() -> Seq<char> {
    seq![
        '2', '5', '8', 'E', 'A', 'F', 'A', '5', '-', 'E', '9', '1', '4', '-', '4', '7', 'D', 'A',
        '-', '9', '5', 'C', 'A', '-', 'C', '5', 'A', 'B', '0', 'D', 'C', '8', '5', 'B', '1', '1',
    ]
}

/// The `Sec-WebSocket-Accept` value a server owes a client that sent `key`.
pub open spec fn spec_accept(key: Seq<char>) -> Seq<char> {
    base64(sha1_of(encode_utf8(key + guid_chars())))
}

/// The `Sec-WebSocket-Accept` value a server owes a client that sent `key`: the base64 of
/// the SHA-1 of the key followed by the protocol's GUID.
pub fn accept_for(key: &str) -> (r: String)
    ensures
        r@ == spec_accept(key@),
{
    let guid = WEBSOCKET_GUID;
    proof {
        reveal_strlit("258EAFA5-E914-47DA-95CA-C5AB0DC85B11");
    }
    assert(guid@ =~= guid_chars());
    let mut data: Vec<u8> = Vec::new();
    crate::wire::fields::push_all(&mut data, key.as_bytes());
    crate::wire::fields::push_all(&mut data, guid.as_bytes());
    proof {
        crate::text::lemma_encode_utf8_concat(key@, guid_chars());
    }
    assert(data@ =~= encode_utf8(key@ + guid_chars()));
    let digest = sha1_digest(data.as_slice());
    base64_encode(digest.as_slice())
}

/// A fresh `Sec-WebSocket-Key`: the base64 of 16 random bytes, or nothing when no
/// randomness can be had.
pub fn handshake_key() -> (r: Option<String>)
    ensures
        r matches Some(k) ==> exists|b: Seq<u8>| b.len() == 16 && k@ == base64(b),
{
    match random_bytes(16) {
        Some(bytes) => {
            let k = base64_encode(bytes.as_slice());
            Some(k)
        },
        None => None,
    }
}

pub open spec fn upgrade_start() -> Seq<char> {
    seq![
        'G', 'E', 'T', ' ', '/', 'c', 'm', 's', 'o', 'c', 'k', 'e', 't', '/', ' ', 'H', 'T', 'T',
        'P', '/', '1', '.', '1', '\r', '\n', 'H', 'o', 's', 't', ':', ' ',
    ]
}

pub open spec fn upgrade_middle() -> Seq<char> {
    seq![
        '\r', '\n', 'U', 'p', 'g', 'r', 'a', 'd', 'e', ':', ' ', 'w', 'e', 'b', 's', 'o', 'c', 'k',
        'e', 't', '\r', '\n', 'C', 'o', 'n', 'n', 'e', 'c', 't', 'i', 'o', 'n', ':', ' ', 'U', 'p',
        'g', 'r', 'a', 'd', 'e', '\r', '\n', 'S', 'e', 'c', '-', 'W', 'e', 'b', 'S', 'o', 'c', 'k',
        'e', 't', '-', 'K', 'e', 'y', ':', ' ',
    ]
}

pub open spec fn upgrade_end() -> Seq<char> {
    seq![
        '\r', '\n', 'S', 'e', 'c', '-', 'W', 'e', 'b', 'S', 'o', 'c', 'k', 'e', 't', '-', 'V', 'e',
        'r', 's', 'i', 'o', 'n', ':', ' ', '1', '3', '\r', '\n', '\r', '\n',
    ]
}

/// The upgrade request for the connection manager at `host:port`, offering `key`.
pub open spec fn spec_upgrade_request(host: Seq<char>, port: u16, key: Seq<char>) -> Seq<u8> {
    encode_utf8(upgrade_start()) + encode_utf8(host) + encode_utf8(seq![':']) + decimal_bytes(
        port as nat,
    ) + encode_utf8(upgrade_middle()) + encode_utf8(key) + encode_utf8(upgrade_end())
}

/// The bytes of the upgrade request for the connection manager at `host:port`.
pub fn upgrade_request(host: &str, port: u16, key: &str) -> (r: Vec<u8>)
    ensures
        r@ == spec_upgrade_request(host@, port, key@),
{
    let start = "GET /cmsocket/ HTTP/1.1\r\nHost: ";
    let colon = ":";
    let middle = "\r\nUpgrade: websocket\r\nConnection: Upgrade\r\nSec-WebSocket-Key: ";
    let end = "\r\nSec-WebSocket-Version: 13\r\n\r\n";
    proof {
        reveal_strlit("GET /cmsocket/ HTTP/1.1\r\nHost: ");
        reveal_strlit(":");
        reveal_strlit("\r\nUpgrade: websocket\r\nConnection: Upgrade\r\nSec-WebSocket-Key: ");
        reveal_strlit("\r\nSec-WebSocket-Version: 13\r\n\r\n");
    }
    assert(start@ =~= upgrade_start());
    assert(colon@ =~= seq![':']);
    assert(middle@ =~= upgrade_middle());
    assert(end@ =~= upgrade_end());
    let mut out: Vec<u8> = Vec::new();
    crate::wire::fields::push_all(&mut out, start.as_bytes());
    crate::wire::fields::push_all(&mut out, host.as_bytes());
    crate::wire::fields::push_all(&mut out, colon.as_bytes());
    push_decimal(&mut out, port as u64);
    crate::wire::fields::push_all(&mut out, middle.as_bytes());
    crate::wire::fields::push_all(&mut out, key.as_bytes());
    crate::wire::fields::push_all(&mut out, end.as_bytes());
    assert(out@ =~= spec_upgrade_request(host@, port, key@));
    out
}

pub open spec fn switching_status() -> Seq<char> {
    seq!['H', 'T', 'T', 'P', '/', '1', '.', '1', ' ', '1', '0', '1']
}

/// Whether a status line accepts the upgrade: it starts `HTTP/1.1 101`.
pub fn upgrade_accepted(status: &str) -> (r: bool)
    ensures
        r == (status@.len() >= 12 && status@.take(12) == switching_status()),
{
    let s = chars_of(status);
    let want: Vec<char> = vec!['H', 'T', 'T', 'P', '/', '1', '.', '1', ' ', '1', '0', '1'];
    assert(want@ =~= switching_status());
    if s.len() < 12 {
        return false;
    }
    let head = sub_chars(&s, 0, 12);
    assert(head@ =~= s@.take(12));
    crate::text::chars_eq(&head, &want)
}

/// What one line of the upgrade response's head is.
#[derive(Debug, Clone, PartialEq, Eq)]
pub enum HandshakeLine {
    /// The blank line that ends the head.
    End,
    /// A `Sec-WebSocket-Accept` header and its trimmed value.
    Accept(String),
    /// Any other line.
    Other,
}

pub open spec fn accept_header_name() -> Seq<char> {
    seq![
        's', 'e', 'c', '-', 'w', 'e', 'b', 's', 'o', 'c', 'k', 'e', 't', '-', 'a', 'c', 'c', 'e',
        'p', 't',
    ]
}

/// A line without the whitespace it ends with, as `str::trim_end` gives it.
pub open spec fn trim_end(s: Seq<char>) -> Seq<char> {
    s.take(trailing_ws_start(s, 0, s.len() as int))
}

/// What the line is: blank once its trailing whitespace is gone, an accept header when the
/// name before its first colon is `sec-websocket-accept` in any ASCII case, or another line.
pub open spec fn spec_handshake_line(line: Seq<char>) -> Option<Option<Seq<char>>> {
    let l = trim_end(line);
    if l.len() == 0 {
        None
    } else {
        match find_from(l, seq![':'], 0) {
            Some(c) => if eq_ignore_ascii_case(l.take(c), accept_header_name()) {
                Some(Some(trim(l.skip(c + 1))))
            } else {
                Some(None)
            },
            None => Some(None),
        }
    }
}

/// Classifies one line of the upgrade response's head.
pub fn handshake_line(line: &str) -> (r: HandshakeLine)
    ensures
        match spec_handshake_line(line@) {
            None => r == HandshakeLine::End,
            Some(Some(v)) => r matches HandshakeLine::Accept(x) && x@ == v,
            Some(None) => r == HandshakeLine::Other,
        },
{
    let s = chars_of(line);
    let n = s.len();
    let mut e = n;
    proof {
        lemma_trailing_ws_start(s@, 0, n as int);
    }
    while e > 0 && is_whitespace_exec(s[e - 1])
        invariant
            e <= n,
            n == s@.len(),
            trailing_ws_start(s@, 0, n as int) == trailing_ws_start(s@, 0, e as int),
        decreases e,
    {
        e = e - 1;
    }
    let l = sub_chars(&s, 0, e);
    assert(l@ =~= trim_end(s@));
    if e == 0 {
        return HandshakeLine::End;
    }
    let colon: Vec<char> = vec![':'];
    assert(colon@ =~= seq![':']);
    let name: Vec<char> = vec![
        's', 'e', 'c', '-', 'w', 'e', 'b', 's', 'o', 'c', 'k', 'e', 't', '-', 'a', 'c', 'c', 'e',
        'p', 't',
    ];
    assert(name@ =~= accept_header_name());
    match find_chars_at(&l, 0, &colon) {
        Some(c) => {
            assert(l@.subrange(0, c as int) =~= l@.take(c as int));
            if span_eq_ignore_case(&l, 0, c, &name) {
                let (a, b) = trim_span(&l, c + 1, e);
                assert(l@.subrange(c + 1, e as int) =~= l@.skip(c + 1));
                let value = line.substring_char(a, b).to_owned();
                assert(value@ =~= l@.subrange(a as int, b as int));
                HandshakeLine::Accept(value)
            } else {
                HandshakeLine::Other
            }
        },
        None => HandshakeLine::Other,
    }
}

pub open spec fn no_accept_message() -> Seq<char> {
    seq![
        't', 'h', 'e', ' ', 'u', 'p', 'g', 'r', 'a', 'd', 'e', ' ', 'r', 'e', 's', 'p', 'o', 'n',
        's', 'e', ' ', 'c', 'a', 'r', 'r', 'i', 'e', 'd', ' ', 'n', 'o', ' ', 'S', 'e', 'c', '-',
        'W', 'e', 'b', 'S', 'o', 'c', 'k', 'e', 't', '-', 'A', 'c', 'c', 'e', 'p', 't',
    ]
}

pub open spec fn accept_was() -> Seq<char> {
    seq![
        'S', 'e', 'c', '-', 'W', 'e', 'b', 'S', 'o', 'c', 'k', 'e', 't', '-', 'A', 'c', 'c', 'e',
        'p', 't', ' ', 'w', 'a', 's', ' ',
    ]
}

pub open spec fn expected_word() -> Seq<char> {
    seq![',', ' ', 'e', 'x', 'p', 'e', 'c', 't', 'e', 'd', ' ']
}

/// Holds the server's `Sec-WebSocket-Accept` to the value `key` calls for: it must be there
/// and equal.
pub fn check_accept(accept: Option<String>, key: &str) -> (r: Result<(), ConnectError>)
    ensures
        match accept {
            Some(v) => if v@ == spec_accept(key@) {
                r is Ok
            } else {
                r matches Err(ConnectError::BadHandshake(m)) && m@ == accept_was() + v@
                    + expected_word() + spec_accept(key@)
            },
            None => r matches Err(ConnectError::BadHandshake(m)) && m@ == no_accept_message(),
        },
{
    let expected = accept_for(key);
    match accept {
        Some(value) => {
            let v = chars_of(value.as_str());
            let e = chars_of(expected.as_str());
            if crate::text::chars_eq(&v, &e) {
                Ok(())
            } else {
                let mut message = "Sec-WebSocket-Accept was ".to_owned();
                proof {
                    reveal_strlit("Sec-WebSocket-Accept was ");
                    reveal_strlit(", expected ");
                }
                assert(message@ =~= accept_was());
                message.append(value.as_str());
                message.append(", expected ");
                assert(", expected "@ =~= expected_word());
                message.append(expected.as_str());
                Err(ConnectError::BadHandshake(message))
            }
        },
        None => {
            let message = "the upgrade response carried no Sec-WebSocket-Accept".to_owned();
            proof {
                reveal_strlit("the upgrade response carried no Sec-WebSocket-Accept");
            }
            assert(message@ =~= no_accept_message());
            Err(ConnectError::BadHandshake(message))
        },
    }
}

} // verus!

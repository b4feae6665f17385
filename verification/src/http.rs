//! The decisions of a minimal HTTP/1.1 client: where a URL points, where a response head
//! ends, what it says, how its body is framed, and how a chunked body is taken apart.

use vstd::prelude::*;
use vstd::string::StringExecFns;

use crate::text::{
    chars_eq, chars_of, eq_ignore_ascii_case, find_bytes_at, find_chars_at, find_from,
    is_whitespace_exec, lemma_find_from, lemma_skip_word, lemma_skip_ws, parse_unsigned,
    parse_unsigned_exec, skip_word, skip_ws, span_eq_ignore_case, sub_chars, to_ascii_lower,
    all_digits, digit_in, is_whitespace, radix_value,
    trailing_ws_start, trim, trim_span,
};

verus! {

/// Why a fetch failed.
#[derive(Debug, Clone, PartialEq, Eq)]
pub enum FetchError {
    /// The connection could not be made or broke.
    Transport(String),
    /// The URL is not one this client can fetch.
    InvalidUrl(String),
    /// The server's answer is not well-formed HTTP.
    MalformedResponse(String),
    /// The body is larger than the caller allowed.
    BodyTooLarge { limit: u64 },
}

// ---------------------------------------------------------------------------
// URLs.
// ---------------------------------------------------------------------------

/// The position of the last `c` in `s`, if there is one.
pub open spec fn last_index_of(s: Seq<char>, c: char) -> Option<int>
    decreases s.len(),
{
    if s.len() == 0 {
        None
    } else if s.last() == c {
        Some(s.len() - 1)
    } else {
        last_index_of(s.drop_last(), c)
    }
}

pub proof fn lemma_last_index_of(s: Seq<char>, c: char)
    ensures
        match last_index_of(s, c) {
            Some(i) => 0 <= i < s.len() && s[i] == c && forall|j: int| i < j < s.len() ==> s[j] != c,
            None => forall|j: int| 0 <= j < s.len() ==> s[j] != c,
        },
    decreases s.len(),
{
    if s.len() > 0 && s.last() != c {
        let init = s.drop_last();
        lemma_last_index_of(init, c);
        assert forall|j: int| 0 <= j < init.len() implies init[j] == s[j] by {}
    }
}

pub open spec fn scheme_sep() -> Seq<char> {
    seq![':', '/', '/']
}

pub open spec fn https_scheme() -> Seq<char> {
    seq!['h', 't', 't', 'p', 's']
}

pub open spec fn http_scheme() -> Seq<char> {
    seq!['h', 't', 't', 'p']
}

/// The host, port and path a URL names: `https` defaults to port 443 and `http` to 80,
/// a missing path is `/`, and a URL with another scheme, an unreadable port or an empty
/// host names nothing.
pub open spec fn spec_split_url(url: Seq<char>) -> Option<(Seq<char>, u16, Seq<char>)> {
    match find_from(url, scheme_sep(), 0) {
        None => None,
        Some(p) => {
            let scheme = url.take(p);
            let rest = url.skip(p + 3);
            let default_port: u16 = if scheme == https_scheme() {
                443
            } else {
                80
            };
            if scheme != https_scheme() && scheme != http_scheme() {
                None
            } else {
                let (authority, path) = match find_from(rest, seq!['/'], 0) {
                    Some(i) => (rest.take(i), rest.skip(i)),
                    None => (rest, seq!['/']),
                };
                let host_port: Option<(Seq<char>, u16)> = match last_index_of(authority, ':') {
                    Some(c) => match parse_unsigned(authority.skip(c + 1), 10, 0xffff) {
                        Some(port) => Some((authority.take(c), port as u16)),
                        None => None,
                    },
                    None => Some((authority, default_port)),
                };
                match host_port {
                    Some((host, port)) => if host.len() == 0 {
                        None
                    } else {
                        Some((host, port, path))
                    },
                    None => None,
                }
            }
        },
    }
}

/// The last `c` in `s`.
pub fn last_index_exec(s: &Vec<char>, c: char) -> (r: Option<usize>)
    ensures
        r == match last_index_of(s@, c) {
            Some(i) => Some(i as usize),
            None => None::<usize>,
        },
{
    let mut j = s.len();
    assert(s@.subrange(0, j as int) =~= s@);
    while j > 0
        invariant
            j <= s@.len(),
            last_index_of(s@, c) == last_index_of(s@.subrange(0, j as int), c),
        decreases j,
    {
        assert(s@.subrange(0, j as int).drop_last() =~= s@.subrange(0, j - 1));
        if s[j - 1] == c {
            return Some(j - 1);
        }
        j = j - 1;
    }
    None
}

/// The authority and path of what follows a URL's scheme.
fn split_path(rest: &Vec<char>) -> (r: (usize, bool))
    ensures
        r.0 <= rest@.len(),
        match find_from(rest@, seq!['/'], 0) {
            Some(i) => r == (i as usize, true),
            None => r == (rest@.len() as usize, false),
        },
{
    let slash: Vec<char> = vec!['/'];
    assert(slash@ =~= seq!['/']);
    proof {
        lemma_find_from(rest@, seq!['/'], 0);
    }
    match find_chars_at(rest, 0, &slash) {
        Some(i) => (i, true),
        None => (rest.len(), false),
    }
}

/// The host and port of an authority, `default_port` when it names none.
fn split_port(authority: &Vec<char>, default_port: u16) -> (r: Option<(usize, u16)>)
    ensures
        match last_index_of(authority@, ':') {
            Some(c) => match parse_unsigned(authority@.skip(c + 1), 10, 0xffff) {
                Some(port) => r == Some((c as usize, port as u16)),
                None => r is None,
            },
            None => r == Some((authority@.len() as usize, default_port)),
        },
{
    proof {
        lemma_last_index_of(authority@, ':');
    }
    match last_index_exec(authority, ':') {
        Some(c) => {
            let n = authority.len();
            assert(authority@.subrange(c + 1, n as int) =~= authority@.skip(c + 1));
            match parse_unsigned_exec(authority, c + 1, n, 10, 0xffff) {
                Some(port) => Some((c, port as u16)),
                None => None,
            }
        },
        None => Some((authority.len(), default_port)),
    }
}

/// Splits a URL into host, port and path.
pub fn split_url(url: &str) -> (r: Result<(String, u16, String), FetchError>)
    ensures
        match spec_split_url(url@) {
            Some((host, port, path)) => r matches Ok((h, p, t)) && h@ == host && p == port && t@
                == path,
            None => r matches Err(FetchError::InvalidUrl(u)) && u@ == url@,
        },
{
    let s = chars_of(url);
    let n = s.len();
    let sep: Vec<char> = vec![':', '/', '/'];
    assert(sep@ =~= scheme_sep());
    proof {
        lemma_find_from(s@, scheme_sep(), 0);
    }
    let p = match find_chars_at(&s, 0, &sep) {
        Some(p) => p,
        None => return Err(FetchError::InvalidUrl(url.to_owned())),
    };
    let https: Vec<char> = vec!['h', 't', 't', 'p', 's'];
    let http: Vec<char> = vec!['h', 't', 't', 'p'];
    assert(https@ =~= https_scheme());
    assert(http@ =~= http_scheme());
    let scheme = sub_chars(&s, 0, p);
    assert(scheme@ =~= s@.take(p as int));
    let is_https = chars_eq(&scheme, &https);
    let is_http = chars_eq(&scheme, &http);
    if !is_https && !is_http {
        return Err(FetchError::InvalidUrl(url.to_owned()));
    }
    let default_port: u16 = if is_https {
        443
    } else {
        80
    };
    let base = p + 3;
    let rest = sub_chars(&s, base, n);
    assert(rest@ =~= s@.skip(p + 3));
    let (auth_len, has_path) = split_path(&rest);
    let path = if has_path {
        let t = url.substring_char(base + auth_len, n).to_owned();
        assert(t@ =~= rest@.skip(auth_len as int));
        t
    } else {
        let t = "/".to_owned();
        proof {
            reveal_strlit("/");
        }
        assert(t@ =~= seq!['/']);
        t
    };
    let authority = sub_chars(&rest, 0, auth_len);
    proof {
        lemma_find_from(rest@, seq!['/'], 0);
        match find_from(rest@, seq!['/'], 0) {
            Some(i) => {
                assert(authority@ =~= rest@.take(i));
            },
            None => {
                assert(authority@ =~= rest@);
            },
        }
    }
    let (host_len, port) = match split_port(&authority, default_port) {
        Some(hp) => hp,
        None => return Err(FetchError::InvalidUrl(url.to_owned())),
    };
    proof {
        lemma_last_index_of(authority@, ':');
    }
    if host_len == 0 {
        return Err(FetchError::InvalidUrl(url.to_owned()));
    }
    let host = url.substring_char(base, base + host_len).to_owned();
    proof {
        match last_index_of(authority@, ':') {
            Some(c) => {
                assert(host@ =~= authority@.take(c));
            },
            None => {
                assert(host@ =~= authority@);
            },
        }
    }
    Ok((host, port, path))
}

// ---------------------------------------------------------------------------
// Finding line ends in raw bytes.
// ---------------------------------------------------------------------------

pub open spec fn crlf() -> Seq<u8> {
    seq![13u8, 10u8]
}

pub open spec fn blank_line() -> Seq<u8> {
    seq![13u8, 10u8, 13u8, 10u8]
}

/// Where the blank line that ends a response head starts.
pub fn find_header_end(buffer: &[u8]) -> (r: Option<usize>)
    ensures
        r == match find_from(buffer@, blank_line(), 0) {
            Some(p) => Some(p as usize),
            None => None::<usize>,
        },
{
    let needle: [u8; 4] = [13, 10, 13, 10];
    assert(needle@ =~= blank_line());
    find_bytes_at(buffer, 0, &needle)
}

/// Where the first line end at or after `from` is; nothing when `from` is past the end.
pub fn find_crlf(buffer: &[u8], from: usize) -> (r: Option<usize>)
    ensures
        r == if from > buffer@.len() {
            None::<usize>
        } else {
            match find_from(buffer@, crlf(), from as int) {
                Some(p) => Some(p as usize),
                None => None::<usize>,
            }
        },
{
    if from > buffer.len() {
        return None;
    }
    let needle: [u8; 2] = [13, 10];
    assert(needle@ =~= crlf());
    find_bytes_at(buffer, from, &needle)
}

// ---------------------------------------------------------------------------
// The response head.
// ---------------------------------------------------------------------------

/// What `String::from_utf8_lossy` makes of `bytes`.
pub uninterp spec fn utf8_lossy(bytes: Seq<u8>) -> Seq<char>;

/// The text `bytes` are read as: what they encode when they are UTF-8, else what
/// `String::from_utf8_lossy` makes of them.
pub open spec fn text_of(bytes: Seq<u8>) -> Seq<char> {
    if vstd::utf8::valid_utf8(bytes) {
        vstd::utf8::decode_utf8(bytes)
    } else {
        utf8_lossy(bytes)
    }
}

/// `String::from_utf8_lossy`: the text `bytes` hold, with each ill-formed sequence replaced
/// by U+FFFD. Its result is named, not stated; of it the contract says only what the
/// documentation gives: well-formed UTF-8 comes back as the text it encodes.
#[verifier::external_body]
fn lossy_text(bytes: &[u8]) -> (r: String)
    ensures
        r@ == utf8_lossy(bytes@),
        vstd::utf8::valid_utf8(bytes@) ==> r@ == vstd::utf8::decode_utf8(bytes@),
{
    String::from_utf8_lossy(bytes).into_owned()
}

pub open spec fn crlf_chars() -> Seq<char> {
    seq!['\r', '\n']
}

/// The first line of `t`.
pub open spec fn status_line(t: Seq<char>) -> Seq<char> {
    match find_from(t, crlf_chars(), 0) {
        Some(p) => t.take(p),
        None => t,
    }
}

/// The status code: the second whitespace-separated word of the status line, read as a
/// `u16`.
pub open spec fn status_code(line: Seq<char>) -> Option<u16> {
    let a = skip_ws(line, 0);
    let b = skip_word(line, a);
    let c = skip_ws(line, b);
    let d = skip_word(line, c);
    if c >= line.len() {
        None
    } else {
        match parse_unsigned(line.subrange(c, d), 10, 0xffff) {
            Some(v) => Some(v as u16),
            None => None,
        }
    }
}

/// A header line split at its first colon, both sides trimmed.
pub open spec fn header_pair(line: Seq<char>) -> Option<(Seq<char>, Seq<char>)> {
    match find_from(line, seq![':'], 0) {
        Some(c) => Some((trim(line.take(c)), trim(line.skip(c + 1)))),
        None => None,
    }
}

/// The headers of the lines that start at or after `i`.
pub open spec fn headers_from(t: Seq<char>, i: int) -> Seq<(Seq<char>, Seq<char>)>
    decreases t.len() - i,
{
    if i < 0 || i > t.len() {
        Seq::empty()
    } else {
        match find_from(t, crlf_chars(), i) {
            Some(p) => {
                let rest = if i < p + 2 <= t.len() {
                    headers_from(t, p + 2)
                } else {
                    Seq::empty()
                };
                match header_pair(t.subrange(i, p)) {
                    Some(h) => seq![h] + rest,
                    None => rest,
                }
            },
            None => match header_pair(t.skip(i)) {
                Some(h) => seq![h],
                None => Seq::empty(),
            },
        }
    }
}

/// The headers a response head lists, in order: every line after the first that holds
/// a colon.
pub open spec fn head_headers(t: Seq<char>) -> Seq<(Seq<char>, Seq<char>)> {
    match find_from(t, crlf_chars(), 0) {
        Some(p) => headers_from(t, p + 2),
        None => Seq::empty(),
    }
}

/// The value of the first header named `name`, names compared up to ASCII case.
pub open spec fn header_value(hs: Seq<(Seq<char>, Seq<char>)>, name: Seq<char>) -> Option<
    Seq<char>,
>
    decreases hs.len(),
{
    if hs.len() == 0 {
        None
    } else if eq_ignore_ascii_case(hs[0].0, name) {
        Some(hs[0].1)
    } else {
        header_value(hs.drop_first(), name)
    }
}

pub open spec fn chunked_word() -> Seq<char> {
    seq!['c', 'h', 'u', 'n', 'k', 'e', 'd']
}

/// Whether one of the comma-separated tokens of `v` from `i` on is `chunked`.
pub open spec fn has_chunked_from(v: Seq<char>, i: int) -> bool
    decreases v.len() - i,
{
    if i < 0 || i > v.len() {
        false
    } else {
        match find_from(v, seq![','], i) {
            Some(p) => eq_ignore_ascii_case(trim(v.subrange(i, p)), chunked_word()) || (i < p + 1
                <= v.len() && has_chunked_from(v, p + 1)),
            None => eq_ignore_ascii_case(trim(v.skip(i)), chunked_word()),
        }
    }
}

/// Reading tokens from any token start within `pre` reaches the token after it.
proof fn lemma_has_chunked_at(v: Seq<char>, pre: Seq<char>, tok: Seq<char>, post: Seq<char>, i: int)
    requires
        v == pre + tok + post,
        pre.len() == 0 || pre.last() == ',',
        post.len() == 0 || post[0] == ',',
        forall|k: int| 0 <= k < tok.len() ==> tok[k] != ',',
        eq_ignore_ascii_case(trim(tok), chunked_word()),
        0 <= i <= pre.len(),
    ensures
        has_chunked_from(v, i),
    decreases pre.len() - i,
{
    let comma = seq![','];
    let e = (pre.len() + tok.len()) as int;
    lemma_find_from(v, comma, i);
    if i < pre.len() {
        let c = pre.len() - 1;
        assert(v.subrange(c, c + 1) =~= comma);
        match find_from(v, comma, i) {
            Some(p) => {
                if p > c {
                    assert(v.subrange(c, c + 1) != comma);
                }
                lemma_has_chunked_at(v, pre, tok, post, p + 1);
            },
            None => {
                assert(v.subrange(c, c + 1) != comma);
            },
        }
    } else {
        match find_from(v, comma, i) {
            Some(p) => {
                if p < e {
                    assert(v.subrange(p, p + 1)[0] == tok[p - pre.len()]);
                }
                if post.len() > 0 && p > e {
                    assert(v.subrange(e, e + 1) =~= comma);
                }
                if post.len() == 0 {
                    assert(p + 1 <= v.len());
                    assert(v.subrange(p, p + 1)[0] == tok[p - pre.len()]);
                }
                assert(v.subrange(i, p) =~= tok);
            },
            None => {
                if post.len() > 0 {
                    assert(v.subrange(e, e + 1) =~= comma);
                }
                assert(v.skip(i) =~= tok);
            },
        }
    }
}

/// A `Transfer-Encoding` value that lists `chunked` among its comma-separated codings
/// (any ASCII case, blanks around it allowed) says the body is chunked.
pub proof fn lemma_chunked_when_listed(v: Seq<char>, pre: Seq<char>, tok: Seq<char>, post: Seq<char>)
    requires
        v == pre + tok + post,
        pre.len() == 0 || pre.last() == ',',
        post.len() == 0 || post[0] == ',',
        forall|k: int| 0 <= k < tok.len() ==> tok[k] != ',',
        eq_ignore_ascii_case(trim(tok), chunked_word()),
    ensures
        has_chunked_from(v, 0),
{
    lemma_has_chunked_at(v, pre, tok, post, 0);
}

/// A response head whose first `Transfer-Encoding` header lists `chunked` among its
/// comma-separated codings (any ASCII case, blanks around it allowed) is read as chunked.
pub proof fn lemma_head_chunked_when_listed(
    t: Seq<char>,
    pre: Seq<char>,
    tok: Seq<char>,
    post: Seq<char>,
)
    requires
        spec_parse_head(t) is Ok,
        header_value(head_headers(t), transfer_encoding_name()) == Some(pre + tok + post),
        pre.len() == 0 || pre.last() == ',',
        post.len() == 0 || post[0] == ',',
        forall|k: int| 0 <= k < tok.len() ==> tok[k] != ',',
        eq_ignore_ascii_case(trim(tok), chunked_word()),
    ensures
        spec_parse_head(t) matches Ok(h) && h.chunked,
{
    lemma_chunked_when_listed(pre + tok + post, pre, tok, post);
}

/// In particular a head whose first `Transfer-Encoding` header is `chunked`, in any ASCII
/// case, is read as chunked.
pub proof fn lemma_head_chunked_alone(t: Seq<char>, v: Seq<char>)
    requires
        spec_parse_head(t) is Ok,
        header_value(head_headers(t), transfer_encoding_name()) == Some(v),
        eq_ignore_ascii_case(v, chunked_word()),
    ensures
        spec_parse_head(t) matches Ok(h) && h.chunked,
{
    assert(to_ascii_lower(v[0]) == to_ascii_lower(chunked_word()[0]));
    assert(to_ascii_lower(v[6]) == to_ascii_lower(chunked_word()[6]));
    assert(skip_ws(v, 0) == 0);
    assert(trailing_ws_start(v, 0, 7) == 7);
    assert(trim(v) =~= v);
    assert forall|k: int| 0 <= k < v.len() implies v[k] != ',' by {
        assert(to_ascii_lower(v[k]) == to_ascii_lower(chunked_word()[k]));
    }
    let e = Seq::<char>::empty();
    assert(v =~= e + v + e);
    lemma_head_chunked_when_listed(t, e, v, e);
}

pub open spec fn transfer_encoding_name() -> Seq<char> {
    seq!['t', 'r', 'a', 'n', 's', 'f', 'e', 'r', '-', 'e', 'n', 'c', 'o', 'd', 'i', 'n', 'g']
}

pub open spec fn content_length_name() -> Seq<char> {
    seq!['c', 'o', 'n', 't', 'e', 'n', 't', '-', 'l', 'e', 'n', 'g', 't', 'h']
}

pub open spec fn connection_name() -> Seq<char> {
    seq!['c', 'o', 'n', 'n', 'e', 'c', 't', 'i', 'o', 'n']
}

pub open spec fn close_word() -> Seq<char> {
    seq!['c', 'l', 'o', 's', 'e']
}

/// What a response head says.
pub struct ResponseHead {
    pub status: u16,
    pub headers: Vec<(String, String)>,
    /// The body comes in chunks.
    pub chunked: bool,
    /// The body's declared length, when it declares a readable one.
    pub content_length: Option<u64>,
    /// The server did not ask to close the connection.
    pub keep_alive: bool,
}

pub struct SpecHead {
    pub status: u16,
    pub headers: Seq<(Seq<char>, Seq<char>)>,
    pub chunked: bool,
    pub content_length: Option<u64>,
    pub keep_alive: bool,
}

pub open spec fn pairs_view(v: Seq<(String, String)>) -> Seq<(Seq<char>, Seq<char>)> {
    v.map_values(|p: (String, String)| (p.0@, p.1@))
}

impl View for ResponseHead {
    type V = SpecHead;

    open spec fn view(&self) -> SpecHead {
        SpecHead {
            status: self.status,
            headers: pairs_view(self.headers@),
            chunked: self.chunked,
            content_length: self.content_length,
            keep_alive: self.keep_alive,
        }
    }
}

pub open spec fn bad_status_prefix() -> Seq<char> {
    seq!['b', 'a', 'd', ' ', 's', 't', 'a', 't', 'u', 's', ':', ' ']
}

/// What a response head says, or, when its status line carries no readable status code,
/// the message that says so.
pub open spec fn spec_parse_head(t: Seq<char>) -> Result<SpecHead, Seq<char>> {
    let hs = head_headers(t);
    match status_code(status_line(t)) {
        None => Err(bad_status_prefix() + status_line(t)),
        Some(status) => Ok(
            SpecHead {
                status,
                headers: hs,
                chunked: match header_value(hs, transfer_encoding_name()) {
                    Some(v) => has_chunked_from(v, 0),
                    None => false,
                },
                content_length: match header_value(hs, content_length_name()) {
                    Some(v) => match parse_unsigned(v, 10, u64::MAX as nat) {
                        Some(n) => Some(n as u64),
                        None => None,
                    },
                    None => None,
                },
                keep_alive: !(match header_value(hs, connection_name()) {
                    Some(v) => eq_ignore_ascii_case(v, close_word()),
                    None => false,
                }),
            },
        ),
    }
}

fn skip_ws_exec(v: &Vec<char>, i: usize) -> (r: usize)
    requires
        i <= v@.len(),
    ensures
        r == skip_ws(v@, i as int),
{
    let mut j = i;
    while j < v.len() && is_whitespace_exec(v[j])
        invariant
            i <= j <= v@.len(),
            skip_ws(v@, i as int) == skip_ws(v@, j as int),
        decreases v@.len() - j,
    {
        j = j + 1;
    }
    j
}

fn skip_word_exec(v: &Vec<char>, i: usize) -> (r: usize)
    requires
        i <= v@.len(),
    ensures
        r == skip_word(v@, i as int),
{
    let mut j = i;
    while j < v.len() && !is_whitespace_exec(v[j])
        invariant
            i <= j <= v@.len(),
            skip_word(v@, i as int) == skip_word(v@, j as int),
        decreases v@.len() - j,
    {
        j = j + 1;
    }
    j
}

/// The status code a status line carries.
pub fn status_code_exec(line: &Vec<char>) -> (r: Option<u16>)
    ensures
        r == status_code(line@),
{
    let a = skip_ws_exec(line, 0);
    proof {
        lemma_skip_ws(line@, 0);
    }
    let b = skip_word_exec(line, a);
    proof {
        lemma_skip_word(line@, a as int);
    }
    let c = skip_ws_exec(line, b);
    proof {
        lemma_skip_ws(line@, b as int);
    }
    let d = skip_word_exec(line, c);
    proof {
        lemma_skip_word(line@, c as int);
    }
    if c >= line.len() {
        return None;
    }
    match parse_unsigned_exec(line, c, d, 10, 0xffff) {
        Some(v) => Some(v as u16),
        None => None,
    }
}

/// Where the name and the value of a header line lie, when it has a colon.
fn header_pair_spans(line: &Vec<char>) -> (r: Option<(usize, usize, usize, usize)>)
    ensures
        match header_pair(line@) {
            Some((name, value)) => r matches Some((a, b, c, d)) && a <= b <= c <= d <= line@.len()
                && line@.subrange(a as int, b as int) == name && line@.subrange(c as int, d as int)
                == value,
            None => r is None,
        },
{
    let colon: Vec<char> = vec![':'];
    assert(colon@ =~= seq![':']);
    let line_len = line.len();
    match find_chars_at(line, 0, &colon) {
        None => None,
        Some(c) => {
            proof {
                lemma_find_from(line@, seq![':'], 0);
            }
            assert(line@.subrange(0, c as int) =~= line@.take(c as int));
            assert(line@.subrange(c + 1, line@.len() as int) =~= line@.skip(c + 1));
            let (a, b) = trim_span(line, 0, c);
            let (x, y) = trim_span(line, c + 1, line.len());
            Some((a, b, x, y))
        },
    }
}

/// The headers of the lines of `text` (whose characters `s` holds) that start at or after
/// `start`.
fn headers_exec(text: &str, s: &Vec<char>, start: usize) -> (r: Vec<(String, String)>)
    requires
        s@ == text@,
        start <= s@.len(),
    ensures
        pairs_view(r@) == headers_from(s@, start as int),
{
    let crlf: Vec<char> = vec!['\r', '\n'];
    assert(crlf@ =~= crlf_chars());
    let slen = s.len();
    let mut out: Vec<(String, String)> = Vec::new();
    let mut i = start;
    let mut done = false;
    while !done
        invariant
            s@ == text@,
            crlf@ == crlf_chars(),
            i <= s@.len(),
            s@.len() <= usize::MAX,
            done ==> pairs_view(out@) == headers_from(s@, start as int),
            !done ==> pairs_view(out@) + headers_from(s@, i as int) == headers_from(
                s@,
                start as int,
            ),
        decreases (if done {
            0
        } else {
            s@.len() + 1 - i
        }),
    {
        let ghost before = pairs_view(out@);
        proof {
            lemma_find_from(s@, crlf_chars(), i as int);
        }
        let found = find_chars_at(s, i, &crlf);
        let line_end = match found {
            Some(p) => p,
            None => s.len(),
        };
        let line = sub_chars(s, i, line_end);
        assert(found is None ==> line@ =~= s@.skip(i as int));
        match header_pair_spans(&line) {
            Some((a, b, c, d)) => {
                let name = text.substring_char(i + a, i + b).to_owned();
                let value = text.substring_char(i + c, i + d).to_owned();
                assert(name@ =~= line@.subrange(a as int, b as int));
                assert(value@ =~= line@.subrange(c as int, d as int));
                out.push((name, value));
            },
            None => {},
        }
        assert(pairs_view(out@) =~= before + match header_pair(line@) {
            Some(h) => seq![h],
            None => Seq::empty(),
        });
        match found {
            Some(p) => {
                assert(before + (match header_pair(line@) {
                    Some(h) => seq![h],
                    None => Seq::<(Seq<char>, Seq<char>)>::empty(),
                } + headers_from(s@, p + 2)) =~= pairs_view(out@) + headers_from(s@, p + 2));
                i = p + 2;
            },
            None => {
                assert(pairs_view(out@) =~= before + headers_from(s@, i as int));
                done = true;
            },
        }
    }
    out
}

/// Which of `headers` is the first named `name`, names compared up to ASCII case.
fn find_header(headers: &Vec<(String, String)>, name: &Vec<char>) -> (r: Option<usize>)
    ensures
        match header_value(pairs_view(headers@), name@) {
            Some(v) => r matches Some(i) && i < headers@.len() && headers@[i as int].1@ == v,
            None => r is None,
        },
{
    let mut i: usize = 0;
    assert(pairs_view(headers@).skip(0) =~= pairs_view(headers@));
    while i < headers.len()
        invariant
            i <= headers@.len(),
            header_value(pairs_view(headers@), name@) == header_value(
                pairs_view(headers@).skip(i as int),
                name@,
            ),
        decreases headers@.len() - i,
    {
        let key = chars_of(headers[i].0.as_str());
        let n = key.len();
        assert(key@.subrange(0, n as int) =~= key@);
        let ghost rest = pairs_view(headers@).skip(i as int);
        assert(rest[0] == (headers@[i as int].0@, headers@[i as int].1@));
        if span_eq_ignore_case(&key, 0, n, name) {
            return Some(i);
        }
        assert(rest.drop_first() =~= pairs_view(headers@).skip(i + 1));
        i = i + 1;
    }
    None
}

/// Whether one of the comma-separated tokens of `v` is `chunked`.
fn has_chunked_exec(v: &Vec<char>) -> (r: bool)
    ensures
        r == has_chunked_from(v@, 0),
{
    let comma: Vec<char> = vec![','];
    assert(comma@ =~= seq![',']);
    let word: Vec<char> = vec!['c', 'h', 'u', 'n', 'k', 'e', 'd'];
    assert(word@ =~= chunked_word());
    let mut i: usize = 0;
    while i <= v.len()
        invariant
            i <= v@.len() + 1,
            comma@ == seq![','],
            word@ == chunked_word(),
            has_chunked_from(v@, 0) == has_chunked_from(v@, i as int),
        decreases v@.len() + 1 - i,
    {
        proof {
            lemma_find_from(v@, seq![','], i as int);
        }
        let found = find_chars_at(v, i, &comma);
        let end = match found {
            Some(p) => p,
            None => v.len(),
        };
        assert(found is None ==> v@.subrange(i as int, end as int) =~= v@.skip(i as int));
        let (a, b) = trim_span(v, i, end);
        if span_eq_ignore_case(v, a, b, &word) {
            return true;
        }
        match found {
            Some(p) => {
                i = p + 1;
            },
            None => {
                return false;
            },
        }
    }
    false
}

/// Reads a response head: the status code, the headers, and what they say of the body.
/// The bytes are taken as text the way `String::from_utf8_lossy` takes them.
pub fn parse_head(head: &[u8]) -> (r: Result<ResponseHead, FetchError>)
    ensures
        match spec_parse_head(text_of(head@)) {
            Ok(h) => r matches Ok(x) && x@ == h,
            Err(m) => r matches Err(FetchError::MalformedResponse(e)) && e@ == m,
        },
{
    let text = lossy_text(head);
    assert(text@ == text_of(head@));
    parse_head_text(text.as_str())
}

/// Reads a response head, given as text: the status code, the headers, and what they say
/// of the body.
pub fn parse_head_text(text: &str) -> (r: Result<ResponseHead, FetchError>)
    ensures
        match spec_parse_head(text@) {
            Ok(h) => r matches Ok(x) && x@ == h,
            Err(m) => r matches Err(FetchError::MalformedResponse(e)) && e@ == m,
        },
{
    let s = chars_of(text);
    let n = s.len();
    let crlf: Vec<char> = vec!['\r', '\n'];
    assert(crlf@ =~= crlf_chars());
    proof {
        lemma_find_from(s@, crlf_chars(), 0);
    }
    let first = find_chars_at(&s, 0, &crlf);
    let line_end = match first {
        Some(p) => p,
        None => n,
    };
    let line = sub_chars(&s, 0, line_end);
    assert(line@ =~= status_line(s@));
    let status = match status_code_exec(&line) {
        Some(code) => code,
        None => {
            let mut message = "bad status: ".to_owned();
            proof {
                reveal_strlit("bad status: ");
            }
            assert(message@ =~= bad_status_prefix());
            let status_text = text.substring_char(0, line_end);
            message.append(status_text);
            return Err(FetchError::MalformedResponse(message));
        },
    };
    let headers = match first {
        Some(p) => headers_exec(text, &s, p + 2),
        None => Vec::new(),
    };
    assert(pairs_view(headers@) =~= head_headers(s@));
    let te: Vec<char> = vec![
        't', 'r', 'a', 'n', 's', 'f', 'e', 'r', '-', 'e', 'n', 'c', 'o', 'd', 'i', 'n', 'g',
    ];
    assert(te@ =~= transfer_encoding_name());
    let cl: Vec<char> = vec!['c', 'o', 'n', 't', 'e', 'n', 't', '-', 'l', 'e', 'n', 'g', 't', 'h'];
    assert(cl@ =~= content_length_name());
    let conn: Vec<char> = vec!['c', 'o', 'n', 'n', 'e', 'c', 't', 'i', 'o', 'n'];
    assert(conn@ =~= connection_name());
    let close: Vec<char> = vec!['c', 'l', 'o', 's', 'e'];
    assert(close@ =~= close_word());
    let chunked = match find_header(&headers, &te) {
        Some(i) => {
            let v = chars_of(headers[i].1.as_str());
            has_chunked_exec(&v)
        },
        None => false,
    };
    let content_length = match find_header(&headers, &cl) {
        Some(i) => {
            let v = chars_of(headers[i].1.as_str());
            assert(v@.subrange(0, v@.len() as int) =~= v@);
            parse_unsigned_exec(&v, 0, v.len(), 10, u64::MAX)
        },
        None => None,
    };
    let closes = match find_header(&headers, &conn) {
        Some(i) => {
            let v = chars_of(headers[i].1.as_str());
            let m = v.len();
            assert(v@.subrange(0, m as int) =~= v@);
            span_eq_ignore_case(&v, 0, m, &close)
        },
        None => false,
    };
    Ok(ResponseHead { status, headers, chunked, content_length, keep_alive: !closes })
}

// ---------------------------------------------------------------------------
// The body.
// ---------------------------------------------------------------------------

/// How a response's body is to be read.
#[derive(Debug, Clone, Copy, PartialEq, Eq)]
pub enum BodyPlan {
    /// In chunks; the connection may serve another request afterwards when `reusable`.
    Chunked { reusable: bool },
    /// Exactly `length` bytes.
    Sized { length: u64, reusable: bool },
    /// Up to the end of the stream; the connection is spent.
    ToEnd,
}

/// How the body that `head` announces is read, refusing one that declares more than `limit`
/// bytes.
pub fn body_plan(head: &ResponseHead, limit: u64) -> (r: Result<BodyPlan, FetchError>)
    ensures
        match head.content_length {
            Some(length) if length > limit => r == Err::<BodyPlan, FetchError>(
                FetchError::BodyTooLarge { limit },
            ),
            _ => r == Ok::<BodyPlan, FetchError>(
                if head.chunked {
                    BodyPlan::Chunked { reusable: head.keep_alive }
                } else {
                    match head.content_length {
                        Some(length) => BodyPlan::Sized { length, reusable: head.keep_alive },
                        None => BodyPlan::ToEnd,
                    }
                },
            ),
        },
{
    if let Some(length) = head.content_length {
        if length > limit {
            return Err(FetchError::BodyTooLarge { limit });
        }
    }
    if head.chunked {
        Ok(BodyPlan::Chunked { reusable: head.keep_alive })
    } else {
        match head.content_length {
            Some(length) => Ok(BodyPlan::Sized { length, reusable: head.keep_alive }),
            None => Ok(BodyPlan::ToEnd),
        }
    }
}

/// Whether a body of `len` bytes is over `limit`.
pub fn over_limit(len: usize, limit: u64) -> (r: bool)
    ensures
        r == (len > limit),
{
    len as u64 > limit
}

/// The most bytes a response head may take before its end is seen.
pub const MAX_HEADER_BLOCK: usize = 65536;

/// Whether `len` bytes read without the head's end are more than a head may take.
pub fn header_block_too_large(len: usize) -> (r: bool)
    ensures
        r == (len > MAX_HEADER_BLOCK),
{
    len > MAX_HEADER_BLOCK
}

/// Splits what was read of a body of `length` bytes: the body's bytes, and, when more
/// was read, the bytes past it, which belong to the next response on the connection.
pub fn split_sized(body: Vec<u8>, length: usize) -> (r: (Vec<u8>, Option<Vec<u8>>))
    ensures
        body@.len() > length ==> r.0@ == body@.take(length as int),
        body@.len() > length ==> (r.1 matches Some(rest) && rest@ == body@.skip(length as int)),
        body@.len() <= length ==> r.0@ == body@ && r.1 is None,
{
    let mut body = body;
    if body.len() > length {
        let rest = body.split_off(length);
        (body, Some(rest))
    } else {
        (body, None)
    }
}

/// How many bytes to ask for next while reading a body of `length` bytes of which `have`
/// are in hand, with room for `room`: never past the body's end.
pub fn sized_read_len(have: usize, length: usize, room: usize) -> (r: usize)
    requires
        have < length,
    ensures
        r == if length - have < room { (length - have) as usize } else { room },
{
    let left = length - have;
    if left < room {
        left
    } else {
        room
    }
}

/// What the next step of reading a chunked body is.
#[derive(Debug, Clone, PartialEq, Eq)]
pub enum ChunkStep {
    /// The buffer does not yet hold what the step needs: read more and look again.
    NeedMore,
    /// `raw[start..end]` is a chunk's data; the next size line starts at `next`.
    Data { start: usize, end: usize, next: usize },
    /// The last chunk: what follows from `leftover` on belongs to the next response.
    Done { leftover: usize },
    /// The size line cannot be read.
    Failed(FetchError),
}

pub open spec fn bad_chunk_prefix() -> Seq<char> {
    seq!['b', 'a', 'd', ' ', 'c', 'h', 'u', 'n', 'k', ' ', 's', 'i', 'z', 'e', ':', ' ']
}

pub open spec fn overflow_message() -> Seq<char> {
    seq!['c', 'h', 'u', 'n', 'k', ' ', 's', 'i', 'z', 'e', ' ', 'o', 'v', 'e', 'r', 'f', 'l', 'o', 'w']
}

/// The size a chunk-size line gives: the text before any `;`, trimmed, read as hex.
pub open spec fn size_token(line: Seq<char>) -> Seq<char> {
    trim(
        match find_from(line, seq![';'], 0) {
            Some(p) => line.take(p),
            None => line,
        },
    )
}

/// Where the bytes after the last chunk's size line start, past one blank line if there is
/// one.
pub open spec fn after_last_chunk(raw: Seq<u8>, data_start: int) -> int {
    if raw.skip(data_start).take(2) == crlf() && data_start + 2 <= raw.len() {
        data_start + 2
    } else {
        data_start
    }
}

/// The step a chunked body is at, `cursor` being where the next size line starts.
pub open spec fn spec_chunk_step(raw: Seq<u8>, cursor: int) -> Result<(int, int, int), Result<
    int,
    Seq<char>,
>> {
    // Ok((0, 0, 0)) with a negative start means: read more.
    match find_from(raw, crlf(), cursor) {
        None => Ok((-1, 0, 0)),
        Some(line_end) => {
            let token = size_token(text_of(raw.subrange(cursor, line_end)));
            match parse_unsigned(token, 16, usize::MAX as nat) {
                None => Err(Err(bad_chunk_prefix() + token)),
                Some(size) => {
                    let data_start = line_end + 2;
                    if size == 0 {
                        Err(Ok(after_last_chunk(raw, data_start)))
                    } else if data_start + size > usize::MAX {
                        Err(Err(overflow_message()))
                    } else if raw.len() < data_start + size + 2 {
                        Ok((-1, 0, 0))
                    } else {
                        Ok((data_start, data_start + size, data_start + size + 2))
                    }
                },
            }
        },
    }
}

/// The next step of reading a chunked body out of `raw`, whose next size line starts at
/// `cursor`.
pub fn chunk_step(raw: &[u8], cursor: usize) -> (r: ChunkStep)
    requires
        cursor <= raw@.len(),
    ensures
        match spec_chunk_step(raw@, cursor as int) {
            Ok((a, b, c)) => if a < 0 {
                r == ChunkStep::NeedMore
            } else {
                r == ChunkStep::Data { start: a as usize, end: b as usize, next: c as usize }
            },
            Err(Ok(leftover)) => r == ChunkStep::Done { leftover: leftover as usize },
            Err(Err(m)) => r matches ChunkStep::Failed(FetchError::MalformedResponse(e)) && e@
                == m,
        },
{
    let line_end = match find_crlf(raw, cursor) {
        Some(p) => p,
        None => return ChunkStep::NeedMore,
    };
    proof {
        lemma_find_from(raw@, crlf(), cursor as int);
    }
    let rlen = raw.len();
    let mut line_bytes: Vec<u8> = Vec::new();
    let mut i = cursor;
    assert(line_bytes@ =~= raw@.subrange(cursor as int, cursor as int));
    while i < line_end
        invariant
            cursor <= i <= line_end <= raw@.len(),
            line_bytes@ == raw@.subrange(cursor as int, i as int),
        decreases line_end - i,
    {
        line_bytes.push(raw[i]);
        i = i + 1;
        assert(line_bytes@ =~= raw@.subrange(cursor as int, i as int));
    }
    let text = lossy_text(line_bytes.as_slice());
    assert(text@ == text_of(line_bytes@));
    let s = chars_of(text.as_str());
    let semi: Vec<char> = vec![';'];
    assert(semi@ =~= seq![';']);
    proof {
        lemma_find_from(s@, seq![';'], 0);
    }
    let cut = match find_chars_at(&s, 0, &semi) {
        Some(p) => p,
        None => s.len(),
    };
    assert(s@.subrange(0, cut as int) =~= match find_from(s@, seq![';'], 0) {
        Some(p) => s@.take(p),
        None => s@,
    });
    let (a, b) = trim_span(&s, 0, cut);
    let size = match parse_unsigned_exec(&s, a, b, 16, usize::MAX as u64) {
        Some(v) => v as usize,
        None => {
            let mut message = "bad chunk size: ".to_owned();
            proof {
                reveal_strlit("bad chunk size: ");
            }
            assert(message@ =~= bad_chunk_prefix());
            message.append(text.as_str().substring_char(a, b));
            return ChunkStep::Failed(FetchError::MalformedResponse(message));
        },
    };
    let data_start = line_end + 2;
    if size == 0 {
        let ghost rest = raw@.skip(data_start as int).take(2);
        if raw.len() - data_start >= 2 && raw[data_start] == 13 && raw[data_start + 1] == 10 {
            assert(rest =~= crlf());
            return ChunkStep::Done { leftover: data_start + 2 };
        }
        assert(!(rest == crlf() && data_start + 2 <= raw@.len())) by {
            if data_start + 2 <= raw@.len() && rest == crlf() {
                assert(rest[0] == raw@[data_start as int]);
                assert(rest[1] == raw@[data_start + 1]);
            }
        }
        return ChunkStep::Done { leftover: data_start };
    }
    if size > usize::MAX - data_start {
        let message = "chunk size overflow".to_owned();
        proof {
            reveal_strlit("chunk size overflow");
        }
        assert(message@ =~= overflow_message());
        return ChunkStep::Failed(FetchError::MalformedResponse(message));
    }
    let data_end = data_start + size;
    if raw.len() < 2 || raw.len() - 2 < data_end {
        return ChunkStep::NeedMore;
    }
    ChunkStep::Data { start: data_start, end: data_end, next: data_end + 2 }
}

// ---------------------------------------------------------------------------
// The request head.
// ---------------------------------------------------------------------------

/// The decimal digits of `n`, as ASCII.
pub open spec fn decimal_bytes(n: nat) -> Seq<u8>
    decreases n,
{
    if n < 10 {
        seq![(48 + n) as u8]
    } else {
        decimal_bytes(n / 10).push((48 + n % 10) as u8)
    }
}

/// Appends the decimal digits of `n`.
pub fn push_decimal(out: &mut Vec<u8>, n: u64)
    ensures
        final(out)@ == old(out)@ + decimal_bytes(n as nat),
    decreases n,
{
    if n >= 10 {
        push_decimal(out, n / 10);
    }
    let d = (n % 10) as u8;
    out.push(48 + d);
    proof {
        if n >= 10 {
            assert(old(out)@ + decimal_bytes((n / 10) as nat) + seq![(48 + n % 10) as u8]
                =~= old(out)@ + decimal_bytes(n as nat));
        } else {
            assert(old(out)@ + seq![(48 + n % 10) as u8] =~= old(out)@ + decimal_bytes(n as nat));
        }
    }
}

/// The header lines of `headers`: each `name: value` and a line end.
pub open spec fn header_lines(headers: Seq<(Seq<char>, Seq<char>)>) -> Seq<u8>
    decreases headers.len(),
{
    if headers.len() == 0 {
        Seq::empty()
    } else {
        header_lines(headers.drop_last()) + vstd::utf8::encode_utf8(headers.last().0)
            + vstd::utf8::encode_utf8(seq![':', ' ']) + vstd::utf8::encode_utf8(headers.last().1)
            + vstd::utf8::encode_utf8(seq!['\r', '\n'])
    }
}

/// The head of a GET request for `path` on `host`, with the caller's headers, the byte range
/// when one is asked for, and a request to keep the connection open.
pub open spec fn spec_request_head(
    host: Seq<char>,
    path: Seq<char>,
    headers: Seq<(Seq<char>, Seq<char>)>,
    range: Option<(u64, u64)>,
) -> Seq<u8> {
    vstd::utf8::encode_utf8(seq!['G', 'E', 'T', ' ']) + vstd::utf8::encode_utf8(path) + vstd::utf8::encode_utf8(
        seq![' ', 'H', 'T', 'T', 'P', '/', '1', '.', '1', '\r', '\n', 'H', 'o', 's', 't', ':', ' '],
    ) + vstd::utf8::encode_utf8(host) + vstd::utf8::encode_utf8(
        seq![
            '\r', '\n', 'U', 's', 'e', 'r', '-', 'A', 'g', 'e', 'n', 't', ':', ' ', 't', 'a', 'p',
            'l', 'i', 'n', 'e', '\r', '\n', 'A', 'c', 'c', 'e', 'p', 't', ':', ' ', '*', '/', '*',
            '\r', '\n',
        ],
    ) + header_lines(headers) + match range {
        Some((start, end)) => vstd::utf8::encode_utf8(
            seq!['R', 'a', 'n', 'g', 'e', ':', ' ', 'b', 'y', 't', 'e', 's', '='],
        ) + decimal_bytes(start as nat) + seq![45u8] + decimal_bytes(end as nat)
            + vstd::utf8::encode_utf8(seq!['\r', '\n']),
        None => Seq::empty(),
    } + vstd::utf8::encode_utf8(
        seq![
            'C', 'o', 'n', 'n', 'e', 'c', 't', 'i', 'o', 'n', ':', ' ', 'k', 'e', 'e', 'p', '-',
            'a', 'l', 'i', 'v', 'e', '\r', '\n', '\r', '\n',
        ],
    )
}

/// Appends the bytes of `s`.
fn push_str(out: &mut Vec<u8>, s: &str)
    ensures
        final(out)@ == old(out)@ + vstd::utf8::encode_utf8(s@),
{
    crate::wire::fields::push_all(out, s.as_bytes());
}

/// The head of a GET request for `path` on `host`.
pub fn request_head(
    host: &str,
    path: &str,
    headers: &Vec<(String, String)>,
    range: Option<(u64, u64)>,
) -> (r: Vec<u8>)
    ensures
        r@ == spec_request_head(host@, path@, pairs_view(headers@), range),
{
    let get = "GET ";
    let version = " HTTP/1.1\r\nHost: ";
    let fixed = "\r\nUser-Agent: tapline\r\nAccept: */*\r\n";
    let colon = ": ";
    let eol = "\r\n";
    let range_key = "Range: bytes=";
    let last = "Connection: keep-alive\r\n\r\n";
    proof {
        reveal_strlit("GET ");
        reveal_strlit(" HTTP/1.1\r\nHost: ");
        reveal_strlit("\r\nUser-Agent: tapline\r\nAccept: */*\r\n");
        reveal_strlit(": ");
        reveal_strlit("\r\n");
        reveal_strlit("Range: bytes=");
        reveal_strlit("Connection: keep-alive\r\n\r\n");
    }
    assert(get@ =~= seq!['G', 'E', 'T', ' ']);
    assert(version@ =~= seq![
        ' ', 'H', 'T', 'T', 'P', '/', '1', '.', '1', '\r', '\n', 'H', 'o', 's', 't', ':', ' ',
    ]);
    assert(fixed@ =~= seq![
        '\r', '\n', 'U', 's', 'e', 'r', '-', 'A', 'g', 'e', 'n', 't', ':', ' ', 't', 'a', 'p',
        'l', 'i', 'n', 'e', '\r', '\n', 'A', 'c', 'c', 'e', 'p', 't', ':', ' ', '*', '/', '*',
        '\r', '\n',
    ]);
    assert(colon@ =~= seq![':', ' ']);
    assert(eol@ =~= seq!['\r', '\n']);
    assert(range_key@ =~= seq!['R', 'a', 'n', 'g', 'e', ':', ' ', 'b', 'y', 't', 'e', 's', '=']);
    assert(last@ =~= seq![
        'C', 'o', 'n', 'n', 'e', 'c', 't', 'i', 'o', 'n', ':', ' ', 'k', 'e', 'e', 'p', '-',
        'a', 'l', 'i', 'v', 'e', '\r', '\n', '\r', '\n',
    ]);
    let mut out: Vec<u8> = Vec::new();
    push_str(&mut out, get);
    push_str(&mut out, path);
    push_str(&mut out, version);
    push_str(&mut out, host);
    push_str(&mut out, fixed);
    let ghost before_headers = out@;
    let mut i: usize = 0;
    assert(headers@.take(0) =~= Seq::<(String, String)>::empty());
    assert(pairs_view(Seq::<(String, String)>::empty()) =~= Seq::<(Seq<char>, Seq<char>)>::empty());
    assert(out@ =~= before_headers + header_lines(pairs_view(headers@.take(0))));
    while i < headers.len()
        invariant
            i <= headers@.len(),
            colon@ == seq![':', ' '],
            eol@ == seq!['\r', '\n'],
            out@ == before_headers + header_lines(pairs_view(headers@.take(i as int))),
        decreases headers@.len() - i,
    {
        let ghost prev = out@;
        push_str(&mut out, headers[i].0.as_str());
        push_str(&mut out, colon);
        push_str(&mut out, headers[i].1.as_str());
        push_str(&mut out, eol);
        let ghost hv = pairs_view(headers@.take(i + 1));
        assert(hv.drop_last() =~= pairs_view(headers@.take(i as int)));
        assert(hv.last() == (headers@[i as int].0@, headers@[i as int].1@));
        i = i + 1;
        assert(out@ =~= before_headers + header_lines(pairs_view(headers@.take(i as int))));
    }
    assert(headers@.take(i as int) =~= headers@);
    match range {
        Some((start, end)) => {
            push_str(&mut out, range_key);
            push_decimal(&mut out, start);
            out.push(45);
            push_decimal(&mut out, end);
            push_str(&mut out, eol);
        },
        None => {},
    }
    push_str(&mut out, last);
    assert(out@ =~= spec_request_head(host@, path@, pairs_view(headers@), range));
    out
}

// ---------------------------------------------------------------------------
// The connection pool.
// ---------------------------------------------------------------------------

/// Whether a pool that holds `idle` connections in all, `idle_here` of them for this host,
/// takes one more back: only while both the total and the per-host bound leave room.
pub fn pool_takes_back(idle: usize, idle_here: usize, idle_total: usize, idle_per_host: usize) -> (r:
    bool)
    ensures
        r == (idle < idle_total && idle_here < idle_per_host),
{
    idle < idle_total && idle_here < idle_per_host
}

// ---------------------------------------------------------------------------
// What a chunk's size line means.
// ---------------------------------------------------------------------------

/// The lower-case hexadecimal digit for `d < 16`.
pub open spec fn hex_digit_char(d: nat) -> char {
    if d < 10 {
        (48 + d) as char
    } else {
        (87 + d) as char
    }
}

/// `n` in hexadecimal, lower case, most significant digit first, without leading zeros.
pub open spec fn hex_text(n: nat) -> Seq<char>
    decreases n,
{
    if n < 16 {
        seq![hex_digit_char(n)]
    } else {
        hex_text(n / 16).push(hex_digit_char(n % 16))
    }
}

pub open spec fn is_hex_char(c: char) -> bool {
    ('0' <= c <= '9') || ('a' <= c <= 'f')
}

/// The hexadecimal text of `n` is made of hex digits and reads back, in radix 16, as `n`.
proof fn lemma_hex_text(n: nat)
    ensures
        hex_text(n).len() >= 1,
        forall|k: int| 0 <= k < hex_text(n).len() ==> is_hex_char(#[trigger] hex_text(n)[k]),
        all_digits(hex_text(n), 16),
        radix_value(hex_text(n), 16) == n,
    decreases n,
{
    let t = hex_text(n);
    if n < 16 {
        assert(t.drop_last() =~= Seq::<char>::empty());
        assert(radix_value(Seq::<char>::empty(), 16) == 0);
    } else {
        lemma_hex_text(n / 16);
        let p = hex_text(n / 16);
        assert(t.drop_last() =~= p);
        assert(t.last() == hex_digit_char(n % 16));
        assert forall|k: int| 0 <= k < t.len() implies is_hex_char(#[trigger] t[k]) by {
            if k < p.len() {
                assert(t[k] == p[k]);
            }
        }
        assert forall|k: int| 0 <= k < t.len() implies digit_in(#[trigger] t[k], 16) is Some by {
            if k < p.len() {
                assert(t[k] == p[k]);
            }
        }
        assert((n / 16) * 16 + n % 16 == n);
    }
}

/// A size line holding the hexadecimal digits of `n`, then a line end: the line ends
/// right after the digits and its size reads as `n`.
proof fn lemma_size_line(prefix: Seq<u8>, n: nat, tail: Seq<u8>)
    requires
        n <= usize::MAX,
        tail.len() >= 2,
        tail.take(2) == crlf(),
    ensures
        ({
            let c = prefix.len() as int;
            let h = hex_text(n).len() as int;
            let raw = prefix + vstd::utf8::encode_utf8(hex_text(n)) + tail;
            &&& raw.len() == c + h + tail.len()
            &&& find_from(raw, crlf(), c) == Some(c + h)
            &&& size_token(text_of(raw.subrange(c, c + h))) == hex_text(n)
            &&& parse_unsigned(hex_text(n), 16, usize::MAX as nat) == Some(n)
        }),
{
    let t = hex_text(n);
    lemma_hex_text(n);
    assert(vstd::utf8::is_ascii_chars(t)) by {
        assert forall|k: int| 0 <= k < t.len() implies '\0' <= #[trigger] t[k] <= '\u{7f}' by {
            assert(is_hex_char(t[k]));
        }
    }
    vstd::utf8::is_ascii_chars_encode_utf8(t);
    vstd::utf8::encode_utf8_valid_utf8(t);
    vstd::utf8::encode_utf8_decode_utf8(t);
    let b = vstd::utf8::encode_utf8(t);
    let c = prefix.len() as int;
    let h = t.len() as int;
    let raw = prefix + b + tail;
    assert forall|k: int| c <= k < c + h implies raw[k] != 13u8 by {
        assert(raw[k] == b[k - c]);
        assert(b[k - c] == t[k - c] as u8);
        assert(is_hex_char(t[k - c]));
    }
    assert(raw.subrange(c + h, c + h + 2) =~= tail.take(2));
    lemma_find_from(raw, crlf(), c);
    match find_from(raw, crlf(), c) {
        Some(p) => {
            if p < c + h {
                assert(raw.subrange(p, p + 2)[0] == raw[p]);
            }
            if p > c + h {
                assert(raw.subrange(c + h, c + h + 2) == crlf());
            }
        },
        None => {
            assert(raw.subrange(c + h, c + h + 2) == crlf());
        },
    }
    assert(raw.subrange(c, c + h) =~= b);
    assert(text_of(b) == t);
    lemma_find_from(t, seq![';'], 0);
    if let Some(p) = find_from(t, seq![';'], 0) {
        assert(t.subrange(p, p + 1)[0] == t[p]);
        assert(is_hex_char(t[p]));
    }
    assert(is_hex_char(t[0]) && is_hex_char(t[h - 1]));
    assert(skip_ws(t, 0) == 0);
    assert(trailing_ws_start(t, 0, h) == h);
    assert(trim(t) =~= t);
    assert(t[0] != '+');
}

/// A chunk whose size line holds the hexadecimal digits of `n` is `n` bytes long: reading
/// at that line hands back exactly the `n` bytes after it, and goes on past the line end
/// that follows them.
pub proof fn lemma_chunk_size_is_hex(prefix: Seq<u8>, n: nat, data: Seq<u8>, rest: Seq<u8>)
    requires
        n > 0,
        data.len() == n,
        prefix.len() + hex_text(n).len() + n + 4 + rest.len() <= usize::MAX,
    ensures
        ({
            let c = prefix.len() as int;
            let h = hex_text(n).len() as int;
            let raw = prefix + vstd::utf8::encode_utf8(hex_text(n)) + crlf() + data + crlf() + rest;
            spec_chunk_step(raw, c) == Ok::<(int, int, int), Result<int, Seq<char>>>(
                (c + h + 2, c + h + 2 + n, c + h + 4 + n),
            )
        }),
{
    let tail = crlf() + data + crlf() + rest;
    assert(tail.take(2) =~= crlf());
    lemma_size_line(prefix, n, tail);
    let raw = prefix + vstd::utf8::encode_utf8(hex_text(n)) + crlf() + data + crlf() + rest;
    assert(raw =~= prefix + vstd::utf8::encode_utf8(hex_text(n)) + tail);
}

/// The size line `0` ends the body: reading stops, and what follows starts after the blank
/// line that closes the body, or right after the size line when no blank line follows.
pub proof fn lemma_last_chunk(prefix: Seq<u8>, rest: Seq<u8>)
    requires
        prefix.len() + 3 + rest.len() <= usize::MAX,
    ensures
        ({
            let c = prefix.len() as int;
            let raw = prefix + seq![48u8] + crlf() + rest;
            spec_chunk_step(raw, c) == Err::<(int, int, int), Result<int, Seq<char>>>(
                Ok(if rest.len() >= 2 && rest.take(2) == crlf() { c + 5 } else { c + 3 }),
            )
        }),
{
    reveal_with_fuel(hex_text, 1);
    assert(hex_text(0) =~= seq!['0']);
    assert(vstd::utf8::encode_utf8(seq!['0']) =~= seq![48u8]) by {
        reveal_with_fuel(vstd::utf8::encode_utf8, 2);
        vstd::utf8::is_ascii_chars_encode_utf8(seq!['0']);
    }
    let tail = crlf() + rest;
    assert(tail.take(2) =~= crlf());
    lemma_size_line(prefix, 0, tail);
    let c = prefix.len() as int;
    let raw = prefix + seq![48u8] + crlf() + rest;
    assert(raw =~= prefix + vstd::utf8::encode_utf8(hex_text(0)) + tail);
    assert(raw.skip(c + 3) =~= rest);
}

// ---------------------------------------------------------------------------
// What a response head's headers mean.
// ---------------------------------------------------------------------------

/// `n` in decimal, most significant digit first, without leading zeros.
pub open spec fn dec_text(n: nat) -> Seq<char>
    decreases n,
{
    if n < 10 {
        seq![(48 + n) as char]
    } else {
        dec_text(n / 10).push((48 + n % 10) as char)
    }
}

/// The decimal text of `n` is made of digits and reads back, in radix 10, as `n`.
proof fn lemma_dec_text(n: nat)
    ensures
        dec_text(n).len() >= 1,
        forall|k: int| 0 <= k < dec_text(n).len() ==> '0' <= #[trigger] dec_text(n)[k] <= '9',
        all_digits(dec_text(n), 10),
        radix_value(dec_text(n), 10) == n,
    decreases n,
{
    let t = dec_text(n);
    if n < 10 {
        assert(t.drop_last() =~= Seq::<char>::empty());
        assert(radix_value(Seq::<char>::empty(), 10) == 0);
    } else {
        lemma_dec_text(n / 10);
        let p = dec_text(n / 10);
        assert(t.drop_last() =~= p);
        assert forall|k: int| 0 <= k < t.len() implies '0' <= #[trigger] t[k] <= '9' by {
            if k < p.len() {
                assert(t[k] == p[k]);
            }
        }
        assert forall|k: int| 0 <= k < t.len() implies digit_in(#[trigger] t[k], 10) is Some by {
            if k < p.len() {
                assert(t[k] == p[k]);
            }
        }
        assert((n / 10) * 10 + n % 10 == n);
    }
}

/// A head whose first `Content-Length` header is the decimal digits of `n` declares a body
/// of `n` bytes.
pub proof fn lemma_head_content_length(t: Seq<char>, n: nat)
    requires
        spec_parse_head(t) is Ok,
        header_value(head_headers(t), content_length_name()) == Some(dec_text(n)),
        n <= u64::MAX,
    ensures
        spec_parse_head(t) matches Ok(h) && h.content_length == Some(n as u64),
{
    lemma_dec_text(n);
    assert(dec_text(n)[0] != '+');
}

/// A head without a `Content-Length` header declares no length.
pub proof fn lemma_head_no_content_length(t: Seq<char>)
    requires
        spec_parse_head(t) is Ok,
        header_value(head_headers(t), content_length_name()) is None,
    ensures
        spec_parse_head(t) matches Ok(h) && h.content_length is None,
{
}

/// The connection stays open for another request unless the first `Connection` header
/// says `close`, in any ASCII case.
pub proof fn lemma_head_keep_alive(t: Seq<char>)
    requires
        spec_parse_head(t) is Ok,
    ensures
        header_value(head_headers(t), connection_name()) is None ==> (spec_parse_head(
            t,
        ) matches Ok(h) && h.keep_alive),
        (header_value(head_headers(t), connection_name()) matches Some(v)
            && eq_ignore_ascii_case(v, seq!['c', 'l', 'o', 's', 'e'])) ==> (spec_parse_head(
            t,
        ) matches Ok(h) && !h.keep_alive),
        (header_value(head_headers(t), connection_name()) matches Some(v)
            && eq_ignore_ascii_case(v, seq!['k', 'e', 'e', 'p', '-', 'a', 'l', 'i', 'v', 'e']))
            ==> (spec_parse_head(t) matches Ok(h) && h.keep_alive),
{
    assert(close_word() =~= seq!['c', 'l', 'o', 's', 'e']);
}

/// A word of non-blank characters from `i` to `j` ends at `j` when `j` is blank or the end.
proof fn lemma_word_ends(s: Seq<char>, i: int, j: int)
    requires
        0 <= i <= j <= s.len(),
        forall|k: int| i <= k < j ==> !is_whitespace(#[trigger] s[k]),
        j == s.len() || is_whitespace(s[j]),
    ensures
        skip_word(s, i) == j,
    decreases j - i,
{
    if i < j {
        lemma_word_ends(s, i + 1, j);
    }
}

pub open spec fn http11_space() -> Seq<char> {
    seq!['H', 'T', 'T', 'P', '/', '1', '.', '1', ' ']
}

/// A head whose status line is `HTTP/1.1`, a blank, the decimal digits of `n` (at most
/// 65535), then nothing or a blank and a reason phrase, has status `n`.
pub proof fn lemma_head_status(t: Seq<char>, n: nat, reason: Seq<char>, rest: Seq<char>)
    requires
        n <= 0xffff,
        t == http11_space() + dec_text(n) + reason + rest,
        reason.len() == 0 || reason[0] == ' ',
        forall|k: int| 0 <= k < reason.len() ==> reason[k] != '\r',
        rest.len() == 0 || (rest.len() >= 2 && rest[0] == '\r' && rest[1] == '\n'),
    ensures
        spec_parse_head(t) matches Ok(h) && h.status == n as u16,
{
    lemma_dec_text(n);
    let d = dec_text(n);
    let line = http11_space() + d + reason;
    let l = line.len() as int;
    assert(t =~= line + rest);
    // The status line is everything before the first line end.
    assert forall|k: int| 0 <= k < l implies line[k] != '\r' by {
        if k >= 9 && k < 9 + d.len() {
            assert(line[k] == d[k - 9]);
        } else if k >= 9 + d.len() {
            assert(line[k] == reason[k - 9 - d.len()]);
        }
    }
    lemma_find_from(t, crlf_chars(), 0);
    match find_from(t, crlf_chars(), 0) {
        Some(p) => {
            if p < l {
                assert(t.subrange(p, p + 2)[0] == t[p]);
                assert(t[p] == line[p]);
            }
            if p > l {
                assert(t.subrange(l, l + 2) =~= crlf_chars());
            }
            assert(p == l);
            assert(status_line(t) =~= line);
        },
        None => {
            if rest.len() > 0 {
                assert(t.subrange(l, l + 2) =~= crlf_chars());
            }
            assert(status_line(t) =~= line);
        },
    }
    // Its second word is the digits.
    assert(!is_whitespace(line[0]));
    assert(skip_ws(line, 0) == 0);
    assert forall|k: int| 0 <= k < 8 implies !is_whitespace(#[trigger] line[k]) by {
        assert(line[k] == http11_space()[k]);
    }
    assert(line[8] == ' ');
    lemma_word_ends(line, 0, 8);
    assert(line[9] == d[0]);
    assert(skip_ws(line, 9) == 9);
    assert(skip_ws(line, 8) == 9);
    let e = 9 + d.len() as int;
    assert forall|k: int| 9 <= k < e implies !is_whitespace(#[trigger] line[k]) by {
        assert(line[k] == d[k - 9]);
    }
    if e < l {
        assert(line[e] == reason[0]);
    }
    lemma_word_ends(line, 9, e);
    assert(line.subrange(9, e) =~= d);
    assert(d[0] != '+');
}

} // verus!

//! Reading Steam's connection-manager directory: the WebSocket servers its answer lists,
//! least loaded first.

use vstd::prelude::*;

use crate::text::{
    chars_eq, chars_of, decimal_value, digits_end, digits_end_in, find_chars_at, find_from,
    lemma_digits_end, lemma_find_from, parse_u32, sub_chars,
};

verus! {

/// A connection manager the directory offered: where it listens, which datacentre it
/// is in, and how busy the directory says it is.
#[derive(Debug, Clone, PartialEq, Eq)]
pub struct CmServer {
    pub endpoint: String,
    pub datacentre: String,
    pub load: u32,
}

/// What a `CmServer` holds, as mathematical values.
pub struct SpecCmServer {
    pub endpoint: Seq<char>,
    pub datacentre: Seq<char>,
    pub load: u32,
}

impl View for CmServer {
    type V = SpecCmServer;

    open spec fn view(&self) -> SpecCmServer {
        SpecCmServer { endpoint: self.endpoint@, datacentre: self.datacentre@, load: self.load }
    }
}

pub open spec fn servers_view(v: Seq<CmServer>) -> Seq<SpecCmServer> {
    v.map_values(|s: CmServer| s@)
}

// ---------------------------------------------------------------------------
// The directory's answer, as text.
// ---------------------------------------------------------------------------

/// `"name":`, the way a JSON object introduces a member.
pub open spec fn member_key(name: Seq<char>) -> Seq<char> {
    seq!['"'] + name + seq!['"', ':']
}

/// The string value of member `name` in `fragment`: the text between the quote that opens
/// it and the next quote.
pub open spec fn string_member(fragment: Seq<char>, name: Seq<char>) -> Option<Seq<char>> {
    quoted_after(fragment, member_key(name) + seq!['"'])
}

/// The text between the first `needle` in `fragment` and the next quote.
pub open spec fn quoted_after(fragment: Seq<char>, needle: Seq<char>) -> Option<Seq<char>> {
    match find_from(fragment, needle, 0) {
        Some(p) => {
            let rest = fragment.skip(p + needle.len());
            match find_from(rest, seq!['"'], 0) {
                Some(e) => Some(rest.take(e)),
                None => None,
            }
        },
        None => None,
    }
}

/// The numeric value of member `name` in `fragment`: the digits that follow its key,
/// when there are some and they fit in a `u32`.
pub open spec fn number_member(fragment: Seq<char>, name: Seq<char>) -> Option<u32> {
    number_after(fragment, member_key(name))
}

/// The number written by the digits right after the first `needle` in `fragment`.
pub open spec fn number_after(fragment: Seq<char>, needle: Seq<char>) -> Option<u32> {
    match find_from(fragment, needle, 0) {
        Some(p) => {
            let rest = fragment.skip(p + needle.len());
            let digits = rest.take(digits_end(rest, 0));
            if digits.len() > 0 && decimal_value(digits) <= u32::MAX {
                Some(decimal_value(digits) as u32)
            } else {
                None
            }
        },
        None => None,
    }
}

pub open spec fn type_key() -> Seq<char> {
    seq!['t', 'y', 'p', 'e']
}

pub open spec fn websockets() -> Seq<char> {
    seq!['w', 'e', 'b', 's', 'o', 'c', 'k', 'e', 't', 's']
}

pub open spec fn endpoint_key() -> Seq<char> {
    seq!['e', 'n', 'd', 'p', 'o', 'i', 'n', 't']
}

pub open spec fn dc_key() -> Seq<char> {
    seq!['d', 'c']
}

pub open spec fn load_key() -> Seq<char> {
    seq!['l', 'o', 'a', 'd']
}

/// The server one `{ ... }` entry describes: only WebSocket servers with an endpoint count;
/// a missing datacentre is empty and a missing load is the largest there is.
pub open spec fn cm_entry(fragment: Seq<char>) -> Option<SpecCmServer> {
    if string_member(fragment, type_key()) == Some(websockets()) {
        match string_member(fragment, endpoint_key()) {
            Some(endpoint) => Some(
                SpecCmServer {
                    endpoint,
                    datacentre: match string_member(fragment, dc_key()) {
                        Some(dc) => dc,
                        None => Seq::empty(),
                    },
                    load: match number_member(fragment, load_key()) {
                        Some(n) => n,
                        None => u32::MAX,
                    },
                },
            ),
            None => None,
        }
    } else {
        None
    }
}

/// Where the entry that starts at `i` ends: at the next brace of either kind, or at the end.
pub open spec fn entry_end(s: Seq<char>, i: int) -> int
    decreases s.len() - i,
{
    if i < 0 || i >= s.len() {
        s.len() as int
    } else if s[i] == '{' || s[i] == '}' {
        i
    } else {
        entry_end(s, i + 1)
    }
}

/// The servers the entries opened at or after `i` describe, in order.
pub open spec fn entries_from(s: Seq<char>, i: int) -> Seq<SpecCmServer>
    decreases s.len() - i,
{
    if i < 0 || i >= s.len() {
        Seq::empty()
    } else if s[i] == '{' {
        match cm_entry(s.subrange(i + 1, entry_end(s, i + 1))) {
            Some(server) => seq![server] + entries_from(s, i + 1),
            None => entries_from(s, i + 1),
        }
    } else {
        entries_from(s, i + 1)
    }
}

/// The WebSocket servers a directory answer lists, in the order it lists them.
pub open spec fn spec_parse_cm_list(body: Seq<char>) -> Seq<SpecCmServer> {
    entries_from(body, 0)
}

proof fn lemma_entry_end_bounds(s: Seq<char>, i: int)
    requires
        0 <= i <= s.len(),
    ensures
        i <= entry_end(s, i) <= s.len(),
    decreases s.len() - i,
{
    if i < s.len() && !(s[i] == '{' || s[i] == '}') {
        lemma_entry_end_bounds(s, i + 1);
    }
}

fn entry_end_exec(s: &Vec<char>, i: usize) -> (r: usize)
    requires
        i <= s@.len(),
    ensures
        r == entry_end(s@, i as int),
{
    let mut j = i;
    while j < s.len()
        invariant
            i <= j <= s@.len(),
            entry_end(s@, i as int) == entry_end(s@, j as int),
        decreases s@.len() - j,
    {
        if s[j] == '{' || s[j] == '}' {
            return j;
        }
        j = j + 1;
    }
    j
}

/// Where the quoted text after the first `needle` in `frag` lies.
fn quoted_after_exec(frag: &Vec<char>, needle: &Vec<char>) -> (r: Option<(usize, usize)>)
    ensures
        match quoted_after(frag@, needle@) {
            Some(v) => r matches Some((a, b)) && a <= b <= frag@.len() && frag@.subrange(
                a as int,
                b as int,
            ) == v,
            None => r is None,
        },
{
    let flen = frag.len();
    proof {
        lemma_find_from(frag@, needle@, 0);
    }
    match find_chars_at(frag, 0, needle) {
        None => None,
        Some(p) => {
            let start = p + needle.len();
            let rest = sub_chars(frag, start, frag.len());
            assert(rest@ =~= frag@.skip(p + needle@.len()));
            let quote: Vec<char> = vec!['"'];
            assert(quote@ =~= seq!['"']);
            match find_chars_at(&rest, 0, &quote) {
                None => None,
                Some(e) => {
                    assert(rest@.take(e as int) =~= frag@.subrange(
                        start as int,
                        (start + e) as int,
                    ));
                    Some((start, start + e))
                },
            }
        },
    }
}

/// The number after the first `needle` in `frag`.
fn number_after_exec(frag: &Vec<char>, needle: &Vec<char>) -> (r: Option<u32>)
    ensures
        r == number_after(frag@, needle@),
{
    let flen = frag.len();
    proof {
        lemma_find_from(frag@, needle@, 0);
    }
    match find_chars_at(frag, 0, needle) {
        None => None,
        Some(p) => {
            let start = p + needle.len();
            let rest = sub_chars(frag, start, frag.len());
            assert(rest@ =~= frag@.skip(p + needle@.len()));
            let n = rest.len();
            assert(rest@.subrange(0, n as int) =~= rest@);
            let end = digits_end_in(&rest, 0, n);
            proof {
                lemma_digits_end(rest@, 0);
                assert(rest@.take(digits_end(rest@, 0)) =~= rest@.subrange(0, end as int));
            }
            parse_u32(&rest, 0, end)
        },
    }
}

/// The server the entry `s[lo..hi]` of `body` describes, if it is one that counts.
fn read_entry(body: &str, s: &Vec<char>, lo: usize, hi: usize) -> (r: Option<CmServer>)
    requires
        s@ == body@,
        lo <= hi <= s@.len(),
    ensures
        match cm_entry(s@.subrange(lo as int, hi as int)) {
            Some(v) => r matches Some(x) && x@ == v,
            None => r is None,
        },
{
    let frag = sub_chars(s, lo, hi);
    let type_needle: Vec<char> = vec!['"', 't', 'y', 'p', 'e', '"', ':', '"'];
    let endpoint_needle: Vec<char> = vec![
        '"', 'e', 'n', 'd', 'p', 'o', 'i', 'n', 't', '"', ':', '"',
    ];
    let dc_needle: Vec<char> = vec!['"', 'd', 'c', '"', ':', '"'];
    let load_needle: Vec<char> = vec!['"', 'l', 'o', 'a', 'd', '"', ':'];
    let websockets_word: Vec<char> = vec!['w', 'e', 'b', 's', 'o', 'c', 'k', 'e', 't', 's'];
    assert(type_needle@ =~= member_key(type_key()) + seq!['"']);
    assert(endpoint_needle@ =~= member_key(endpoint_key()) + seq!['"']);
    assert(dc_needle@ =~= member_key(dc_key()) + seq!['"']);
    assert(load_needle@ =~= member_key(load_key()));
    assert(websockets_word@ =~= websockets());
    let is_websockets = match quoted_after_exec(&frag, &type_needle) {
        Some((a, b)) => {
            let word = sub_chars(&frag, a, b);
            chars_eq(&word, &websockets_word)
        },
        None => false,
    };
    if !is_websockets {
        return None;
    }
    let (ea, eb) = match quoted_after_exec(&frag, &endpoint_needle) {
        Some(span) => span,
        None => return None,
    };
    let endpoint = body.substring_char(lo + ea, lo + eb).to_owned();
    assert(endpoint@ =~= frag@.subrange(ea as int, eb as int));
    let datacentre = match quoted_after_exec(&frag, &dc_needle) {
        Some((a, b)) => {
            let d = body.substring_char(lo + a, lo + b).to_owned();
            assert(d@ =~= frag@.subrange(a as int, b as int));
            d
        },
        None => String::new(),
    };
    let load = match number_after_exec(&frag, &load_needle) {
        Some(n) => n,
        None => u32::MAX,
    };
    Some(CmServer { endpoint, datacentre, load })
}

/// The WebSocket servers a directory answer lists, in the order it lists them. Anything
/// that is not such an entry is passed over, so text that is not a directory answer at
/// all gives no servers rather than a wrong one.
pub fn parse_cm_list(body: &str) -> (r: Vec<CmServer>)
    ensures
        servers_view(r@) == spec_parse_cm_list(body@),
{
    let s = chars_of(body);
    let mut out: Vec<CmServer> = Vec::new();
    let mut i: usize = 0;
    while i < s.len()
        invariant
            s@ == body@,
            i <= s@.len(),
            servers_view(out@) + entries_from(s@, i as int) == entries_from(s@, 0),
        decreases s@.len() - i,
    {
        if s[i] == '{' {
            let end = entry_end_exec(&s, i + 1);
            proof {
                lemma_entry_end_bounds(s@, i + 1);
            }
            match read_entry(body, &s, i + 1, end) {
                Some(server) => {
                    let ghost before = servers_view(out@);
                    out.push(server);
                    assert(servers_view(out@) =~= before + seq![server@]);
                    assert(before + seq![server@] + entries_from(s@, i + 1) =~= before + (seq![
                        server@,
                    ] + entries_from(s@, i + 1)));
                },
                None => {},
            }
        }
        i = i + 1;
    }
    assert(servers_view(out@) + Seq::<SpecCmServer>::empty() =~= servers_view(out@));
    out
}

// ---------------------------------------------------------------------------
// Least loaded first.
// ---------------------------------------------------------------------------

/// `x` placed after every server of `s`, counted from the back, whose load is larger.
pub open spec fn insert_by_load(s: Seq<SpecCmServer>, x: SpecCmServer) -> Seq<SpecCmServer>
    decreases s.len(),
{
    if s.len() == 0 {
        seq![x]
    } else if s.last().load <= x.load {
        s.push(x)
    } else {
        insert_by_load(s.drop_last(), x).push(s.last())
    }
}

/// The servers ordered by load, servers of equal load keeping the order they came in.
pub open spec fn sort_by_load(s: Seq<SpecCmServer>) -> Seq<SpecCmServer>
    decreases s.len(),
{
    if s.len() == 0 {
        s
    } else {
        insert_by_load(sort_by_load(s.drop_last()), s.last())
    }
}

pub open spec fn sorted_by_load(s: Seq<SpecCmServer>) -> bool {
    forall|i: int, j: int| 0 <= i <= j < s.len() ==> s[i].load <= s[j].load
}

/// The servers of `s` whose load is `load`, in order.
pub open spec fn with_load(s: Seq<SpecCmServer>, load: u32) -> Seq<SpecCmServer> {
    s.filter(|x: SpecCmServer| x.load == load)
}

/// How many servers trail `s` with a load above `load`.
pub open spec fn heavier_tail(s: Seq<SpecCmServer>, load: u32) -> nat
    decreases s.len(),
{
    if s.len() == 0 || s.last().load <= load {
        0
    } else {
        heavier_tail(s.drop_last(), load) + 1
    }
}

proof fn lemma_insert_at(s: Seq<SpecCmServer>, x: SpecCmServer)
    ensures
        heavier_tail(s, x.load) <= s.len(),
        insert_by_load(s, x) == s.take(s.len() - heavier_tail(s, x.load)) + seq![x] + s.skip(
            s.len() - heavier_tail(s, x.load),
        ),
    decreases s.len(),
{
    if s.len() == 0 {
        assert(s.take(0) + seq![x] + s.skip(0) =~= seq![x]);
    } else if s.last().load <= x.load {
        assert(s.take(s.len() as int) + seq![x] + s.skip(s.len() as int) =~= s.push(x));
    } else {
        let init = s.drop_last();
        lemma_insert_at(init, x);
        let k = init.len() - heavier_tail(init, x.load);
        assert(s.len() - heavier_tail(s, x.load) == k);
        assert(init.take(k) =~= s.take(k));
        assert(init.skip(k).push(s.last()) =~= s.skip(k));
        assert((init.take(k) + seq![x] + init.skip(k)).push(s.last()) =~= s.take(k) + seq![x]
            + s.skip(k));
    }
}

proof fn lemma_insert_sorted(s: Seq<SpecCmServer>, x: SpecCmServer)
    requires
        sorted_by_load(s),
    ensures
        sorted_by_load(insert_by_load(s, x)),
        insert_by_load(s, x).len() == s.len() + 1,
        forall|i: int| 0 <= i < insert_by_load(s, x).len() ==> #[trigger] insert_by_load(s, x)[i]
            == x || s.contains(insert_by_load(s, x)[i]),
    decreases s.len(),
{
    if s.len() > 0 && s.last().load > x.load {
        let init = s.drop_last();
        lemma_insert_sorted(init, x);
        let r = insert_by_load(init, x);
        assert forall|i: int| 0 <= i < r.len() implies #[trigger] r[i].load <= s.last().load by {
            if r[i] != x {
                let k = choose|k: int| 0 <= k < init.len() && init[k] == r[i];
                assert(s[k] == init[k]);
            }
        }
        assert forall|i: int| 0 <= i < r.len() && r[i] != x implies s.contains(#[trigger] r[i]) by {
            let k = choose|k: int| 0 <= k < init.len() && init[k] == r[i];
            assert(s[k] == init[k]);
        }
        assert(s.contains(s.last())) by {
            assert(s[s.len() - 1] == s.last());
        }
    } else if s.len() > 0 {
        assert forall|i: int| 0 <= i < s.len() implies #[trigger] s.contains(s[i]) by {}
    }
}

/// Ordering by load leaves the servers sorted by load.
pub proof fn lemma_sort_sorted(s: Seq<SpecCmServer>)
    ensures
        sorted_by_load(sort_by_load(s)),
        sort_by_load(s).len() == s.len(),
    decreases s.len(),
{
    if s.len() > 0 {
        lemma_sort_sorted(s.drop_last());
        lemma_insert_sorted(sort_by_load(s.drop_last()), s.last());
    }
}

/// Inserting keeps every server of load `load` where it was relative to the others of
/// that load, and puts the new one after them.
proof fn lemma_insert_with_load(s: Seq<SpecCmServer>, x: SpecCmServer, load: u32)
    ensures
        with_load(insert_by_load(s, x), load) == if x.load == load {
            with_load(s, load).push(x)
        } else {
            with_load(s, load)
        },
    decreases s.len(),
{
    broadcast use Seq::lemma_filter_push;

    let pred = |y: SpecCmServer| y.load == load;
    if s.len() == 0 {
        assert(Seq::<SpecCmServer>::empty().push(x) =~= seq![x]);
        assert(s =~= Seq::<SpecCmServer>::empty());
        assert(Seq::<SpecCmServer>::empty().filter(pred) =~= Seq::<SpecCmServer>::empty()) by {
            reveal(Seq::filter);
        }
    } else if s.last().load <= x.load {
    } else {
        let init = s.drop_last();
        lemma_insert_with_load(init, x, load);
        assert(init.push(s.last()) =~= s);
    }
}

/// Ordering by load is stable: the servers of any one load come out in the order they
/// went in.
pub proof fn lemma_sort_stable(s: Seq<SpecCmServer>, load: u32)
    ensures
        with_load(sort_by_load(s), load) == with_load(s, load),
    decreases s.len(),
{
    broadcast use Seq::lemma_filter_push;

    if s.len() == 0 {
    } else {
        let init = s.drop_last();
        lemma_sort_stable(init, load);
        lemma_insert_with_load(sort_by_load(init), s.last(), load);
        assert(init.push(s.last()) =~= s);
    }
}

/// Ordering by load neither loses nor invents a server.
pub proof fn lemma_sort_permutes(s: Seq<SpecCmServer>)
    ensures
        sort_by_load(s).to_multiset() == s.to_multiset(),
    decreases s.len(),
{
    broadcast use vstd::seq_lib::group_to_multiset_ensures;

    if s.len() > 0 {
        let init = s.drop_last();
        lemma_sort_permutes(init);
        lemma_insert_permutes(sort_by_load(init), s.last());
        assert(init.push(s.last()) =~= s);
    }
}

proof fn lemma_insert_permutes(s: Seq<SpecCmServer>, x: SpecCmServer)
    ensures
        insert_by_load(s, x).to_multiset() == s.to_multiset().insert(x),
    decreases s.len(),
{
    broadcast use vstd::seq_lib::group_to_multiset_ensures;

    if s.len() == 0 {
        assert(s =~= Seq::<SpecCmServer>::empty());
        assert(Seq::<SpecCmServer>::empty().push(x) =~= seq![x]);
    } else if s.last().load <= x.load {
    } else {
        let init = s.drop_last();
        lemma_insert_permutes(init, x);
        assert(init.push(s.last()) =~= s);
        assert(init.to_multiset().insert(x).insert(s.last()) =~= init.to_multiset().insert(
            s.last(),
        ).insert(x));
    }
}

/// Orders `servers` by load, least loaded first; servers of equal load keep their order.
pub fn sort_servers(servers: Vec<CmServer>) -> (r: Vec<CmServer>)
    ensures
        servers_view(r@) == sort_by_load(servers_view(servers@)),
{
    let ghost input = servers_view(servers@);
    let total = servers.len();
    let mut out: Vec<CmServer> = Vec::new();
    let mut rest = servers;
    let mut i: usize = 0;
    assert(input.skip(0) =~= input);
    while rest.len() > 0
        invariant
            rest@.len() + i == input.len(),
            input.len() <= usize::MAX,
            servers_view(rest@) == input.skip(i as int),
            servers_view(out@) == sort_by_load(input.take(i as int)),
        decreases rest@.len(),
    {
        let ghost old_rest = rest@;
        let x = rest.remove(0);
        assert(servers_view(old_rest)[0] == old_rest[0]@);
        assert(input.skip(i as int)[0] == input[i as int]);
        assert(x@ == input[i as int]);
        assert(servers_view(rest@) =~= servers_view(old_rest).drop_first());
        assert(input.skip(i as int).drop_first() =~= input.skip(i + 1));
        let mut j = out.len();
        let ghost ov = servers_view(out@);
        assert(ov.take(j as int) =~= ov);
        while j > 0 && out[j - 1].load > x.load
            invariant
                j <= out@.len(),
                ov == servers_view(out@),
                heavier_tail(ov, x.load) == heavier_tail(ov.take(j as int), x.load) + (out@.len()
                    - j),
            decreases j,
        {
            assert(ov.take(j as int).drop_last() =~= ov.take(j - 1));
            assert(ov.take(j as int).last() == ov[j - 1]);
            j = j - 1;
        }
        proof {
            if j > 0 {
                assert(ov.take(j as int).last() == ov[j - 1]);
            }
            lemma_insert_at(ov, x@);
            assert(input.take(i + 1).drop_last() =~= input.take(i as int));
        }
        out.insert(j, x);
        assert(servers_view(out@) =~= ov.take(j as int) + seq![x@] + ov.skip(j as int));
        i = i + 1;
    }
    assert(input.take(i as int) =~= input);
    out
}

/// The servers a directory answer lists, least loaded first.
pub fn cm_servers(body: &str) -> (r: Vec<CmServer>)
    ensures
        servers_view(r@) == sort_by_load(spec_parse_cm_list(body@)),
{
    sort_servers(parse_cm_list(body))
}

// ---------------------------------------------------------------------------
// The directory's reply.
// ---------------------------------------------------------------------------

/// Why the directory's reply was not taken.
#[derive(Debug, Clone, PartialEq, Eq)]
pub enum DirectoryError {
    /// No blank line separates the reply's head from its body.
    NoHeaderBodySplit,
    /// The head does not start with `HTTP/1.1 200`; the head's first line.
    NotOk(String),
}

pub open spec fn blank_line() -> Seq<char> {
    seq!['\r', '\n', '\r', '\n']
}

pub open spec fn ok_status() -> Seq<char> {
    seq!['H', 'T', 'T', 'P', '/', '1', '.', '1', ' ', '2', '0', '0']
}

/// Whether `s` begins with `prefix`.
pub open spec fn starts_with(s: Seq<char>, prefix: Seq<char>) -> bool {
    prefix.len() <= s.len() && s.take(prefix.len() as int) == prefix
}

/// The first line of `head` as `str::lines` gives it: up to the first line feed, without
/// a carriage return just before it; the whole head when it holds no line feed.
pub open spec fn first_line(head: Seq<char>) -> Seq<char> {
    match find_from(head, seq!['\n'], 0) {
        Some(i) => if i > 0 && head[i - 1] == '\r' {
            head.take(i - 1)
        } else {
            head.take(i)
        },
        None => head,
    }
}

/// The body of the directory's reply `text`: what follows the first blank line, when the
/// head before it starts with `HTTP/1.1 200`.
pub fn directory_body(text: &str) -> (r: Result<String, DirectoryError>)
    ensures
        match find_from(text@, blank_line(), 0) {
            None => r matches Err(DirectoryError::NoHeaderBodySplit),
            Some(p) => if starts_with(text@.take(p), ok_status()) {
                r matches Ok(b) && b@ == text@.skip(p + 4)
            } else {
                r matches Err(DirectoryError::NotOk(l)) && l@ == first_line(text@.take(p))
            },
        },
{
    let s = chars_of(text);
    let n = s.len();
    let blank: Vec<char> = vec!['\r', '\n', '\r', '\n'];
    assert(blank@ =~= blank_line());
    proof {
        lemma_find_from(s@, blank_line(), 0);
    }
    let p = match find_chars_at(&s, 0, &blank) {
        Some(p) => p,
        None => return Err(DirectoryError::NoHeaderBodySplit),
    };
    let ok: Vec<char> = vec!['H', 'T', 'T', 'P', '/', '1', '.', '1', ' ', '2', '0', '0'];
    assert(ok@ =~= ok_status());
    let is_ok = if p >= 12 {
        let start = sub_chars(&s, 0, 12);
        assert(s@.take(p as int).take(12) =~= start@);
        chars_eq(&start, &ok)
    } else {
        false
    };
    if is_ok {
        let body = text.substring_char(p + 4, n).to_owned();
        assert(body@ =~= text@.skip(p + 4));
        return Ok(body);
    }
    let lf: Vec<char> = vec!['\n'];
    let head = sub_chars(&s, 0, p);
    assert(head@ =~= text@.take(p as int));
    proof {
        lemma_find_from(head@, seq!['\n'], 0);
    }
    assert(lf@ =~= seq!['\n']);
    let end = match find_chars_at(&head, 0, &lf) {
        Some(i) => if i > 0 && head[i - 1] == '\r' {
            i - 1
        } else {
            i
        },
        None => p,
    };
    let line = text.substring_char(0, end).to_owned();
    assert(line@ =~= first_line(text@.take(p as int)));
    Err(DirectoryError::NotOk(line))
}

} // verus!

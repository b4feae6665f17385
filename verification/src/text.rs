//! Searching text and reading decimal numbers, with their specifications.

use vstd::prelude::*;

verus! {

/// The first position at or after `i` where `needle` occurs in `s`.
pub open spec fn find_from<A>(s: Seq<A>, needle: Seq<A>, i: int) -> Option<int>
    decreases s.len() - i,
{
    if i < 0 || i + needle.len() > s.len() {
        None
    } else if s.subrange(i, i + needle.len()) == needle {
        Some(i)
    } else if i < s.len() {
        find_from(s, needle, i + 1)
    } else {
        None
    }
}

/// A found position lies where the needle fits, at or after the start, and nothing
/// between the start and it is a match.
pub proof fn lemma_find_from<A>(s: Seq<A>, needle: Seq<A>, i: int)
    requires
        0 <= i,
    ensures
        match find_from(s, needle, i) {
            Some(p) => i <= p && p + needle.len() <= s.len() && s.subrange(p, p + needle.len())
                == needle && forall|q: int|
                i <= q < p ==> #[trigger] s.subrange(q, q + needle.len()) != needle,
            None => forall|q: int|
                i <= q && q + needle.len() <= s.len() ==> #[trigger] s.subrange(
                    q,
                    q + needle.len(),
                ) != needle,
        },
    decreases s.len() - i,
{
    if i + needle.len() <= s.len() && s.subrange(i, i + needle.len()) != needle && i < s.len() {
        lemma_find_from(s, needle, i + 1);
    }
    if i + needle.len() <= s.len() && s.subrange(i, i + needle.len()) != needle && i >= s.len() {
        assert(s.subrange(i, i + needle.len()) =~= needle);
    }
}

pub open spec fn is_digit(c: char) -> bool {
    '0' <= c <= '9'
}

pub open spec fn digit_value(c: char) -> nat {
    (c as int - '0' as int) as nat
}

/// Where the run of ASCII digits that starts at `i` ends.
pub open spec fn digits_end(s: Seq<char>, i: int) -> int
    decreases s.len() - i,
{
    if i < 0 || i >= s.len() {
        s.len() as int
    } else if is_digit(s[i]) {
        digits_end(s, i + 1)
    } else {
        i
    }
}

pub proof fn lemma_digits_end(s: Seq<char>, i: int)
    requires
        0 <= i <= s.len(),
    ensures
        i <= digits_end(s, i) <= s.len(),
        forall|j: int| i <= j < digits_end(s, i) ==> is_digit(#[trigger] s[j]),
        digits_end(s, i) < s.len() ==> !is_digit(s[digits_end(s, i)]),
    decreases s.len() - i,
{
    if i < s.len() && is_digit(s[i]) {
        lemma_digits_end(s, i + 1);
    }
}

/// The number a run of decimal digits writes.
pub open spec fn decimal_value(d: Seq<char>) -> nat
    decreases d.len(),
{
    if d.len() == 0 {
        0
    } else {
        decimal_value(d.drop_last()) * 10 + digit_value(d.last())
    }
}

/// A prefix of a run of digits never writes a larger number than the whole run.
pub proof fn lemma_decimal_prefix(d: Seq<char>, k: int)
    requires
        0 <= k <= d.len(),
    ensures
        decimal_value(d.take(k)) <= decimal_value(d),
    decreases d.len() - k,
{
    if k < d.len() {
        lemma_decimal_prefix(d, k + 1);
        let a = d.take(k);
        let b = d.take(k + 1);
        assert(b.drop_last() =~= a);
        assert(decimal_value(b) >= decimal_value(a) * 10);
    } else {
        assert(d.take(k) =~= d);
    }
}

/// The characters of `s`, one by one.
pub fn chars_of(s: &str) -> (r: Vec<char>)
    ensures
        r@ == s@,
{
    let n = s.unicode_len();
    let mut out: Vec<char> = Vec::new();
    let mut i: usize = 0;
    while i < n
        invariant
            n == s@.len(),
            i <= n,
            out@ =~= s@.take(i as int),
        decreases n - i,
    {
        out.push(s.get_char(i));
        i = i + 1;
    }
    out
}

/// Where the run of ASCII digits that starts at `lo` ends, within `s[lo..hi]`.
pub fn digits_end_in(s: &Vec<char>, lo: usize, hi: usize) -> (r: usize)
    requires
        lo <= hi <= s@.len(),
    ensures
        r == lo + digits_end(s@.subrange(lo as int, hi as int), 0),
{
    let ghost t = s@.subrange(lo as int, hi as int);
    let mut j = lo;
    while j < hi
        invariant
            lo <= j <= hi <= s@.len(),
            t == s@.subrange(lo as int, hi as int),
            digits_end(t, 0) == digits_end(t, j - lo),
        decreases hi - j,
    {
        if !('0' <= s[j] && s[j] <= '9') {
            return j;
        }
        j = j + 1;
    }
    j
}

/// The number the digits `s[lo..hi]` write, when there are some and it fits in a `u32`.
pub fn parse_u32(s: &Vec<char>, lo: usize, hi: usize) -> (r: Option<u32>)
    requires
        lo <= hi <= s@.len(),
        forall|j: int| lo <= j < hi ==> is_digit(#[trigger] s@[j]),
    ensures
        r == (if hi > lo && decimal_value(s@.subrange(lo as int, hi as int)) <= u32::MAX {
            Some(decimal_value(s@.subrange(lo as int, hi as int)) as u32)
        } else {
            None::<u32>
        }),
{
    if hi == lo {
        return None;
    }
    let ghost d = s@.subrange(lo as int, hi as int);
    let mut acc: u64 = 0;
    let mut i = lo;
    assert(d.take(0) =~= Seq::<char>::empty());
    while i < hi
        invariant
            lo <= i <= hi <= s@.len(),
            d == s@.subrange(lo as int, hi as int),
            forall|j: int| lo <= j < hi ==> is_digit(#[trigger] s@[j]),
            acc == decimal_value(d.take(i - lo)),
            acc <= u32::MAX,
        decreases hi - i,
    {
        assert(is_digit(s@[i as int]));
        let digit = (s[i] as u32) - ('0' as u32);
        assert(d.take(i - lo + 1).drop_last() =~= d.take(i - lo));
        acc = acc * 10 + digit as u64;
        i = i + 1;
        if acc > 0xffff_ffff {
            proof {
                lemma_decimal_prefix(d, i - lo);
            }
            return None;
        }
    }
    assert(d.take(hi - lo) =~= d);
    Some(acc as u32)
}

// ---------------------------------------------------------------------------
// Whitespace, case and the standard library's number syntax.
// ---------------------------------------------------------------------------

/// Unicode's `White_Space` property, the whitespace `str::trim` and
/// `str::split_whitespace` go by.
pub open spec fn is_whitespace(c: char) -> bool {
    ||| '\t' <= c <= '\r'
    ||| c == ' '
    ||| c == '\u{85}'
    ||| c == '\u{a0}'
    ||| c == '\u{1680}'
    ||| '\u{2000}' <= c <= '\u{200a}'
    ||| c == '\u{2028}'
    ||| c == '\u{2029}'
    ||| c == '\u{202f}'
    ||| c == '\u{205f}'
    ||| c == '\u{3000}'
}

pub fn is_whitespace_exec(c: char) -> (r: bool)
    ensures
        r == is_whitespace(c),
{
    ('\t' <= c && c <= '\r') || c == ' ' || c == '\u{85}' || c == '\u{a0}' || c == '\u{1680}'
        || ('\u{2000}' <= c && c <= '\u{200a}') || c == '\u{2028}' || c == '\u{2029}' || c
        == '\u{202f}' || c == '\u{205f}' || c == '\u{3000}'
}

/// The first position at or after `i` that is not whitespace, or the end.
pub open spec fn skip_ws(s: Seq<char>, i: int) -> int
    decreases s.len() - i,
{
    if i < 0 || i >= s.len() {
        s.len() as int
    } else if is_whitespace(s[i]) {
        skip_ws(s, i + 1)
    } else {
        i
    }
}

/// The first position at or after `i` that is whitespace, or the end.
pub open spec fn skip_word(s: Seq<char>, i: int) -> int
    decreases s.len() - i,
{
    if i < 0 || i >= s.len() {
        s.len() as int
    } else if is_whitespace(s[i]) {
        i
    } else {
        skip_word(s, i + 1)
    }
}

/// How many positions before `j` hold whitespace, counted back from `j` down to `lo`.
pub open spec fn trailing_ws_start(s: Seq<char>, lo: int, j: int) -> int
    decreases j - lo,
{
    if j <= lo {
        lo
    } else if is_whitespace(s[j - 1]) {
        trailing_ws_start(s, lo, j - 1)
    } else {
        j
    }
}

/// `s` without the whitespace it starts and ends with, as `str::trim` gives it.
pub open spec fn trim(s: Seq<char>) -> Seq<char> {
    let a = skip_ws(s, 0);
    s.subrange(a, trailing_ws_start(s, a, s.len() as int))
}

pub proof fn lemma_skip_ws(s: Seq<char>, i: int)
    requires
        0 <= i <= s.len(),
    ensures
        i <= skip_ws(s, i) <= s.len(),
    decreases s.len() - i,
{
    if i < s.len() && is_whitespace(s[i]) {
        lemma_skip_ws(s, i + 1);
    }
}

pub proof fn lemma_skip_word(s: Seq<char>, i: int)
    requires
        0 <= i <= s.len(),
    ensures
        i <= skip_word(s, i) <= s.len(),
    decreases s.len() - i,
{
    if i < s.len() && !is_whitespace(s[i]) {
        lemma_skip_word(s, i + 1);
    }
}

pub proof fn lemma_trailing_ws_start(s: Seq<char>, lo: int, j: int)
    requires
        0 <= lo <= j <= s.len(),
    ensures
        lo <= trailing_ws_start(s, lo, j) <= j,
    decreases j - lo,
{
    if j > lo && is_whitespace(s[j - 1]) {
        lemma_trailing_ws_start(s, lo, j - 1);
    }
}

/// Where the whitespace-free run of `s[lo..hi]` that `str::trim` keeps lies.
pub fn trim_span(s: &Vec<char>, lo: usize, hi: usize) -> (r: (usize, usize))
    requires
        lo <= hi <= s@.len(),
    ensures
        lo <= r.0 <= r.1 <= hi,
        s@.subrange(r.0 as int, r.1 as int) == trim(s@.subrange(lo as int, hi as int)),
{
    let ghost t = s@.subrange(lo as int, hi as int);
    let mut a = lo;
    while a < hi && is_whitespace_exec(s[a])
        invariant
            lo <= a <= hi <= s@.len(),
            t == s@.subrange(lo as int, hi as int),
            skip_ws(t, 0) == skip_ws(t, a - lo),
        decreases hi - a,
    {
        a = a + 1;
    }
    let mut b = hi;
    proof {
        lemma_skip_ws(t, a - lo);
    }
    while b > a && is_whitespace_exec(s[b - 1])
        invariant
            lo <= a <= b <= hi <= s@.len(),
            t == s@.subrange(lo as int, hi as int),
            a - lo == skip_ws(t, 0),
            trailing_ws_start(t, a - lo, t.len() as int) == trailing_ws_start(t, a - lo, b - lo),
        decreases b - a,
    {
        b = b - 1;
    }
    assert(t.subrange(a - lo, b - lo) =~= s@.subrange(a as int, b as int));
    (a, b)
}

/// The code of `c` once ASCII upper case is folded to lower case.
pub open spec fn to_ascii_lower(c: char) -> int {
    if 'A' <= c <= 'Z' {
        (c as int) + 32
    } else {
        c as int
    }
}

/// Equality up to ASCII case, as `str::eq_ignore_ascii_case` compares.
pub open spec fn eq_ignore_ascii_case(a: Seq<char>, b: Seq<char>) -> bool {
    a.len() == b.len() && forall|i: int| 0 <= i < a.len() ==> to_ascii_lower(#[trigger] a[i])
        == to_ascii_lower(b[i])
}

pub fn lower_exec(c: char) -> (r: u32)
    ensures
        r == to_ascii_lower(c),
{
    if 'A' <= c && c <= 'Z' {
        (c as u32) + 32
    } else {
        c as u32
    }
}

/// Whether `s[a..b]` equals `word` up to ASCII case.
pub fn span_eq_ignore_case(s: &Vec<char>, a: usize, b: usize, word: &Vec<char>) -> (r: bool)
    requires
        a <= b <= s@.len(),
    ensures
        r == eq_ignore_ascii_case(s@.subrange(a as int, b as int), word@),
{
    let ghost t = s@.subrange(a as int, b as int);
    if b - a != word.len() {
        return false;
    }
    let mut k: usize = 0;
    while k < word.len()
        invariant
            a <= b <= s@.len(),
            t == s@.subrange(a as int, b as int),
            b - a == word@.len(),
            k <= word@.len(),
            forall|i: int| 0 <= i < k ==> to_ascii_lower(#[trigger] t[i]) == to_ascii_lower(
                word@[i],
            ),
        decreases word@.len() - k,
    {
        if lower_exec(s[a + k]) != lower_exec(word[k]) {
            assert(to_ascii_lower(t[k as int]) != to_ascii_lower(word@[k as int]));
            return false;
        }
        k = k + 1;
    }
    true
}

pub open spec fn hex_value(c: char) -> Option<nat> {
    if '0' <= c <= '9' {
        Some((c as int - '0' as int) as nat)
    } else if 'a' <= c <= 'f' {
        Some((c as int - 'a' as int + 10) as nat)
    } else if 'A' <= c <= 'F' {
        Some((c as int - 'A' as int + 10) as nat)
    } else {
        None
    }
}

/// Whether every character of `d` is a digit of `radix` (10 or 16).
pub open spec fn all_digits(d: Seq<char>, radix: nat) -> bool {
    forall|i: int| 0 <= i < d.len() ==> digit_in(#[trigger] d[i], radix) is Some
}

pub open spec fn digit_in(c: char, radix: nat) -> Option<nat> {
    if radix == 16 {
        hex_value(c)
    } else if is_digit(c) {
        Some(digit_value(c))
    } else {
        None
    }
}

/// The number the digits of `d` write in `radix`.
pub open spec fn radix_value(d: Seq<char>, radix: nat) -> nat
    decreases d.len(),
{
    if d.len() == 0 {
        0
    } else {
        radix_value(d.drop_last(), radix) * radix + match digit_in(d.last(), radix) {
            Some(v) => v,
            None => 0,
        }
    }
}

/// What the standard library's unsigned `from_str_radix` (and so `str::parse`) makes of
/// `t`: an optional `+`, then at least one digit, the value no larger than `max`.
pub open spec fn parse_unsigned(t: Seq<char>, radix: nat, max: nat) -> Option<nat> {
    let d = if t.len() > 0 && t[0] == '+' {
        t.drop_first()
    } else {
        t
    };
    if d.len() > 0 && all_digits(d, radix) && radix_value(d, radix) <= max {
        Some(radix_value(d, radix))
    } else {
        None
    }
}

proof fn lemma_radix_prefix(d: Seq<char>, k: int, radix: nat)
    requires
        0 <= k <= d.len(),
        radix >= 1,
    ensures
        radix_value(d.take(k), radix) <= radix_value(d, radix),
    decreases d.len() - k,
{
    if k < d.len() {
        lemma_radix_prefix(d, k + 1, radix);
        let a = d.take(k);
        let b = d.take(k + 1);
        assert(b.drop_last() =~= a);
        let va = radix_value(a, radix);
        assert(radix_value(b, radix) >= va * radix);
        assert(va * radix >= va) by (nonlinear_arith)
            requires
                radix >= 1,
                va >= 0,
        ;
    } else {
        assert(d.take(k) =~= d);
    }
}

/// `s[lo..hi]` read as the standard library reads an unsigned number in `radix`, when it is
/// no larger than `max`.
pub fn parse_unsigned_exec(s: &Vec<char>, lo: usize, hi: usize, radix: u32, max: u64) -> (r: Option<
    u64,
>)
    requires
        lo <= hi <= s@.len(),
        radix == 10 || radix == 16,
        max >= 16,
    ensures
        r == match parse_unsigned(s@.subrange(lo as int, hi as int), radix as nat, max as nat) {
            Some(v) => Some(v as u64),
            None => None::<u64>,
        },
{
    let ghost t = s@.subrange(lo as int, hi as int);
    let start = if lo < hi && s[lo] == '+' {
        lo + 1
    } else {
        lo
    };
    let ghost d = s@.subrange(start as int, hi as int);
    assert(d =~= (if t.len() > 0 && t[0] == '+' {
        t.drop_first()
    } else {
        t
    }));
    if start == hi {
        return None;
    }
    let mut acc: u64 = 0;
    let mut i = start;
    assert(d.take(0) =~= Seq::<char>::empty());
    while i < hi
        invariant
            lo <= start <= i <= hi <= s@.len(),
            radix == 10 || radix == 16,
            d == s@.subrange(start as int, hi as int),
            t == s@.subrange(lo as int, hi as int),
            d == (if t.len() > 0 && t[0] == '+' {
                t.drop_first()
            } else {
                t
            }),
            d.len() > 0,
            all_digits(d.take(i - start), radix as nat),
            acc == radix_value(d.take(i - start), radix as nat),
            acc <= max,
            max >= 16,
        decreases hi - i,
    {
        let c = s[i];
        let v: u32 = if radix == 16 && 'a' <= c && c <= 'f' {
            (c as u32) - ('a' as u32) + 10
        } else if radix == 16 && 'A' <= c && c <= 'F' {
            (c as u32) - ('A' as u32) + 10
        } else if '0' <= c && c <= '9' {
            (c as u32) - ('0' as u32)
        } else {
            assert(digit_in(d[i - start], radix as nat) is None);
            assert(!all_digits(d, radix as nat));
            return None;
        };
        assert(digit_in(d[i - start], radix as nat) == Some(v as nat));
        assert(d.take(i - start + 1).drop_last() =~= d.take(i - start));
        assert(all_digits(d.take(i - start + 1), radix as nat)) by {
            assert forall|j: int| 0 <= j < i - start + 1 implies digit_in(
                #[trigger] d.take(i - start + 1)[j],
                radix as nat,
            ) is Some by {
                if j < i - start {
                    assert(d.take(i - start + 1)[j] == d.take(i - start)[j]);
                }
            }
        }
        if acc > (max - v as u64) / (radix as u64) {
            proof {
                assert(acc * radix + v > max) by (nonlinear_arith)
                    requires
                        acc > (max - v) / (radix as int),
                        radix > 0,
                        v <= max,
                ;
                lemma_radix_prefix(d, i - start + 1, radix as nat);
            }
            return None;
        }
        proof {
            assert(acc * radix + v <= max) by (nonlinear_arith)
                requires
                    acc <= (max - v) / (radix as int),
                    radix > 0,
                    v <= max,
            ;
        }
        acc = acc * (radix as u64) + v as u64;
        i = i + 1;
    }
    assert(d.take(hi - start) =~= d);
    Some(acc)
}

/// Where `needle` first occurs in `s` at or after `from`.
pub fn find_chars_at(s: &Vec<char>, from: usize, needle: &Vec<char>) -> (r: Option<usize>)
    requires
        from <= s@.len(),
    ensures
        r is Some <==> find_from(s@, needle@, from as int) is Some,
        r matches Some(p) ==> find_from(s@, needle@, from as int) == Some(p as int) && from <= p
            && p + needle@.len() <= s@.len(),
{
    proof {
        lemma_find_from(s@, needle@, from as int);
    }
    let n = needle.len();
    if n > s.len() {
        assert(find_from(s@, needle@, from as int) is None);
        return None;
    }
    let mut j: usize = from;
    while j <= s.len() - n
        invariant
            from <= j <= s@.len(),
            s@.len() <= usize::MAX,
            n == needle@.len(),
            n <= s@.len(),
            find_from(s@, needle@, from as int) == find_from(s@, needle@, j as int),
        decreases s@.len() - j,
    {
        let mut k: usize = 0;
        let mut same = true;
        while k < n
            invariant
                n == needle@.len(),
                j + n <= s@.len(),
                s@.len() <= usize::MAX,
                k <= n,
                same == (forall|t: int| 0 <= t < k ==> s@[j + t] == needle@[t]),
            decreases n - k,
        {
            if s[j + k] != needle[k] {
                same = false;
            }
            k = k + 1;
        }
        if same {
            assert(s@.subrange(j as int, j + n) =~= needle@);
            return Some(j);
        }
        assert(s@.subrange(j as int, j + n) != needle@) by {
            let t = choose|t: int| 0 <= t < n && s@[j + t] != needle@[t];
            assert(s@.subrange(j as int, j + n)[t] != needle@[t]);
        }
        j = j + 1;
    }
    None
}

/// Where `needle` first occurs in `buf` at or after `from`.
pub fn find_bytes_at(buf: &[u8], from: usize, needle: &[u8]) -> (r: Option<usize>)
    requires
        from <= buf@.len(),
    ensures
        r is Some <==> find_from(buf@, needle@, from as int) is Some,
        r matches Some(p) ==> find_from(buf@, needle@, from as int) == Some(p as int) && from <= p
            && p + needle@.len() <= buf@.len(),
{
    proof {
        lemma_find_from(buf@, needle@, from as int);
    }
    let n = needle.len();
    let blen = buf.len();
    assert(buf@.len() <= usize::MAX);
    if n > blen {
        assert(find_from(buf@, needle@, from as int) is None);
        return None;
    }
    let mut j: usize = from;
    while j <= buf.len() - n
        invariant
            from <= j <= buf@.len(),
            buf@.len() <= usize::MAX,
            n == needle@.len(),
            n <= buf@.len(),
            find_from(buf@, needle@, from as int) == find_from(buf@, needle@, j as int),
        decreases buf@.len() - j,
    {
        let mut k: usize = 0;
        let mut same = true;
        while k < n
            invariant
                n == needle@.len(),
                j + n <= buf@.len(),
                buf@.len() <= usize::MAX,
                k <= n,
                same == (forall|t: int| 0 <= t < k ==> buf@[j + t] == needle@[t]),
            decreases n - k,
        {
            if buf[j + k] != needle[k] {
                same = false;
            }
            k = k + 1;
        }
        if same {
            assert(buf@.subrange(j as int, j + n) =~= needle@);
            return Some(j);
        }
        assert(buf@.subrange(j as int, j + n) != needle@) by {
            let t = choose|t: int| 0 <= t < n && buf@[j + t] != needle@[t];
            assert(buf@.subrange(j as int, j + n)[t] != needle@[t]);
        }
        j = j + 1;
    }
    None
}

/// `s[a..b]`, as a vector of its own.
pub fn sub_chars(s: &Vec<char>, a: usize, b: usize) -> (r: Vec<char>)
    requires
        a <= b <= s@.len(),
    ensures
        r@ == s@.subrange(a as int, b as int),
{
    let mut out: Vec<char> = Vec::new();
    let mut i = a;
    while i < b
        invariant
            a <= i <= b <= s@.len(),
            out@ == s@.subrange(a as int, i as int),
        decreases b - i,
    {
        out.push(s[i]);
        i = i + 1;
        assert(out@ =~= s@.subrange(a as int, i as int));
    }
    out
}

/// Whether `s` is `word`.
pub fn chars_eq(s: &Vec<char>, word: &Vec<char>) -> (r: bool)
    ensures
        r == (s@ == word@),
{
    if s.len() != word.len() {
        return false;
    }
    let mut k: usize = 0;
    while k < word.len()
        invariant
            s@.len() == word@.len(),
            k <= word@.len(),
            forall|t: int| 0 <= t < k ==> s@[t] == word@[t],
        decreases word@.len() - k,
    {
        if s[k] != word[k] {
            return false;
        }
        k = k + 1;
    }
    assert(s@ =~= word@);
    true
}

/// The UTF-8 of two texts one after the other is the UTF-8 of each, one after the other.
pub proof fn lemma_encode_utf8_concat(a: Seq<char>, b: Seq<char>)
    ensures
        vstd::utf8::encode_utf8(a + b) == vstd::utf8::encode_utf8(a) + vstd::utf8::encode_utf8(b),
    decreases a.len(),
{
    if a.len() == 0 {
        assert(a + b =~= b);
    } else {
        lemma_encode_utf8_concat(a.drop_first(), b);
        assert((a + b).drop_first() =~= a.drop_first() + b);
        assert((a + b)[0] == a[0]);
    }
}

} // verus!

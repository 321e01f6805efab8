//! Text: what the shell cuts, joins and compares, over sequences of characters.

use vstd::prelude::*;
use vstd::utf8::*;

verus! {

// ---------------------------------------------------------------- model

/// The characters with the Unicode `White_Space` property.
pub open spec fn is_space(c: char) -> bool {
    let n = c as u32;
    ||| 0x9 <= n <= 0xd
    ||| n == 0x20
    ||| n == 0x85
    ||| n == 0xa0
    ||| n == 0x1680
    ||| 0x2000 <= n <= 0x200a
    ||| n == 0x2028
    ||| n == 0x2029
    ||| n == 0x202f
    ||| n == 0x205f
    ||| n == 0x3000
}

/// `s` without its leading white space.
pub open spec fn trim_start(s: Seq<char>) -> Seq<char>
    decreases s.len(),
{
    if s.len() > 0 && is_space(s[0]) {
        trim_start(s.drop_first())
    } else {
        s
    }
}

/// `s` without its trailing white space.
pub open spec fn trim_end(s: Seq<char>) -> Seq<char>
    decreases s.len(),
{
    if s.len() > 0 && is_space(s.last()) {
        trim_end(s.drop_last())
    } else {
        s
    }
}

/// `s` without the white space at either end.
pub open spec fn trimmed(s: Seq<char>) -> Seq<char> {
    trim_end(trim_start(s))
}

/// The position of the first `c` in `s`, or the length of `s`.
pub open spec fn find(s: Seq<char>, c: char) -> int
    decreases s.len(),
{
    if s.len() == 0 || s[0] == c {
        0
    } else {
        1 + find(s.drop_first(), c)
    }
}

/// The pieces of `s` between the occurrences of `c`, in order.
pub open spec fn split(s: Seq<char>, c: char) -> Seq<Seq<char>>
    decreases s.len(),
{
    let i = find(s, c);
    if 0 <= i < s.len() {
        seq![s.take(i)] + split(s.skip(i + 1), c)
    } else {
        seq![s]
    }
}

/// `s` begins with `p`.
pub open spec fn has_prefix(s: Seq<char>, p: Seq<char>) -> bool {
    p.len() <= s.len() && s.take(p.len() as int) == p
}

/// The views of the pieces of a text.
pub open spec fn views(v: Seq<&str>) -> Seq<Seq<char>> {
    v.map_values(|x: &str| x@)
}

// ---------------------------------------------------------------- code

/// `String::push`: appends one character.
pub assume_specification[ String::push ](s: &mut String, c: char)
    ensures
        final(s)@ == old(s)@.push(c),
;

/// The characters of a text.
pub fn chars_of(s: &str) -> (r: Vec<char>)
    ensures
        r@ == s@,
{
    let mut out: Vec<char> = Vec::new();
    for c in it: s.chars()
        invariant
            it.seq() == s@,
            out@ == s@.take(it.index()),
    {
        out.push(c);
        assert(out@ == s@.take(it.index() + 1));
    }
    assert(out@ == s@);
    out
}

/// Where the first white space stands.
pub open spec fn find_space(s: Seq<char>) -> int
    decreases s.len(),
{
    if s.len() == 0 || is_space(s[0]) {
        0
    } else {
        1 + find_space(s.drop_first())
    }
}

/// The first `c` stands where none stands before it.
pub proof fn lemma_find(s: Seq<char>, c: char, i: int)
    requires
        0 <= i <= s.len(),
        forall|j: int| 0 <= j < i ==> s[j] != c,
        i < s.len() ==> s[i] == c,
    ensures
        find(s, c) == i,
    decreases s.len(),
{
    if i > 0 {
        lemma_find(s.drop_first(), c, i - 1);
    }
}

/// What stands where the first `c` is found, and before it.
pub proof fn lemma_find_is(s: Seq<char>, c: char)
    ensures
        0 <= find(s, c) <= s.len(),
        forall|j: int| 0 <= j < find(s, c) ==> s[j] != c,
        find(s, c) < s.len() ==> s[find(s, c)] == c,
    decreases s.len(),
{
    if s.len() > 0 && s[0] != c {
        let t = s.drop_first();
        lemma_find_is(t, c);
        assert forall|j: int| 0 <= j < find(s, c) implies s[j] != c by {
            if j > 0 {
                assert(s[j] == t[j - 1]);
            }
        }
    }
}

/// The first white space stands where none stands before it.
pub proof fn lemma_find_space(s: Seq<char>, i: int)
    requires
        0 <= i <= s.len(),
        forall|j: int| 0 <= j < i ==> !is_space(#[trigger] s[j]),
        i < s.len() ==> is_space(s[i]),
    ensures
        find_space(s) == i,
    decreases s.len(),
{
    if i > 0 {
        assert(!is_space(s[0]));
        lemma_find_space(s.drop_first(), i - 1);
    }
}

/// What is left behind the leading white space.
pub proof fn lemma_trim_start(s: Seq<char>, i: int)
    requires
        0 <= i <= s.len(),
        forall|j: int| 0 <= j < i ==> is_space(#[trigger] s[j]),
        i < s.len() ==> !is_space(s[i]),
    ensures
        trim_start(s) == s.skip(i),
    decreases s.len(),
{
    if i > 0 {
        assert(is_space(s[0]));
        lemma_trim_start(s.drop_first(), i - 1);
        assert(s.drop_first().skip(i - 1) == s.skip(i));
    } else {
        assert(s.skip(0) == s);
    }
}

/// What is left before the trailing white space.
pub proof fn lemma_trim_end(s: Seq<char>, i: int)
    requires
        0 <= i <= s.len(),
        forall|j: int| i <= j < s.len() ==> is_space(#[trigger] s[j]),
        i > 0 ==> !is_space(s[i - 1]),
    ensures
        trim_end(s) == s.take(i),
    decreases s.len(),
{
    if i < s.len() {
        assert(is_space(s[s.len() - 1]));
        lemma_trim_end(s.drop_last(), i);
        assert(s.drop_last().take(i) == s.take(i));
    } else {
        assert(s.take(i) == s);
    }
}

proof fn lemma_trim_start_len(s: Seq<char>)
    ensures
        trim_start(s).len() <= s.len(),
    decreases s.len(),
{
    if s.len() > 0 && is_space(s[0]) {
        lemma_trim_start_len(s.drop_first());
    }
}

proof fn lemma_trim_end_len(s: Seq<char>)
    ensures
        trim_end(s).len() <= s.len(),
    decreases s.len(),
{
    if s.len() > 0 && is_space(s.last()) {
        lemma_trim_end_len(s.drop_last());
    }
}

/// Trimming does not make a text longer.
pub proof fn lemma_trimmed_len(s: Seq<char>)
    ensures
        trimmed(s).len() <= s.len(),
{
    lemma_trim_start_len(s);
    lemma_trim_end_len(trim_start(s));
}

/// A character that does not break a line.
pub open spec fn in_line() -> spec_fn(char) -> bool {
    |c: char| c != '\n' && c != '\r'
}

/// `s` without its line breaks.
pub open spec fn unbroken(s: Seq<char>) -> Seq<char> {
    s.filter(in_line())
}

/// A text without its line breaks.
pub fn unbreak(s: &str) -> (r: String)
    ensures
        r@ == unbroken(s@),
        r@.len() <= s@.len(),
{
    let cs: Vec<char> = chars_of(s);
    let mut out: String = String::new();
    let mut i: usize = 0;
    proof {
        reveal(Seq::filter);
        assert(cs@.take(0) == Seq::<char>::empty());
        s@.lemma_filter_len(in_line());
    }
    while i < cs.len()
        invariant
            i <= cs@.len(),
            out@ == unbroken(cs@.take(i as int)),
        decreases cs@.len() - i,
    {
        let c: char = cs[i];
        if c != '\n' && c != '\r' {
            out.push(c);
        }
        proof {
            reveal(Seq::filter);
            let next = cs@.take(i + 1);
            assert(next.drop_last() == cs@.take(i as int));
            assert(next.last() == c);
        }
        i += 1;
    }
    assert(cs@.take(cs@.len() as int) == s@);
    out
}

/// Whether a character is white space.
pub fn space(c: char) -> (r: bool)
    ensures
        r == is_space(c),
{
    let n: u32 = c as u32;
    (0x9 <= n && n <= 0xd) || n == 0x20 || n == 0x85 || n == 0xa0 || n == 0x1680 || (0x2000 <= n
        && n <= 0x200a) || n == 0x2028 || n == 0x2029 || n == 0x202f || n == 0x205f || n == 0x3000
}

/// A text without the white space at either end.
pub fn trim(s: &str) -> (r: &str)
    ensures
        r@ == trimmed(s@),
{
    let cs: Vec<char> = chars_of(s);
    let mut i: usize = 0;
    while i < cs.len() && space(cs[i])
        invariant
            i <= cs@.len(),
            forall|j: int| 0 <= j < i ==> is_space(#[trigger] cs@[j]),
        decreases cs@.len() - i,
    {
        i += 1;
    }
    let mut k: usize = cs.len();
    while i < k && space(cs[k - 1])
        invariant
            i <= k <= cs@.len(),
            forall|j: int| k <= j < cs@.len() ==> is_space(#[trigger] cs@[j]),
        decreases k,
    {
        k -= 1;
    }
    proof {
        lemma_trim_start(s@, i as int);
        let t = s@.skip(i as int);
        assert forall|j: int| k - i <= j < t.len() implies is_space(#[trigger] t[j]) by {
            assert(t[j] == cs@[j + i]);
        }
        lemma_trim_end(t, k - i);
        assert(t.take(k - i) == s@.subrange(i as int, k as int));
    }
    s.substring_char(i, k)
}

/// The pieces of a text between the occurrences of a character.
pub fn split_on(s: &str, sep: char) -> (r: Vec<&str>)
    ensures
        views(r@) == split(s@, sep),
{
    let cs: Vec<char> = chars_of(s);
    let mut out: Vec<&str> = Vec::new();
    let mut start: usize = 0;
    let mut i: usize = 0;
    assert(s@.skip(0) == s@);
    assert(views(out@) + split(s@, sep) == split(s@, sep));
    while i < cs.len()
        invariant
            start <= i <= cs@.len(),
            cs@ == s@,
            forall|j: int| start <= j < i ==> cs@[j] != sep,
            views(out@) + split(s@.skip(start as int), sep) == split(s@, sep),
        decreases cs@.len() - i,
    {
        if cs[i] == sep {
            let ghost rest = s@.skip(start as int);
            let ghost before = views(out@);
            proof {
                assert forall|j: int| 0 <= j < i - start implies rest[j] != sep by {
                    assert(rest[j] == cs@[j + start]);
                }
                lemma_find(rest, sep, i - start);
            }
            let piece = s.substring_char(start, i);
            out.push(piece);
            proof {
                assert(views(out@) == before.push(piece@));
                assert(rest.take(i - start) == piece@);
                assert(rest.skip(i - start + 1) == s@.skip(i + 1));
                assert(before + (seq![piece@] + split(s@.skip(i + 1), sep)) == before.push(piece@)
                    + split(s@.skip(i + 1), sep));
            }
            start = i + 1;
        }
        i += 1;
    }
    let ghost rest = s@.skip(start as int);
    let ghost before = views(out@);
    proof {
        assert forall|j: int| 0 <= j < rest.len() implies rest[j] != sep by {
            assert(rest[j] == cs@[j + start]);
        }
        lemma_find(rest, sep, rest.len() as int);
    }
    let piece = s.substring_char(start, i);
    out.push(piece);
    proof {
        assert(views(out@) == before.push(piece@));
        assert(piece@ == rest);
        assert(before + seq![rest] == before.push(rest));
    }
    out
}

/// What follows `p` in a text that begins with it.
pub fn after_prefix<'a>(s: &'a str, p: &str) -> (r: Option<&'a str>)
    ensures
        r is Some <==> has_prefix(s@, p@),
        r matches Some(t) ==> t@ == s@.skip(p@.len() as int),
{
    let cs: Vec<char> = chars_of(s);
    let ps: Vec<char> = chars_of(p);
    if ps.len() > cs.len() {
        return None;
    }
    let mut i: usize = 0;
    while i < ps.len()
        invariant
            i <= ps@.len() <= cs@.len(),
            cs@ == s@,
            ps@ == p@,
            forall|j: int| 0 <= j < i ==> cs@[j] == ps@[j],
        decreases ps@.len() - i,
    {
        if cs[i] != ps[i] {
            assert(s@.take(p@.len() as int)[i as int] != p@[i as int]);
            return None;
        }
        i += 1;
    }
    assert(s@.take(p@.len() as int) == p@);
    Some(s.substring_char(ps.len(), cs.len()))
}

/// `p` stands somewhere in `s`.
pub open spec fn contains_text(s: Seq<char>, p: Seq<char>) -> bool {
    exists|i: int| 0 <= i <= s.len() && has_prefix(#[trigger] s.skip(i), p)
}

/// Whether one text stands somewhere in another.
pub fn contains(s: &str, p: &str) -> (r: bool)
    ensures
        r == contains_text(s@, p@),
{
    let n: usize = s.unicode_len();
    let mut i: usize = 0;
    while i <= n
        invariant
            i <= n + 1,
            n == s@.len(),
            forall|j: int| 0 <= j < i ==> !has_prefix(#[trigger] s@.skip(j), p@),
        decreases n + 1 - i,
    {
        let rest: &str = s.substring_char(i, n);
        assert(rest@ == s@.skip(i as int));
        if after_prefix(rest, p).is_some() {
            return true;
        }
        if i == n {
            return false;
        }
        i += 1;
    }
    false
}

/// Two texts have the same bytes only when they have the same characters.
pub proof fn lemma_utf8_injective(a: Seq<char>, b: Seq<char>)
    requires
        encode_utf8(a) == encode_utf8(b),
    ensures
        a == b,
{
    encode_utf8_decode_utf8(a);
    encode_utf8_decode_utf8(b);
}

/// Whether two texts are the same.
pub fn same(a: &str, b: &str) -> (r: bool)
    ensures
        r == (a@ == b@),
{
    let x: &[u8] = a.as_bytes();
    let y: &[u8] = b.as_bytes();
    if x.len() != y.len() {
        return false;
    }
    let mut i: usize = 0;
    while i < x.len()
        invariant
            i <= x@.len() == y@.len(),
            x@ == encode_utf8(a@),
            y@ == encode_utf8(b@),
            forall|j: int| 0 <= j < i ==> x@[j] == y@[j],
        decreases x@.len() - i,
    {
        if x[i] != y[i] {
            return false;
        }
        i += 1;
    }
    proof {
        assert(x@ == y@);
        lemma_utf8_injective(a@, b@);
    }
    true
}

/// The first run of characters that are not white space.
pub open spec fn word(s: Seq<char>) -> Seq<char> {
    trim_start(s).take(find_space(trim_start(s)))
}

/// What follows the first word.
pub open spec fn after_word(s: Seq<char>) -> Seq<char> {
    trim_start(s).skip(find_space(trim_start(s)))
}

/// The first word of a text, which is empty if there is none, and what follows it.
pub fn next_word(s: &str) -> (r: (&str, &str))
    ensures
        r.0@ == word(s@),
        r.1@ == after_word(s@),
{
    let cs: Vec<char> = chars_of(s);
    let mut i: usize = 0;
    while i < cs.len() && space(cs[i])
        invariant
            i <= cs@.len(),
            forall|j: int| 0 <= j < i ==> is_space(#[trigger] cs@[j]),
        decreases cs@.len() - i,
    {
        i += 1;
    }
    let mut k: usize = i;
    while k < cs.len() && !space(cs[k])
        invariant
            i <= k <= cs@.len(),
            forall|j: int| i <= j < k ==> !is_space(#[trigger] cs@[j]),
        decreases cs@.len() - k,
    {
        k += 1;
    }
    proof {
        lemma_trim_start(s@, i as int);
        let t = s@.skip(i as int);
        assert forall|j: int| 0 <= j < k - i implies !is_space(#[trigger] t[j]) by {
            assert(t[j] == cs@[j + i]);
        }
        lemma_find_space(t, k - i);
        assert(t.take(k - i) == s@.subrange(i as int, k as int));
        assert(t.skip(k - i) == s@.subrange(k as int, s@.len() as int));
    }
    (s.substring_char(i, k), s.substring_char(k, cs.len()))
}

/// The part of `s` before the first `c`; all of it if there is none.
pub open spec fn until(s: Seq<char>, c: char) -> Seq<char> {
    s.take(find(s, c))
}

/// The part of `s` behind the first `c`; nothing if there is none.
pub open spec fn beyond(s: Seq<char>, c: char) -> Seq<char> {
    if find(s, c) < s.len() {
        s.skip(find(s, c) + 1)
    } else {
        Seq::empty()
    }
}

/// The parts of a text on either side of the first `c`.
pub fn cut(s: &str, c: char) -> (r: (&str, &str))
    ensures
        r.0@ == until(s@, c),
        r.1@ == beyond(s@, c),
{
    let cs: Vec<char> = chars_of(s);
    let mut i: usize = 0;
    while i < cs.len() && cs[i] != c
        invariant
            i <= cs@.len(),
            forall|j: int| 0 <= j < i ==> cs@[j] != c,
        decreases cs@.len() - i,
    {
        i += 1;
    }
    proof {
        lemma_find(s@, c, i as int);
        assert(s@.take(i as int) == s@.subrange(0, i as int));
    }
    if i < cs.len() {
        assert(s@.skip(i + 1) == s@.subrange(i + 1, s@.len() as int));
        (s.substring_char(0, i), s.substring_char(i + 1, cs.len()))
    } else {
        assert(s@.subrange(i as int, i as int) == Seq::<char>::empty());
        (s.substring_char(0, i), s.substring_char(i, i))
    }
}

/// What follows `p` in the first piece that begins with it.
pub open spec fn first_with_prefix(pieces: Seq<Seq<char>>, p: Seq<char>) -> Option<Seq<char>>
    decreases pieces.len(),
{
    if pieces.len() == 0 {
        None
    } else if has_prefix(pieces[0], p) {
        Some(pieces[0].skip(p.len() as int))
    } else {
        first_with_prefix(pieces.drop_first(), p)
    }
}

/// The value of a query parameter, whose name is given with its `=`: that of the first piece
/// between `&` that begins so.
pub open spec fn param_of(query: Seq<char>, p: Seq<char>) -> Option<Seq<char>> {
    first_with_prefix(split(query, '&'), p)
}

/// The value of a query parameter.
pub fn param<'a>(query: &'a str, p: &str) -> (r: Option<&'a str>)
    ensures
        match r {
            Some(v) => param_of(query@, p@) == Some(v@),
            None => param_of(query@, p@) is None,
        },
{
    let pieces: Vec<&str> = split_on(query, '&');
    let ghost all = views(pieces@);
    let mut i: usize = 0;
    assert(all.skip(0) == all);
    while i < pieces.len()
        invariant
            i <= pieces@.len(),
            all == views(pieces@),
            all == split(query@, '&'),
            first_with_prefix(all, p@) == first_with_prefix(all.skip(i as int), p@),
        decreases pieces@.len() - i,
    {
        assert(all.skip(i as int)[0] == pieces@[i as int]@);
        assert(all.skip(i as int).drop_first() == all.skip(i + 1));
        match after_prefix(pieces[i], p) {
            Some(v) => return Some(v),
            None => {},
        }
        i += 1;
    }
    None
}

/// A character with the letters `A` to `Z` in lower case.
pub open spec fn lower_char(c: char) -> char {
    if 'A' <= c <= 'Z' {
        (c as u32 + 32) as char
    } else {
        c
    }
}

/// A text with the letters `A` to `Z` in lower case.
pub open spec fn lowered(s: Seq<char>) -> Seq<char> {
    s.map_values(|c: char| lower_char(c))
}

/// A text with the letters `A` to `Z` in lower case.
pub fn to_lower(s: &str) -> (r: String)
    ensures
        r@ == lowered(s@),
{
    let cs: Vec<char> = chars_of(s);
    let mut out: String = String::new();
    let mut i: usize = 0;
    while i < cs.len()
        invariant
            i <= cs@.len(),
            out@ == lowered(cs@.take(i as int)),
        decreases cs@.len() - i,
    {
        let c: char = cs[i];
        if 'A' <= c && c <= 'Z' {
            out.push((c as u8 + 32) as char);
        } else {
            out.push(c);
        }
        i += 1;
        assert(cs@.take(i as int) == cs@.take(i - 1).push(c));
        assert(lowered(cs@.take(i as int)) == lowered(cs@.take(i - 1)).push(lower_char(c)));
    }
    assert(cs@.take(cs@.len() as int) == cs@);
    out
}

// ---------------------------------------------------------------- laws

/// White space is the tab, the line breaks, the space, and the separators of other scripts.
pub proof fn law_white_space(c: char)
    ensures
        is_space(c) <==> c == '\t' || c == '\n' || c == '\u{b}' || c == '\u{c}' || c == '\r' || c == ' '
            || c == '\u{85}' || c == '\u{a0}' || c == '\u{1680}' || ('\u{2000}' <= c && c <= '\u{200a}')
            || c == '\u{2028}' || c == '\u{2029}' || c == '\u{202f}' || c == '\u{205f}' || c
            == '\u{3000}',
{
}

/// Trimming takes away the white space around a text, and nothing else of it.
pub proof fn law_trimming_takes_the_edges(a: Seq<char>, s: Seq<char>, b: Seq<char>)
    requires
        forall|i: int| 0 <= i < a.len() ==> is_space(#[trigger] a[i]),
        forall|i: int| 0 <= i < b.len() ==> is_space(#[trigger] b[i]),
        s.len() > 0 ==> !is_space(s[0]) && !is_space(s.last()),
    ensures
        trimmed(a + s + b) == s,
{
    let whole = a + s + b;
    if s.len() > 0 {
        let n = a.len() as int;
        assert forall|j: int| 0 <= j < n implies is_space(#[trigger] whole[j]) by {
            assert(whole[j] == a[j]);
        }
        assert(whole[n] == s[0]);
        lemma_trim_start(whole, n);
        let t = whole.skip(n);
        assert(t == s + b);
        assert forall|j: int| s.len() <= j < t.len() implies is_space(#[trigger] t[j]) by {
            assert(t[j] == b[j - s.len()]);
        }
        assert(t[s.len() - 1] == s.last());
        lemma_trim_end(t, s.len() as int);
        assert(t.take(s.len() as int) == s);
    } else {
        assert forall|j: int| 0 <= j < whole.len() implies is_space(#[trigger] whole[j]) by {
            if j < a.len() {
                assert(whole[j] == a[j]);
            } else {
                assert(whole[j] == b[j - a.len()]);
            }
        }
        lemma_trim_start(whole, whole.len() as int);
        assert(whole.skip(whole.len() as int) == Seq::<char>::empty());
        assert(trimmed(whole) == Seq::<char>::empty());
        assert(s == Seq::<char>::empty());
    }
}

/// The first piece of a text reaches to the first separator, and the others are those of what
/// follows it. A text without a separator is its own only piece.
pub proof fn law_split_takes_piece_by_piece(a: Seq<char>, c: char, rest: Seq<char>)
    requires
        forall|i: int| 0 <= i < a.len() ==> a[i] != c,
    ensures
        split(a + seq![c] + rest, c) == seq![a] + split(rest, c),
        split(a, c) == seq![a],
{
    let s = a + seq![c] + rest;
    let n = a.len() as int;
    assert forall|j: int| 0 <= j < n implies s[j] != c by {
        assert(s[j] == a[j]);
    }
    lemma_find(s, c, n);
    assert(s.take(n) == a);
    assert(s.skip(n + 1) == rest);
    lemma_find(a, c, n);
}

proof fn lemma_piece_stands_in_text(s: Seq<char>, c: char, p: Seq<char>)
    requires
        split(s, c).contains(p),
    ensures
        exists|a: Seq<char>, b: Seq<char>| #[trigger]
            (a + p + b) == s && (a.len() == 0 || a.last() == c) && (b.len() == 0 || b[0] == c),
    decreases s.len(),
{
    let i = find(s, c);
    lemma_find_is(s, c);
    let none = Seq::<char>::empty();
    if i == s.len() {
        assert(split(s, c) == seq![s]);
        assert(none + p + none == s);
    } else {
        let rest = s.skip(i + 1);
        let pieces = seq![s.take(i)] + split(rest, c);
        assert(split(s, c) == pieces);
        if p == s.take(i) {
            let b = s.skip(i);
            assert(none + p + b == s);
            assert(b[0] == c);
        } else {
            let k = choose|k: int| 0 <= k < pieces.len() && pieces[k] == p;
            assert(split(rest, c)[k - 1] == p);
            lemma_piece_stands_in_text(rest, c, p);
            let (x, b) = choose|x: Seq<char>, b: Seq<char>| #[trigger]
                (x + p + b) == rest && (x.len() == 0 || x.last() == c) && (b.len() == 0 || b[0]
                    == c);
            let a = s.take(i + 1) + x;
            assert(s == s.take(i + 1) + rest);
            assert(a + p + b == s);
            if x.len() == 0 {
                assert(a.last() == s[i]);
            } else {
                assert(a.last() == x.last());
            }
        }
    }
}

proof fn lemma_text_between_is_piece(a: Seq<char>, c: char, p: Seq<char>, b: Seq<char>)
    requires
        forall|i: int| 0 <= i < p.len() ==> p[i] != c,
        a.len() == 0 || a.last() == c,
        b.len() == 0 || b[0] == c,
    ensures
        split(a + p + b, c).contains(p),
    decreases a.len(),
{
    let s = a + p + b;
    if a.len() == 0 {
        assert(s == p + b);
        assert forall|j: int| 0 <= j < p.len() implies s[j] != c by {
            assert(s[j] == p[j]);
        }
        if b.len() > 0 {
            assert(s[p.len() as int] == b[0]);
        }
        lemma_find(s, c, p.len() as int);
        assert(s.take(p.len() as int) == p);
        assert(split(s, c)[0] == p);
    } else {
        let i = find(s, c);
        lemma_find_is(s, c);
        assert(s[a.len() - 1] == a.last());
        assert(i <= a.len() - 1);
        let x = a.skip(i + 1);
        assert(s.skip(i + 1) == x + p + b);
        if x.len() > 0 {
            assert(x.last() == a.last());
        }
        lemma_text_between_is_piece(x, c, p, b);
        let k = choose|k: int|
            0 <= k < split(x + p + b, c).len() && split(x + p + b, c)[k] == p;
        assert(split(s, c)[k + 1] == p);
    }
}

/// A text is a piece of another exactly where it stands there between two separators, or between
/// one and an end, and holds none itself.
pub proof fn law_pieces_stand_between_separators(s: Seq<char>, c: char, p: Seq<char>)
    requires
        forall|i: int| 0 <= i < p.len() ==> p[i] != c,
    ensures
        split(s, c).contains(p) <==> exists|a: Seq<char>, b: Seq<char>| #[trigger]
            (a + p + b) == s && (a.len() == 0 || a.last() == c) && (b.len() == 0 || b[0] == c),
{
    if split(s, c).contains(p) {
        lemma_piece_stands_in_text(s, c, p);
    }
    if exists|a: Seq<char>, b: Seq<char>| #[trigger]
        (a + p + b) == s && (a.len() == 0 || a.last() == c) && (b.len() == 0 || b[0] == c) {
        let (a, b) = choose|a: Seq<char>, b: Seq<char>| #[trigger]
            (a + p + b) == s && (a.len() == 0 || a.last() == c) && (b.len() == 0 || b[0] == c);
        lemma_text_between_is_piece(a, c, p, b);
    }
}

/// A text stands in another exactly where the other is the text with something before and behind.
pub proof fn law_contained_text_has_two_sides(s: Seq<char>, p: Seq<char>)
    ensures
        contains_text(s, p) <==> exists|a: Seq<char>, b: Seq<char>| #[trigger] (a + p + b) == s,
{
    if contains_text(s, p) {
        let i = choose|i: int| 0 <= i <= s.len() && has_prefix(#[trigger] s.skip(i), p);
        let t = s.skip(i);
        let a = s.take(i);
        let b = t.skip(p.len() as int);
        assert(t == t.take(p.len() as int) + b);
        assert(a + p + b == s);
    }
    if exists|a: Seq<char>, b: Seq<char>| #[trigger] (a + p + b) == s {
        let (a, b) = choose|a: Seq<char>, b: Seq<char>| #[trigger] (a + p + b) == s;
        let t = s.skip(a.len() as int);
        assert(t == p + b);
        assert(t.take(p.len() as int) == p);
    }
}

/// A text is cut at the first separator: what stands before it and what stands behind it. One
/// without a separator is kept whole.
pub proof fn law_cut_is_at_the_first(a: Seq<char>, c: char, rest: Seq<char>)
    requires
        forall|i: int| 0 <= i < a.len() ==> a[i] != c,
    ensures
        until(a + seq![c] + rest, c) == a,
        beyond(a + seq![c] + rest, c) == rest,
        until(a, c) == a,
        beyond(a, c) == Seq::<char>::empty(),
{
    let s = a + seq![c] + rest;
    let n = a.len() as int;
    assert forall|j: int| 0 <= j < n implies s[j] != c by {
        assert(s[j] == a[j]);
    }
    lemma_find(s, c, n);
    lemma_find(a, c, n);
    assert(s.take(n) == a);
    assert(s.skip(n + 1) == rest);
    assert(a.take(n) == a);
}

/// The first word of a text stands behind its leading white space, and reaches to the next.
pub proof fn law_words_stand_between_spaces(a: Seq<char>, w: Seq<char>, rest: Seq<char>)
    requires
        forall|i: int| 0 <= i < a.len() ==> is_space(#[trigger] a[i]),
        forall|i: int| 0 <= i < w.len() ==> !is_space(#[trigger] w[i]),
        w.len() > 0,
        rest.len() == 0 || is_space(rest[0]),
    ensures
        word(a + w + rest) == w,
        after_word(a + w + rest) == rest,
{
    let s = a + w + rest;
    let n = a.len() as int;
    assert forall|j: int| 0 <= j < n implies is_space(#[trigger] s[j]) by {
        assert(s[j] == a[j]);
    }
    assert(s[n] == w[0]);
    lemma_trim_start(s, n);
    let t = s.skip(n);
    assert(t == w + rest);
    let m = w.len() as int;
    assert forall|j: int| 0 <= j < m implies !is_space(#[trigger] t[j]) by {
        assert(t[j] == w[j]);
    }
    if rest.len() > 0 {
        assert(t[m] == rest[0]);
    }
    lemma_find_space(t, m);
    assert(t.take(m) == w);
    assert(t.skip(m) == rest);
}

/// A query parameter has the value of the first piece that begins with its name: pieces that begin
/// otherwise are passed over, and those behind it do not count.
pub proof fn law_the_first_parameter_counts(a: Seq<char>, p: Seq<char>, v: Seq<char>, rest: Seq<char>)
    requires
        forall|i: int| 0 <= i < a.len() ==> a[i] != '&',
        !has_prefix(a, p),
        forall|i: int| 0 <= i < p.len() ==> p[i] != '&',
        forall|i: int| 0 <= i < v.len() ==> v[i] != '&',
    ensures
        param_of(p + v, p) == Some(v),
        param_of(p + v + seq!['&'] + rest, p) == Some(v),
        param_of(a + seq!['&'] + rest, p) == param_of(rest, p),
        param_of(a, p) is None,
{
    let x = p + v;
    assert forall|i: int| 0 <= i < x.len() implies x[i] != '&' by {
        if i < p.len() {
            assert(x[i] == p[i]);
        } else {
            assert(x[i] == v[i - p.len()]);
        }
    }
    assert(x.take(p.len() as int) == p);
    assert(x.skip(p.len() as int) == v);
    law_split_takes_piece_by_piece(x, '&', rest);
    law_split_takes_piece_by_piece(a, '&', rest);
    assert((seq![a] + split(rest, '&')).drop_first() == split(rest, '&'));
    assert(seq![a].drop_first() == Seq::<Seq<char>>::empty());
    assert(split(a + seq!['&'] + rest, '&')[0] == a);
    assert(split(x + seq!['&'] + rest, '&')[0] == x);
    assert(first_with_prefix(Seq::<Seq<char>>::empty(), p) is None);
}

/// Lower case is made letter by letter: the letters A to Z become a to z, and nothing else changes.
pub proof fn law_lower_case_is_made_letter_by_letter(s: Seq<char>)
    ensures
        lowered(s).len() == s.len(),
        forall|i: int|
            0 <= i < s.len() ==> (if 'A' <= #[trigger] s[i] && s[i] <= 'Z' {
                lowered(s)[i] as u32 == s[i] as u32 + 32
            } else {
                lowered(s)[i] == s[i]
            }),
{
}

/// Joining lines takes away the line breaks and keeps everything else in its order.
pub proof fn law_lines_are_joined(a: Seq<char>, b: Seq<char>)
    requires
        forall|i: int| 0 <= i < a.len() ==> a[i] != '\n' && a[i] != '\r',
    ensures
        unbroken(a) == a,
        unbroken(a + seq!['\n'] + b) == a + unbroken(b),
        unbroken(a + seq!['\r'] + b) == a + unbroken(b),
    decreases a.len(),
{
    reveal(Seq::filter);
    if a.len() > 0 {
        let t = a.drop_last();
        assert forall|i: int| 0 <= i < t.len() implies t[i] != '\n' && t[i] != '\r' by {
            assert(t[i] == a[i]);
        }
        law_lines_are_joined(t, b);
        assert(a[a.len() - 1] == a.last());
        assert(t.push(a.last()) == a);
    } else {
        assert(unbroken(a) == a);
    }
    let (n, r) = (seq!['\n'], seq!['\r']);
    assert(n.drop_last() == Seq::<char>::empty() && r.drop_last() == Seq::<char>::empty());
    assert(n.drop_last().filter(in_line()) == Seq::<char>::empty());
    assert(n.last() == '\n' && r.last() == '\r');
    assert(n.filter(in_line()) == Seq::<char>::empty());
    assert(r.filter(in_line()) == Seq::<char>::empty());
    Seq::filter_distributes_over_add(a + n, b, in_line());
    Seq::filter_distributes_over_add(a, n, in_line());
    Seq::filter_distributes_over_add(a + r, b, in_line());
    Seq::filter_distributes_over_add(a, r, in_line());
    assert(a + Seq::<char>::empty() == a);
}

} // verus!

//! Package names: which of them the plugin manager is ever given, and how they come in a query.

use vstd::prelude::*;
use vstd::utf8::*;

use crate::decode::opt_view;
use crate::encoding::{lossy, utf8_lossy};
use crate::text::{chars_of, param, param_of, same, split, split_on, views};

verus! {

// ---------------------------------------------------------------- names

/// The characters of a package name.
pub open spec fn is_pkg_char(c: char) -> bool {
    'a' <= c <= 'z' || 'A' <= c <= 'Z' || '0' <= c <= '9' || c == '@' || c == '/' || c == '.' || c
        == '_' || c == '-'
}

/// The pieces of a name between its slashes are those of a plain name, or of `@scope/name`.
pub open spec fn is_scoped_at_most(pieces: Seq<Seq<char>>) -> bool {
    pieces.len() == 1 || (pieces.len() == 2 && pieces[0].len() > 1 && pieces[0][0] == '@'
        && pieces[1].len() > 0)
}

/// The name of a package in the registry: not a path, not a flag, not the specification of a
/// file or a link, and nothing that a command line would take apart.
pub open spec fn is_registry_name(s: Seq<char>) -> bool {
    &&& 0 < s.len() <= 200
    &&& s[0] != '-'
    &&& s[0] != '.'
    &&& !split(s, '/').contains(".."@)
    &&& is_scoped_at_most(split(s, '/'))
    &&& forall|i: int| 0 <= i < s.len() ==> is_pkg_char(#[trigger] s[i])
}

/// Whether a text is the name of a package in the registry.
pub fn valid_pkg(name: &str) -> (r: bool)
    ensures
        r == is_registry_name(name@),
{
    let cs: Vec<char> = chars_of(name);
    if cs.len() == 0 || cs.len() > 200 || cs[0] == '-' || cs[0] == '.' {
        return false;
    }
    let mut i: usize = 0;
    while i < cs.len()
        invariant
            i <= cs@.len(),
            cs@ == name@,
            forall|j: int| 0 <= j < i ==> is_pkg_char(#[trigger] name@[j]),
        decreases cs@.len() - i,
    {
        let c: char = cs[i];
        if !(('a' <= c && c <= 'z') || ('A' <= c && c <= 'Z') || ('0' <= c && c <= '9') || c == '@'
            || c == '/' || c == '.' || c == '_' || c == '-') {
            assert(!is_pkg_char(name@[i as int]));
            return false;
        }
        i += 1;
    }
    let pieces: Vec<&str> = split_on(name, '/');
    let ghost all = views(pieces@);
    let mut k: usize = 0;
    while k < pieces.len()
        invariant
            k <= pieces@.len(),
            all == views(pieces@),
            all == split(name@, '/'),
            forall|j: int| 0 <= j < k ==> #[trigger] all[j] != ".."@,
        decreases pieces@.len() - k,
    {
        assert(all[k as int] == pieces@[k as int]@);
        if same(pieces[k], "..") {
            return false;
        }
        k += 1;
    }
    assert(all.len() == pieces@.len());
    if pieces.len() == 1 {
        return true;
    }
    if pieces.len() != 2 {
        return false;
    }
    assert(all[0] == pieces@[0]@ && all[1] == pieces@[1]@);
    let scope: Vec<char> = chars_of(pieces[0]);
    scope.len() > 1 && scope[0] == '@' && !pieces[1].is_empty()
}

/// Nothing but a registry name passes: no flag, no relative path, no climb out of a directory, and
/// no character that separates commands, arguments, drives or protocols.
pub proof fn law_names_carry_nothing_else(s: Seq<char>)
    requires
        is_registry_name(s),
    ensures
        s[0] != '-' && s[0] != '.' && s[0] != '/',
        !split(s, '/').contains(".."@),
        forall|i: int|
            0 <= i < s.len() ==> {
                let c = #[trigger] s[i];
                c != ' ' && c != ';' && c != '&' && c != '|' && c != '\\' && c != ':' && c != '$' && c
                    != '(' && c != ')' && c != '`' && c != '"' && c != '\'' && c != '<' && c != '>'
                    && c != '%' && c != '^' && c != '!' && c != '\n'
            },
{
    assert forall|i: int| 0 <= i < s.len() implies {
        let c = #[trigger] s[i];
        c != ' ' && c != ';' && c != '&' && c != '|' && c != '\\' && c != ':' && c != '$' && c != '('
            && c != ')' && c != '`' && c != '"' && c != '\'' && c != '<' && c != '>' && c != '%' && c
            != '^' && c != '!' && c != '\n'
    } by {
        assert(is_pkg_char(s[i]));
    }
    if s[0] == '/' {
        crate::text::lemma_find(s, '/', 0);
        assert(s.take(0).len() == 0);
        assert(split(s, '/')[0] == s.take(0));
        crate::text::lemma_find_is(s.skip(1), '/');
        assert(split(s.skip(1), '/').len() >= 1);
    }
}

// ---------------------------------------------------------------- percent encoding

/// The value of a hexadecimal digit.
pub open spec fn nibble(c: u8) -> Option<u8> {
    if 48 <= c <= 57 {
        Some((c - 48) as u8)
    } else if 97 <= c <= 102 {
        Some((c - 87) as u8)
    } else if 65 <= c <= 70 {
        Some((c - 55) as u8)
    } else {
        None
    }
}

/// Some bytes begin with an escape: `%` and two hexadecimal digits.
pub open spec fn is_escape(b: Seq<u8>) -> bool {
    b.len() > 2 && b[0] == 37 && nibble(b[1]) is Some && nibble(b[2]) is Some
}

/// Bytes with their escapes undone. A `%` that begins none stands for itself.
pub open spec fn unescaped(b: Seq<u8>) -> Seq<u8>
    decreases b.len(),
{
    if b.len() == 0 {
        Seq::empty()
    } else if is_escape(b) {
        seq![(nibble(b[1])->0 * 16 + nibble(b[2])->0) as u8] + unescaped(b.skip(3))
    } else {
        seq![b[0]] + unescaped(b.skip(1))
    }
}

/// The value of a hexadecimal digit.
pub fn hex(c: u8) -> (r: Option<u8>)
    ensures
        r == nibble(c),
{
    if 48 <= c && c <= 57 {
        Some(c - 48)
    } else if 97 <= c && c <= 102 {
        Some(c - 87)
    } else if 65 <= c && c <= 70 {
        Some(c - 55)
    } else {
        None
    }
}

/// Undoes the escapes in some bytes.
pub fn unescape(b: &[u8]) -> (r: Vec<u8>)
    ensures
        r@ == unescaped(b@),
{
    let mut out: Vec<u8> = Vec::new();
    let mut i: usize = 0;
    assert(b@.skip(0) == b@);
    assert(out@ + unescaped(b@) == unescaped(b@));
    while i < b.len()
        invariant
            i <= b@.len(),
            out@ + unescaped(b@.skip(i as int)) == unescaped(b@),
        decreases b@.len() - i,
    {
        let ghost rest = b@.skip(i as int);
        let ghost before = out@;
        if b[i] == 37 && b.len() - i > 2 {
            assert(rest[0] == b@[i as int] && rest[1] == b@[i + 1] && rest[2] == b@[i + 2]);
            if let (Some(h), Some(l)) = (hex(b[i + 1]), hex(b[i + 2])) {
                assert(h < 16 && l < 16);
                out.push(h * 16 + l);
                proof {
                    assert(rest.skip(3) == b@.skip(i + 3));
                    let x = (h * 16 + l) as u8;
                    assert(before + (seq![x] + unescaped(b@.skip(i + 3))) == before.push(x)
                        + unescaped(b@.skip(i + 3)));
                }
                i += 3;
                continue ;
            }
        }
        out.push(b[i]);
        proof {
            assert(rest[0] == b@[i as int]);
            assert(!is_escape(rest));
            assert(rest.skip(1) == b@.skip(i + 1));
            let x = b@[i as int];
            assert(before + (seq![x] + unescaped(b@.skip(i + 1))) == before.push(x) + unescaped(
                b@.skip(i + 1),
            ));
        }
        i += 1;
    }
    assert(b@.skip(b@.len() as int) == Seq::<u8>::empty());
    assert(out@ + Seq::<u8>::empty() == out@);
    out
}

/// Undoes the percent encoding of a query parameter.
pub fn pct_decode(s: &str) -> (r: String)
    ensures
        r@ == utf8_lossy(unescaped(encode_utf8(s@))),
        valid_utf8(unescaped(encode_utf8(s@))) ==> r@ == decode_utf8(unescaped(encode_utf8(s@))),
{
    let bytes: Vec<u8> = unescape(s.as_bytes());
    lossy(bytes.as_slice())
}

/// The package that a query names.
pub open spec fn pkg_param(query: Seq<char>) -> Option<Seq<char>> {
    match param_of(query, "pkg="@) {
        Some(v) => Some(utf8_lossy(unescaped(encode_utf8(v)))),
        None => None,
    }
}

/// A query names a package as a page does, which encodes it.
pub open spec fn carries(query: Seq<char>, pkg: Seq<char>) -> bool {
    param_of(query, "pkg="@) == Some(encoded_component(pkg))
}

/// The package that a query names. One that a page has encoded arrives as it was.
pub fn parse_pkg(query: &str) -> (r: Option<String>)
    ensures
        opt_view(r) == pkg_param(query@),
        forall|pkg: Seq<char>| #[trigger] carries(query@, pkg) ==> opt_view(r) == Some(pkg),
{
    match param(query, "pkg=") {
        Some(v) => {
            let r: String = pct_decode(v);
            proof {
                assert forall|pkg: Seq<char>| #[trigger] carries(query@, pkg) implies r@ == pkg by {
                    law_decoding_undoes_encoding(pkg);
                }
            }
            Some(r)
        },
        None => None,
    }
}

// ---------------------------------------------------------------- laws

/// The bytes that a page leaves as they are when it encodes a query parameter.
pub open spec fn is_unreserved(b: u8) -> bool {
    97 <= b <= 122 || 65 <= b <= 90 || 48 <= b <= 57 || b == 45 || b == 95 || b == 46 || b == 33
        || b == 126 || b == 42 || b == 39 || b == 40 || b == 41
}

/// The upper case hexadecimal digit of a number below 16.
pub open spec fn upper_digit(d: int) -> u8 {
    if d < 10 {
        (48 + d) as u8
    } else {
        (55 + d) as u8
    }
}

/// Bytes as a page encodes them for a query parameter.
pub open spec fn escaped(b: Seq<u8>) -> Seq<u8>
    decreases b.len(),
{
    if b.len() == 0 {
        Seq::empty()
    } else if is_unreserved(b[0]) {
        seq![b[0]] + escaped(b.drop_first())
    } else {
        seq![37u8, upper_digit(b[0] as int / 16), upper_digit(b[0] as int % 16)] + escaped(
            b.drop_first(),
        )
    }
}

proof fn lemma_unescape_escaped(b: Seq<u8>)
    ensures
        unescaped(escaped(b)) == b,
        forall|i: int| 0 <= i < escaped(b).len() ==> #[trigger] escaped(b)[i] < 128,
    decreases b.len(),
{
    let e = escaped(b);
    if b.len() == 0 {
    } else {
        let rest = escaped(b.drop_first());
        lemma_unescape_escaped(b.drop_first());
        assert(seq![b[0]] + b.drop_first() == b);
        if is_unreserved(b[0]) {
            assert(e == seq![b[0]] + rest);
            assert(e.skip(1) == rest);
            assert(!is_escape(e));
            assert forall|i: int| 0 <= i < e.len() implies #[trigger] e[i] < 128 by {
                if i > 0 {
                    assert(e[i] == rest[i - 1]);
                }
            }
        } else {
            let (h, l) = (b[0] as int / 16, b[0] as int % 16);
            let head = seq![37u8, upper_digit(h), upper_digit(l)];
            assert(e == head + rest);
            assert(e.skip(3) == rest);
            assert(e[0] == 37 && e[1] == upper_digit(h) && e[2] == upper_digit(l));
            assert(nibble(e[1]) == Some(h as u8) && nibble(e[2]) == Some(l as u8));
            assert(is_escape(e));
            assert forall|i: int| 0 <= i < e.len() implies #[trigger] e[i] < 128 by {
                if i > 2 {
                    assert(e[i] == rest[i - 3]);
                }
            }
        }
    }
}

/// A text as a page encodes it for a query parameter.
pub open spec fn encoded_component(s: Seq<char>) -> Seq<char> {
    let e = escaped(encode_utf8(s));
    Seq::new(e.len(), |i: int| e[i] as char)
}

/// Whatever text a page encodes for a query parameter, decoding its bytes gives back the bytes of
/// that text, and so the text.
pub proof fn law_decoding_undoes_encoding(s: Seq<char>)
    ensures
        unescaped(encode_utf8(encoded_component(s))) == encode_utf8(s),
        valid_utf8(unescaped(encode_utf8(encoded_component(s)))),
        decode_utf8(unescaped(encode_utf8(encoded_component(s)))) == s,
{
    let e = escaped(encode_utf8(s));
    let c = encoded_component(s);
    lemma_unescape_escaped(encode_utf8(s));
    assert(is_ascii_chars(c)) by {
        assert forall|i: int| 0 <= i < c.len() implies '\0' <= #[trigger] c[i] <= '\u{7f}' by {
            assert(e[i] < 128);
        }
    }
    is_ascii_chars_encode_utf8(c);
    assert(encode_utf8(c) == e) by {
        assert forall|i: int| 0 <= i < e.len() implies encode_utf8(c)[i] == e[i] by {
            assert(c[i] as u8 == encode_utf8(c)[i]);
            assert(e[i] < 128);
            assert(c[i] == e[i] as char);
        }
        assert(encode_utf8(c) =~= e);
    }
    encode_utf8_valid_utf8(s);
    encode_utf8_decode_utf8(s);
}

/// A text without `%` is not changed by decoding.
pub proof fn law_text_without_escapes_is_kept(b: Seq<u8>)
    requires
        forall|i: int| 0 <= i < b.len() ==> b[i] != 37,
    ensures
        unescaped(b) == b,
    decreases b.len(),
{
    if b.len() > 0 {
        law_text_without_escapes_is_kept(b.skip(1));
        assert(seq![b[0]] + b.skip(1) == b);
    }
}

/// The names that pass are exactly these: letters, digits and `@ . _ -`, at most 200 of them and
/// beginning with neither a hyphen nor a dot; and such names with one slash inside, which then is
/// that of `@scope/name`, where neither part is missing and the name is not two dots.
pub proof fn law_which_names_pass(s: Seq<char>)
    ensures
        is_registry_name(s) <==> {
            &&& 1 <= s.len() <= 200
            &&& s[0] != '-' && s[0] != '.'
            &&& forall|i: int|
                0 <= i < s.len() ==> ('a' <= #[trigger] s[i] && s[i] <= 'z') || ('A' <= s[i] && s[i]
                    <= 'Z') || ('0' <= s[i] && s[i] <= '9') || s[i] == '@' || s[i] == '/' || s[i]
                    == '.' || s[i] == '_' || s[i] == '-'
            &&& (forall|i: int| 0 <= i < s.len() ==> s[i] != '/') || (s[0] == '@' && exists|k: int|
                {
                    &&& 2 <= k < s.len() - 1
                    &&& #[trigger] s[k] == '/'
                    &&& forall|i: int| 0 <= i < s.len() && i != k ==> s[i] != '/'
                    &&& s.skip(k + 1) != seq!['.', '.']
                })
        },
{
    reveal_strlit("..");
    let dots = ".."@;
    assert(dots == seq!['.', '.']);
    assert forall|i: int| 0 <= i < s.len() implies is_pkg_char(#[trigger] s[i]) == (('a' <= s[i]
        && s[i] <= 'z') || ('A' <= s[i] && s[i] <= 'Z') || ('0' <= s[i] && s[i] <= '9') || s[i]
        == '@' || s[i] == '/' || s[i] == '.' || s[i] == '_' || s[i] == '-') by {}
    let k = crate::text::find(s, '/');
    crate::text::lemma_find_is(s, '/');
    let pieces = split(s, '/');
    if s.len() > 0 && s[0] != '.' {
        if k == s.len() {
            crate::text::law_split_takes_piece_by_piece(s, '/', s);
            assert(pieces == seq![s]);
            assert(!pieces.contains(dots)) by {
                if pieces.contains(dots) {
                    assert(s == dots);
                    assert(s[0] == '.');
                }
            }
        } else {
            let (a, b) = (s.take(k), s.skip(k + 1));
            assert(s == a + seq!['/'] + b);
            crate::text::law_split_takes_piece_by_piece(a, '/', b);
            assert(pieces == seq![a] + split(b, '/'));
            assert(pieces[0] == a);
            let m = crate::text::find(b, '/');
            crate::text::lemma_find_is(b, '/');
            if m == b.len() {
                crate::text::law_split_takes_piece_by_piece(b, '/', b);
                assert(split(b, '/') == seq![b]);
                assert(pieces == seq![a, b]);
                assert(pieces[1] == b);
                assert forall|i: int| 0 <= i < s.len() && i != k implies s[i] != '/' by {
                    if i > k {
                        assert(b[i - k - 1] == s[i]);
                    }
                }
                if k > 0 {
                    assert(a[0] == s[0]);
                }
                if a == dots {
                    assert(a[0] == '.');
                }
                assert(pieces.contains(dots) <==> b == dots) by {
                    if b == dots {
                        assert(pieces[1] == dots);
                    }
                    if pieces.contains(dots) {
                        let n = choose|n: int| 0 <= n < pieces.len() && pieces[n] == dots;
                        assert(n == 0 || n == 1);
                    }
                }
                assert(s[k] == '/');
                if exists|j: int|
                    {
                        &&& 2 <= j < s.len() - 1
                        &&& #[trigger] s[j] == '/'
                        &&& forall|i: int| 0 <= i < s.len() && i != j ==> s[i] != '/'
                        &&& s.skip(j + 1) != seq!['.', '.']
                    } {
                    let j = choose|j: int|
                        {
                            &&& 2 <= j < s.len() - 1
                            &&& #[trigger] s[j] == '/'
                            &&& forall|i: int| 0 <= i < s.len() && i != j ==> s[i] != '/'
                            &&& s.skip(j + 1) != seq!['.', '.']
                        };
                    assert(j == k);
                }
            } else {
                let (x, y) = (b.take(m), b.skip(m + 1));
                assert(b == x + seq!['/'] + y);
                crate::text::law_split_takes_piece_by_piece(x, '/', y);
                assert(split(b, '/') == seq![x] + split(y, '/'));
                crate::text::lemma_find_is(y, '/');
                assert(split(y, '/').len() >= 1);
                assert(pieces.len() >= 3);
                assert(s[k] == '/' && s[k + 1 + m] == b[m]);
            }
        }
    }
}

/// A name of letters, digits, dots, underscores and hyphens.
pub open spec fn is_bare_name(s: Seq<char>) -> bool {
    &&& s.len() > 0
    &&& s[0] != '-' && s[0] != '.'
    &&& forall|i: int|
        0 <= i < s.len() ==> ('a' <= #[trigger] s[i] && s[i] <= 'z') || ('A' <= s[i] && s[i] <= 'Z')
            || ('0' <= s[i] && s[i] <= '9') || s[i] == '.' || s[i] == '_' || s[i] == '-'
}

/// Every name passes that is written `name` or `@scope/name`, if it is not too long.
pub proof fn law_registry_names_pass(scope: Seq<char>, name: Seq<char>)
    requires
        is_bare_name(scope),
        is_bare_name(name),
    ensures
        is_registry_name(name) <==> name.len() <= 200,
        is_registry_name(seq!['@'] + scope + seq!['/'] + name) <==> scope.len() + name.len() + 2
            <= 200,
{
    law_which_names_pass(name);
    let s = seq!['@'] + scope + seq!['/'] + name;
    let k = scope.len() as int + 1;
    law_which_names_pass(s);
    assert forall|i: int| 0 <= i < s.len() implies (i == 0 && s[i] == '@') || (i == k && s[i] == '/')
        || (0 < i < k && s[i] == scope[i - 1]) || (i > k && s[i] == name[i - k - 1]) by {}
    assert(s[k] == '/');
    assert(s.skip(k + 1) == name);
    assert forall|i: int| 0 <= i < s.len() && i != k implies s[i] != '/' by {}
    assert(name != seq!['.', '.']) by {
        if name == seq!['.', '.'] {
            assert(name[0] == '.');
        }
    }
}

/// Escapes are undone one after another: `%` and two hexadecimal digits, of either case, stand for
/// the byte that they write, and every other byte for itself.
pub proof fn law_escapes_are_undone(b: Seq<u8>, hi: int, lo: int, upper: bool)
    requires
        0 <= hi < 16,
        0 <= lo < 16,
    ensures
        unescaped(Seq::<u8>::empty()) == Seq::<u8>::empty(),
        b.len() > 0 && b[0] != 37 ==> unescaped(b) == seq![b[0]] + unescaped(b.skip(1)),
        b.len() > 0 && b.len() < 3 ==> unescaped(b) == seq![b[0]] + unescaped(b.skip(1)),
        ({
            let digit = |d: int|
                if d < 10 {
                    (48 + d) as u8
                } else if upper {
                    (55 + d) as u8
                } else {
                    (87 + d) as u8
                };
            unescaped(seq![37u8, digit(hi), digit(lo)] + b) == seq![(hi * 16 + lo) as u8] + unescaped(
                b,
            )
        }),
{
    let digit = |d: int|
        if d < 10 {
            (48 + d) as u8
        } else if upper {
            (55 + d) as u8
        } else {
            (87 + d) as u8
        };
    let e = seq![37u8, digit(hi), digit(lo)] + b;
    assert(e[0] == 37 && e[1] == digit(hi) && e[2] == digit(lo));
    assert(nibble(digit(hi)) == Some(hi as u8) && nibble(digit(lo)) == Some(lo as u8));
    assert(is_escape(e));
    assert(e.skip(3) == b);
}

/// A `%` that two hexadecimal digits do not follow stands for itself.
pub proof fn law_other_percent_signs_are_kept(x: u8, y: u8, b: Seq<u8>)
    requires
        !((48 <= x <= 57) || (65 <= x <= 70) || (97 <= x <= 102)) || !((48 <= y <= 57) || (65 <= y
            <= 70) || (97 <= y <= 102)),
    ensures
        unescaped(seq![37u8, x, y] + b) == seq![37u8] + unescaped(seq![x, y] + b),
{
    let e = seq![37u8, x, y] + b;
    assert(e[0] == 37 && e[1] == x && e[2] == y);
    assert(!is_escape(e));
    assert(e.skip(1) == seq![x, y] + b);
}

} // verus!

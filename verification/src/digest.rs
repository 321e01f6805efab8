//! SHA-256, and bytes in hexadecimal.

use sha2::{Digest, Sha256};
use vstd::prelude::*;

verus! {

// ---------------------------------------------------------------- SHA-256

/// A SHA-256 hasher of `sha2`.
#[verifier::external_type_specification]
#[verifier::external_body]
pub struct ExSha256(Sha256);

/// The bytes that a hasher has been given.
pub uninterp spec fn hashed(h: Sha256) -> Seq<u8>;

/// The SHA-256 digest of some bytes.
pub uninterp spec fn sha256(bytes: Seq<u8>) -> Seq<u8>;

/// `Sha256::new`: a hasher that has been given nothing.
#[verifier::external_body]
pub(crate) fn new_hasher() -> (r: Sha256)
    ensures
        hashed(r) == Seq::<u8>::empty(),
{
    Sha256::new()
}

/// `Sha256::update`: gives a hasher more bytes.
#[verifier::external_body]
pub(crate) fn feed(h: &mut Sha256, bytes: &[u8])
    ensures
        hashed(*final(h)) == hashed(*old(h)) + bytes@,
{
    h.update(bytes)
}

/// `Sha256::finalize`: the digest, of 32 bytes, of all that the hasher has been given.
#[verifier::external_body]
pub(crate) fn digest_of(h: Sha256) -> (r: Vec<u8>)
    ensures
        r@ == sha256(hashed(h)),
        r@.len() == 32,
{
    h.finalize().to_vec()
}

// ---------------------------------------------------------------- hexadecimal

/// The lower case hexadecimal digit of a number below 16.
pub open spec fn hex_digit(d: int) -> char {
    if d < 10 {
        (48 + d) as char
    } else {
        (87 + d) as char
    }
}

/// Bytes in lower case hexadecimal, two digits each.
pub open spec fn hex_of(bytes: Seq<u8>) -> Seq<char> {
    Seq::new(
        (2 * bytes.len()) as nat,
        |i: int|
            hex_digit(
                if i % 2 == 0 {
                    bytes[i / 2] as int / 16
                } else {
                    bytes[i / 2] as int % 16
                },
            ),
    )
}

/// A lower case hexadecimal digit.
pub open spec fn is_hex_digit(c: char) -> bool {
    '0' <= c <= '9' || 'a' <= c <= 'f'
}

fn hex_char(d: u8) -> (r: char)
    requires
        d < 16,
    ensures
        r == hex_digit(d as int),
{
    if d < 10 {
        (48 + d) as char
    } else {
        (87 + d) as char
    }
}

/// Bytes in lower case hexadecimal.
pub fn hex(bytes: &[u8]) -> (r: String)
    ensures
        r@ == hex_of(bytes@),
{
    let mut s: String = String::new();
    let mut i: usize = 0;
    while i < bytes.len()
        invariant
            i <= bytes@.len(),
            s@ == hex_of(bytes@.take(i as int)),
        decreases bytes@.len() - i,
    {
        let b: u8 = bytes[i];
        let ghost before = s@;
        s.push(hex_char(b / 16));
        s.push(hex_char(b % 16));
        proof {
            let t = hex_of(bytes@.take(i + 1));
            assert(s@.len() == t.len());
            assert forall|k: int| 0 <= k < t.len() implies s@[k] == t[k] by {
                assert(bytes@.take(i + 1)[k / 2] == bytes@[k / 2]);
                if k < 2 * i {
                    assert(s@[k] == before[k]);
                    assert(bytes@.take(i as int)[k / 2] == bytes@[k / 2]);
                } else {
                    assert(k / 2 == i);
                }
            }
            assert(s@ == t);
        }
        i += 1;
    }
    assert(bytes@.take(bytes@.len() as int) == bytes@);
    s
}

/// Hexadecimal is written in lower case digits alone.
pub proof fn law_hex_digits(bytes: Seq<u8>)
    ensures
        hex_of(bytes).len() == 2 * bytes.len(),
        forall|i: int| 0 <= i < hex_of(bytes).len() ==> is_hex_digit(#[trigger] hex_of(bytes)[i]),
{
}

/// Different bytes are written differently.
pub proof fn law_hex_is_injective(a: Seq<u8>, b: Seq<u8>)
    requires
        hex_of(a) == hex_of(b),
    ensures
        a == b,
{
    assert(hex_of(a).len() == 2 * a.len() && hex_of(b).len() == 2 * b.len());
    assert forall|i: int| 0 <= i < a.len() implies a[i] == b[i] by {
        let (p, q) = (a[i] as int, b[i] as int);
        let k = 2 * i;
        let l = 2 * i + 1;
        assert(k / 2 == i && k % 2 == 0);
        assert(l / 2 == i && l % 2 == 1);
        assert(hex_of(a)[k] == hex_digit(p / 16) && hex_of(b)[k] == hex_digit(q / 16));
        assert(hex_of(a)[l] == hex_digit(p % 16) && hex_of(b)[l] == hex_digit(q % 16));
        assert(hex_digit(p / 16) == hex_digit(q / 16));
        assert(hex_digit(p % 16) == hex_digit(q % 16));
    }
    assert(a =~= b);
}

/// The value of a lower case hexadecimal digit.
pub open spec fn hex_value(c: char) -> int {
    if c <= '9' {
        c as u32 - '0' as u32
    } else {
        c as u32 - 'a' as u32 + 10
    }
}

/// Each byte is written as two digits, the higher first, whose values make the byte.
pub proof fn law_hex_digits_make_the_bytes(bytes: Seq<u8>, i: int)
    requires
        0 <= i < bytes.len(),
    ensures
        hex_of(bytes).len() == 2 * bytes.len(),
        hex_value(hex_of(bytes)[2 * i]) * 16 + hex_value(hex_of(bytes)[2 * i + 1]) == bytes[i],
        0 <= hex_value(hex_of(bytes)[2 * i]) < 16,
        0 <= hex_value(hex_of(bytes)[2 * i + 1]) < 16,
{
    let b = bytes[i] as int;
    let k = 2 * i;
    let l = 2 * i + 1;
    assert(k / 2 == i && k % 2 == 0 && l / 2 == i && l % 2 == 1);
    assert(hex_of(bytes)[k] == hex_digit(b / 16));
    assert(hex_of(bytes)[l] == hex_digit(b % 16));
}

} // verus!

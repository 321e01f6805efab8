//! Numbers as decimal text.

use vstd::prelude::*;

use crate::text::chars_of;

verus! {

/// The decimal digit of a number below ten.
pub open spec fn digit_char(d: int) -> char {
    (48 + d) as char
}

/// A number in decimal, without leading zeros.
pub open spec fn decimal_of(n: nat) -> Seq<char>
    decreases n,
{
    if n < 10 {
        seq![digit_char(n as int)]
    } else {
        decimal_of(n / 10).push(digit_char((n % 10) as int))
    }
}

/// A signed number in decimal.
pub open spec fn signed_decimal_of(n: int) -> Seq<char> {
    if n < 0 {
        seq!['-'] + decimal_of((-n) as nat)
    } else {
        decimal_of(n as nat)
    }
}

/// The characters `0` to `9`.
pub open spec fn is_digit(c: char) -> bool {
    '0' <= c <= '9'
}

/// Some digits and nothing else.
pub open spec fn all_digits(s: Seq<char>) -> bool {
    s.len() > 0 && forall|i: int| 0 <= i < s.len() ==> is_digit(#[trigger] s[i])
}

/// The number that some digits write.
pub open spec fn digits_value(s: Seq<char>) -> nat
    decreases s.len(),
{
    if s.len() == 0 {
        0
    } else {
        digits_value(s.drop_last()) * 10 + ((s.last() as u32 - 48) as nat)
    }
}

/// `s` without one leading `+`.
pub open spec fn without_plus(s: Seq<char>) -> Seq<char> {
    if s.len() > 0 && s[0] == '+' {
        s.drop_first()
    } else {
        s
    }
}

/// The number that a text writes: digits, after at most one `+`, that fit 64 bits.
pub open spec fn number_of(s: Seq<char>) -> Option<u64> {
    let t = without_plus(s);
    if all_digits(t) && digits_value(t) <= u64::MAX {
        Some(digits_value(t) as u64)
    } else {
        None
    }
}

/// A longer run of digits writes no smaller number.
proof fn lemma_value_grows(s: Seq<char>, i: int)
    requires
        0 <= i <= s.len(),
        forall|j: int| 0 <= j < s.len() ==> is_digit(#[trigger] s[j]),
    ensures
        digits_value(s.take(i)) <= digits_value(s),
    decreases s.len(),
{
    if i < s.len() {
        assert(is_digit(s[s.len() - 1]));
        assert forall|j: int| 0 <= j < s.drop_last().len() implies is_digit(
            #[trigger] s.drop_last()[j],
        ) by {
            assert(is_digit(s[j]));
        }
        lemma_value_grows(s.drop_last(), i);
        assert(s.drop_last().take(i) == s.take(i));
    } else {
        assert(s.take(i) == s);
    }
}

/// What a number is written as reads back as that number.
pub proof fn law_decimal_reads_back(n: u64)
    ensures
        number_of(decimal_of(n as nat)) == Some(n),
{
    lemma_decimal(n as nat);
    let s = decimal_of(n as nat);
    assert(is_digit(s[0]));
}

/// A number in decimal is digits, and has their value.
pub proof fn lemma_decimal(n: nat)
    ensures
        all_digits(decimal_of(n)),
        digits_value(decimal_of(n)) == n,
    decreases n,
{
    let s = decimal_of(n);
    if n < 10 {
        assert(s.drop_last() == Seq::<char>::empty());
        assert(digits_value(s.drop_last()) == 0);
    } else {
        lemma_decimal(n / 10);
        assert(s.drop_last() == decimal_of(n / 10));
        assert forall|i: int| 0 <= i < s.len() implies is_digit(#[trigger] s[i]) by {
            if i < s.len() - 1 {
                assert(is_digit(decimal_of(n / 10)[i]));
            }
        }
    }
}

/// A number in decimal.
pub fn decimal(n: u64) -> (r: String)
    ensures
        r@ == decimal_of(n as nat),
    decreases n,
{
    if n < 10 {
        let mut s: String = String::new();
        s.push((48 + n as u8) as char);
        assert(s@ == seq![digit_char(n as int)]);
        s
    } else {
        let mut s: String = decimal(n / 10);
        s.push((48 + (n % 10) as u8) as char);
        s
    }
}

/// A signed number in decimal.
pub fn signed_decimal(n: i32) -> (r: String)
    ensures
        r@ == signed_decimal_of(n as int),
{
    if n < 0 {
        let mut s: String = String::new();
        s.push('-');
        assert(s@ == seq!['-']);
        let m: String = decimal((-(n as i64)) as u64);
        s.append(m.as_str());
        s
    } else {
        decimal(n as u64)
    }
}

/// Reads a number, as `str::parse::<u64>` does.
pub fn parse_u64(s: &str) -> (r: Option<u64>)
    ensures
        r == number_of(s@),
{
    let cs: Vec<char> = chars_of(s);
    let start: usize = if cs.len() > 0 && cs[0] == '+' {
        1
    } else {
        0
    };
    let ghost t = without_plus(s@);
    assert(t == cs@.skip(start as int));
    if start == cs.len() {
        return None;
    }
    let mut v: u64 = 0;
    let mut i: usize = start;
    assert(t.take(0) == Seq::<char>::empty());
    while i < cs.len()
        invariant
            start <= i <= cs@.len(),
            t == cs@.skip(start as int),
            t == without_plus(s@),
            forall|j: int| 0 <= j < i - start ==> is_digit(#[trigger] t[j]),
            v == digits_value(t.take(i - start)),
        decreases cs@.len() - i,
    {
        let c: char = cs[i];
        assert(c == t[i - start]);
        if c < '0' || c > '9' {
            return None;
        }
        let d: u64 = (c as u32 - 48) as u64;
        let ghost k = i - start;
        proof {
            assert(t.take(k + 1).drop_last() == t.take(k));
            assert(t.take(k + 1).last() == c);
        }
        if v > (u64::MAX - d) / 10 {
            proof {
                assert(digits_value(t.take(k + 1)) == v * 10 + d);
                assert(v * 10 + d > u64::MAX);
                if all_digits(t) {
                    lemma_value_grows(t, k + 1);
                }
            }
            return None;
        }
        v = v * 10 + d;
        i += 1;
    }
    assert(t.take(t.len() as int) == t);
    Some(v)
}

// ---------------------------------------------------------------- laws

/// A number is written digit by digit, the highest first: a single digit as its character, and a
/// larger number as all but its last digit, and that digit.
pub proof fn law_numbers_are_written_digit_by_digit(n: nat, d: nat)
    requires
        d < 10,
    ensures
        decimal_of(d).len() == 1,
        decimal_of(d)[0] as u32 == '0' as u32 + d,
        n > 0 ==> decimal_of(n * 10 + d) == decimal_of(n) + decimal_of(d),
{
    if n > 0 {
        let m = n * 10 + d;
        assert(m / 10 == n && m % 10 == d);
        assert(decimal_of(d) == seq![digit_char(d as int)]);
        assert(decimal_of(n).push(digit_char(d as int)) == decimal_of(n) + decimal_of(d));
    }
}

/// A negative number is written as a minus sign and its amount, any other as it is.
pub proof fn law_signs_are_written(n: nat)
    ensures
        signed_decimal_of(n as int) == decimal_of(n),
        n > 0 ==> signed_decimal_of(-(n as int)) == seq!['-'] + decimal_of(n),
{
}

/// A text is read digit by digit: another digit behind a number makes it ten times as large and
/// adds the digit, as long as it fits. A leading plus changes nothing, and what is no digit, or
/// nothing at all, is no number.
pub proof fn law_numbers_are_read_digit_by_digit(s: Seq<char>, c: char)
    requires
        s.len() > 0 ==> s[0] != '+',
    ensures
        number_of(Seq::<char>::empty()) is None,
        number_of(seq!['+'] + s) == number_of(s),
        '0' <= c && c <= '9' ==> number_of(seq![c]) == Some((c as u32 - '0' as u32) as u64),
        !('0' <= c && c <= '9') && (s.len() > 0 || c != '+') ==> number_of(s.push(c)) is None,
        '0' <= c && c <= '9' && number_of(s) is Some ==> {
            let v = number_of(s)->0 * 10 + (c as u32 - '0' as u32);
            number_of(s.push(c)) == if v <= u64::MAX {
                Some(v as u64)
            } else {
                None
            }
        },
{
    let t = s.push(c);
    assert(t.drop_last() == s);
    assert((seq!['+'] + s).drop_first() == s);
    assert(seq![c].drop_last() == Seq::<char>::empty());
    assert(digits_value(seq![c].drop_last()) == 0);
    if '0' <= c && c <= '9' {
        assert(seq![c][0] == c);
        assert(all_digits(seq![c]));
        if number_of(s) is Some {
            assert(t[0] == s[0]);
            assert forall|i: int| 0 <= i < t.len() implies is_digit(#[trigger] t[i]) by {
                if i < s.len() {
                    assert(is_digit(s[i]));
                }
            }
        }
    } else if s.len() > 0 || c != '+' {
        assert(t[t.len() - 1] == c);
        assert(t[0] == if s.len() > 0 {
            s[0]
        } else {
            c
        });
        assert(!is_digit(t[t.len() - 1]));
    }
}

} // verus!

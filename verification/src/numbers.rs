//! Reading whole numbers written in decimal, as the configuration holds them.

use vstd::prelude::*;
use crate::text::chars_of;

verus! {

/// The character is an ASCII decimal digit.
pub open spec fn is_digit(c: char) -> bool {
    '0' <= c <= '9'
}

/// The value of a decimal digit.
pub open spec fn digit_value(c: char) -> int {
    c as int - '0' as int
}

/// Every character is a decimal digit.
pub open spec fn all_digits(s: Seq<char>) -> bool {
    forall|i: int| 0 <= i < s.len() ==> is_digit(s[i])
}

/// The number that a string of decimal digits denotes.
pub open spec fn decimal_value(s: Seq<char>) -> int
    decreases s.len(),
{
    if s.len() == 0 {
        0
    } else {
        decimal_value(s.drop_last()) * 10 + digit_value(s.last())
    }
}

/// The digits of a number text: the text after an optional leading `+`.
pub open spec fn unsigned_digits(s: Seq<char>) -> Seq<char> {
    if s.len() > 0 && s[0] == '+' {
        s.skip(1)
    } else {
        s
    }
}

/// The `u64` that `s` denotes: an optional `+` followed by at least one
/// decimal digit, of a value that fits; `None` for any other text.
pub open spec fn u64_of_text(s: Seq<char>) -> Option<u64> {
    let d = unsigned_digits(s);
    if d.len() > 0 && all_digits(d) && decimal_value(d) <= u64::MAX {
        Some(decimal_value(d) as u64)
    } else {
        None
    }
}

/// A longer run of digits denotes at least as much as its prefix.
proof fn lemma_decimal_value_grows(s: Seq<char>, i: int)
    requires
        all_digits(s),
        0 <= i <= s.len(),
    ensures
        decimal_value(s.take(i)) <= decimal_value(s),
        decimal_value(s) >= 0,
    decreases s.len() - i,
{
    if i < s.len() {
        lemma_decimal_value_grows(s, i + 1);
        assert(s.take(i + 1).drop_last() =~= s.take(i));
        lemma_decimal_value_nonneg(s.take(i));
    } else {
        assert(s.take(i) =~= s);
        lemma_decimal_value_nonneg(s);
    }
}

/// Digits denote a number that is not negative.
proof fn lemma_decimal_value_nonneg(s: Seq<char>)
    requires
        all_digits(s),
    ensures
        decimal_value(s) >= 0,
    decreases s.len(),
{
    if s.len() > 0 {
        lemma_decimal_value_nonneg(s.drop_last());
    }
}

/// The value of the digits `d`, when they are at least one decimal digit and
/// denote at most `limit`.
pub open spec fn bounded_value(d: Seq<char>, limit: u64) -> Option<u64> {
    if d.len() > 0 && all_digits(d) && decimal_value(d) <= limit {
        Some(decimal_value(d) as u64)
    } else {
        None
    }
}

/// The `i64` that `s` denotes: an optional `+` or `-` followed by at least
/// one decimal digit, of a value that fits; `None` for any other text.
pub open spec fn i64_of_text(s: Seq<char>) -> Option<i64> {
    if s.len() > 0 && s[0] == '-' {
        match bounded_value(s.skip(1), 0x8000_0000_0000_0000u64) {
            Some(m) => Some((-(m as int)) as i64),
            None => None,
        }
    } else {
        match bounded_value(unsigned_digits(s), i64::MAX as u64) {
            Some(m) => Some(m as i64),
            None => None,
        }
    }
}

/// Reads the digits `chars[start..]` as a number of at most `limit`.
fn digits_value(chars: &Vec<char>, start: usize, limit: u64) -> (r: Option<u64>)
    requires
        start <= chars.len(),
    ensures
        r == bounded_value(chars@.skip(start as int), limit),
        r matches Some(m) ==> m <= limit,
{
    let ghost d = chars@.skip(start as int);
    if start == chars.len() {
        return None;
    }
    let mut i: usize = start;
    let mut value: u64 = 0;
    assert(d.take(0) =~= Seq::<char>::empty());
    while i < chars.len()
        invariant
            d == chars@.skip(start as int),
            start <= i <= chars.len(),
            all_digits(d.take(i - start)),
            value == decimal_value(d.take(i - start)),
            value <= limit,
        decreases chars.len() - i,
    {
        let c = chars[i];
        if c < '0' || c > '9' {
            assert(d[i - start] == c);
            return None;
        }
        let digit = (c as u32 - '0' as u32) as u64;
        let ghost next = d.take(i - start + 1);
        assert(next.drop_last() =~= d.take(i - start));
        assert(next.last() == c);
        if digit > limit || value > (limit - digit) / 10 {
            proof {
                assert(all_digits(next));
                assert(decimal_value(next) > limit) by (nonlinear_arith)
                    requires
                        decimal_value(next) == value * 10 + digit,
                        digit > limit || value > (limit - digit) / 10,
                        0 <= digit <= 9,
                        value >= 0,
                ;
                if all_digits(d) {
                    lemma_decimal_value_grows(d, i - start + 1);
                }
            }
            return None;
        }
        assert(value * 10 + digit <= limit) by (nonlinear_arith)
            requires
                value <= (limit - digit) / 10,
                0 <= digit <= limit,
        ;
        value = value * 10 + digit;
        i = i + 1;
    }
    assert(d.take(i - start) =~= d);
    Some(value)
}

/// Reads a `u64` written in decimal, with an optional leading `+`, as Rust's
/// `str::parse::<u64>` does; `None` for a text that is not such a number or
/// whose value does not fit.
pub fn parse_u64(text: &str) -> (r: Option<u64>)
    ensures
        r == u64_of_text(text@),
{
    let chars = chars_of(text);
    let start: usize = if chars.len() > 0 && chars[0] == '+' {
        1
    } else {
        0
    };
    assert(unsigned_digits(text@) =~= chars@.skip(start as int));
    digits_value(&chars, start, u64::MAX)
}

/// Reads an `i64` written in decimal, with an optional leading `+` or `-`,
/// as Rust's `str::parse::<i64>` does; `None` for a text that is not such a
/// number or whose value does not fit.
pub fn parse_i64(text: &str) -> (r: Option<i64>)
    ensures
        r == i64_of_text(text@),
{
    let chars = chars_of(text);
    if chars.len() > 0 && chars[0] == '-' {
        match digits_value(&chars, 1, 0x8000_0000_0000_0000u64) {
            Some(m) => {
                if m == 0x8000_0000_0000_0000u64 {
                    Some(i64::MIN)
                } else {
                    Some(-(m as i64))
                }
            },
            None => None,
        }
    } else {
        let start: usize = if chars.len() > 0 && chars[0] == '+' {
            1
        } else {
            0
        };
        assert(unsigned_digits(text@) =~= chars@.skip(start as int));
        match digits_value(&chars, start, i64::MAX as u64) {
            Some(m) => Some(m as i64),
            None => None,
        }
    }
}

/// The character of a decimal digit.
pub open spec fn digit_char(d: nat) -> char {
    (d + 48) as char
}

/// The decimal digits of `n`, without leading zeros.
pub open spec fn nat_text(n: nat) -> Seq<char>
    decreases n,
{
    if n < 10 {
        seq![digit_char(n)]
    } else {
        nat_text(n / 10).push(digit_char(n % 10))
    }
}

/// How Rust displays an integer: a `-` before the digits of a negative one.
pub open spec fn int_text(n: int) -> Seq<char> {
    if n < 0 {
        seq!['-'] + nat_text((-n) as nat)
    } else {
        nat_text(n as nat)
    }
}

/// `String::from_iter` over characters: the same characters as a string.
#[verifier::external_body]
fn string_from_chars(chars: Vec<char>) -> (r: String)
    ensures
        r@ == chars@,
{
    String::from_iter(chars)
}

fn push_digits(out: &mut Vec<char>, n: u64)
    ensures
        final(out)@ == old(out)@ + nat_text(n as nat),
    decreases n,
{
    if n >= 10 {
        push_digits(out, n / 10);
    }
    let d = (n % 10) as u8;
    out.push((48u8 + d) as char);
    assert(((48u8 + d) as char) == digit_char((n % 10) as nat));
    assert(out@ =~= old(out)@ + nat_text(n as nat));
}

/// The decimal text of `n`, as Rust displays it.
pub fn format_i64(n: i64) -> (r: String)
    ensures
        r@ == int_text(n as int),
{
    let mut out: Vec<char> = Vec::new();
    if n < 0 {
        out.push('-');
        let magnitude: u64 = if n == i64::MIN {
            0x8000_0000_0000_0000u64
        } else {
            (-n) as u64
        };
        push_digits(&mut out, magnitude);
    } else {
        push_digits(&mut out, n as u64);
    }
    assert(out@ =~= int_text(n as int));
    string_from_chars(out)
}

/// The decimal text of a number is a non-empty run of digits that denotes it.
pub proof fn lemma_nat_text(n: nat)
    ensures
        nat_text(n).len() > 0,
        all_digits(nat_text(n)),
        decimal_value(nat_text(n)) == n,
    decreases n,
{
    if n >= 10 {
        lemma_nat_text(n / 10);
        let t = nat_text(n);
        assert(t.drop_last() =~= nat_text(n / 10));
        assert(digit_value(digit_char(n % 10)) == n % 10);
        assert(t.last() == digit_char(n % 10));
        assert((n / 10) * 10 + n % 10 == n) by (nonlinear_arith);
        assert(decimal_value(t) == decimal_value(t.drop_last()) * 10 + digit_value(t.last()));
        assert forall|i: int| 0 <= i < t.len() implies is_digit(t[i]) by {
            if i < t.len() - 1 {
                assert(t[i] == nat_text(n / 10)[i]);
            }
        }
    } else {
        assert(digit_value(digit_char(n)) == n);
        assert(nat_text(n).drop_last() =~= Seq::<char>::empty());
        assert(decimal_value(Seq::<char>::empty()) == 0);
    }
}

/// Reading back the displayed text of an `i64` gives the same number.
pub proof fn lemma_int_text_reads_back(m: i64)
    ensures
        i64_of_text(int_text(m as int)) == Some(m),
{
    if m < 0 {
        let k = (-(m as int)) as nat;
        lemma_nat_text(k);
        let t = int_text(m as int);
        assert(t.skip(1) =~= nat_text(k));
    } else {
        lemma_nat_text(m as nat);
        let t = nat_text(m as nat);
        assert(is_digit(t[0]));
        assert(unsigned_digits(t) == t);
    }
}

/// The displayed text of a number holds only digits and a leading `-`.
pub proof fn lemma_int_text_chars(m: int)
    ensures
        forall|i: int| 0 <= i < int_text(m).len() ==> is_digit(#[trigger] int_text(m)[i]) || int_text(m)[i] == '-',
{
    if m < 0 {
        lemma_nat_text((-m) as nat);
        let t = int_text(m);
        assert forall|i: int| 0 <= i < t.len() implies is_digit(#[trigger] t[i]) || t[i] == '-' by {
            if i > 0 {
                assert(t[i] == nat_text((-m) as nat)[i - 1]);
            }
        }
    } else {
        lemma_nat_text(m as nat);
    }
}

} // verus!

//! What holds of blank texts, of prefixes and of numbers.

use crate::text::{
    blank, decimal, digits_value, is_digit, is_white_space, parsed_u64, unsigned_part,
    without_prefix,
};
use vstd::prelude::*;

verus! {

/// A text is blank where both of its parts are.
pub proof fn blank_texts_are_blank_throughout(some: Seq<char>, other: Seq<char>)
    ensures
        blank(Seq::empty()),
        blank(some + other) <==> blank(some) && blank(other),
{
    let whole = some + other;
    if blank(whole) {
        assert forall|i: int| 0 <= i < some.len() implies is_white_space(#[trigger] some[i]) by {
            assert(whole[i] == some[i]);
        }
        assert forall|i: int| 0 <= i < other.len() implies is_white_space(#[trigger] other[i]) by {
            assert(whole[some.len() + i] == other[i]);
        }
    }
}

/// A single character is blank exactly where it is one of Unicode's white space.
pub proof fn white_space_is_blank(c: char)
    ensures
        blank(seq![c]) <==> {
            let code = c as u32;
            ||| 0x9 <= code <= 0xd
            ||| code == 0x20
            ||| code == 0x85
            ||| code == 0xa0
            ||| code == 0x1680
            ||| 0x2000 <= code <= 0x200a
            ||| 0x2028 <= code <= 0x2029
            ||| code == 0x202f
            ||| code == 0x205f
            ||| code == 0x3000
        },
{
    assert(seq![c][0] == c);
    assert(blank(seq![c]) <==> is_white_space(c));
}

/// The number that a digit stands for.
pub open spec fn digit_of(c: char) -> int {
    c as int - '0' as int
}

/// A single digit is the number it stands for, and nothing is read from an empty
/// text or a sign alone.
pub proof fn single_digits_are_numbers(c: char)
    ensures
        '0' <= c <= '9' ==> parsed_u64(seq![c]) == Some(digit_of(c) as u64),
        parsed_u64(Seq::empty()) is None,
        parsed_u64(seq!['+']) is None,
{
    let s = seq![c];
    assert(s.drop_last() == Seq::<char>::empty());
    reveal_with_fuel(digits_value, 2);
    if '0' <= c <= '9' {
        assert(unsigned_part(s) == s);
        assert(digits_value(s) == digit_of(c));
        assert forall|i: int| 0 <= i < s.len() implies is_digit(#[trigger] s[i]) by {}
    }
    assert(unsigned_part(seq!['+']) == Seq::<char>::empty());
}

/// A further digit makes ten times the number and the digit, where that fits into
/// 64 bits, and no number where it does not.
pub proof fn numbers_are_read_digit_by_digit(s: Seq<char>, c: char)
    requires
        '0' <= c <= '9',
    ensures
        parsed_u64(s) matches Some(number) ==> parsed_u64(s.push(c)) == if number * 10 + digit_of(c)
            <= u64::MAX {
            Some((number * 10 + digit_of(c)) as u64)
        } else {
            None
        },
        s.len() > 1 && parsed_u64(s) is None ==> parsed_u64(s.push(c)) is None,
{
    let t = s.push(c);
    let a = unsigned_part(s);
    let b = unsigned_part(t);
    if s.len() > 0 {
        assert(b == a.push(c));
        assert(b.drop_last() == a);
        assert(digits_value(b) == digits_value(a) * 10 + digit_of(c));
        if parsed_u64(s) is Some {
            assert forall|i: int| 0 <= i < b.len() implies is_digit(#[trigger] b[i]) by {
                if i < a.len() {
                    assert(b[i] == a[i]);
                }
            }
        } else if parsed_u64(t) is Some && s.len() > 1 {
            assert forall|i: int| 0 <= i < a.len() implies is_digit(#[trigger] a[i]) by {
                assert(b[i] == a[i]);
            }
            assert(digits_value(a) <= digits_value(b));
        }
    }
}

/// One plus sign before a number makes no difference.
pub proof fn one_plus_sign_makes_no_difference(s: Seq<char>)
    requires
        s.len() > 0,
        s[0] != '+',
    ensures
        parsed_u64(seq!['+'] + s) == parsed_u64(s),
{
    assert((seq!['+'] + s).skip(1) == s);
}

/// A text with anything but digits behind one optional plus sign is no number.
pub proof fn only_digits_make_numbers(s: Seq<char>, i: int)
    requires
        0 <= i < s.len(),
        !('0' <= s[i] <= '9'),
        i > 0 || s[0] != '+',
    ensures
        parsed_u64(s) is None,
{
    let digits = unsigned_part(s);
    if s[0] == '+' {
        assert(digits[i - 1] == s[i]);
        assert(!is_digit(digits[i - 1]));
    } else {
        assert(!is_digit(digits[i]));
    }
}

/// A number that is written in decimal reads as that number, and is written without
/// leading zeros.
pub proof fn written_numbers_read_back(n: u64)
    ensures
        parsed_u64(decimal(n as nat)) == Some(n),
        decimal(n as nat).len() > 0,
        decimal(n as nat).len() > 1 ==> decimal(n as nat)[0] != '0',
        decimal(n as nat)[0] != '+',
{
    lemma_decimal(n as nat);
    let s = decimal(n as nat);
    assert(is_digit(s[0]));
    assert(unsigned_part(s) == s);
}

/// Decimal notation is made of digits that stand for the number.
proof fn lemma_decimal(n: nat)
    ensures
        digits_value(decimal(n)) == n,
        decimal(n).len() > 0,
        forall|i: int| 0 <= i < decimal(n).len() ==> is_digit(#[trigger] decimal(n)[i]),
        n > 0 ==> decimal(n)[0] != '0',
        decimal(n).len() > 1 ==> n > 0,
    decreases n,
{
    let s = decimal(n);
    if n < 10 {
        assert(s.drop_last() == Seq::<char>::empty());
        reveal_with_fuel(digits_value, 2);
    } else {
        lemma_decimal(n / 10);
        assert(s.drop_last() == decimal(n / 10));
        assert forall|i: int| 0 <= i < s.len() implies is_digit(#[trigger] s[i]) by {
            if i < s.len() - 1 {
                assert(s[i] == decimal(n / 10)[i]);
            }
        }
        assert(s[0] == decimal(n / 10)[0]);
    }
}

/// What stands behind a prefix is what is left without it, and nothing is left of a
/// text without the prefix.
pub proof fn prefixes_come_off(prefix: Seq<char>, s: Seq<char>)
    ensures
        without_prefix(prefix + s, prefix) == Some(s),
        without_prefix(s, prefix) matches Some(rest) ==> s == prefix + rest,
{
    assert((prefix + s).subrange(0, prefix.len() as int) == prefix);
    assert((prefix + s).skip(prefix.len() as int) == s);
    if prefix.is_prefix_of(s) {
        assert(s == prefix + s.skip(prefix.len() as int));
    }
}

} // verus!

//! Decimal numerals: the value of a run of digit characters, and the
//! canonical decimal text of a number.

use vstd::prelude::*;
use vstd::string::StringExecFns;

verus! {

/// Is `c` a decimal digit character, `'0'` through `'9'`?
pub open spec fn is_dec_digit(c: char) -> bool {
    48 <= c as int && c as int <= 57
}

/// The numeric value of a single digit character.
pub open spec fn digit_value(c: char) -> nat {
    (c as int - 48) as nat
}

/// Every character of `s` is a decimal digit.
pub open spec fn all_digits(s: Seq<char>) -> bool {
    forall|i: int| 0 <= i < s.len() ==> is_dec_digit(#[trigger] s[i])
}

/// The value of a run of digit characters, most significant first.
pub open spec fn dec_value(s: Seq<char>) -> nat
    decreases s.len(),
{
    if s.len() == 0 {
        0
    } else {
        dec_value(s.drop_last()) * 10 + digit_value(s.last())
    }
}

/// The digit character for a value below ten.
pub open spec fn digit_char(d: nat) -> char {
    if d == 0 {
        '0'
    } else if d == 1 {
        '1'
    } else if d == 2 {
        '2'
    } else if d == 3 {
        '3'
    } else if d == 4 {
        '4'
    } else if d == 5 {
        '5'
    } else if d == 6 {
        '6'
    } else if d == 7 {
        '7'
    } else if d == 8 {
        '8'
    } else {
        '9'
    }
}

/// The decimal text of `n`, most significant digit first, with no
/// leading zero except for `n == 0` itself.
pub open spec fn dec_chars(n: nat) -> Seq<char>
    decreases n,
{
    if n < 10 {
        seq![digit_char(n)]
    } else {
        dec_chars(n / 10).push(digit_char(n % 10))
    }
}

/// The digit character of a value below ten is a digit, and carries that
/// value.
pub proof fn lemma_digit_char_value(d: nat)
    requires
        d < 10,
    ensures
        is_dec_digit(digit_char(d)),
        digit_value(digit_char(d)) == d,
{
    assert('0' as int == 48);
    assert('1' as int == 49);
    assert('2' as int == 50);
    assert('3' as int == 51);
    assert('4' as int == 52);
    assert('5' as int == 53);
    assert('6' as int == 54);
    assert('7' as int == 55);
    assert('8' as int == 56);
    assert('9' as int == 57);
}

/// A decimal numeral is never empty and holds digit characters only.
pub proof fn lemma_dec_chars_digits(n: nat)
    ensures
        dec_chars(n).len() >= 1,
        all_digits(dec_chars(n)),
    decreases n,
{
    if n < 10 {
        lemma_digit_char_value(n);
        assert(dec_chars(n) =~= seq![digit_char(n)]);
    } else {
        lemma_dec_chars_digits(n / 10);
        lemma_digit_char_value(n % 10);
        let prev = dec_chars(n / 10);
        let whole = dec_chars(n);
        assert(whole =~= prev.push(digit_char(n % 10)));
        assert forall|i: int| 0 <= i < whole.len() implies is_dec_digit(#[trigger] whole[i]) by {
            if i < prev.len() {
                assert(whole[i] == prev[i]);
            } else {
                assert(whole[i] == digit_char(n % 10));
            }
        }
    }
}

/// Reading back the decimal text of a number gives the number: the two
/// spec functions above are inverses on canonical numerals.
pub proof fn lemma_dec_value_of_dec_chars(n: nat)
    ensures
        dec_value(dec_chars(n)) == n,
    decreases n,
{
    if n < 10 {
        lemma_digit_char_value(n);
        let s = dec_chars(n);
        assert(s =~= seq![digit_char(n)]);
        assert(s.drop_last() =~= Seq::<char>::empty());
        assert(dec_value(Seq::<char>::empty()) == 0);
        assert(dec_value(s) == dec_value(s.drop_last()) * 10 + digit_value(s.last()));
    } else {
        lemma_dec_value_of_dec_chars(n / 10);
        lemma_digit_char_value(n % 10);
        assert(dec_chars(n).drop_last() =~= dec_chars(n / 10));
        assert(dec_chars(n).last() == digit_char(n % 10));
    }
}

/// The one-character string for a digit value.
fn digit_str(d: u16) -> (r: &'static str)
    requires
        d < 10,
    ensures
        r@ =~= seq![digit_char(d as nat)],
{
    proof {
        reveal_strlit("0");
        reveal_strlit("1");
        reveal_strlit("2");
        reveal_strlit("3");
        reveal_strlit("4");
        reveal_strlit("5");
        reveal_strlit("6");
        reveal_strlit("7");
        reveal_strlit("8");
        reveal_strlit("9");
    }
    match d {
        0 => "0",
        1 => "1",
        2 => "2",
        3 => "3",
        4 => "4",
        5 => "5",
        6 => "6",
        7 => "7",
        8 => "8",
        _ => "9",
    }
}

/// The decimal text of `n` as an owned string.
pub fn u16_to_dec_string(n: u16) -> (s: String)
    ensures
        s@ == dec_chars(n as nat),
    decreases n,
{
    if n < 10 {
        let s = String::from_str(digit_str(n));
        proof {
            assert(s@ =~= dec_chars(n as nat));
        }
        s
    } else {
        let mut s = u16_to_dec_string(n / 10);
        s.append(digit_str(n % 10));
        proof {
            assert(s@ =~= dec_chars(n as nat));
        }
        s
    }
}

} // verus!

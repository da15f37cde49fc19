//! Decimal numerals over characters: the spec form of a number, a verified
//! emitter, a verified parser, and the round-trip lemmas the persistence
//! codecs rest on.

use vstd::prelude::*;

verus! {

/// The character for one decimal digit.
pub open spec fn digit_char(d: nat) -> char {
    if d == 0 {
        '0'
    } else if d == 1 {
        '1'
    } else if d == 2 {
        '2'
    } else if d == 3 {
        '3'
    } else if d == 4 {
        '4'
    } else if d == 5 {
        '5'
    } else if d == 6 {
        '6'
    } else if d == 7 {
        '7'
    } else if d == 8 {
        '8'
    } else {
        '9'
    }
}

/// Whether a character is a decimal digit.
pub open spec fn is_digit(c: char) -> bool {
    ||| c == '0'
    ||| c == '1'
    ||| c == '2'
    ||| c == '3'
    ||| c == '4'
    ||| c == '5'
    ||| c == '6'
    ||| c == '7'
    ||| c == '8'
    ||| c == '9'
}

/// The value of a decimal digit character (zero on anything else).
pub open spec fn digit_val(c: char) -> nat {
    if c == '1' {
        1
    } else if c == '2' {
        2
    } else if c == '3' {
        3
    } else if c == '4' {
        4
    } else if c == '5' {
        5
    } else if c == '6' {
        6
    } else if c == '7' {
        7
    } else if c == '8' {
        8
    } else if c == '9' {
        9
    } else {
        0
    }
}

/// The decimal numeral of a number, most significant digit first, with no
/// leading zero.
pub open spec fn dec_digits(n: nat) -> Seq<char>
    decreases n,
{
    if n < 10 {
        seq![digit_char(n)]
    } else {
        dec_digits(n / 10).push(digit_char(n % 10))
    }
}

/// Every character of a numeral is a digit, and a numeral is never empty.
pub proof fn lemma_dec_digits_shape(n: nat)
    ensures
        dec_digits(n).len() >= 1,
        forall|i: int| 0 <= i < dec_digits(n).len() ==> is_digit(#[trigger] dec_digits(n)[i]),
    decreases n,
{
    if n < 10 {
    } else {
        lemma_dec_digits_shape(n / 10);
        assert forall|i: int| 0 <= i < dec_digits(n).len() implies is_digit(
            #[trigger] dec_digits(n)[i],
        ) by {
            if i < dec_digits(n / 10).len() {
                assert(dec_digits(n)[i] == dec_digits(n / 10)[i]);
            }
        }
    }
}

/// The end of the run of digits starting at `pos`: the first position at or
/// after `pos` holding a non-digit, or the end of the sequence.
pub open spec fn digit_run_end(s: Seq<char>, pos: int) -> int
    decreases s.len() - pos when 0 <= pos <= s.len()
{
    if pos < 0 || pos >= s.len() || !is_digit(s[pos]) {
        pos
    } else {
        digit_run_end(s, pos + 1)
    }
}

/// The run of digits ends exactly where the digits end.
pub proof fn lemma_digit_run_end(s: Seq<char>, pos: int, e: int)
    requires
        0 <= pos <= e <= s.len(),
        forall|i: int| pos <= i < e ==> is_digit(#[trigger] s[i]),
        e == s.len() || !is_digit(s[e]),
    ensures
        digit_run_end(s, pos) == e,
    decreases e - pos,
{
    if pos == e {
    } else {
        lemma_digit_run_end(s, pos + 1, e);
    }
}

/// Where the run of digits ends: between `pos` and the end of the
/// sequence, everything before it a digit, and the character at it (if
/// any) not a digit.
pub proof fn lemma_digit_run_end_props(s: Seq<char>, pos: int)
    requires
        0 <= pos <= s.len(),
    ensures
        pos <= digit_run_end(s, pos) <= s.len(),
        forall|i: int| pos <= i < digit_run_end(s, pos) ==> is_digit(#[trigger] s[i]),
        digit_run_end(s, pos) == s.len() || !is_digit(s[digit_run_end(s, pos)]),
    decreases s.len() - pos,
{
    if pos >= s.len() || !is_digit(s[pos]) {
    } else {
        lemma_digit_run_end_props(s, pos + 1);
    }
}

/// The value of the digits of `s` in positions `pos` (inclusive) to `end`
/// (exclusive), most significant first.
pub open spec fn digits_value(s: Seq<char>, pos: int, end: int) -> nat
    decreases end - pos,
{
    if pos >= end {
        0
    } else {
        digits_value(s, pos, end - 1) * 10 + digit_val(s[end - 1])
    }
}

/// Reading more digits never makes the value smaller.
pub proof fn lemma_digits_value_monotone(s: Seq<char>, pos: int, k: int, e: int)
    requires
        pos <= k <= e,
    ensures
        digits_value(s, pos, e) >= digits_value(s, pos, k),
    decreases e - k,
{
    if k < e {
        lemma_digits_value_monotone(s, pos, k, e - 1);
        assert(digits_value(s, pos, e) == digits_value(s, pos, e - 1) * 10 + digit_val(
            s[e - 1],
        ));
        assert(digits_value(s, pos, e - 1) * 10 >= digits_value(s, pos, e - 1));
    }
}

/// Reading back the numeral of `n` yields `n`.
pub proof fn lemma_digits_value_of_dec(s: Seq<char>, pos: int, n: nat)
    requires
        0 <= pos,
        pos + dec_digits(n).len() <= s.len(),
        s.subrange(pos, pos + dec_digits(n).len()) == dec_digits(n),
    ensures
        digits_value(s, pos, pos + dec_digits(n).len()) == n,
    decreases n,
{
    let l = dec_digits(n).len() as int;
    if n < 10 {
        assert(s.subrange(pos, pos + l)[0] == s[pos]);
        assert(s[pos] == digit_char(n));
        assert(digit_val(digit_char(n)) == n);
        assert(digits_value(s, pos, pos) == 0);
        assert(digits_value(s, pos, pos + 1) == digit_val(s[pos]));
    } else {
        let l0 = dec_digits(n / 10).len() as int;
        assert(l == l0 + 1);
        assert forall|i: int| 0 <= i < l0 implies #[trigger] s.subrange(pos, pos + l0)[i]
            == dec_digits(n / 10)[i] by {
            assert(s[pos + i] == s.subrange(pos, pos + l)[i]);
            assert(dec_digits(n)[i] == dec_digits(n / 10)[i]);
        }
        assert(s.subrange(pos, pos + l0) =~= dec_digits(n / 10));
        lemma_digits_value_of_dec(s, pos, n / 10);
        assert(s[pos + l - 1] == s.subrange(pos, pos + l)[l - 1]);
        assert(s[pos + l - 1] == digit_char(n % 10));
        assert(digit_val(digit_char(n % 10)) == n % 10);
        assert(digits_value(s, pos, pos + l) == n / 10 * 10 + n % 10);
        assert(n / 10 * 10 + n % 10 == n) by (nonlinear_arith);
    }
}

/// Parsing the numeral of `n`, when it is followed by a non-digit or by the
/// end, finds exactly `n` and stops right after the numeral.
pub proof fn lemma_parse_of_dec_digits(s: Seq<char>, pos: int, n: nat)
    requires
        0 <= pos,
        pos + dec_digits(n).len() <= s.len(),
        s.subrange(pos, pos + dec_digits(n).len()) == dec_digits(n),
        pos + dec_digits(n).len() == s.len() || !is_digit(s[pos + dec_digits(n).len()]),
    ensures
        digit_run_end(s, pos) == pos + dec_digits(n).len(),
        digits_value(s, pos, pos + dec_digits(n).len()) == n,
{
    let l = dec_digits(n).len() as int;
    lemma_dec_digits_shape(n);
    assert forall|i: int| pos <= i < pos + l implies is_digit(#[trigger] s[i]) by {
        assert(s[i] == s.subrange(pos, pos + l)[i - pos]);
        assert(is_digit(dec_digits(n)[i - pos]));
    }
    lemma_digit_run_end(s, pos, pos + l);
    lemma_digits_value_of_dec(s, pos, n);
}

/// A one-character string for each decimal digit (`d` taken modulo ten).
pub fn digit_str(d: u128) -> (r: &'static str)
    requires
        d < 10,
    ensures
        r@ =~= seq![digit_char(d as nat)],
{
    proof {
        reveal_strlit("0");
        reveal_strlit("1");
        reveal_strlit("2");
        reveal_strlit("3");
        reveal_strlit("4");
        reveal_strlit("5");
        reveal_strlit("6");
        reveal_strlit("7");
        reveal_strlit("8");
        reveal_strlit("9");
    }
    match d {
        0 => "0",
        1 => "1",
        2 => "2",
        3 => "3",
        4 => "4",
        5 => "5",
        6 => "6",
        7 => "7",
        8 => "8",
        _ => "9",
    }
}

/// Append the decimal numeral of `n` to `out`.
pub fn push_dec_u128(out: &mut String, n: u128)
    ensures
        final(out)@ == old(out)@ + dec_digits(n as nat),
    decreases n,
{
    if n < 10 {
        out.append(digit_str(n));
        proof {
            assert(out@ =~= old(out)@ + dec_digits(n as nat));
        }
    } else {
        push_dec_u128(out, n / 10);
        out.append(digit_str(n % 10));
        proof {
            assert(out@ =~= old(out)@ + dec_digits(n as nat));
        }
    }
}

/// The value of a decimal digit character, or `None` on any other
/// character.
pub fn digit_of(c: char) -> (r: Option<u128>)
    ensures
        match r {
            Some(v) => is_digit(c) && v == digit_val(c) && v < 10,
            None => !is_digit(c),
        },
{
    match c {
        '0' => Some(0),
        '1' => Some(1),
        '2' => Some(2),
        '3' => Some(3),
        '4' => Some(4),
        '5' => Some(5),
        '6' => Some(6),
        '7' => Some(7),
        '8' => Some(8),
        '9' => Some(9),
        _ => None,
    }
}

} // verus!

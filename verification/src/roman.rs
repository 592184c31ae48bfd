//! Roman-numeral codec: conversion between a 16-bit unsigned integer and its
//! Roman-numeral text form. Encoding rejects zero and numbers too large for
//! the digit tables; decoding rejects unrecognized characters and legal
//! characters standing in an illegal subtractive position.

use vstd::arithmetic::div_mod::{
    lemma_div_denominator,
    lemma_fundamental_div_mod,
    lemma_small_div_converse,
};
use vstd::prelude::*;
use vstd::string::{StrSliceExecFns, StringExecFns};

verus! {

/// The ways encoding or decoding can fail.
#[derive(Debug, PartialEq, Eq)]
pub enum RomanError {
    /// `encode` was given zero, which has no Roman form.
    EncodeZero,
    /// `encode` needed a power of ten beyond the last digit table row.
    EncodeIllegalExponent(usize),
    /// `encode` met a digit with no entry in its digit table row.
    EncodeIllegalLookupIndex(usize),
    /// `decode` met a character that is no Roman numeral.
    DecodeIllegalCharacter(char),
    /// `decode` met a smaller numeral standing before a larger one outside
    /// the legal subtractive pairs.
    DecodeIllegalPosition { illegal: char, next: char },
}

/// Ten to the power `e` (one for `e <= 0`).
pub open spec fn pow10(e: int) -> int
    decreases e,
{
    if e <= 0 {
        1
    } else {
        10 * pow10(e - 1)
    }
}

pub proof fn lemma_pow10_pos(e: int)
    ensures
        pow10(e) >= 1,
    decreases e,
{
    if e > 0 {
        lemma_pow10_pos(e - 1);
    }
}

/// Dividing by ten one more time is dividing by the next power of ten.
proof fn lemma_div_pow10_step(x: int, e: int)
    requires
        x >= 0,
        e >= 0,
    ensures
        (x / pow10(e)) / 10 == x / pow10(e + 1),
{
    lemma_pow10_pos(e);
    lemma_div_denominator(x, pow10(e), 10);
    assert(pow10(e + 1) == 10 * pow10(e));
}

/// The unit numeral of each power of ten: I, X, C, M.
pub open spec fn unit_char(exp: int) -> char {
    if exp == 0 {
        'I'
    } else if exp == 1 {
        'X'
    } else if exp == 2 {
        'C'
    } else {
        'M'
    }
}

/// The five-fold numeral of each power of ten: V, L, D.
pub open spec fn five_char(exp: int) -> char {
    if exp == 0 {
        'V'
    } else if exp == 1 {
        'L'
    } else {
        'D'
    }
}

/// The Roman form of a single decimal digit `d` at power of ten `exp`:
/// one to three units, the subtractive pairs for four and nine, and the
/// five-fold numeral with units for five to eight. Zero renders as nothing.
pub open spec fn roman_digit(exp: int, d: int) -> Seq<char> {
    let u = unit_char(exp);
    let f = five_char(exp);
    let t = unit_char(exp + 1);
    if d == 1 {
        seq![u]
    } else if d == 2 {
        seq![u, u]
    } else if d == 3 {
        seq![u, u, u]
    } else if d == 4 {
        seq![u, f]
    } else if d == 5 {
        seq![f]
    } else if d == 6 {
        seq![f, u]
    } else if d == 7 {
        seq![f, u, u]
    } else if d == 8 {
        seq![f, u, u, u]
    } else if d == 9 {
        seq![u, t]
    } else {
        Seq::empty()
    }
}

/// The Roman form of `n`, where the lowest decimal digit of `n` stands at
/// power of ten `exp`: the higher digits first, then the digit at `exp`.
pub open spec fn roman_seq(n: int, exp: int) -> Seq<char>
    decreases n,
{
    if n <= 0 {
        Seq::empty()
    } else {
        roman_seq(n / 10, exp + 1) + roman_digit(exp, n % 10)
    }
}

/// The Roman form of one decimal digit at one power of ten, straight from
/// the digit table.
fn encode_digit(exp: usize, d: u16) -> (r: &'static str)
    requires
        exp <= 3,
        d <= 9,
        exp == 3 ==> d <= 3,
    ensures
        r@ == roman_digit(exp as int, d as int),
{
    proof {
        reveal_strlit("");
        assert(""@ =~= Seq::<char>::empty());
    }
    if d == 0 {
        ""
    } else if exp == 0 {
        match d {
            1 => {
                proof {
                    reveal_strlit("I");
                    assert("I"@ =~= roman_digit(0, 1));
                }
                "I"
            },
            2 => {
                proof {
                    reveal_strlit("II");
                    assert("II"@ =~= roman_digit(0, 2));
                }
                "II"
            },
            3 => {
                proof {
                    reveal_strlit("III");
                    assert("III"@ =~= roman_digit(0, 3));
                }
                "III"
            },
            4 => {
                proof {
                    reveal_strlit("IV");
                    assert("IV"@ =~= roman_digit(0, 4));
                }
                "IV"
            },
            5 => {
                proof {
                    reveal_strlit("V");
                    assert("V"@ =~= roman_digit(0, 5));
                }
                "V"
            },
            6 => {
                proof {
                    reveal_strlit("VI");
                    assert("VI"@ =~= roman_digit(0, 6));
                }
                "VI"
            },
            7 => {
                proof {
                    reveal_strlit("VII");
                    assert("VII"@ =~= roman_digit(0, 7));
                }
                "VII"
            },
            8 => {
                proof {
                    reveal_strlit("VIII");
                    assert("VIII"@ =~= roman_digit(0, 8));
                }
                "VIII"
            },
            _ => {
                proof {
                    reveal_strlit("IX");
                    assert("IX"@ =~= roman_digit(0, 9));
                }
                "IX"
            },
        }
    } else if exp == 1 {
        match d {
            1 => {
                proof {
                    reveal_strlit("X");
                    assert("X"@ =~= roman_digit(1, 1));
                }
                "X"
            },
            2 => {
                proof {
                    reveal_strlit("XX");
                    assert("XX"@ =~= roman_digit(1, 2));
                }
                "XX"
            },
            3 => {
                proof {
                    reveal_strlit("XXX");
                    assert("XXX"@ =~= roman_digit(1, 3));
                }
                "XXX"
            },
            4 => {
                proof {
                    reveal_strlit("XL");
                    assert("XL"@ =~= roman_digit(1, 4));
                }
                "XL"
            },
            5 => {
                proof {
                    reveal_strlit("L");
                    assert("L"@ =~= roman_digit(1, 5));
                }
                "L"
            },
            6 => {
                proof {
                    reveal_strlit("LX");
                    assert("LX"@ =~= roman_digit(1, 6));
                }
                "LX"
            },
            7 => {
                proof {
                    reveal_strlit("LXX");
                    assert("LXX"@ =~= roman_digit(1, 7));
                }
                "LXX"
            },
            8 => {
                proof {
                    reveal_strlit("LXXX");
                    assert("LXXX"@ =~= roman_digit(1, 8));
                }
                "LXXX"
            },
            _ => {
                proof {
                    reveal_strlit("XC");
                    assert("XC"@ =~= roman_digit(1, 9));
                }
                "XC"
            },
        }
    } else if exp == 2 {
        match d {
            1 => {
                proof {
                    reveal_strlit("C");
                    assert("C"@ =~= roman_digit(2, 1));
                }
                "C"
            },
            2 => {
                proof {
                    reveal_strlit("CC");
                    assert("CC"@ =~= roman_digit(2, 2));
                }
                "CC"
            },
            3 => {
                proof {
                    reveal_strlit("CCC");
                    assert("CCC"@ =~= roman_digit(2, 3));
                }
                "CCC"
            },
            4 => {
                proof {
                    reveal_strlit("CD");
                    assert("CD"@ =~= roman_digit(2, 4));
                }
                "CD"
            },
            5 => {
                proof {
                    reveal_strlit("D");
                    assert("D"@ =~= roman_digit(2, 5));
                }
                "D"
            },
            6 => {
                proof {
                    reveal_strlit("DC");
                    assert("DC"@ =~= roman_digit(2, 6));
                }
                "DC"
            },
            7 => {
                proof {
                    reveal_strlit("DCC");
                    assert("DCC"@ =~= roman_digit(2, 7));
                }
                "DCC"
            },
            8 => {
                proof {
                    reveal_strlit("DCCC");
                    assert("DCCC"@ =~= roman_digit(2, 8));
                }
                "DCCC"
            },
            _ => {
                proof {
                    reveal_strlit("CM");
                    assert("CM"@ =~= roman_digit(2, 9));
                }
                "CM"
            },
        }
    } else {
        match d {
            1 => {
                proof {
                    reveal_strlit("M");
                    assert("M"@ =~= roman_digit(3, 1));
                }
                "M"
            },
            2 => {
                proof {
                    reveal_strlit("MM");
                    assert("MM"@ =~= roman_digit(3, 2));
                }
                "MM"
            },
            _ => {
                proof {
                    reveal_strlit("MMM");
                    assert("MMM"@ =~= roman_digit(3, 3));
                }
                "MMM"
            },
        }
    }
}

/// Encodes `input` as a Roman numeral, working through its decimal digits
/// from the lowest power of ten up. Fails with `EncodeZero` on zero, with
/// `EncodeIllegalLookupIndex` when the thousands digit is beyond the last
/// entry of its table row, and with `EncodeIllegalExponent` when a fifth
/// decimal digit asks for a table row that does not exist.
pub fn encode(input: u16) -> (r: Result<String, RomanError>)
    ensures
        input == 0 ==> r == Err::<String, RomanError>(RomanError::EncodeZero),
        1 <= input <= 3999 ==> (r matches Ok(s) && s@ == roman_seq(input as int, 0)),
        input >= 4000 && (input as int / 1000) % 10 >= 4 ==> r == Err::<String, RomanError>(
            RomanError::EncodeIllegalLookupIndex((((input as int / 1000) % 10)) as usize),
        ),
        input >= 10000 && (input as int / 1000) % 10 <= 3 ==> r == Err::<String, RomanError>(
            RomanError::EncodeIllegalExponent(4),
        ),
{
    if input == 0 {
        return Err(RomanError::EncodeZero);
    }
    let mut ret = String::new();
    let mut n: u16 = input;
    let mut exp: usize = 0;
    proof {
        assert(roman_seq(input as int, 0) =~= roman_seq(n as int, exp as int) + ret@);
    }
    while n > 0
        invariant
            1 <= input,
            exp <= 4,
            n as int == input as int / pow10(exp as int),
            exp == 4 ==> (input as int / 1000) % 10 <= 3,
            roman_seq(input as int, 0) == roman_seq(n as int, exp as int) + ret@,
        decreases n,
    {
        proof {
            lemma_pow10_pos(exp as int);
            lemma_fundamental_div_mod(input as int, pow10(exp as int));
            reveal_with_fuel(pow10, 6);
        }
        if exp >= 4 {
            proof {
                assert(pow10(4) == 10000);
                assert(input as int >= 10000) by (nonlinear_arith)
                    requires
                        n as int == input as int / 10000,
                        n > 0,
                        input as int == 10000 * (input as int / 10000) + input as int % 10000,
                        input as int % 10000 >= 0,
                ;
            }
            return Err(RomanError::EncodeIllegalExponent(exp));
        }
        let d = n % 10;
        if exp == 3 && d > 3 {
            proof {
                assert(pow10(3) == 1000);
                assert(n as int == input as int / 1000);
                assert(d as int == (input as int / 1000) % 10);
                assert(n >= 4);
                assert(input as int >= 4000) by (nonlinear_arith)
                    requires
                        n as int == input as int / 1000,
                        n >= 4,
                        input as int == 1000 * (input as int / 1000) + input as int % 1000,
                        input as int % 1000 >= 0,
                ;
            }
            return Err(RomanError::EncodeIllegalLookupIndex(d as usize));
        }
        let piece = encode_digit(exp, d);
        let prepended = String::from_str(piece).concat(ret.as_str());
        proof {
            lemma_div_pow10_step(input as int, exp as int);
            assert(roman_seq(n as int, exp as int) == roman_seq(
                n as int / 10,
                exp as int + 1,
            ) + roman_digit(exp as int, n as int % 10));
            assert(roman_seq(n as int, exp as int) + ret@ =~= roman_seq(
                n as int / 10,
                exp as int + 1,
            ) + prepended@);
        }
        ret = prepended;
        n = n / 10;
        exp = exp + 1;
    }
    proof {
        lemma_pow10_pos(exp as int);
        lemma_small_div_converse(input as int, pow10(exp as int));
        reveal_with_fuel(pow10, 6);
        assert((input as int) < pow10(exp as int));
        assert(roman_seq(input as int, 0) =~= ret@);
        if input >= 4000 && (input as int / 1000) % 10 >= 4 {
            assert(exp == 4);
            assert(false);
        }
    }
    Ok(ret)
}

/// Breaks `n` into its decimal digits, lowest power of ten first; zero has
/// no digits.
pub fn tenth_factors(n: u16) -> (r: Vec<u16>)
    ensures
        forall|i: int|
            0 <= i < r@.len() ==> #[trigger] r@[i] as int == (n as int / pow10(i)) % 10,
        n == 0 ==> r@.len() == 0,
        n > 0 ==> r@.len() >= 1 && pow10(r@.len() - 1) <= n as int && (n as int) < pow10(r@.len() as int),
{
    let mut ret: Vec<u16> = Vec::new();
    let mut m: u16 = n;
    while m > 0
        invariant
            m as int == n as int / pow10(ret@.len() as int),
            forall|i: int|
                0 <= i < ret@.len() ==> #[trigger] ret@[i] as int == (n as int / pow10(i)) % 10,
            ret@.len() > 0 ==> pow10(ret@.len() - 1) <= n as int,
            m == 0 ==> n == 0 || ret@.len() > 0,
        decreases m,
    {
        proof {
            lemma_pow10_pos(ret@.len() as int);
            lemma_fundamental_div_mod(n as int, pow10(ret@.len() as int));
            assert(n as int >= pow10(ret@.len() as int)) by (nonlinear_arith)
                requires
                    m as int == n as int / pow10(ret@.len() as int),
                    m > 0,
                    n as int == pow10(ret@.len() as int) * (n as int / pow10(ret@.len() as int))
                        + n as int % pow10(ret@.len() as int),
                    n as int % pow10(ret@.len() as int) >= 0,
                    pow10(ret@.len() as int) >= 1,
            ;
            lemma_div_pow10_step(n as int, ret@.len() as int);
        }
        ret.push(m % 10);
        m = m / 10;
    }
    proof {
        lemma_pow10_pos(ret@.len() as int);
        lemma_small_div_converse(n as int, pow10(ret@.len() as int));
    }
    ret
}

/// The value of a single Roman numeral character; zero for any other
/// character.
pub open spec fn char_value(c: char) -> int {
    if c == 'I' {
        1
    } else if c == 'V' {
        5
    } else if c == 'X' {
        10
    } else if c == 'L' {
        50
    } else if c == 'C' {
        100
    } else if c == 'D' {
        500
    } else if c == 'M' {
        1000
    } else {
        0
    }
}

/// A smaller numeral may stand before a larger one only in the classic
/// subtractive pairs: I before V or X, X before L or C, C before D or M.
pub open spec fn legal_subtraction(prev: int, v: int) -> bool {
    (prev == 1 || prev == 10 || prev == 100) && (v == 5 * prev || v == 10 * prev)
}

/// The outcome of decoding `s` from position `i` on, with running total
/// `ret` and the character decoded last (`'-'` before the first). A value
/// smaller than its successor is subtracted from it; the running total is
/// adjusted by taking the earlier addition back.
pub open spec fn decode_rec(s: Seq<char>, i: int, ret: int, prev: char) -> Result<int, RomanError>
    decreases s.len() - i,
{
    if i < 0 || i >= s.len() {
        Ok(ret)
    } else {
        let c = s[i];
        let v = char_value(c);
        let pv = char_value(prev);
        if v == 0 {
            Err(RomanError::DecodeIllegalCharacter(c))
        } else if pv > 0 && pv < v && !legal_subtraction(pv, v) {
            Err(RomanError::DecodeIllegalPosition { illegal: prev, next: c })
        } else if pv < v {
            decode_rec(s, i + 1, ret + v - 2 * pv, c)
        } else {
            decode_rec(s, i + 1, ret + v, c)
        }
    }
}

/// The outcome of decoding all of `s`.
pub open spec fn decode_spec(s: Seq<char>) -> Result<int, RomanError> {
    decode_rec(s, 0, 0, '-')
}

/// Along the path the decoder takes through `s`, every step of the running
/// total stays within a 16-bit unsigned integer.
pub open spec fn decode_fits(s: Seq<char>, i: int, ret: int, prev: char) -> bool
    decreases s.len() - i,
{
    i < 0 || i >= s.len() || {
        let c = s[i];
        let v = char_value(c);
        let pv = char_value(prev);
        if v == 0 {
            true
        } else if pv > 0 && pv < v && !legal_subtraction(pv, v) {
            true
        } else if pv < v {
            ret >= pv && ret + v - 2 * pv <= u16::MAX && decode_fits(s, i + 1, ret + v - 2 * pv, c)
        } else {
            ret + v <= u16::MAX && decode_fits(s, i + 1, ret + v, c)
        }
    }
}

/// The value of a single Roman numeral character, straight from the lookup
/// table; zero for any other character.
pub fn char_value_of(c: char) -> (v: u16)
    ensures
        v as int == char_value(c),
{
    if c == 'I' {
        1
    } else if c == 'V' {
        5
    } else if c == 'X' {
        10
    } else if c == 'L' {
        50
    } else if c == 'C' {
        100
    } else if c == 'D' {
        500
    } else if c == 'M' {
        1000
    } else {
        0
    }
}

/// Whether `pv` standing before the larger `v` is a legal subtractive pair.
fn is_legal_subtraction(pv: u16, v: u16) -> (r: bool)
    requires
        pv <= 1000,
        v <= 1000,
    ensures
        r == legal_subtraction(pv as int, v as int),
{
    (pv == 1 || pv == 10 || pv == 100) && (v == 5 * pv || v == 10 * pv)
}

/// Decodes a Roman numeral: each character adds its value; a character
/// smaller than its successor is subtracted from it instead. Fails with
/// `DecodeIllegalCharacter` at the first character that is no Roman
/// numeral, and with `DecodeIllegalPosition` at the first subtractive pair
/// outside the legal ones.
pub fn decode(input: &str) -> (r: Result<u16, RomanError>)
    requires
        decode_fits(input@, 0, 0, '-'),
    ensures
        decode_spec(input@) matches Ok(n) ==> (r matches Ok(m) && m as int == n),
        decode_spec(input@) matches Err(e) ==> r == Err::<u16, RomanError>(e),
{
    let len = input.unicode_len();
    let mut ret: u16 = 0;
    let mut prev: char = '-';
    let mut i: usize = 0;
    while i < len
        invariant
            i <= len,
            len == input@.len(),
            decode_rec(input@, 0, 0, '-') == decode_rec(input@, i as int, ret as int, prev),
            decode_fits(input@, i as int, ret as int, prev),
        decreases len - i,
    {
        let c = input.get_char(i);
        let v = char_value_of(c);
        if v == 0 {
            return Err(RomanError::DecodeIllegalCharacter(c));
        }
        let pv = char_value_of(prev);
        if pv > 0 && pv < v {
            if !is_legal_subtraction(pv, v) {
                return Err(RomanError::DecodeIllegalPosition { illegal: prev, next: c });
            }
        }
        if pv < v {
            ret = ret - pv;
            ret = ret + (v - pv);
        } else {
            ret = ret + v;
        }
        prev = c;
        i = i + 1;
    }
    Ok(ret)
}

} // verus!

//! Number literals: which texts are integers and which are floating-point
//! numbers, and the value of an integer.

use vstd::prelude::*;
use crate::sexpr_tokenizer::{is_digit, lemma_run_end, run_end, CharClass};

verus! {

/// Whether `c` is `+` or `-`.
pub open spec fn is_sign(c: char) -> bool {
    c == '+' || c == '-'
}

/// The number that the digit `c` stands for.
pub open spec fn digit_value(c: char) -> int {
    c as int - '0' as int
}

/// The value of `s` read as a decimal number, where `s` holds digits only.
pub open spec fn decimal(s: Seq<char>) -> int
    decreases s.len(),
{
    if s.len() == 0 {
        0
    } else {
        decimal(s.drop_last()) * 10 + digit_value(s.last())
    }
}

/// How many characters of `s` a leading sign takes: one or none.
pub open spec fn sign_len(s: Seq<char>) -> int {
    if s.len() > 0 && is_sign(s[0]) {
        1
    } else {
        0
    }
}

/// The value of `s` as an integer literal: an optional `+` or `-`, then one
/// digit or more and nothing else. `None` for every other text.
pub open spec fn integer_literal(s: Seq<char>) -> Option<int> {
    let start = sign_len(s);
    if start < s.len() && run_end(s, start, CharClass::Digit) == s.len() {
        if s[0] == '-' {
            Some(-decimal(s.skip(start)))
        } else {
            Some(decimal(s.skip(start)))
        }
    } else {
        None
    }
}

/// Whether `c` is the lowercase letter `letter` or its uppercase form.
pub open spec fn is_letter(c: char, letter: char) -> bool {
    c == letter || ('A' <= c <= 'Z' && c as int + 32 == letter as int)
}

/// Whether `s` from index `from` on spells `word`, whatever the case of its
/// letters. `word` holds lowercase letters.
pub open spec fn spells(s: Seq<char>, from: int, word: Seq<char>) -> bool {
    &&& s.len() - from == word.len()
    &&& forall|i: int| 0 <= i < word.len() ==> is_letter(#[trigger] s[from + i], word[i])
}

/// Whether `s` from index `from` on is a decimal number: digits with at most
/// one `.` among them, before it or behind it or both, and then, if anything,
/// an exponent: `e` or `E`, an optional sign, and one digit or more.
pub open spec fn is_decimal(s: Seq<char>, from: int) -> bool {
    let whole_end = run_end(s, from, CharClass::Digit);
    let mantissa_end = if whole_end < s.len() && s[whole_end] == '.' {
        run_end(s, whole_end + 1, CharClass::Digit)
    } else {
        whole_end
    };
    let digits = if mantissa_end == whole_end {
        whole_end - from
    } else {
        mantissa_end - from - 1
    };
    &&& digits > 0
    &&& if mantissa_end < s.len() {
        let exponent = if mantissa_end + 1 < s.len() && is_sign(s[mantissa_end + 1]) {
            mantissa_end + 2
        } else {
            mantissa_end + 1
        };
        &&& s[mantissa_end] == 'e' || s[mantissa_end] == 'E'
        &&& exponent < s.len()
        &&& run_end(s, exponent, CharClass::Digit) == s.len()
    } else {
        true
    }
}

/// Whether `s` is a floating-point literal: an optional sign, and then a
/// decimal number or one of the words `inf`, `infinity` and `nan` in any case.
pub open spec fn float_literal(s: Seq<char>) -> bool {
    let start = sign_len(s);
    ||| is_decimal(s, start)
    ||| spells(s, start, "inf"@)
    ||| spells(s, start, "infinity"@)
    ||| spells(s, start, "nan"@)
}

/// A longer text of digits stands for a number that is no smaller.
pub proof fn lemma_decimal_grows(s: Seq<char>, k: int)
    requires
        0 <= k <= s.len(),
        forall|i: int| 0 <= i < s.len() ==> is_digit(#[trigger] s[i]),
    ensures
        0 <= decimal(s.take(k)) <= decimal(s),
    decreases s.len() - k,
{
    if k == s.len() {
        assert(s.take(k) =~= s);
        lemma_decimal_digits(s);
    } else {
        lemma_decimal_grows(s.drop_last(), k);
        assert(s.drop_last().take(k) =~= s.take(k));
    }
}

/// A text of digits stands for a number that is not negative.
pub proof fn lemma_decimal_digits(s: Seq<char>)
    requires
        forall|i: int| 0 <= i < s.len() ==> is_digit(#[trigger] s[i]),
    ensures
        0 <= decimal(s),
    decreases s.len(),
{
    if s.len() > 0 {
        lemma_decimal_digits(s.drop_last());
    }
}

/// The index of the first character at or after `from` that is no digit.
fn skip_digits(chars: &Vec<char>, from: usize) -> (end: usize)
    requires
        from <= chars.len(),
    ensures
        end == run_end(chars@, from as int, CharClass::Digit),
        from <= end <= chars.len(),
{
    let mut i: usize = from;
    while i < chars.len() && CharClass::Digit.admits(chars[i])
        invariant
            from <= i <= chars.len(),
            run_end(chars@, from as int, CharClass::Digit) == run_end(
                chars@,
                i as int,
                CharClass::Digit,
            ),
        decreases chars.len() - i,
    {
        i += 1;
    }
    i
}

/// One if `chars` starts with a sign, else zero.
fn skip_sign(chars: &Vec<char>) -> (start: usize)
    ensures
        start == sign_len(chars@),
{
    if chars.len() > 0 && (chars[0] == '+' || chars[0] == '-') {
        1
    } else {
        0
    }
}

/// The value of `chars` as an integer literal, where an `i64` holds it.
pub fn parse_integer(chars: &Vec<char>) -> (value: Option<i64>)
    ensures
        value == match integer_literal(chars@) {
            Some(v) => if i64::MIN <= v <= i64::MAX {
                Some(v as i64)
            } else {
                None
            },
            None => None,
        },
{
    let start = skip_sign(chars);
    if start >= chars.len() {
        return None;
    }
    let negative = chars[0] == '-';
    let ghost digits = chars@.skip(start as int);
    let mut magnitude: i128 = 0;
    let mut i: usize = start;
    while i < chars.len()
        invariant
            start <= i <= chars.len(),
            start == sign_len(chars@),
            start < chars.len(),
            digits == chars@.skip(start as int),
            forall|k: int| start <= k < i ==> is_digit(#[trigger] chars@[k]),
            magnitude == decimal(digits.take(i - start)),
            0 <= magnitude <= 0x8000_0000_0000_0000,
        decreases chars.len() - i,
    {
        let c = chars[i];
        if !CharClass::Digit.admits(c) {
            proof {
                lemma_run_end(chars@, start as int, CharClass::Digit);
            }
            return None;
        }
        let d: i128 = (c as u32 - '0' as u32) as i128;
        proof {
            assert(digits.take(i + 1 - start).drop_last() =~= digits.take(i - start));
            assert(digits.take(i + 1 - start).last() == c);
        }
        magnitude = magnitude * 10 + d;
        i += 1;
        if magnitude > 0x8000_0000_0000_0000 {
            proof {
                if run_end(chars@, start as int, CharClass::Digit) == chars.len() {
                    lemma_run_end(chars@, start as int, CharClass::Digit);
                    lemma_decimal_grows(digits, i - start);
                }
            }
            return None;
        }
    }
    proof {
        assert(digits.take(i - start) =~= digits);
        lemma_all_digits_run(chars@, start as int);
    }
    if negative {
        Some((-magnitude) as i64)
    } else if magnitude > 0x7fff_ffff_ffff_ffff {
        None
    } else {
        Some(magnitude as i64)
    }
}

/// Where every character from `from` on is a digit, the run of digits from
/// `from` ends with the text.
pub proof fn lemma_all_digits_run(s: Seq<char>, from: int)
    requires
        0 <= from <= s.len(),
        forall|k: int| from <= k < s.len() ==> is_digit(#[trigger] s[k]),
    ensures
        run_end(s, from, CharClass::Digit) == s.len(),
    decreases s.len() - from,
{
    if from < s.len() {
        lemma_all_digits_run(s, from + 1);
    }
}

/// Whether `chars` from index `from` on spells `word` in any case.
fn spells_word(chars: &Vec<char>, from: usize, word: &str) -> (b: bool)
    requires
        from <= chars.len(),
    ensures
        b == spells(chars@, from as int, word@),
{
    let n = word.unicode_len();
    if chars.len() - from != n {
        return false;
    }
    let mut i: usize = 0;
    while i < n
        invariant
            from <= chars.len(),
            chars.len() - from == n,
            n == word@.len(),
            i <= n,
            forall|k: int| 0 <= k < i ==> is_letter(#[trigger] chars@[from + k], word@[k]),
        decreases n - i,
    {
        let c = chars[from + i];
        let letter = word.get_char(i);
        let same = c == letter || ('A' <= c && c <= 'Z' && c as u32 + 32 == letter as u32);
        if !same {
            return false;
        }
        i += 1;
    }
    true
}

/// Whether `chars` from index `from` on is a decimal number.
fn decimal_from(chars: &Vec<char>, from: usize) -> (b: bool)
    requires
        from <= chars.len(),
    ensures
        b == is_decimal(chars@, from as int),
{
    let whole_end = skip_digits(chars, from);
    let dotted = whole_end < chars.len() && chars[whole_end] == '.';
    let mantissa_end = if dotted {
        skip_digits(chars, whole_end + 1)
    } else {
        whole_end
    };
    let digits = if dotted {
        mantissa_end - from - 1
    } else {
        whole_end - from
    };
    if digits == 0 {
        return false;
    }
    if mantissa_end == chars.len() {
        return true;
    }
    if chars[mantissa_end] != 'e' && chars[mantissa_end] != 'E' {
        return false;
    }
    let signed = mantissa_end + 1 < chars.len() && (chars[mantissa_end + 1] == '+'
        || chars[mantissa_end + 1] == '-');
    let exponent = if signed {
        mantissa_end + 2
    } else {
        mantissa_end + 1
    };
    exponent < chars.len() && skip_digits(chars, exponent) == chars.len()
}

/// Whether `chars` is a floating-point literal.
pub fn is_float(chars: &Vec<char>) -> (b: bool)
    ensures
        b == float_literal(chars@),
{
    let start = skip_sign(chars);
    decimal_from(chars, start) || spells_word(chars, start, "inf") || spells_word(
        chars,
        start,
        "infinity",
    ) || spells_word(chars, start, "nan")
}

} // verus!

//! Small string helpers shared by the analyzer and the generator: ASCII
//! case folding into owned strings, lenient decimal parsing, and decimal
//! rendering of integers.

use crate::lexer::{is_dec_digit, lower_char, lower_seq};
use vstd::prelude::*;
use vstd::string::{StrSliceExecFns, StringExecFns};

verus! {

/// Relies on String::push: appends exactly the given character to the end
/// of the string.
#[verifier::external_body]
pub fn push_char(s: &mut String, c: char)
    ensures
        final(s)@ == old(s)@.push(c),
{
    s.push(c)
}

/// ASCII-folds a string to lowercase, character by character.
pub fn to_lower_string(text: &str) -> (r: String)
    ensures
        r@ == lower_seq(text@),
{
    let n = text.unicode_len();
    let mut out = String::new();
    let mut i: usize = 0;
    while i < n
        invariant
            0 <= i <= n,
            n == text@.len(),
            out@ == lower_seq(text@.take(i as int)),
        decreases n - i,
    {
        let c = crate::lexer::to_lower_char(text.get_char(i));
        push_char(&mut out, c);
        proof {
            assert(text@.take(i + 1).drop_last() =~= text@.take(i as int));
            assert(lower_seq(text@.take(i + 1)) =~= lower_seq(text@.take(i as int)).push(
                lower_char(text@[i as int]),
            ));
        }
        i = i + 1;
    }
    proof {
        assert(text@.take(n as int) =~= text@);
    }
    out
}

/// The numeric value of a decimal digit character.
pub open spec fn dec_digit_val(c: char) -> int {
    (c as u32) - 48
}

/// Whether every character of `t` is a decimal digit.
pub open spec fn all_dec_digits(t: Seq<char>) -> bool {
    forall|k: int| 0 <= k < t.len() ==> is_dec_digit(t[k])
}

/// The value of a digit string read in base ten.
pub open spec fn digits_val(t: Seq<char>) -> int
    decreases t.len(),
{
    if t.len() == 0 {
        0
    } else {
        digits_val(t.drop_last()) * 10 + dec_digit_val(t.last())
    }
}

/// What parsing a token text as an `i64` yields when failures fall back to
/// zero: its base-ten value when the text is all digits and fits, and zero
/// otherwise.
pub open spec fn spec_parse_i64_or_zero(t: Seq<char>) -> int {
    if t.len() > 0 && all_dec_digits(t) && digits_val(t) <= i64::MAX {
        digits_val(t)
    } else {
        0
    }
}

proof fn lemma_digits_val_nonneg(t: Seq<char>)
    requires
        all_dec_digits(t),
    ensures
        digits_val(t) >= 0,
    decreases t.len(),
{
    if t.len() > 0 {
        assert(all_dec_digits(t.drop_last())) by {
            assert(forall|k: int|
                0 <= k < t.len() - 1 ==> t.drop_last()[k] == t[k] && is_dec_digit(t[k]));
        }
        lemma_digits_val_nonneg(t.drop_last());
    }
}

proof fn lemma_digits_val_mono(t: Seq<char>, j: int)
    requires
        all_dec_digits(t),
        0 <= j <= t.len(),
    ensures
        digits_val(t.take(j)) <= digits_val(t),
    decreases t.len() - j,
{
    if j < t.len() {
        lemma_digits_val_mono(t, j + 1);
        let a = t.take(j);
        let b = t.take(j + 1);
        assert(b.drop_last() =~= a);
        assert(all_dec_digits(a)) by {
            assert(forall|k: int| 0 <= k < j ==> a[k] == t[k] && is_dec_digit(t[k]));
        }
        lemma_digits_val_nonneg(a);
        assert(digits_val(b) == digits_val(a) * 10 + dec_digit_val(t[j]));
        assert(dec_digit_val(t[j]) >= 0);
    } else {
        assert(t.take(j) =~= t);
    }
}

/// Parses a string as a base-ten `i64`, yielding zero on any malformed or
/// overflowing input.
pub fn parse_i64_or_zero(text: &str) -> (n: i64)
    ensures
        n as int == spec_parse_i64_or_zero(text@),
{
    let len = text.unicode_len();
    if len == 0 {
        return 0;
    }
    let mut acc: i64 = 0;
    let mut i: usize = 0;
    while i < len
        invariant
            0 <= i <= len,
            len == text@.len(),
            all_dec_digits(text@.take(i as int)),
            acc as int == digits_val(text@.take(i as int)),
            0 <= acc,
        decreases len - i,
    {
        let c = text.get_char(i);
        let u = c as u32;
        if !(48 <= u && u <= 57) {
            assert(!is_dec_digit(text@[i as int]));
            return 0;
        }
        let d: i64 = ((u - 48) as i64);
        proof {
            assert(text@.take(i + 1).drop_last() =~= text@.take(i as int));
            assert(all_dec_digits(text@.take(i + 1))) by {
                assert(forall|k: int|
                    0 <= k < i + 1 ==> text@.take(i + 1)[k] == text@[k]);
            }
        }
        if acc > 922337203685477580 || (acc == 922337203685477580 && d > 7) {
            proof {
                assert(digits_val(text@.take(i + 1)) == acc * 10 + d);
                assert(digits_val(text@.take(i + 1)) > i64::MAX);
                if all_dec_digits(text@) {
                    lemma_digits_val_mono(text@, i + 1);
                }
            }
            return 0;
        }
        acc = acc * 10 + d;
        i = i + 1;
    }
    proof {
        assert(text@.take(len as int) =~= text@);
    }
    acc
}

/// The character of one decimal digit.
pub open spec fn digit_char(d: int) -> char {
    ((d + 48) as u32) as char
}

/// The base-ten rendering of a non-negative integer.
pub open spec fn dec_str(n: int) -> Seq<char>
    decreases n,
{
    if n < 0 {
        Seq::empty()
    } else if n < 10 {
        seq![digit_char(n)]
    } else {
        dec_str(n / 10) + seq![digit_char(n % 10)]
    }
}

/// The base-ten rendering of a signed integer, with a leading minus sign
/// when it is negative.
pub open spec fn int_str(v: int) -> Seq<char> {
    if v < 0 {
        seq!['-'] + dec_str(-v)
    } else {
        dec_str(v)
    }
}

fn digit_char_exec(d: u64) -> (c: char)
    requires
        d < 10,
    ensures
        c == digit_char(d as int),
{
    match d {
        0 => '0',
        1 => '1',
        2 => '2',
        3 => '3',
        4 => '4',
        5 => '5',
        6 => '6',
        7 => '7',
        8 => '8',
        _ => '9',
    }
}

/// Renders an unsigned integer in base ten.
pub fn u64_to_string(n: u64) -> (r: String)
    ensures
        r@ == dec_str(n as int),
    decreases n,
{
    if n < 10 {
        let mut s = String::new();
        push_char(&mut s, digit_char_exec(n));
        proof {
            assert(Seq::<char>::empty().push(digit_char(n as int)) =~= seq![
                digit_char(n as int),
            ]);
        }
        s
    } else {
        let mut s = u64_to_string(n / 10);
        push_char(&mut s, digit_char_exec(n % 10));
        proof {
            assert(dec_str((n / 10) as int).push(digit_char((n % 10) as int)) =~= dec_str(
                (n / 10) as int,
            ) + seq![digit_char((n % 10) as int)]);
        }
        s
    }
}

/// Renders a signed integer in base ten.
pub fn i64_to_string(n: i64) -> (r: String)
    ensures
        r@ == int_str(n as int),
{
    if n >= 0 {
        u64_to_string(n as u64)
    } else {
        let mag: u64 = ((-(n + 1)) as u64) + 1;
        proof {
            assert(mag as int == -(n as int));
        }
        let mut s = String::from_str("-");
        let digits = u64_to_string(mag);
        s.append(digits.as_str());
        proof {
            reveal_strlit("-");
            assert("-"@ =~= seq!['-']);
        }
        s
    }
}

} // verus!

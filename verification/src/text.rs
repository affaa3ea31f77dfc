//! Character and string helpers shared by the parsers and encoders:
//! decimal rendering of integers, ASCII case folding, and the one
//! trusted way to grow a `String` by a character.

use vstd::prelude::*;
use vstd::string::StrSliceExecFns;

verus! {

/// The digit character for `d` (`0 <= d < 10`).
pub open spec fn digit_char(d: int) -> char {
    ((48 + d) as u8) as char
}

/// The decimal digits of `n`, most significant first, as characters.
pub open spec fn dec_str_nat(n: nat) -> Seq<char>
    decreases n,
{
    if n < 10 {
        seq![digit_char(n as int)]
    } else {
        dec_str_nat(n / 10).push(digit_char((n % 10) as int))
    }
}

/// The decimal rendering of `n`, with a leading minus sign when negative.
pub open spec fn dec_str_int(n: int) -> Seq<char> {
    if n < 0 {
        seq!['-'] + dec_str_nat((-n) as nat)
    } else {
        dec_str_nat(n as nat)
    }
}

/// Relies on `String::push`: appends exactly the given character.
#[verifier::external_body]
pub(crate) fn push_char(s: &mut String, c: char)
    ensures
        final(s)@ == old(s)@.push(c),
{
    s.push(c);
}

/// The decimal rendering of `n` as an owned string.
pub fn i128_to_string(n: i128) -> (r: String)
    ensures
        r@ == dec_str_int(n as int),
{
    let neg = n < 0;
    let mut m: u128 = if n >= 0 {
        n as u128
    } else {
        (-(n + 1)) as u128 + 1
    };
    proof {
        if n < 0 {
            assert(m == -(n as int));
        } else {
            assert(m == n as int);
        }
    }
    let ghost orig: nat = m as nat;
    let mut digits: Vec<char> = Vec::new();
    loop
        invariant_except_break
            dec_str_nat(orig) == dec_str_nat(m as nat) + digits@.reverse(),
        ensures
            dec_str_nat(orig) == digits@.reverse(),
        decreases m,
    {
        let d: u8 = (m % 10) as u8;
        let c: char = (48 + d) as char;
        let ghost digits_before = digits@;
        digits.push(c);
        proof {
            assert(digits@.reverse() =~= seq![c] + digits_before.reverse());
            assert(c == digit_char((m as nat % 10) as int));
            if m >= 10 {
                assert(dec_str_nat(m as nat) == dec_str_nat(m as nat / 10).push(
                    digit_char((m as nat % 10) as int),
                ));
                assert(dec_str_nat(m as nat) + digits_before.reverse() =~= dec_str_nat(
                    m as nat / 10,
                ) + digits@.reverse());
            } else {
                assert(dec_str_nat(m as nat) =~= seq![c]);
                assert(dec_str_nat(m as nat) + digits_before.reverse() =~= digits@.reverse());
            }
        }
        m = m / 10;
        if m == 0 {
            break;
        }
    }
    let mut r = String::new();
    if neg {
        push_char(&mut r, '-');
    }
    let count = digits.len();
    for i in 0..count
        invariant
            count == digits@.len(),
            digits@.reverse() == dec_str_nat(orig),
            r@ == (if neg {
                seq!['-']
            } else {
                Seq::<char>::empty()
            }) + digits@.reverse().take(i as int),
    {
        push_char(&mut r, digits[count - 1 - i]);
        proof {
            assert(digits@.reverse()[i as int] == digits@[count - 1 - i]);
            assert(digits@.reverse().take(i + 1) =~= digits@.reverse().take(i as int).push(
                digits@.reverse()[i as int],
            ));
        }
    }
    proof {
        assert(digits@.reverse().take(digits@.len() as int) =~= digits@.reverse());
        if neg {
            assert(orig == -(n as int));
            assert(r@ == seq!['-'] + dec_str_nat((-(n as int)) as nat));
        } else {
            assert(orig == n as int);
        }
    }
    r
}

/// The characters of a text, one per cell.
pub fn str_to_chars(s: &str) -> (r: Vec<char>)
    ensures
        r@ == s@,
{
    let n = s.unicode_len();
    let mut r: Vec<char> = Vec::new();
    for i in 0..n
        invariant
            n == s@.len(),
            r@ =~= s@.take(i as int),
    {
        r.push(s.get_char(i));
        proof {
            assert(r@ =~= s@.take(i + 1));
        }
    }
    proof {
        assert(s@.take(n as int) =~= s@);
    }
    r
}

/// The text holding exactly the given characters.
pub fn chars_to_string(cs: &Vec<char>) -> (r: String)
    ensures
        r@ == cs@,
{
    let n = cs.len();
    let mut r = String::new();
    for i in 0..n
        invariant
            n == cs@.len(),
            r@ =~= cs@.take(i as int),
    {
        push_char(&mut r, cs[i]);
        proof {
            assert(r@ =~= cs@.take(i + 1));
        }
    }
    proof {
        assert(cs@.take(n as int) =~= cs@);
    }
    r
}

/// Relies on `String::from_utf8`: succeeds exactly on valid UTF-8 and
/// returns the characters those bytes encode.
#[verifier::external_body]
pub(crate) fn string_from_utf8(bytes: Vec<u8>) -> (r: Option<String>)
    ensures
        r is Some <==> vstd::utf8::valid_utf8(bytes@),
        r matches Some(s) ==> s@ == vstd::utf8::decode_utf8(bytes@),
{
    match String::from_utf8(bytes) {
        Ok(s) => Some(s),
        Err(_) => None,
    }
}

/// Compares two texts character by character.
pub fn str_eq(a: &str, b: &str) -> (r: bool)
    ensures
        r == (a@ == b@),
{
    let n = a.unicode_len();
    if n != b.unicode_len() {
        return false;
    }
    for i in 0..n
        invariant
            n == a@.len(),
            n == b@.len(),
            forall|j: int| 0 <= j < i ==> a@[j] == b@[j],
    {
        if a.get_char(i) != b.get_char(i) {
            return false;
        }
    }
    proof {
        assert(a@ =~= b@);
    }
    true
}

/// The case-folded code of a character: ASCII capitals map to their
/// small letters, every other character to itself.
pub open spec fn lower_code(c: char) -> int {
    if 'A' <= c && c <= 'Z' {
        c as u32 + 32
    } else {
        c as u32 as int
    }
}

/// True when the two texts are equal up to ASCII case.
pub open spec fn ascii_eq_fold(a: Seq<char>, b: Seq<char>) -> bool {
    a.len() == b.len() && forall|i: int| 0 <= i < a.len() ==> lower_code(a[i]) == lower_code(b[i])
}

/// Compares two texts, treating ASCII capital and small letters alike.
pub fn eq_ignore_case(a: &str, b: &str) -> (r: bool)
    ensures
        r == ascii_eq_fold(a@, b@),
{
    let n = a.unicode_len();
    if n != b.unicode_len() {
        return false;
    }
    for i in 0..n
        invariant
            n == a@.len(),
            n == b@.len(),
            forall|j: int| 0 <= j < i ==> lower_code(a@[j]) == lower_code(b@[j]),
    {
        let ca = a.get_char(i);
        let cb = b.get_char(i);
        let fa: u32 = if 'A' <= ca && ca <= 'Z' {
            ca as u32 + 32
        } else {
            ca as u32
        };
        let fb: u32 = if 'A' <= cb && cb <= 'Z' {
            cb as u32 + 32
        } else {
            cb as u32
        };
        if fa != fb {
            return false;
        }
    }
    true
}

} // verus!

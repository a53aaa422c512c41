//! Small operations on strings and characters.

use vstd::prelude::*;
use vstd::string::*;

verus! {

/// `String::push`. Trusted: the character is appended.
pub assume_specification[ String::push ](s: &mut String, c: char)
    ensures
        final(s)@ == old(s)@.push(c),
;

/// `String::pop`. Trusted: the last character is removed and returned, and an
/// empty string stays empty.
pub assume_specification[ String::pop ](s: &mut String) -> (c: Option<char>)
    ensures
        old(s)@.len() == 0 ==> c is None && final(s)@ == old(s)@,
        old(s)@.len() > 0 ==> c == Some(old(s)@.last()) && final(s)@ == old(s)@.drop_last(),
;

/// `char::from_u32`. Trusted: the character with this scalar value, if the
/// number is one.
pub assume_specification[ char::from_u32 ](value: u32) -> (c: Option<char>)
    ensures
        c is Some <==> vstd::utf8::is_scalar(value),
        c matches Some(found) ==> found as u32 == value,
;

/// `std::str::from_utf8`. Trusted: the text that the bytes encode, if they are
/// valid UTF-8.
#[verifier::external_body]
pub(crate) fn text_of(bytes: &[u8]) -> (text: Option<&str>)
    ensures
        text is Some <==> vstd::utf8::valid_utf8(bytes@),
        text matches Some(s) ==> s.spec_bytes() == bytes@,
{
    std::str::from_utf8(bytes).ok()
}

/// The decimal digit of a number below ten.
pub open spec fn digit(d: nat) -> char {
    if d == 0 {
        '0'
    } else if d == 1 {
        '1'
    } else if d == 2 {
        '2'
    } else if d == 3 {
        '3'
    } else if d == 4 {
        '4'
    } else if d == 5 {
        '5'
    } else if d == 6 {
        '6'
    } else if d == 7 {
        '7'
    } else if d == 8 {
        '8'
    } else {
        '9'
    }
}

/// A number in decimal notation.
pub open spec fn decimal(n: nat) -> Seq<char>
    decreases n,
{
    if n < 10 {
        seq![digit(n)]
    } else {
        decimal(n / 10).push(digit(n % 10))
    }
}

/// A signed number in decimal notation.
pub open spec fn signed_decimal(n: int) -> Seq<char> {
    if n < 0 {
        seq!['-'] + decimal((-n) as nat)
    } else {
        decimal(n as nat)
    }
}

/// Writes a number in decimal notation.
pub fn write_decimal(out: &mut String, n: u64)
    ensures
        final(out)@ == old(out)@ + decimal(n as nat),
    decreases n,
{
    if n >= 10 {
        write_decimal(out, n / 10);
    }
    let d = n % 10;
    let c = match d {
        0 => '0',
        1 => '1',
        2 => '2',
        3 => '3',
        4 => '4',
        5 => '5',
        6 => '6',
        7 => '7',
        8 => '8',
        _ => '9',
    };
    out.push(c);
    assert(out@ =~= old(out)@ + decimal(n as nat));
}

/// Writes a signed number in decimal notation.
pub fn write_signed_decimal(out: &mut String, n: i64)
    ensures
        final(out)@ == old(out)@ + signed_decimal(n as int),
{
    if n < 0 {
        out.push('-');
        if n == i64::MIN {
            write_decimal(out, 0x8000_0000_0000_0000);
        } else {
            write_decimal(out, (-n) as u64);
        }
        assert(out@ =~= old(out)@ + signed_decimal(n as int));
    } else {
        write_decimal(out, n as u64);
    }
}

/// The text with its last character replaced by the next one, if there is one.
pub open spec fn successor(text: Seq<char>) -> Option<Seq<char>> {
    if text.len() == 0 {
        None
    } else {
        let next = (text.last() as u32 + 1) as u32;
        if vstd::utf8::is_scalar(next) {
            Some(text.drop_last().push(next as char))
        } else {
            None
        }
    }
}

/// Replaces the last character of `text` by the next one. Returns the text as
/// it was if it is empty or if there is no next character.
pub fn increment(text: String) -> (r: Result<String, String>)
    ensures
        match successor(text@) {
            Some(next) => r matches Ok(s) && s@ == next,
            None => r matches Err(s) && s@ == text@,
        },
{
    let mut text = text;
    let ghost all = text@;
    let last = match text.pop() {
        Some(last) => last,
        None => return Err(text),
    };
    proof {
        vstd::utf8::char_is_scalar(last);
    }
    let value = last as u32 + 1;
    match char::from_u32(value) {
        Some(next) => {
            proof {
                vstd::utf8::char_u32_cast(next, value);
            }
            text.push(next);
            Ok(text)
        },
        None => {
            text.push(last);
            assert(text@ =~= all);
            Err(text)
        },
    }
}

} // verus!

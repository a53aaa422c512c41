//! Facts about UTF-8: where ASCII bytes stand, how encodings are joined, and
//! how they compare.

use vstd::prelude::*;
use vstd::utf8::*;

verus! {

/// An ASCII character is encoded by itself, any other one by bytes outside the
/// ASCII range.
pub proof fn lemma_encode_scalar(c: u32)
    requires
        is_scalar(c),
    ensures
        c < 0x80 ==> encode_scalar(c) == seq![c as u8],
        c >= 0x80 ==> encode_scalar(c).len() >= 2,
        c >= 0x80 ==> forall|i: int|
            0 <= i < encode_scalar(c).len() ==> #[trigger] encode_scalar(c)[i] >= 0x80,
{
    if has_width_1_encoding(c) {
        assert((c & 0x7F) as u8 == c as u8) by (bit_vector)
            requires
                c <= 0x7F,
        ;
    } else {
        assert(0xC0 | ((c >> 6) & 0x1F) as u8 >= 0x80) by (bit_vector);
        assert(0xE0 | ((c >> 12) & 0x0F) as u8 >= 0x80) by (bit_vector);
        assert(0xF0 | ((c >> 18) & 0x7) as u8 >= 0x80) by (bit_vector);
        assert(0x80 | (c & 0x3F) as u8 >= 0x80) by (bit_vector);
        assert(0x80 | ((c >> 6) & 0x3F) as u8 >= 0x80) by (bit_vector);
        assert(0x80 | ((c >> 12) & 0x3F) as u8 >= 0x80) by (bit_vector);
    }
}

/// The encoding of two texts in a row.
pub proof fn lemma_encode_concat(a: Seq<char>, b: Seq<char>)
    ensures
        encode_utf8(a + b) == encode_utf8(a) + encode_utf8(b),
    decreases a.len(),
{
    if a.len() == 0 {
        assert(a + b =~= b);
        assert(encode_utf8(a) + encode_utf8(b) =~= encode_utf8(b));
    } else {
        assert((a + b).drop_first() =~= a.drop_first() + b);
        lemma_encode_concat(a.drop_first(), b);
        assert(encode_utf8(a + b) =~= encode_utf8(a) + encode_utf8(b));
    }
}

/// The encoding of a single character.
pub proof fn lemma_encode_one(c: char)
    ensures
        encode_utf8(seq![c]) == encode_scalar(c as u32),
{
    reveal_with_fuel(encode_utf8, 2);
    assert(seq![c].drop_first() =~= Seq::empty());
    assert(encode_utf8(seq![c]) =~= encode_scalar(c as u32));
}

/// The encoding of a text and its last character.
pub proof fn lemma_encode_last(text: Seq<char>)
    requires
        text.len() > 0,
    ensures
        encode_utf8(text) == encode_utf8(text.drop_last()) + encode_scalar(text.last() as u32),
{
    assert(text =~= text.drop_last() + seq![text.last()]);
    lemma_encode_concat(text.drop_last(), seq![text.last()]);
    lemma_encode_one(text.last());
}

/// Texts with equal encodings are equal.
pub proof fn lemma_encode_injective(a: Seq<char>, b: Seq<char>)
    requires
        encode_utf8(a) == encode_utf8(b),
    ensures
        a == b,
{
    encode_utf8_decode_utf8(a);
    encode_utf8_decode_utf8(b);
}

/// Where the encoding of a character is one of ASCII bytes, it is that of the
/// ASCII character.
proof fn lemma_ascii_scalar(c: char, ascii: char, i: int)
    requires
        (ascii as u32) < 0x80,
        0 <= i < encode_scalar(c as u32).len(),
    ensures
        encode_scalar(c as u32)[i] == ascii as u8 <==> c == ascii,
        c == ascii ==> encode_scalar(c as u32) == seq![ascii as u8],
{
    char_is_scalar(c);
    lemma_encode_scalar(c as u32);
    let byte = ascii as u8;
    assert(byte as u32 == ascii as u32);
    if (c as u32) < 0x80 {
        assert((c as u32) as u8 as u32 == c as u32);
        if encode_scalar(c as u32)[i] == byte {
            assert(c as u32 == ascii as u32);
        }
    }
}

/// An ASCII byte stands in an encoding exactly where the text has that
/// character.
pub proof fn lemma_ascii_bytes(text: Seq<char>, ascii: char)
    requires
        (ascii as u32) < 0x80,
    ensures
        encode_utf8(text).contains(ascii as u8) <==> text.contains(ascii),
    decreases text.len(),
{
    if text.len() > 0 {
        let first = encode_scalar(text[0] as u32);
        let rest = encode_utf8(text.drop_first());
        let bytes = encode_utf8(text);
        char_is_scalar(text[0]);
        lemma_encode_scalar(text[0] as u32);
        lemma_ascii_bytes(text.drop_first(), ascii);
        if bytes.contains(ascii as u8) {
            let i = bytes.index_of(ascii as u8);
            if i < first.len() {
                assert(first[i] == ascii as u8);
                lemma_ascii_scalar(text[0], ascii, i);
                assert(text[0] == ascii);
            } else {
                assert(rest[i - first.len()] == ascii as u8);
                let j = text.drop_first().index_of(ascii);
                assert(text[j + 1] == ascii);
            }
        }
        if text.contains(ascii) {
            let j = text.index_of(ascii);
            if j == 0 {
                lemma_ascii_scalar(text[0], ascii, 0);
                assert(bytes[0] == ascii as u8);
            } else {
                assert(text.drop_first()[j - 1] == ascii);
                let i = rest.index_of(ascii as u8);
                assert(bytes[first.len() + i] == ascii as u8);
            }
        }
    }
}

/// The first byte of an encoding is an ASCII byte exactly if the first
/// character is.
pub proof fn lemma_first_byte(text: Seq<char>, ascii: char)
    requires
        (ascii as u32) < 0x80,
    ensures
        (text.len() > 0 && text[0] == ascii) <==> (encode_utf8(text).len() > 0 && encode_utf8(
            text,
        )[0] == ascii as u8),
        text.len() > 0 && text[0] == ascii ==> {
            &&& encode_utf8(text).subrange(1, encode_utf8(text).len() as int) == encode_utf8(
                text.skip(1),
            )
            &&& is_char_boundary(encode_utf8(text), 1)
        },
{
    if text.len() > 0 {
        let bytes = encode_utf8(text);
        char_is_scalar(text[0]);
        lemma_encode_scalar(text[0] as u32);
        encode_utf8_valid_utf8(text);
        encode_utf8_first_scalar(text);
        lemma_ascii_scalar(text[0], ascii, 0);
        if text[0] == ascii {
            assert(text.skip(1) =~= text.drop_first());
            assert(bytes.subrange(1, bytes.len() as int) =~= encode_utf8(text.skip(1)));
            reveal_with_fuel(is_char_boundary, 2);
        }
    }
}

/// The last byte of an encoding is an ASCII byte exactly if the last character
/// is.
pub proof fn lemma_last_byte(text: Seq<char>, ascii: char)
    requires
        (ascii as u32) < 0x80,
    ensures
        (text.len() > 0 && text.last() == ascii) <==> (encode_utf8(text).len() > 0 && encode_utf8(
            text,
        ).last() == ascii as u8),
        text.len() > 0 && text.last() == ascii ==> {
            let n = encode_utf8(text).len() as int;
            &&& encode_utf8(text).subrange(0, n - 1) == encode_utf8(text.drop_last())
            &&& is_char_boundary(encode_utf8(text), n - 1)
        },
{
    if text.len() > 0 {
        let bytes = encode_utf8(text);
        let n = bytes.len() as int;
        let last = encode_scalar(text.last() as u32);
        char_is_scalar(text.last());
        lemma_encode_scalar(text.last() as u32);
        lemma_encode_last(text);
        assert(bytes.last() == last.last());
        lemma_ascii_scalar(text.last(), ascii, last.len() - 1);
        if text.last() == ascii {
            assert(bytes.subrange(0, n - 1) =~= encode_utf8(text.drop_last()));
            encode_utf8_valid_utf8(text);
            is_char_boundary_iff_not_is_continuation_byte(bytes, n - 1);
            assert(!is_continuation_byte(bytes[n - 1]));
        }
    }
}

/// The first position at which two sequences of bytes differ, if it is inside
/// both, decides their order; otherwise the shorter one comes first.
pub open spec fn bytes_lt(a: Seq<u8>, b: Seq<u8>) -> bool
    decreases a.len(),
{
    if b.len() == 0 {
        false
    } else if a.len() == 0 {
        true
    } else if a[0] != b[0] {
        a[0] < b[0]
    } else {
        bytes_lt(a.drop_first(), b.drop_first())
    }
}

/// The order of strings: that of their bytes.
pub open spec fn text_lt(a: Seq<char>, b: Seq<char>) -> bool {
    bytes_lt(encode_utf8(a), encode_utf8(b))
}

/// The order is total.
pub proof fn lemma_bytes_total(a: Seq<u8>, b: Seq<u8>)
    ensures
        bytes_lt(a, b) || bytes_lt(b, a) || a == b,
        !(bytes_lt(a, b) && bytes_lt(b, a)),
        !bytes_lt(a, a),
    decreases a.len(),
{
    if a.len() == 0 || b.len() == 0 {
        if a.len() == 0 && b.len() == 0 {
            assert(a =~= b);
        }
        if a.len() > 0 {
            lemma_bytes_total(a.drop_first(), a.drop_first());
        }
    } else {
        lemma_bytes_total(a.drop_first(), b.drop_first());
        lemma_bytes_total(a.drop_first(), a.drop_first());
        if a[0] == b[0] && a.drop_first() == b.drop_first() {
            assert(a =~= seq![a[0]] + a.drop_first());
            assert(b =~= seq![b[0]] + b.drop_first());
        }
    }
}

/// The order is transitive.
pub proof fn lemma_bytes_transitive(a: Seq<u8>, b: Seq<u8>, c: Seq<u8>)
    requires
        bytes_lt(a, b),
        bytes_lt(b, c),
    ensures
        bytes_lt(a, c),
    decreases a.len(),
{
    if a.len() > 0 && b.len() > 0 && c.len() > 0 && a[0] == b[0] && b[0] == c[0] {
        lemma_bytes_transitive(a.drop_first(), b.drop_first(), c.drop_first());
    }
}

/// No string comes before one of its prefixes.
pub proof fn lemma_prefix_not_after(prefix: Seq<u8>, rest: Seq<u8>)
    ensures
        !bytes_lt(prefix + rest, prefix),
    decreases prefix.len(),
{
    if prefix.len() > 0 {
        assert((prefix + rest).drop_first() =~= prefix.drop_first() + rest);
        lemma_prefix_not_after(prefix.drop_first(), rest);
    }
}

/// A common beginning does not matter.
pub proof fn lemma_common_beginning(common: Seq<u8>, a: Seq<u8>, b: Seq<u8>)
    ensures
        bytes_lt(common + a, common + b) == bytes_lt(a, b),
    decreases common.len(),
{
    if common.len() == 0 {
        assert(common + a =~= a);
        assert(common + b =~= b);
    } else {
        assert((common + a).drop_first() =~= common.drop_first() + a);
        assert((common + b).drop_first() =~= common.drop_first() + b);
        lemma_common_beginning(common.drop_first(), a, b);
    }
}

/// Whatever follows a character, the string comes before the next character.
pub proof fn lemma_next_scalar_after(c: u32, rest: Seq<u8>)
    requires
        is_scalar(c),
        is_scalar((c + 1) as u32),
    ensures
        bytes_lt(encode_scalar(c) + rest, encode_scalar((c + 1) as u32)),
{
    let d = (c + 1) as u32;
    reveal_with_fuel(bytes_lt, 5);
    let a = encode_scalar(c) + rest;
    let b = encode_scalar(d);
    assert(a.len() == encode_scalar(c).len() + rest.len());
    if c == 0x7F {
        assert(leading_byte_width_1(c) < leading_byte_width_2(d)) by (bit_vector)
            requires
                c == 0x7F,
                d == 0x80,
        ;
    } else if c == 0x7FF {
        assert(leading_byte_width_2(c) < leading_byte_width_3(d)) by (bit_vector)
            requires
                c == 0x7FF,
                d == 0x800,
        ;
    } else if c == 0xFFFF {
        assert(leading_byte_width_3(c) < leading_byte_width_4(d)) by (bit_vector)
            requires
                c == 0xFFFF,
                d == 0x10000,
        ;
    } else if has_width_1_encoding(c) {
        assert(leading_byte_width_1(c) < leading_byte_width_1(d)) by (bit_vector)
            requires
                c < 0x7F,
                d == c + 1,
        ;
    } else if has_width_2_encoding(c) {
        assert(leading_byte_width_2(c) < leading_byte_width_2(d) || (leading_byte_width_2(c)
            == leading_byte_width_2(d) && last_continuation_byte(c) < last_continuation_byte(d)))
            by (bit_vector)
            requires
                0x80 <= c < 0x7FF,
                d == c + 1,
        ;
    } else if has_width_3_encoding(c) {
        assert(leading_byte_width_3(c) < leading_byte_width_3(d) || (leading_byte_width_3(c)
            == leading_byte_width_3(d) && (second_last_continuation_byte(c)
            < second_last_continuation_byte(d) || (second_last_continuation_byte(c)
            == second_last_continuation_byte(d) && last_continuation_byte(c)
            < last_continuation_byte(d))))) by (bit_vector)
            requires
                0x800 <= c < 0xFFFF,
                d == c + 1,
        ;
    } else {
        assert(leading_byte_width_4(c) < leading_byte_width_4(d) || (leading_byte_width_4(c)
            == leading_byte_width_4(d) && (third_last_continuation_byte(c)
            < third_last_continuation_byte(d) || (third_last_continuation_byte(c)
            == third_last_continuation_byte(d) && (second_last_continuation_byte(c)
            < second_last_continuation_byte(d) || (second_last_continuation_byte(c)
            == second_last_continuation_byte(d) && last_continuation_byte(c)
            < last_continuation_byte(d))))))) by (bit_vector)
            requires
                0x10000 <= c < 0x10FFFF,
                d == c + 1,
        ;
    }
}

} // verus!

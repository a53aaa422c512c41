//! Laws of compressed strings and of searching them.

use vstd::prelude::*;
use vstd::utf8::decode_utf8;
use vstd::utf8::decode_utf8_encode_utf8;
use vstd::utf8::encode_utf8;
use vstd::utf8::valid_utf8;

use crate::array::BoolArray;
use crate::array::PatternArray;
use crate::compressed::compiled::asserts_no_word_at;
use crate::compressed::compiled::automaton_of;
use crate::compressed::compiled::can_split_characters;
use crate::compressed::compiled::dfa_start;
use crate::compressed::compiled::is_supported;
use crate::compressed::compiled::pattern_dfa;
use crate::compressed::compiled::symbol_word;
use crate::compressed::compiled::symbol_words;
use crate::compressed::kernel::FSST;
use crate::compressed::kernel::FSSTArray;
use crate::compressed::matcher::contains_bytes;
use crate::compressed::matcher::occurs_at;
use crate::compressed::matcher::starts_with;
use crate::compressed::matcher::FsstMatcher;
use crate::compressed::regex_dfa::RegexFsstDfa;
use crate::compressed::symbols::decompress;
use crate::compressed::symbols::symbol_bytes;
use crate::compressed::symbols::symbol_table;
use crate::compressed::symbols::valid_codes;
use crate::compressed::symbols::ESCAPE_CODE;
use crate::dtype::Nullability;
use crate::error::Error;
use crate::execute::compile_result;
use crate::kernel::RegexKernel;
use crate::laws::arrays::present;
use crate::laws::automata::is_walk;
use crate::laws::automata::law_accepting_is_walking;
use crate::laws::automata::succeeds;
use crate::laws::literals::is_plain;
use crate::laws::literals::law_classified_patterns_are_plain;
use crate::laws::literals::law_plain_patterns_are_classified;
use crate::literal_shape::literal_shape;
use crate::literal_shape::LiteralShape;
use crate::options::RegexOptions;
use crate::scalar::Scalar;
use crate::utf8::lemma_encode_concat;

verus! {

/// An empty stream decompresses to nothing, and so does an escape without a byte
/// behind it; an escape and a byte decompress to that byte, whatever follows; and
/// any other code decompresses to its symbol, whatever follows.
pub proof fn law_decompression(symbols: Seq<Seq<u8>>, code: u8, byte: u8, rest: Seq<u8>)
    ensures
        decompress(symbols, Seq::empty()) == Seq::<u8>::empty(),
        decompress(symbols, seq![255u8]) == Seq::<u8>::empty(),
        decompress(symbols, seq![255u8, byte] + rest) == seq![byte] + decompress(symbols, rest),
        code != 255 ==> decompress(symbols, seq![code] + rest) == symbols[code as int]
            + decompress(symbols, rest),
{
    let escaped = seq![255u8, byte] + rest;
    assert(escaped.skip(2) =~= rest);
    let coded = seq![code] + rest;
    assert(coded.skip(1) =~= rest);
}

/// The stream in which every byte is escaped.
pub open spec fn escaped(bytes: Seq<u8>) -> Seq<u8> {
    Seq::new(
        2 * bytes.len(),
        |i: int|
            if i % 2 == 0 {
                255u8
            } else {
                bytes[i / 2]
            },
    )
}

/// Any bytes can be written by escaping each of them, and are read back as they
/// were.
pub proof fn law_escaped_bytes_are_read_back(symbols: Seq<Seq<u8>>, bytes: Seq<u8>)
    ensures
        decompress(symbols, escaped(bytes)) == bytes,
        valid_codes(symbols.len(), escaped(bytes)),
    decreases bytes.len(),
{
    if bytes.len() == 0 {
        assert(escaped(bytes) =~= Seq::empty());
        assert(decompress(symbols, escaped(bytes)) =~= bytes);
    } else {
        let rest = bytes.drop_first();
        law_escaped_bytes_are_read_back(symbols, rest);
        let stream = escaped(bytes);
        assert(stream.skip(2) =~= escaped(rest)) by {
            assert forall|i: int| 0 <= i < 2 * rest.len() implies stream[i + 2] == escaped(rest)[i]
                by {
                assert((i + 2) % 2 == i % 2);
                assert((i + 2) / 2 == i / 2 + 1);
            }
        }
        assert(stream[0] == 255u8);
        assert(stream[1] == bytes[0]);
        assert(bytes =~= seq![bytes[0]] + rest);
    }
}

/// A stream that refers to symbols alone is read as those symbols in a row.
pub proof fn law_symbols_are_read_in_order(symbols: Seq<Seq<u8>>, codes: Seq<u8>)
    requires
        forall|i: int| 0 <= i < codes.len() ==> #[trigger] codes[i] != 255,
    ensures
        decompress(symbols, codes) == Seq::new(
            codes.len(),
            |i: int| symbols[codes[i] as int],
        ).flatten(),
    decreases codes.len(),
{
    let parts = Seq::new(codes.len(), |i: int| symbols[codes[i] as int]);
    if codes.len() > 0 {
        let rest = codes.skip(1);
        assert forall|i: int| 0 <= i < rest.len() implies #[trigger] rest[i] != 255 by {
            assert(codes[i + 1] != 255);
        }
        law_symbols_are_read_in_order(symbols, rest);
        assert(parts.drop_first() =~= Seq::new(rest.len(), |i: int| symbols[rest[i] as int]));
        assert(codes[0] != 255);
    }
}

/// Which streams are valid: the empty one, an escape at the end, and an escape
/// with a byte or a code of a symbol before a valid one. No other is.
pub proof fn law_valid_streams(n_symbols: nat, code: u8, byte: u8, rest: Seq<u8>)
    ensures
        valid_codes(n_symbols, Seq::empty()),
        valid_codes(n_symbols, seq![255u8]),
        valid_codes(n_symbols, seq![255u8, byte] + rest) == valid_codes(n_symbols, rest),
        code != 255 ==> valid_codes(n_symbols, seq![code] + rest) == (code < n_symbols
            && valid_codes(n_symbols, rest)),
{
    let escaped = seq![255u8, byte] + rest;
    assert(escaped.skip(2) =~= rest);
    let coded = seq![code] + rest;
    assert(coded.skip(1) =~= rest);
}

/// The bytes of a symbol are those of its word, the lowest first: put together
/// they are the word again.
pub proof fn law_symbol_bytes_make_the_word(word: u64, len: nat)
    requires
        len <= 8,
    ensures
        symbol_bytes(word, len) == symbol_bytes(word, 8).take(len as int),
        ({
            let b = symbol_bytes(word, 8);
            word == b[0] + 0x100 * b[1] + 0x1_0000 * b[2] + 0x100_0000 * b[3] + 0x1_0000_0000 * b[4]
                + 0x100_0000_0000 * b[5] + 0x1_0000_0000_0000 * b[6] + 0x100_0000_0000_0000 * b[7]
        }),
{
    assert(symbol_bytes(word, len) =~= symbol_bytes(word, 8).take(len as int));
    let b = symbol_bytes(word, 8);
    let b0 = ((word >> 0u64) & 0xff) as u8;
    let b1 = ((word >> 8u64) & 0xff) as u8;
    let b2 = ((word >> 16u64) & 0xff) as u8;
    let b3 = ((word >> 24u64) & 0xff) as u8;
    let b4 = ((word >> 32u64) & 0xff) as u8;
    let b5 = ((word >> 40u64) & 0xff) as u8;
    let b6 = ((word >> 48u64) & 0xff) as u8;
    let b7 = ((word >> 56u64) & 0xff) as u8;
    assert(b[0] == b0 && b[1] == b1 && b[2] == b2 && b[3] == b3 && b[4] == b4 && b[5] == b5 && b[6]
        == b6 && b[7] == b7);
    assert(word == b0 + 0x100 * b1 + 0x1_0000 * b2 + 0x100_0000 * b3 + 0x1_0000_0000 * b4
        + 0x100_0000_0000 * b5 + 0x1_0000_0000_0000 * b6 + 0x100_0000_0000_0000 * b7)
        by (bit_vector)
        requires
            b0 == ((word >> 0u64) & 0xff) as u8,
            b1 == ((word >> 8u64) & 0xff) as u8,
            b2 == ((word >> 16u64) & 0xff) as u8,
            b3 == ((word >> 24u64) & 0xff) as u8,
            b4 == ((word >> 32u64) & 0xff) as u8,
            b5 == ((word >> 40u64) & 0xff) as u8,
            b6 == ((word >> 48u64) & 0xff) as u8,
            b7 == ((word >> 56u64) & 0xff) as u8,
    ;
}

/// A symbol table has the bytes of each symbol, as many as its length says.
pub proof fn law_symbol_table(symbols: Seq<fsst::Symbol>, lengths: Seq<u8>, c: int)
    requires
        0 <= c < symbols.len(),
    ensures
        symbol_table(symbol_words(symbols), lengths).len() == symbols.len(),
        symbol_table(symbol_words(symbols), lengths)[c] == symbol_bytes(
            symbol_word(symbols[c]),
            lengths[c] as nat,
        ),
        symbol_table(symbol_words(symbols), lengths)[c].len() == lengths[c],
        ESCAPE_CODE == 255,
{
}

/// The rows of a compressed array are the streams between its offsets,
/// decompressed.
pub proof fn law_compressed_rows(array: FSSTArray, i: int)
    requires
        0 <= i < array.offsets@.len() - 1,
    ensures
        array@.contents.len() == array.offsets@.len() - 1,
        array@.contents[i] == decompress(
            symbol_table(symbol_words(array.symbols@), array.symbol_lengths@),
            array.codes@.subrange(array.offsets@[i] as int, array.offsets@[i + 1] as int),
        ),
        array@.dtype == array.dtype,
        present(array.validity, i) ==> array@.rows()[i] == Some(array@.contents[i]),
        !present(array.validity, i) ==> array@.rows()[i] is None,
{
}

/// Whether bytes are `part` with something before and behind it.
pub open spec fn embeds(bytes: Seq<u8>, before: Seq<u8>, part: Seq<u8>, behind: Seq<u8>) -> bool {
    bytes == before + part + behind
}

/// Bytes begin with a prefix if they are the prefix and something behind it, and
/// they contain a needle if they are the needle and something around it.
pub proof fn law_prefixes_and_needles(bytes: Seq<u8>, part: Seq<u8>)
    ensures
        starts_with(bytes, part) <==> exists|behind: Seq<u8>|
            embeds(bytes, Seq::empty(), part, behind),
        contains_bytes(bytes, part) <==> exists|before: Seq<u8>, behind: Seq<u8>|
            embeds(bytes, before, part, behind),
{
    let n = part.len() as int;
    let nothing = Seq::<u8>::empty();
    if starts_with(bytes, part) {
        let behind = bytes.skip(n);
        assert(bytes =~= nothing + part + behind);
        assert(embeds(bytes, nothing, part, behind));
    }
    if exists|behind: Seq<u8>| embeds(bytes, nothing, part, behind) {
        let behind = choose|behind: Seq<u8>| embeds(bytes, nothing, part, behind);
        assert(bytes.take(n) =~= part);
    }
    if contains_bytes(bytes, part) {
        let at = choose|at: int| occurs_at(bytes, part, at);
        let (before, behind) = (bytes.take(at), bytes.skip(at + n));
        assert(bytes =~= before + part + behind);
        assert(embeds(bytes, before, part, behind));
    }
    if exists|before: Seq<u8>, behind: Seq<u8>| embeds(bytes, before, part, behind) {
        let (before, behind) = choose|before: Seq<u8>, behind: Seq<u8>|
            embeds(bytes, before, part, behind);
        let at = before.len() as int;
        assert(bytes.subrange(at, at + n) =~= part);
        assert(occurs_at(bytes, part, at));
    }
}

/// Which matches are answered on the codes: those with respect to case, against
/// one text that is a plain prefix of at most 253 bytes behind a `^`, or a plain
/// needle of at most 254 bytes. No other is, and none fails.
pub proof fn law_which_matches_are_answered_on_the_codes(
    array: FSSTArray,
    pattern: PatternArray,
    options: RegexOptions,
    r: Result<Option<BoolArray>, Error>,
)
    requires
        FSST::executes_to(array, pattern, options, r),
    ensures
        r is Ok,
        r->Ok_0 is Some <==> !options.case_insensitive && (pattern matches PatternArray::Constant {
            value: Scalar::Utf8(text, n),
            len,
        } && ((is_plain(text@) && encode_utf8(text@).len() <= 254) || (text@.len() > 0 && text@[0]
            == '^' && is_plain(text@.skip(1)) && encode_utf8(text@.skip(1)).len() <= 253))),
{
    if let PatternArray::Constant { value: Scalar::Utf8(s, n), len } = pattern {
        let text = s@;
        law_classified_patterns_are_plain(text);
        if is_plain(text) {
            law_plain_patterns_are_classified(text);
        }
        if text.len() > 0 && text[0] == '^' && is_plain(text.skip(1)) {
            assert(text =~= seq!['^'] + text.skip(1));
            law_plain_patterns_are_classified(text.skip(1));
        }
        if let Some(LiteralShape::Prefix(body)) = literal_shape(text) {
            assert(text.skip(1) =~= body);
        }
        if let Some(LiteralShape::Exact(body)) = literal_shape(text) {
            let tail = text.skip(1);
            assert(text[text.len() - 1] == '$');
            assert(tail[tail.len() - 1] == '$');
        }
        if let Some(LiteralShape::Suffix(body)) = literal_shape(text) {
            assert(text[text.len() - 1] == '$');
        }
        let metas = seq![
            '.',
            '*',
            '+',
            '?',
            '(',
            ')',
            '[',
            ']',
            '{',
            '}',
            '|',
            '\\',
            '^',
            '$',
        ];
        assert(metas[13] == '$' && metas[12] == '^');
    }
}

/// What a match on the codes answers for a plain prefix: whether the row begins
/// with the bytes of the prefix, or the opposite if the match is negated.
pub proof fn law_prefix_match_on_the_codes(
    array: FSSTArray,
    prefix: Seq<char>,
    text: String,
    n: Nullability,
    len: usize,
    negated: bool,
    result: BoolArray,
    i: int,
)
    requires
        is_plain(prefix),
        text@ == seq!['^'] + prefix,
        FSST::executes_to(
            array,
            PatternArray::Constant { value: Scalar::Utf8(text, n), len },
            RegexOptions { negated, case_insensitive: false },
            Ok(Some(result)),
        ),
        0 <= i < array.offsets@.len() - 1,
    ensures
        result.bits@.len() == array.offsets@.len() - 1,
        result.bits@[i] == ((exists|behind: Seq<u8>|
            embeds(array@.contents[i], Seq::empty(), encode_utf8(prefix), behind)) != negated),
        present(result.validity, i) == present(array.validity, i),
        result.validity is NonNullable <==> array.validity is NonNullable && n
            == Nullability::NonNullable,
{
    law_plain_patterns_are_classified(prefix);
    law_prefixes_and_needles(array@.contents[i], encode_utf8(prefix));
}

/// What a match on the codes answers for a plain needle: whether the row holds
/// the bytes of the needle, or the opposite if the match is negated.
pub proof fn law_needle_match_on_the_codes(
    array: FSSTArray,
    text: String,
    n: Nullability,
    len: usize,
    negated: bool,
    result: BoolArray,
    i: int,
)
    requires
        is_plain(text@),
        FSST::executes_to(
            array,
            PatternArray::Constant { value: Scalar::Utf8(text, n), len },
            RegexOptions { negated, case_insensitive: false },
            Ok(Some(result)),
        ),
        0 <= i < array.offsets@.len() - 1,
    ensures
        result.bits@.len() == array.offsets@.len() - 1,
        result.bits@[i] == ((exists|before: Seq<u8>, behind: Seq<u8>|
            embeds(array@.contents[i], before, encode_utf8(text@), behind)) != negated),
        present(result.validity, i) == present(array.validity, i),
        result.validity is NonNullable <==> array.validity is NonNullable && n
            == Nullability::NonNullable,
{
    law_plain_patterns_are_classified(text@);
    law_prefixes_and_needles(array@.contents[i], encode_utf8(text@));
}

/// A search for a pattern accepts a text exactly if the pattern, compiled for the
/// default match, matches it.
pub proof fn law_searching_is_matching(
    searcher: RegexFsstDfa,
    pattern: Seq<char>,
    case_insensitive: bool,
    language: Set<Seq<char>>,
    bytes: Seq<u8>,
)
    requires
        searcher.searches_for(pattern, case_insensitive),
        compile_result(pattern, case_insensitive) == Ok::<Set<Seq<char>>, Seq<char>>(language),
        valid_utf8(bytes),
    ensures
        searcher.accepts(bytes) == language.contains(decode_utf8(bytes)),
{
    decode_utf8_encode_utf8(bytes);
}

/// A search finds what the walk of the compiled automaton finds, unless the
/// pattern can match between two bytes of one character.
pub proof fn law_searching_is_walking(
    searcher: RegexFsstDfa,
    pattern: Seq<char>,
    case_insensitive: bool,
    bytes: Seq<u8>,
)
    requires
        searcher.searches_for(pattern, case_insensitive),
        is_supported(pattern, case_insensitive),
    ensures
        ({
            let dfa = pattern_dfa(pattern, case_insensitive)->0;
            let found = exists|path: Seq<u32>| #[trigger]
                is_walk(automaton_of(dfa), path, dfa_start(dfa)->0, bytes) && succeeds(
                    automaton_of(dfa),
                    path,
                    bytes,
                );
            &&& searcher.accepts(bytes) ==> found
            &&& found && !can_split_characters(pattern) ==> searcher.accepts(bytes)
            &&& found && !valid_utf8(bytes) ==> searcher.accepts(bytes)
            &&& found && compile_result(pattern, case_insensitive) is Err ==> searcher.accepts(
                bytes,
            )
        }),
{
    let dfa = pattern_dfa(pattern, case_insensitive)->0;
    law_accepting_is_walking(automaton_of(dfa), dfa_start(dfa)->0, bytes);
}

/// Which patterns are supported: those that compile to a table with a start from
/// which at most 512 states are reached and none that gives up.
pub proof fn law_supported_patterns(pattern: Seq<char>, case_insensitive: bool)
    ensures
        is_supported(pattern, case_insensitive) <==> (pattern_dfa(
            pattern,
            case_insensitive,
        ) matches Some(dfa) && (dfa_start(dfa) matches Some(start) && automaton_of(dfa).fits(
            start,
            512,
        ))),
        RegexFsstDfa::MAX_STATES == 512,
        FsstMatcher::MAX_PREFIX_LEN == 253,
        FsstMatcher::MAX_NEEDLE_LEN == 254,
{
}

/// A pattern with the assertion `\B`, or with one that begins `\b{`, can match
/// between two bytes of one character.
pub proof fn law_patterns_that_can_split(before: Seq<char>, behind: Seq<char>)
    ensures
        can_split_characters(before + seq!['\\', 'B'] + behind),
        can_split_characters(before + seq!['\\', 'b', '{'] + behind),
{
    let at = encode_utf8(before).len() as int;
    let first = seq!['\\', 'B'];
    let second = seq!['\\', 'b', '{'];
    vstd::utf8::is_ascii_chars_encode_utf8(first);
    vstd::utf8::is_ascii_chars_encode_utf8(second);
    lemma_encode_concat(before + first, behind);
    lemma_encode_concat(before, first);
    lemma_encode_concat(before + second, behind);
    lemma_encode_concat(before, second);
    assert(encode_utf8(first).len() == 2);
    assert(encode_utf8(first)[0] == 0x5c && encode_utf8(first)[1] == 0x42);
    assert(encode_utf8(second).len() == 3);
    assert(encode_utf8(second)[0] == 0x5c && encode_utf8(second)[1] == 0x62 && encode_utf8(
        second,
    )[2] == 0x7b);
    let one = encode_utf8(before + first + behind);
    let two = encode_utf8(before + second + behind);
    assert(one[at] == 0x5c && one[at + 1] == 0x42);
    assert(two[at] == 0x5c && two[at + 1] == 0x62 && two[at + 2] == 0x7b);
    assert(asserts_no_word_at(one, at));
    assert(asserts_no_word_at(two, at));
}

} // verus!

//! Matching FSST-compressed arrays without decompressing them.
//!
//! A pattern that is nothing but a literal, either anchored at the start or not
//! at all, is looked for in the code streams by an automaton. Any other pattern
//! is left to the default execution, which decompresses the strings.

use vstd::prelude::*;
use vstd::slice::slice_subrange;
use vstd::string::*;
use vstd::utf8::decode_utf8;
use vstd::utf8::decode_utf8_encode_utf8;
use vstd::utf8::encode_utf8;
use vstd::utf8::encode_utf8_decode_utf8;
use vstd::utf8::encode_utf8_valid_utf8;
use vstd::utf8::is_char_boundary_iff_not_is_continuation_byte;
use vstd::utf8::is_char_boundary_start_end_of_seq;
use vstd::utf8::partial_valid_partial_invalid_utf8;
use vstd::utf8::valid_utf8;
use vstd::utf8::valid_utf8_split;

use crate::array::BoolArray;
use crate::array::PatternArray;
use crate::array::Strings;
use crate::array::Validity;
use crate::compressed::compiled::symbol_words;
use crate::compressed::matcher::contains_bytes;
use crate::compressed::matcher::occurs_at;
use crate::compressed::matcher::starts_with;
use crate::compressed::matcher::FsstMatcher;
use crate::compressed::matcher::LiteralSearch;
use crate::compressed::symbols::decompress;
use crate::compressed::symbols::symbol_table;
use crate::compressed::symbols::valid_codes;
use crate::dtype::DType;
use crate::dtype::Nullability;
use crate::error::Error;
use crate::execute::match_bits;
use crate::execute::matched_rows;
use crate::execute::respects_shape;
use crate::kernel::RegexKernel;
use crate::literal_shape::literal_shape;
use crate::literal_shape::stands_at;
use crate::literal_shape::LiteralShape;
use crate::literal_shape::RegexLiteralShape;
use crate::options::RegexOptions;
use crate::utf8::lemma_encode_concat;
use crate::utf8::lemma_encode_injective;

verus! {

/// An array of compressed strings. Row `i` is the code stream between
/// `offsets[i]` and `offsets[i + 1]` in `codes`. A null row has codes too, which
/// mean nothing.
pub struct FSSTArray {
    pub dtype: DType,
    pub symbols: Vec<fsst::Symbol>,
    pub symbol_lengths: Vec<u8>,
    pub offsets: Vec<usize>,
    pub codes: Vec<u8>,
    pub validity: Validity,
}

impl FSSTArray {
    /// The number of rows.
    pub open spec fn n_rows(self) -> nat {
        (self.offsets@.len() - 1) as nat
    }

    /// The bytes of the symbols.
    pub open spec fn table(self) -> Seq<Seq<u8>> {
        symbol_table(symbol_words(self.symbols@), self.symbol_lengths@)
    }

    /// The code stream of row `i`.
    pub open spec fn row_codes(self, i: int) -> Seq<u8> {
        self.codes@.subrange(self.offsets@[i] as int, self.offsets@[i + 1] as int)
    }

    /// Each symbol has a length of at most eight bytes, the offsets ascend and
    /// stay within the codes, and each code stands for a symbol.
    pub open spec fn wf(self) -> bool {
        &&& self.symbols@.len() <= 255
        &&& self.symbols@.len() <= self.symbol_lengths@.len()
        &&& forall|c: int| 0 <= c < self.symbols@.len() ==> #[trigger] self.symbol_lengths@[c] <= 8
        &&& self.offsets@.len() > 0
        &&& forall|i: int, j: int|
            0 <= i <= j < self.offsets@.len() ==> self.offsets@[i] <= self.offsets@[j]
        &&& self.offsets@.last() <= self.codes@.len()
        &&& forall|i: int|
            0 <= i < self.n_rows() ==> valid_codes(
                self.symbols@.len(),
                #[trigger] self.row_codes(i),
            )
        &&& self@.wf()
    }

    /// The number of rows.
    pub fn len(&self) -> (len: usize)
        requires
            self.wf(),
        ensures
            len == self.n_rows(),
    {
        self.offsets.len() - 1
    }
}

impl View for FSSTArray {
    type V = Strings;

    open spec fn view(&self) -> Strings {
        Strings {
            dtype: self.dtype,
            contents: Seq::new(
                self.n_rows(),
                |i: int| decompress(self.table(), self.row_codes(i)),
            ),
            validity: self.validity@,
        }
    }
}

/// What is looked for in compressed strings for a pattern: its literal, if it
/// has one that is not too long and that is not tied to the end of the string.
pub open spec fn compressed_search(pattern: Seq<char>) -> Option<LiteralSearch> {
    match literal_shape(pattern) {
        Some(LiteralShape::Prefix(prefix)) => if encode_utf8(prefix).len()
            <= FsstMatcher::MAX_PREFIX_LEN {
            Some(LiteralSearch::Prefix(encode_utf8(prefix)))
        } else {
            None
        },
        Some(LiteralShape::Contains(needle)) => if encode_utf8(needle).len()
            <= FsstMatcher::MAX_NEEDLE_LEN {
            Some(LiteralSearch::Contains(encode_utf8(needle)))
        } else {
            None
        },
        _ => None,
    }
}

/// Which strings are among those looked for.
pub open spec fn search_hits(search: LiteralSearch, contents: Seq<Seq<u8>>) -> Seq<bool> {
    Seq::new(contents.len(), |i: int| search.finds(contents[i]))
}

/// Runs the matcher over every row, and inverts the outcome if `negated`.
fn dfa_scan(array: &FSSTArray, matcher: &FsstMatcher, negated: bool) -> (bits: Vec<bool>)
    requires
        array.wf(),
        matcher.symbols() == array.table(),
    ensures
        bits@ == match_bits(
            Seq::new(array.n_rows(), |i: int| matcher.accepts(array@.contents[i])),
            negated,
        ),
{
    let n = array.len();
    let mut bits: Vec<bool> = Vec::new();
    let mut i: usize = 0;
    while i < n
        invariant
            n == array.n_rows(),
            i <= n,
            array.wf(),
            matcher.symbols() == array.table(),
            bits@.len() == i,
            forall|j: int|
                0 <= j < i ==> #[trigger] bits@[j] == (matcher.accepts(array@.contents[j])
                    != negated),
        decreases n - i,
    {
        assert(array.offsets@[i as int] <= array.offsets@[i + 1]);
        assert(array.offsets@[i + 1] <= array.offsets@[array.offsets@.len() - 1]);
        let row = slice_subrange(
            array.codes.as_slice(),
            array.offsets[i],
            array.offsets[i + 1],
        );
        assert(row@ == array.row_codes(i as int));
        bits.push(matcher.matches(row) != negated);
        i = i + 1;
    }
    bits
}

/// The FSST encoding.
#[derive(Debug, Default)]
pub struct FSST;

impl RegexKernel for FSST {
    type Array = FSSTArray;

    type Output = BoolArray;

    /// The array is valid.
    open spec fn can_match(array: FSSTArray, pattern: PatternArray) -> bool {
        array.wf()
    }

    /// A match with respect to case against one and the same pattern that can
    /// be looked for in compressed strings gives the rows in which it is found.
    open spec fn executes_to(
        array: FSSTArray,
        pattern: PatternArray,
        options: RegexOptions,
        r: Result<Option<BoolArray>, Error>,
    ) -> bool {
        let search = if options.case_insensitive {
            None
        } else {
            match pattern.constant() {
                Some(value) => match value.text() {
                    Some(text) => compressed_search(text),
                    None => None,
                },
                None => None,
            }
        };
        match search {
            None => r == Ok::<Option<BoolArray>, Error>(None),
            Some(search) => {
                &&& r matches Ok(Some(result))
                &&& result.bits@ == match_bits(
                    search_hits(search, array@.contents),
                    options.negated,
                )
                &&& result.validity@ == array.validity@.union_nullability(
                    pattern.constant()->0.spec_dtype().spec_nullability(),
                )
                &&& result.wf()
            },
        }
    }

    fn regex(array: &FSSTArray, pattern: &PatternArray, options: RegexOptions) -> (r: Result<
        Option<BoolArray>,
        Error,
    >) {
        if options.case_insensitive {
            return Ok(None);
        }
        let value = match pattern.as_constant() {
            Some(value) => value,
            None => return Ok(None),
        };
        let text = match value.as_text() {
            Some(text) => text,
            None => return Ok(None),
        };
        let shape = match RegexLiteralShape::analyze(text) {
            Some(shape) => shape,
            None => return Ok(None),
        };
        let matcher = match shape {
            RegexLiteralShape::Prefix(prefix) => FsstMatcher::try_new_prefix_literal(
                array.symbols.as_slice(),
                array.symbol_lengths.as_slice(),
                prefix.as_bytes(),
            ),
            RegexLiteralShape::Contains(needle) => FsstMatcher::try_new_contains_literal(
                array.symbols.as_slice(),
                array.symbol_lengths.as_slice(),
                needle.as_bytes(),
            ),
            RegexLiteralShape::Exact(_) => return Ok(None),
            RegexLiteralShape::Suffix(_) => return Ok(None),
        };
        let matcher = match matcher {
            Ok(Some(matcher)) => matcher,
            Ok(None) => return Ok(None),
            Err(e) => return Err(e),
        };
        let bits = dfa_scan(array, &matcher, options.negated);
        let ghost search = compressed_search(text@)->0;
        assert(Seq::new(array.n_rows(), |i: int| matcher.accepts(array@.contents[i]))
            =~= search_hits(search, array@.contents));
        let validity = array.validity.clone().union_nullability(value.dtype().nullability());
        Ok(Some(BoolArray { bits, validity }))
    }
}

/// A prefix of an encoding that is itself an encoding ends between characters.
proof fn lemma_encoded_prefix(text: Seq<char>, prefix: Seq<char>)
    requires
        starts_with(encode_utf8(text), encode_utf8(prefix)),
    ensures
        prefix.is_prefix_of(text),
{
    let bytes = encode_utf8(text);
    let start = encode_utf8(prefix);
    let n = start.len() as int;
    let rest = bytes.subrange(n, bytes.len() as int);
    encode_utf8_valid_utf8(text);
    encode_utf8_valid_utf8(prefix);
    assert(bytes.subrange(0, n) =~= start);
    if !valid_utf8(rest) {
        partial_valid_partial_invalid_utf8(bytes, n);
    }
    let tail = decode_utf8(rest);
    decode_utf8_encode_utf8(rest);
    lemma_encode_concat(prefix, tail);
    assert(bytes =~= start + rest);
    lemma_encode_injective(text, prefix + tail);
}

/// Where an encoding stands inside another one, it stands between characters.
proof fn lemma_encoded_occurrence(text: Seq<char>, needle: Seq<char>, at: int)
    requires
        occurs_at(encode_utf8(text), encode_utf8(needle), at),
    ensures
        exists|start: int| stands_at(text, needle, start),
{
    let bytes = encode_utf8(text);
    let part = encode_utf8(needle);
    let len = bytes.len() as int;
    if needle.len() == 0 {
        assert(text.subrange(0, 0) =~= needle);
        assert(stands_at(text, needle, 0));
    } else {
        encode_utf8_valid_utf8(text);
        encode_utf8_valid_utf8(needle);
        encode_utf8_decode_utf8(needle);
        assert(part.len() > 0);
        is_char_boundary_start_end_of_seq(part);
        is_char_boundary_iff_not_is_continuation_byte(part, 0);
        assert(bytes.subrange(at, at + part.len())[0] == bytes[at]);
        is_char_boundary_iff_not_is_continuation_byte(bytes, at);
        valid_utf8_split(bytes, at);
        let before = decode_utf8(bytes.subrange(0, at));
        let after = decode_utf8(bytes.subrange(at, len));
        decode_utf8_encode_utf8(bytes.subrange(0, at));
        decode_utf8_encode_utf8(bytes.subrange(at, len));
        assert(bytes =~= bytes.subrange(0, at) + bytes.subrange(at, len));
        lemma_encode_concat(before, after);
        lemma_encode_injective(text, before + after);
        assert(bytes.subrange(at, len).take(part.len() as int) =~= part);
        lemma_encoded_prefix(after, needle);
        let start = before.len() as int;
        assert(text.subrange(start, start + needle.len()) =~= needle);
        assert(stands_at(text, needle, start));
    }
}

/// To look for the bytes of a literal is to look for the literal: a search of
/// compressed strings finds the texts that the pattern asks for, and no others.
pub proof fn law_search_finds_what_the_pattern_asks_for(pattern: Seq<char>, text: Seq<char>)
    requires
        compressed_search(pattern) is Some,
    ensures
        compressed_search(pattern)->0.finds(encode_utf8(text)) == literal_shape(pattern)->0.finds(
            text,
        ),
{
    let bytes = encode_utf8(text);
    match literal_shape(pattern)->0 {
        LiteralShape::Prefix(prefix) => {
            if starts_with(bytes, encode_utf8(prefix)) {
                lemma_encoded_prefix(text, prefix);
            }
            if prefix.is_prefix_of(text) {
                let tail = text.skip(prefix.len() as int);
                assert(text =~= prefix + tail);
                lemma_encode_concat(prefix, tail);
                assert(bytes.take(encode_utf8(prefix).len() as int) =~= encode_utf8(prefix));
            }
        },
        LiteralShape::Contains(needle) => {
            let shape = LiteralShape::Contains(needle);
            let part = encode_utf8(needle);
            if contains_bytes(bytes, part) {
                let at = choose|at: int| occurs_at(bytes, part, at);
                lemma_encoded_occurrence(text, needle, at);
            }
            if shape.finds(text) {
                let at = choose|at: int| stands_at(text, needle, at);
                let before = text.take(at);
                let after = text.skip(at + needle.len());
                assert(text =~= before + needle + after);
                lemma_encode_concat(before + needle, after);
                lemma_encode_concat(before, needle);
                let start = encode_utf8(before).len() as int;
                assert(bytes.subrange(start, start + part.len()) =~= part);
                assert(occurs_at(bytes, part, start));
            }
        },
        _ => {},
    }
}

/// Matching compressed strings gives the rows, and the type, that decompressing
/// them and matching the text gives.
pub proof fn law_compressed_match_is_the_default_match(
    array: FSSTArray,
    pattern: PatternArray,
    options: RegexOptions,
    language: Set<Seq<char>>,
    result: BoolArray,
)
    requires
        array.wf(),
        forall|i: int|
            0 <= i < array.n_rows() && array.validity@.is_valid(i) ==> valid_utf8(
                #[trigger] array@.contents[i],
            ),
        pattern.constant() is Some,
        pattern.constant()->0.text() is Some,
        respects_shape(language, pattern.constant()->0.text()->0, options.case_insensitive),
        FSST::executes_to(array, pattern, options, Ok(Some(result))),
    ensures
        result.rows() == matched_rows(array@.rows(), language, options.negated),
        result.dtype() == DType::Bool(
            Nullability::of(array.dtype.is_nullable() || pattern.spec_dtype().is_nullable()),
        ),
{
    let text = pattern.constant()->0.text()->0;
    let expected = matched_rows(array@.rows(), language, options.negated);
    let search = compressed_search(text)->0;
    assert forall|i: int| 0 <= i < array.n_rows() implies result.rows()[i] == expected[i] by {
        if array.validity@.is_valid(i) {
            let bytes = array@.contents[i];
            let row = decode_utf8(bytes);
            decode_utf8_encode_utf8(bytes);
            law_search_finds_what_the_pattern_asks_for(text, row);
            assert(language.contains(row) == literal_shape(text)->0.finds(row));
        }
    }
    assert(result.rows() =~= expected);
}

} // verus!

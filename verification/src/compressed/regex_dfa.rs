//! A searcher of compressed strings for a pattern.

use regex::Regex as CompiledPattern;
use vstd::prelude::*;
use vstd::slice::slice_to_vec;
use vstd::string::*;
use vstd::utf8::decode_utf8;
use vstd::utf8::decode_utf8_encode_utf8;
use vstd::utf8::encode_utf8;
use vstd::utf8::encode_utf8_decode_utf8;
use vstd::utf8::encode_utf8_valid_utf8;
use vstd::utf8::valid_utf8;

use crate::compressed::compiled::asserts_no_word_at;
use crate::compressed::compiled::automaton_of;
use crate::compressed::compiled::can_split_characters;
use crate::compressed::compiled::dfa_start;
use crate::compressed::compiled::is_supported;
use crate::compressed::compiled::pattern_dfa;
use crate::compressed::compiled::pattern_table;
use crate::compressed::compiled::symbol_words;
use crate::compressed::compiled::to_words;
use crate::compressed::symbol_dfa::SymbolDfa;
use crate::compressed::symbols::decompress;
use crate::compressed::symbols::decompress_codes;
use crate::compressed::symbols::symbol_table;
use crate::compressed::symbols::valid_codes;
use crate::error::Error;
use crate::execute::compile;
use crate::execute::compile_result;
use crate::execute::is_match;
use crate::execute::regex_language;
use crate::execute::respects_shape;
use crate::execute::row_matches;
use crate::literal_shape::law_pattern_is_anchors_around_literal;
use crate::literal_shape::literal_shape;
use crate::literal_shape::LiteralShape;
use crate::text::text_of;
use crate::utf8::lemma_ascii_bytes;

verus! {

/// Whether a pattern has an assertion that can hold between two bytes of one
/// character.
fn splits_characters(pattern: &str) -> (b: bool)
    ensures
        b == can_split_characters(pattern@),
{
    let bytes = pattern.as_bytes();
    let mut i: usize = 0;
    while i < bytes.len()
        invariant
            bytes@ == encode_utf8(pattern@),
            i <= bytes@.len(),
            forall|j: int| 0 <= j < i ==> !asserts_no_word_at(bytes@, j),
        decreases bytes.len() - i,
    {
        if bytes.len() - i >= 2 && bytes[i] == 0x5c {
            if bytes[i + 1] == 0x42 {
                assert(asserts_no_word_at(bytes@, i as int));
                return true;
            }
            if bytes[i + 1] == 0x62 && bytes.len() - i >= 3 && bytes[i + 2] == 0x7b {
                assert(asserts_no_word_at(bytes@, i as int));
                return true;
            }
        }
        i = i + 1;
    }
    false
}

/// A second look at what an automaton has found, on the decompressed text.
struct Confirmation {
    compiled: CompiledPattern,
    words: Vec<u64>,
    symbol_lengths: Vec<u8>,
}

impl Confirmation {
    /// The symbols that codes stand for.
    spec fn symbols(self) -> Seq<Seq<u8>> {
        symbol_table(self.words@, self.symbol_lengths@)
    }

    /// Each symbol has a length of at most eight bytes.
    spec fn wf(self) -> bool {
        &&& self.words@.len() <= self.symbol_lengths@.len()
        &&& forall|c: int| 0 <= c < self.words@.len() ==> #[trigger] self.symbol_lengths@[c] <= 8
    }

    /// Whether the finding stands: bytes that are a text must match.
    spec fn confirms(self, bytes: Seq<u8>) -> bool {
        valid_utf8(bytes) ==> regex_language(self.compiled).contains(decode_utf8(bytes))
    }

    fn check(&self, codes: &[u8]) -> (b: bool)
        requires
            self.wf(),
            valid_codes(self.words@.len(), codes@),
        ensures
            b == self.confirms(decompress(self.symbols(), codes@)),
    {
        let bytes = decompress_codes(
            self.words.as_slice(),
            self.symbol_lengths.as_slice(),
            codes,
        );
        match text_of(bytes.as_slice()) {
            Some(text) => {
                proof {
                    encode_utf8_decode_utf8(text@);
                }
                is_match(&self.compiled, text)
            },
            None => true,
        }
    }
}

/// An automaton that evaluates a regular expression on compressed strings.
///
/// The codes are searched without decompressing them. An assertion such as
/// `(?-u:\B)` makes the automaton find matches between two bytes of one
/// character, which are no matches of the text: what is found for such a pattern
/// is confirmed on the decompressed text.
pub struct RegexFsstDfa {
    dfa: SymbolDfa,
    confirmation: Option<Confirmation>,
}

/// Whether what an automaton finds for a pattern stands: for a pattern with an
/// assertion that can hold between two bytes of one character, bytes that are a
/// text must match.
pub open spec fn is_confirmed(
    pattern: Seq<char>,
    case_insensitive: bool,
    bytes: Seq<u8>,
) -> bool {
    can_split_characters(pattern) ==> (compile_result(pattern, case_insensitive) matches Ok(
        language,
    ) ==> (valid_utf8(bytes) ==> language.contains(decode_utf8(bytes))))
}

impl RegexFsstDfa {
    /// Upper bound on the reachable states of a byte automaton. A pattern that
    /// needs more is left to a search of the decompressed string.
    pub const MAX_STATES: usize = 512;

    /// The automaton and the second look have the same symbols.
    #[verifier::type_invariant]
    spec fn wf(self) -> bool {
        self.confirmation matches Some(second) ==> second.wf() && second.symbols()
            == self.dfa.symbols()
    }

    /// The symbols that codes stand for.
    pub closed spec fn symbols(self) -> Seq<Seq<u8>> {
        self.dfa.symbols()
    }

    /// Whether a match is found in the decompressed `bytes`.
    pub closed spec fn accepts(self, bytes: Seq<u8>) -> bool {
        self.dfa.accepts(bytes) && (self.confirmation matches Some(second) ==> second.confirms(
            bytes,
        ))
    }

    /// Whether this searches for a pattern: it finds a match exactly where the
    /// compiled automaton does and the finding stands; which is, for a literal
    /// pattern with respect to case, in the texts that the literal asks for, and
    /// for any pattern in the texts that [`crate::execute::regex_execute`]
    /// matches.
    pub open spec fn searches_for(self, pattern: Seq<char>, case_insensitive: bool) -> bool {
        let dfa = pattern_dfa(pattern, case_insensitive)->0;
        &&& forall|bytes: Seq<u8>| #[trigger]
            self.accepts(bytes) == (automaton_of(dfa).accepts(dfa_start(dfa)->0, bytes)
                && is_confirmed(pattern, case_insensitive, bytes))
        &&& !case_insensitive ==> (literal_shape(pattern) matches Some(shape) ==> forall|
            text: Seq<char>,
        |
            self.accepts(#[trigger] encode_utf8(text)) == shape.finds(text))
        &&& compile_result(pattern, case_insensitive) matches Ok(language) ==> forall|
            text: Seq<char>,
        |
            self.accepts(#[trigger] encode_utf8(text)) == language.contains(text)
    }

    /// Compiles `pattern` and lifts it onto a symbol table.
    ///
    /// Returns:
    /// - `Ok(Some(dfa))` if the pattern compiles and its reachable states fit
    ///   within [`RegexFsstDfa::MAX_STATES`].
    /// - `Ok(None)` if the pattern is not supported, has too many states, or
    ///   reaches a quit state.
    pub fn try_new(
        symbols: &[fsst::Symbol],
        symbol_lengths: &[u8],
        pattern: &str,
        case_insensitive: bool,
    ) -> (r: Result<Option<Self>, Error>)
        requires
            symbols@.len() <= symbol_lengths@.len(),
            forall|c: int| 0 <= c < symbols@.len() ==> #[trigger] symbol_lengths@[c] <= 8,
            symbols@.len() * RegexFsstDfa::MAX_STATES <= usize::MAX,
        ensures
            r is Ok,
            r->Ok_0 is Some <==> is_supported(pattern@, case_insensitive),
            r->Ok_0 matches Some(searcher) ==> {
                &&& searcher.symbols() == symbol_table(symbol_words(symbols@), symbol_lengths@)
                &&& searcher.searches_for(pattern@, case_insensitive)
            },
    {
        let table = match pattern_table(pattern, case_insensitive) {
            Some(table) => table,
            None => return Ok(None),
        };
        let words = to_words(symbols);
        let ghost dfa = pattern_dfa(pattern@, case_insensitive)->0;
        let ghost start = dfa_start(dfa)->0;
        assert(table.n_states() * words@.len() <= usize::MAX) by (nonlinear_arith)
            requires
                table.n_states() <= 512,
                words@.len() * 512 <= usize::MAX,
        ;
        let lifted = SymbolDfa::lift(table, &words, symbol_lengths);
        let confirmation = if splits_characters(pattern) {
            match compile(pattern, case_insensitive) {
                Ok(compiled) => {
                    let symbol_lengths = slice_to_vec(symbol_lengths);
                    Some(Confirmation { compiled, words, symbol_lengths })
                },
                Err(_) => None,
            }
        } else {
            None
        };
        let searcher = RegexFsstDfa { dfa: lifted, confirmation };
        proof {
            assert forall|bytes: Seq<u8>| #[trigger] searcher.accepts(bytes) == (automaton_of(
                dfa,
            ).accepts(start, bytes) && is_confirmed(pattern@, case_insensitive, bytes)) by {
                assert(lifted.accepts(bytes) == automaton_of(dfa).accepts(start, bytes));
            }
            if let Ok(language) = compile_result(pattern@, case_insensitive) {
                assert forall|text: Seq<char>|
                    searcher.accepts(#[trigger] encode_utf8(text)) == language.contains(text) by {
                    encode_utf8_valid_utf8(text);
                    encode_utf8_decode_utf8(text);
                }
            }
            if let Some(shape) = literal_shape(pattern@) {
                lemma_literal_does_not_split(pattern@);
            }
        }
        Ok(Some(searcher))
    }

    /// Evaluates the search on one code stream.
    ///
    /// Returns `true` if the decompressed bytes contain a match.
    pub fn matches(&self, codes: &[u8]) -> (found: bool)
        requires
            valid_codes(self.symbols().len(), codes@),
        ensures
            found == self.accepts(decompress(self.symbols(), codes@)),
    {
        proof {
            use_type_invariant(self);
        }
        if !self.dfa.matches(codes) {
            return false;
        }
        match &self.confirmation {
            Some(second) => second.check(codes),
            None => true,
        }
    }
}

/// A literal pattern has no assertions but its anchors.
proof fn lemma_literal_does_not_split(pattern: Seq<char>)
    requires
        literal_shape(pattern) is Some,
    ensures
        !can_split_characters(pattern),
{
    let shape = literal_shape(pattern)->0;
    law_pattern_is_anchors_around_literal(pattern);
    assert(!pattern.contains('\\')) by {
        if pattern.contains('\\') {
            let i = pattern.index_of('\\');
            let body = shape.literal();
            let at = match shape {
                LiteralShape::Exact(_) => i - 1,
                LiteralShape::Prefix(_) => i - 1,
                _ => i,
            };
            assert(shape.pattern()[i] == '\\');
            assert(0 <= at < body.len());
            assert(body[at] == '\\');
        }
    }
    lemma_ascii_bytes(pattern, '\\');
    let bytes = encode_utf8(pattern);
    assert forall|i: int| !asserts_no_word_at(bytes, i) by {
        if asserts_no_word_at(bytes, i) {
            assert(bytes[i] == '\\' as u8);
            assert(bytes.contains('\\' as u8));
        }
    }
}

/// A search for a literal pattern with respect to case finds a match in the
/// texts that the default execution matches.
pub proof fn law_literal_search_is_the_default_match(
    searcher: RegexFsstDfa,
    pattern: Seq<char>,
    language: Set<Seq<char>>,
    text: Seq<char>,
)
    requires
        searcher.searches_for(pattern, false),
        literal_shape(pattern) is Some,
        respects_shape(language, pattern, false),
    ensures
        searcher.accepts(encode_utf8(text)) == language.contains(text),
{
}

/// A search of a compressed string finds a match exactly if the default
/// execution matches the decompressed text.
pub proof fn law_search_is_the_default_match(
    searcher: RegexFsstDfa,
    pattern: Seq<char>,
    case_insensitive: bool,
    codes: Seq<u8>,
)
    requires
        searcher.searches_for(pattern, case_insensitive),
        valid_utf8(decompress(searcher.symbols(), codes)),
    ensures
        compile_result(pattern, case_insensitive) matches Ok(language) ==> searcher.accepts(
            decompress(searcher.symbols(), codes),
        ) == row_matches(language, decompress(searcher.symbols(), codes)),
{
    decode_utf8_encode_utf8(decompress(searcher.symbols(), codes));
}

} // verus!

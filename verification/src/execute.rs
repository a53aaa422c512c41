//! The default way to match an array: compile the pattern once and look at the
//! text of every row.

use regex::Regex as CompiledPattern;
use vstd::prelude::*;
use vstd::string::*;
use vstd::utf8::decode_utf8;
use vstd::utf8::encode_utf8_decode_utf8;
use vstd::utf8::valid_utf8;

use crate::array::BoolArray;
use crate::array::PatternArray;
use crate::array::Strings;
use crate::array::Validity;
use crate::array::ValidityModel;
use crate::array::VarBinViewArray;
use crate::dtype::DType;
use crate::dtype::Nullability;
use crate::error::Error;
use crate::literal_shape::literal_shape;
use crate::options::RegexOptions;
use crate::text::text_of;

verus! {

/// `regex::Regex`: a compiled pattern.
#[verifier::external_type_specification]
#[verifier::external_body]
pub struct ExCompiledRegex(CompiledPattern);

/// What `regex::RegexBuilder::build` makes of a pattern: the set of the texts
/// that it matches somewhere, or the reason why it is no pattern.
pub uninterp spec fn compile_result(pattern: Seq<char>, case_insensitive: bool) -> Result<
    Set<Seq<char>>,
    Seq<char>,
>;

/// The texts that a compiled pattern matches somewhere (`regex::Regex::is_match`).
pub uninterp spec fn regex_language(compiled: CompiledPattern) -> Set<Seq<char>>;

/// Calls `regex::RegexBuilder::build` with the given case sensitivity. Trusted:
/// the outcome is a function of the pattern and the flag; and where a pattern
/// with nothing but a literal between its anchors compiles, it matches, with
/// respect to case, what its shape asks for.
#[verifier::external_body]
pub(crate) fn compile(pattern: &str, case_insensitive: bool) -> (r: Result<CompiledPattern, String>)
    ensures
        r is Ok == compile_result(pattern@, case_insensitive) is Ok,
        r matches Ok(compiled) ==> regex_language(compiled) == compile_result(
            pattern@,
            case_insensitive,
        )->Ok_0,
        r matches Err(reason) ==> reason@ == compile_result(pattern@, case_insensitive)->Err_0,
        r matches Ok(compiled) ==> respects_shape(
            regex_language(compiled),
            pattern@,
            case_insensitive,
        ),
{
    regex::RegexBuilder::new(pattern).case_insensitive(case_insensitive).build().map_err(
        |e| e.to_string(),
    )
}

/// Calls `regex::Regex::is_match`. Trusted: the outcome is a function of the
/// compiled pattern and the text.
#[verifier::external_body]
pub(crate) fn is_match(compiled: &CompiledPattern, text: &str) -> (b: bool)
    ensures
        b == regex_language(*compiled).contains(text@),
{
    compiled.is_match(text)
}

/// Whether the bytes of a row are a text of the language.
pub open spec fn row_matches(language: Set<Seq<char>>, bytes: Seq<u8>) -> bool {
    valid_utf8(bytes) && language.contains(decode_utf8(bytes))
}

/// The bits of a match: inverted if the match is negated.
pub open spec fn match_bits(hits: Seq<bool>, negated: bool) -> Seq<bool> {
    Seq::new(hits.len(), |i: int| hits[i] != negated)
}

/// Which rows of `contents` match.
pub open spec fn language_hits(language: Set<Seq<char>>, contents: Seq<Seq<u8>>) -> Seq<bool> {
    Seq::new(contents.len(), |i: int| row_matches(language, contents[i]))
}

/// The result of matching an array, from which rows were hit.
pub fn match_result(
    hits: Vec<bool>,
    options: RegexOptions,
    validity: Validity,
    nullability: Nullability,
) -> (result: BoolArray)
    ensures
        result.bits@ == match_bits(hits@, options.negated),
        result.validity@ == validity@.union_nullability(nullability),
{
    let mut bits: Vec<bool> = Vec::new();
    let mut i: usize = 0;
    while i < hits.len()
        invariant
            i <= hits@.len(),
            bits@.len() == i,
            forall|j: int| 0 <= j < i ==> #[trigger] bits@[j] == (hits@[j] != options.negated),
        decreases hits.len() - i,
    {
        bits.push(hits[i] != options.negated);
        i = i + 1;
    }
    assert(bits@ =~= match_bits(hits@, options.negated));
    BoolArray { bits, validity: validity.union_nullability(nullability) }
}

/// The result of matching against a null pattern: every row is null.
pub fn null_result(len: usize) -> (result: BoolArray)
    ensures
        result.bits@ == Seq::new(len as nat, |i: int| false),
        result.validity@ == ValidityModel::AllInvalid,
        result.wf(),
{
    let mut bits: Vec<bool> = Vec::new();
    let mut i: usize = 0;
    while i < len
        invariant
            i <= len,
            bits@.len() == i,
            forall|j: int| 0 <= j < i ==> #[trigger] bits@[j] == false,
        decreases len - i,
    {
        bits.push(false);
        i = i + 1;
    }
    assert(bits@ =~= Seq::new(len as nat, |i: int| false));
    BoolArray { bits, validity: Validity::AllInvalid }
}

/// Which rows of the array the compiled pattern matches. A row that is no text
/// does not match.
fn row_hits(compiled: &CompiledPattern, array: &VarBinViewArray) -> (hits: Vec<bool>)
    ensures
        hits@ == language_hits(regex_language(*compiled), array@.contents),
{
    let mut hits: Vec<bool> = Vec::new();
    let mut i: usize = 0;
    while i < array.bytes.len()
        invariant
            i <= array.bytes@.len(),
            hits@.len() == i,
            forall|j: int|
                0 <= j < i ==> #[trigger] hits@[j] == row_matches(
                    regex_language(*compiled),
                    array.bytes@[j]@,
                ),
        decreases array.bytes.len() - i,
    {
        let hit = match text_of(array.bytes[i].as_slice()) {
            Some(text) => {
                proof {
                    encode_utf8_decode_utf8(text@);
                }
                is_match(compiled, text)
            },
            None => false,
        };
        hits.push(hit);
        i = i + 1;
    }
    assert(hits@ =~= language_hits(regex_language(*compiled), array@.contents));
    hits
}

/// What a match makes of the rows of an array, null ones left null.
pub open spec fn matched_rows(
    rows: Seq<Option<Seq<u8>>>,
    language: Set<Seq<char>>,
    negated: bool,
) -> Seq<Option<bool>> {
    Seq::new(
        rows.len(),
        |i: int|
            match rows[i] {
                Some(bytes) => Some(row_matches(language, bytes) != negated),
                None => None,
            },
    )
}

/// A negated match is the opposite of the match on every row, and null where
/// the match is.
pub proof fn law_negation_inverts_the_match(
    rows: Seq<Option<Seq<u8>>>,
    language: Set<Seq<char>>,
    i: int,
)
    requires
        0 <= i < rows.len(),
    ensures
        match matched_rows(rows, language, false)[i] {
            Some(b) => matched_rows(rows, language, true)[i] == Some(!b),
            None => matched_rows(rows, language, true)[i] is None,
        },
        matched_rows(rows, language, true)[i] is None <==> rows[i] is None,
{
}

/// The outcome of matching an array of strings against a pattern.
///
/// Both must be strings, and the pattern must be one and the same for every
/// row. A null pattern gives nulls only. Otherwise a row is null where the
/// input is, and elsewhere it says whether the text of the row is in the
/// language of the pattern, or that it is not if the match is negated.
pub open spec fn is_execution(
    array: Strings,
    pattern: PatternArray,
    options: RegexOptions,
    r: Result<BoolArray, Error>,
) -> bool {
    if !array.dtype.is_utf8() {
        r == Err::<BoolArray, Error>(Error::InputArray(array.dtype))
    } else if !pattern.spec_dtype().is_utf8() {
        r == Err::<BoolArray, Error>(Error::PatternArray(pattern.spec_dtype()))
    } else {
        match pattern.constant() {
            None => r == Err::<BoolArray, Error>(Error::PatternNotConstant),
            Some(value) => match value.text() {
                None => {
                    &&& r matches Ok(result)
                    &&& result.bits@ == Seq::new(array.contents.len(), |i: int| false)
                    &&& result.validity@ == ValidityModel::AllInvalid
                },
                Some(text) => match compile_result(text, options.case_insensitive) {
                    Err(reason) => {
                        &&& r matches Err(Error::InvalidPattern { pattern: p, reason: e })
                        &&& p@ == text
                        &&& e@ == reason
                    },
                    Ok(language) => {
                        &&& r matches Ok(result)
                        &&& result.bits@ == match_bits(
                            language_hits(language, array.contents),
                            options.negated,
                        )
                        &&& result.validity@ == array.validity.union_nullability(
                            Nullability::of(
                                array.dtype.is_nullable() || pattern.spec_dtype().is_nullable(),
                            ),
                        )
                        &&& result.rows() == matched_rows(array.rows(), language, options.negated)
                    },
                },
            },
        }
    }
}

/// Whether a language is the one that a literal pattern asks for, if the
/// pattern is literal and case matters.
pub open spec fn respects_shape(
    language: Set<Seq<char>>,
    pattern: Seq<char>,
    case_insensitive: bool,
) -> bool {
    !case_insensitive ==> (literal_shape(pattern) matches Some(shape) ==> forall|text: Seq<char>|
     #[trigger] language.contains(text) == shape.finds(text))
}

/// Default execution path for the [`crate::scalar_fn::Regex`] scalar function.
///
/// Compiles the pattern once and matches every row. The result is null where
/// the input is; a null pattern gives nulls only.
pub fn regex_execute(
    array: &VarBinViewArray,
    pattern: &PatternArray,
    options: RegexOptions,
) -> (r: Result<BoolArray, Error>)
    requires
        array@.wf(),
        array.dtype.is_utf8() && pattern.spec_dtype().is_utf8() ==> array.spec_len()
            == pattern.spec_len(),
    ensures
        is_execution(array@, *pattern, options, r),
        r matches Ok(result) ==> result.wf() && result.bits@.len() == array.bytes@.len(),
        r matches Ok(result) ==> (pattern.constant()->0.text() is Some ==> result.dtype()
            == DType::Bool(
            Nullability::of(array.dtype.is_nullable() || pattern.spec_dtype().is_nullable()),
        )),
        r is Ok ==> (pattern.constant()->0.text() matches Some(text) ==> respects_shape(
            compile_result(text, options.case_insensitive)->Ok_0,
            text,
            options.case_insensitive,
        )),
{
    if !array.dtype.is_utf8() {
        return Err(Error::InputArray(array.dtype));
    }
    if !pattern.dtype().is_utf8() {
        return Err(Error::PatternArray(pattern.dtype()));
    }
    let result_nullability = Nullability::from_bool(
        array.dtype.is_nullable() || pattern.dtype().is_nullable(),
    );
    let value = match pattern.as_constant() {
        Some(value) => value,
        None => return Err(Error::PatternNotConstant),
    };
    let text = match value.as_text() {
        Some(text) => text,
        None => return Ok(null_result(array.len())),
    };
    let compiled = match compile(text, options.case_insensitive) {
        Ok(compiled) => compiled,
        Err(reason) => return Err(Error::InvalidPattern { pattern: text.to_owned(), reason }),
    };
    let hits = row_hits(&compiled, array);
    let result = match_result(hits, options, array.validity.clone(), result_nullability);
    assert(result.rows() =~= matched_rows(
        array@.rows(),
        regex_language(compiled),
        options.negated,
    ));
    Ok(result)
}

} // verus!

//! Laws of the default match.

use vstd::prelude::*;
use vstd::utf8::decode_utf8;
use vstd::utf8::valid_utf8;

use crate::array::BoolArray;
use crate::array::PatternArray;
use crate::array::VarBinViewArray;
use crate::dtype::DType;
use crate::dtype::Nullability;
use crate::error::Error;
use crate::execute::compile_result;
use crate::execute::is_execution;
use crate::execute::match_bits;
use crate::laws::arrays::flags_fit;
use crate::laws::arrays::law_boolean_rows;
use crate::laws::arrays::present;
use crate::options::RegexOptions;
use crate::scalar::Scalar;

verus! {

/// A match of an array against a text that compiles says of each row that is
/// there whether its bytes are a text that the compiled pattern matches, or the
/// opposite if the match is negated; a row is null exactly if the input row is;
/// and the result rules out nulls exactly if input and pattern do.
pub proof fn law_match_says_which_rows_match(
    array: VarBinViewArray,
    array_nullability: Nullability,
    text: String,
    text_nullability: Nullability,
    options: RegexOptions,
    language: Set<Seq<char>>,
    r: Result<BoolArray, Error>,
    i: int,
)
    requires
        array.dtype == DType::Utf8(array_nullability),
        flags_fit(array.validity, array.bytes@.len()),
        compile_result(text@, options.case_insensitive) == Ok::<Set<Seq<char>>, Seq<char>>(
            language,
        ),
        is_execution(
            array@,
            PatternArray::Constant {
                value: Scalar::Utf8(text, text_nullability),
                len: array.bytes.len(),
            },
            options,
            r,
        ),
        0 <= i < array.bytes@.len(),
    ensures
        r matches Ok(result) && {
            &&& result.bits@.len() == array.bytes@.len()
            &&& flags_fit(result.validity, array.bytes@.len())
            &&& present(result.validity, i) == present(array.validity, i)
            &&& present(array.validity, i) ==> result.bits@[i] == ((valid_utf8(array.bytes@[i]@)
                && language.contains(decode_utf8(array.bytes@[i]@))) != options.negated)
            &&& result.validity is NonNullable <==> array.validity is NonNullable
                && array_nullability == Nullability::NonNullable && text_nullability
                == Nullability::NonNullable
        },
{
    let result = r->Ok_0;
    if present(array.validity, i) {
        law_boolean_rows(result, i);
        assert(result.rows()[i] == Some(
            (valid_utf8(array.bytes@[i]@) && language.contains(decode_utf8(array.bytes@[i]@)))
                != options.negated,
        ));
    }
}

/// A match against a null text gives nulls only.
pub proof fn law_match_of_null_is_null(
    array: VarBinViewArray,
    array_nullability: Nullability,
    text_nullability: Nullability,
    options: RegexOptions,
    r: Result<BoolArray, Error>,
    i: int,
)
    requires
        array.dtype == DType::Utf8(array_nullability),
        is_execution(
            array@,
            PatternArray::Constant {
                value: Scalar::Null(DType::Utf8(text_nullability)),
                len: array.bytes.len(),
            },
            options,
            r,
        ),
        0 <= i < array.bytes@.len(),
    ensures
        r matches Ok(result) && result.bits@.len() == array.bytes@.len() && !present(
            result.validity,
            i,
        ),
{
}

/// What is refused: an input that is no string, a pattern that is no string, a
/// pattern that differs from row to row, and a text that does not compile, each
/// before what stands behind it. Nothing else is.
pub proof fn law_match_refuses(
    array: VarBinViewArray,
    pattern: PatternArray,
    options: RegexOptions,
    r: Result<BoolArray, Error>,
)
    requires
        is_execution(array@, pattern, options, r),
    ensures
        !(array.dtype is Utf8) ==> r == Err::<BoolArray, Error>(Error::InputArray(array.dtype)),
        array.dtype is Utf8 ==> match pattern {
            PatternArray::PerRow(rows) => r == Err::<BoolArray, Error>(
                if rows.dtype is Utf8 {
                    Error::PatternNotConstant
                } else {
                    Error::PatternArray(rows.dtype)
                },
            ),
            PatternArray::Constant { value: Scalar::Utf8(text, n), len } => match compile_result(
                text@,
                options.case_insensitive,
            ) {
                Ok(_) => r is Ok,
                Err(reason) => r matches Err(Error::InvalidPattern { pattern: p, reason: e })
                    && p@ == text@ && e@ == reason,
            },
            PatternArray::Constant { value: Scalar::Null(d), len } => if d is Utf8 {
                r is Ok
            } else {
                r == Err::<BoolArray, Error>(Error::PatternArray(d))
            },
            PatternArray::Constant { value: Scalar::Bool(b, n), len } => r == Err::<
                BoolArray,
                Error,
            >(Error::PatternArray(DType::Bool(n))),
            PatternArray::Constant { value: Scalar::Primitive(v, n), len } => r == Err::<
                BoolArray,
                Error,
            >(Error::PatternArray(DType::Primitive(v.spec_ptype(), n))),
        },
{
}

/// Two matches that differ in nothing but the negation have the same null rows
/// and opposite bits on the others.
pub proof fn law_negated_match_is_the_opposite(
    array: VarBinViewArray,
    pattern: PatternArray,
    case_insensitive: bool,
    plain: BoolArray,
    negated: BoolArray,
    i: int,
)
    requires
        flags_fit(array.validity, array.bytes@.len()),
        is_execution(
            array@,
            pattern,
            RegexOptions { negated: false, case_insensitive },
            Ok(plain),
        ),
        is_execution(
            array@,
            pattern,
            RegexOptions { negated: true, case_insensitive },
            Ok(negated),
        ),
        0 <= i < array.bytes@.len(),
    ensures
        plain.bits@.len() == negated.bits@.len() == array.bytes@.len(),
        present(plain.validity, i) == present(negated.validity, i),
        present(plain.validity, i) ==> plain.bits@[i] != negated.bits@[i],
{
    law_boolean_rows(plain, i);
    law_boolean_rows(negated, i);
}

/// Bits are those of the hits, or their opposites if the match is negated.
pub proof fn law_bits_of_hits(hits: Seq<bool>, i: int)
    requires
        0 <= i < hits.len(),
    ensures
        match_bits(hits, false) == hits,
        match_bits(hits, true).len() == hits.len(),
        match_bits(hits, true)[i] != hits[i],
{
    assert(match_bits(hits, false) =~= hits);
}

} // verus!

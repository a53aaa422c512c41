//! Laws of dictionary-encoded arrays.

use vstd::prelude::*;
use vstd::utf8::decode_utf8;
use vstd::utf8::valid_utf8;

use crate::array::BoolArray;
use crate::array::PatternArray;
use crate::array::VarBinViewArray;
use crate::dict::take_rows;
use crate::dict::Codes;
use crate::dict::Dict;
use crate::dict::DictArray;
use crate::dict::RegexArray;
use crate::dtype::DType;
use crate::dtype::Nullability;
use crate::error::Error;
use crate::execute::compile_result;
use crate::execute::is_execution;
use crate::kernel::RegexReduce;
use crate::laws::arrays::flags_fit;
use crate::laws::arrays::law_boolean_rows;
use crate::laws::arrays::present;
use crate::options::RegexOptions;
use crate::scalar::Scalar;

verus! {

/// Whether a row of a dictionary is there: its code is, and the value it refers
/// to is.
pub open spec fn row_present(array: DictArray<VarBinViewArray>, i: int) -> bool {
    present(array.codes.validity, i) && present(
        array.values.validity,
        array.codes.codes@[i] as int,
    )
}

/// Whether the flags fit and each code that is there refers to a value.
pub open spec fn is_dictionary(array: DictArray<VarBinViewArray>) -> bool {
    &&& flags_fit(array.codes.validity, array.codes.codes@.len())
    &&& flags_fit(array.values.validity, array.values.bytes@.len())
    &&& forall|k: int|
        0 <= k < array.codes.codes@.len() && present(array.codes.validity, k)
            ==> #[trigger] array.codes.codes@[k] < array.values.bytes@.len()
}

/// What a reduced match of a dictionary computes: of each row that is there,
/// whether the value it refers to is a text that the pattern, compiled with the
/// caller's case sensitivity, matches, or the opposite if the caller negates the
/// match; the other rows are null; and nulls are ruled out exactly if codes,
/// values and pattern rule them out.
pub proof fn law_reduced_match_says_which_rows_match(
    array: DictArray<VarBinViewArray>,
    values_nullability: Nullability,
    text: String,
    text_nullability: Nullability,
    len: usize,
    options: RegexOptions,
    language: Set<Seq<char>>,
    reduced: DictArray<RegexArray>,
    r: Result<BoolArray, Error>,
    i: int,
)
    requires
        is_dictionary(array),
        array.values.dtype == DType::Utf8(values_nullability),
        values_nullability == Nullability::NonNullable <==> array.values.validity is NonNullable,
        compile_result(text@, options.case_insensitive) == Ok::<Set<Seq<char>>, Seq<char>>(
            language,
        ),
        Dict::reduces_to(
            array,
            PatternArray::Constant { value: Scalar::Utf8(text, text_nullability), len },
            options,
            Ok(Some(reduced)),
        ),
        reduced.executes_to(r),
        0 <= i < array.codes.codes@.len(),
    ensures
        r matches Ok(result) && {
            let bytes = array.values.bytes@[array.codes.codes@[i] as int]@;
            &&& result.bits@.len() == array.codes.codes@.len()
            &&& present(result.validity, i) == row_present(array, i)
            &&& row_present(array, i) ==> result.bits@[i] == ((valid_utf8(bytes)
                && language.contains(decode_utf8(bytes))) != options.negated)
            &&& result.validity is NonNullable <==> array.codes.validity is NonNullable
                && array.values.validity is NonNullable && text_nullability
                == Nullability::NonNullable
        },
{
    let result = r->Ok_0;
    let rows = take_rows(reduced.values.input@.rows(), reduced.codes.rows());
    assert(result.rows().len() == array.codes.codes@.len());
    law_boolean_rows(result, i);
    assert(reduced.values.input@.rows() == array.values@.rows());
    if present(array.codes.validity, i) {
        let code = array.codes.codes@[i];
        assert(code < array.values.bytes@.len());
        assert(reduced.codes.rows()[i] == Some(code));
        assert(rows[i] == array.values@.rows()[code as int]);
    } else {
        assert(reduced.codes.rows()[i] is None);
        assert(rows[i] is None);
    }
}

/// Which matches of a dictionary are reduced: those of no more values than rows
/// against one value for every row. Of these, the ones whose operands are no
/// strings fail. Codes, and what is known of them, stay as they were.
pub proof fn law_which_matches_are_reduced(
    array: DictArray<VarBinViewArray>,
    pattern: PatternArray,
    options: RegexOptions,
    r: Result<Option<DictArray<RegexArray>>, Error>,
)
    requires
        Dict::reduces_to(array, pattern, options, r),
    ensures
        array.values.bytes@.len() > array.codes.codes@.len() || pattern is PerRow ==> r == Ok::<
            Option<DictArray<RegexArray>>,
            Error,
        >(None),
        array.values.bytes@.len() <= array.codes.codes@.len() ==> (pattern matches PatternArray::Constant {
            value,
            len,
        } ==> {
            &&& !(array.values.dtype is Utf8) ==> r == Err::<Option<DictArray<RegexArray>>, Error>(
                Error::InputDType(array.values.dtype),
            )
            &&& array.values.dtype is Utf8 && !(value.spec_dtype() is Utf8) ==> r == Err::<
                Option<DictArray<RegexArray>>,
                Error,
            >(Error::PatternDType(value.spec_dtype()))
            &&& array.values.dtype is Utf8 && value.spec_dtype() is Utf8 ==> (r matches Ok(
                Some(reduced),
            ) && reduced.codes.codes@ == array.codes.codes@
                && reduced.all_values_referenced == array.all_values_referenced
                && reduced.values.options.negated == options.negated
                && reduced.values.options.case_insensitive == options.case_insensitive
                && reduced.values.input.bytes@.len() == array.values.bytes@.len()
                && reduced.values.pattern == (PatternArray::Constant {
                value,
                len: array.values.bytes.len(),
            }))
        }),
{
    if let Ok(Some(reduced)) = r {
        assert(reduced.values.input@.contents.len() == reduced.values.input.bytes@.len());
        assert(array.values@.contents.len() == array.values.bytes@.len());
    }
}

/// Looking codes up gives, for a code that is there, the row it refers to, and
/// null for one that is not.
pub proof fn law_lookup(outcome: BoolArray, codes: Codes, i: int)
    requires
        0 <= i < codes.codes@.len(),
        present(codes.validity, i) ==> codes.codes@[i] < outcome.bits@.len(),
    ensures
        take_rows(outcome.rows(), codes.rows()).len() == codes.codes@.len(),
        ({
            let c = codes.codes@[i] as int;
            take_rows(outcome.rows(), codes.rows())[i] == if present(codes.validity, i)
                && present(outcome.validity, c) {
                Some(outcome.bits@[c])
            } else {
                None
            }
        }),
{
}

/// A reduced match against a null text gives nulls only, one for each row of the
/// dictionary.
pub proof fn law_reduced_match_of_null_is_null(
    array: DictArray<VarBinViewArray>,
    text_nullability: Nullability,
    len: usize,
    options: RegexOptions,
    reduced: DictArray<RegexArray>,
    r: Result<BoolArray, Error>,
    i: int,
)
    requires
        is_dictionary(array),
        Dict::reduces_to(
            array,
            PatternArray::Constant {
                value: Scalar::Null(DType::Utf8(text_nullability)),
                len,
            },
            options,
            Ok(Some(reduced)),
        ),
        reduced.executes_to(r),
        0 <= i < array.codes.codes@.len(),
    ensures
        r matches Ok(result) && result.bits@.len() == array.codes.codes@.len() && !present(
            result.validity,
            i,
        ),
{
    assert(r is Ok);
    let result = r->Ok_0;
    let matched = choose|matched: BoolArray| #[trigger]
        is_execution(
            reduced.values.input@,
            reduced.values.pattern,
            reduced.values.options,
            Ok(matched),
        ) && result.rows() == take_rows(matched.rows(), reduced.codes.rows()) && (
        result.validity@ is NonNullable <==> matched.validity@ is NonNullable
            && reduced.codes.validity@ is NonNullable);
    assert(result.rows().len() == array.codes.codes@.len());
    law_boolean_rows(result, i);
    if present(array.codes.validity, i) {
        let code = array.codes.codes@[i];
        assert(code < array.values.bytes@.len());
        assert(reduced.codes.rows()[i] == Some(code));
        assert(array.values@.contents.len() == array.values.bytes@.len());
        assert(matched.rows()[code as int] is None);
    } else {
        assert(reduced.codes.rows()[i] is None);
    }
}

/// A reduced match against a text that does not compile fails with the text and
/// the reason.
pub proof fn law_reduced_match_refuses(
    array: DictArray<VarBinViewArray>,
    text: String,
    text_nullability: Nullability,
    len: usize,
    options: RegexOptions,
    reason: Seq<char>,
    reduced: DictArray<RegexArray>,
    r: Result<BoolArray, Error>,
)
    requires
        compile_result(text@, options.case_insensitive) == Err::<Set<Seq<char>>, Seq<char>>(reason),
        Dict::reduces_to(
            array,
            PatternArray::Constant { value: Scalar::Utf8(text, text_nullability), len },
            options,
            Ok(Some(reduced)),
        ),
        reduced.executes_to(r),
    ensures
        r matches Err(Error::InvalidPattern { pattern: p, reason: e }) && p@ == text@ && e@
            == reason,
{
}

} // verus!

//! Dictionary-encoded arrays: each row is a code that refers to a value.

use vstd::prelude::*;

use crate::array::BoolArray;
use crate::array::PatternArray;
use crate::array::Validity;
use crate::array::VarBinViewArray;
use crate::dtype::DType;
use crate::dtype::Nullability;
use crate::error::Error;
use crate::execute::compile_result;
use crate::execute::is_execution;
use crate::execute::matched_rows;
use crate::execute::regex_execute;
use crate::execute::respects_shape;
use crate::kernel::RegexReduce;
use crate::options::RegexOptions;
use crate::scalar_fn::Regex;

verus! {

/// The codes of the rows. A null row has a code too, which means nothing.
#[derive(Debug, PartialEq, Eq)]
pub struct Codes {
    pub codes: Vec<usize>,
    pub validity: Validity,
}

impl Codes {
    /// The codes that are not null refer to one of `n_values` values.
    pub open spec fn wf(self, n_values: nat) -> bool {
        &&& self.validity@.covers(self.codes@.len())
        &&& forall|i: int|
            0 <= i < self.codes@.len() && self.validity@.is_valid(i)
                ==> #[trigger] self.codes@[i] < n_values
    }

    /// Whether the codes that are not null refer to one of `n_values` values.
    pub fn is_for(&self, n_values: usize) -> (b: bool)
        ensures
            b == self.wf(n_values as nat),
    {
        if !self.validity.is_for(self.codes.len()) {
            return false;
        }
        let mut i: usize = 0;
        while i < self.codes.len()
            invariant
                i <= self.codes@.len(),
                self.validity@.covers(self.codes@.len()),
                forall|j: int|
                    0 <= j < i && self.validity@.is_valid(j) ==> #[trigger] self.codes@[j]
                        < n_values,
            decreases self.codes.len() - i,
        {
            if self.validity.is_valid(i) && self.codes[i] >= n_values {
                assert(!(self.codes@[i as int] < n_values));
                return false;
            }
            i = i + 1;
        }
        true
    }

    /// The rows, null ones as `None`.
    pub open spec fn rows(self) -> Seq<Option<usize>> {
        Seq::new(
            self.codes@.len(),
            |i: int|
                if self.validity@.is_valid(i) {
                    Some(self.codes@[i])
                } else {
                    None
                },
        )
    }
}

impl Clone for Codes {
    fn clone(&self) -> (copy: Self)
        ensures
            copy.codes@ == self.codes@,
            copy.validity@ == self.validity@,
    {
        let codes = self.codes.clone();
        assert(codes@ =~= self.codes@);
        Codes { codes, validity: self.validity.clone() }
    }
}

/// The values that codes refer to.
pub open spec fn take_rows<T>(values: Seq<Option<T>>, codes: Seq<Option<usize>>) -> Seq<
    Option<T>,
> {
    Seq::new(
        codes.len(),
        |i: int|
            match codes[i] {
                Some(code) => values[code as int],
                None => None,
            },
    )
}

/// An array whose rows are codes that refer to `values`.
#[derive(Debug, PartialEq, Eq)]
pub struct DictArray<V> {
    pub codes: Codes,
    pub values: V,
    /// Whether every value is known to be referred to.
    pub all_values_referenced: bool,
}

/// A match of an array that has not been executed.
#[derive(Debug, PartialEq, Eq)]
pub struct RegexArray {
    pub input: VarBinViewArray,
    pub pattern: PatternArray,
    pub options: RegexOptions,
}

impl RegexArray {
    /// The operands are strings, one pattern row for each input row.
    pub open spec fn wf(self) -> bool {
        &&& self.input@.wf()
        &&& self.input.dtype.is_utf8()
        &&& self.pattern.spec_dtype().is_utf8()
        &&& self.input.spec_len() == self.pattern.spec_len()
    }

    /// A match of `input` against `pattern`. Fails if one of them is no string.
    pub fn try_new(input: VarBinViewArray, pattern: PatternArray, options: RegexOptions) -> (r:
        Result<Self, Error>)
        requires
            input@.wf(),
            input.spec_len() == pattern.spec_len(),
        ensures
            !input.dtype.is_utf8() ==> r == Err::<RegexArray, _>(Error::InputDType(input.dtype)),
            input.dtype.is_utf8() && !pattern.spec_dtype().is_utf8() ==> r == Err::<RegexArray, _>(
                Error::PatternDType(pattern.spec_dtype()),
            ),
            input.dtype.is_utf8() && pattern.spec_dtype().is_utf8() ==> r == Ok::<_, Error>(
                RegexArray { input, pattern, options },
            ),
    {
        let mut dtypes: Vec<DType> = Vec::new();
        dtypes.push(input.dtype);
        dtypes.push(pattern.dtype());
        match Regex.return_dtype(&options, &dtypes) {
            Err(e) => Err(e),
            Ok(_) => Ok(RegexArray { input, pattern, options }),
        }
    }

    /// Executes the match.
    pub fn execute(&self) -> (r: Result<BoolArray, Error>)
        requires
            self.wf(),
        ensures
            is_execution(self.input@, self.pattern, self.options, r),
            r matches Ok(result) ==> result.wf() && result.bits@.len() == self.input.bytes@.len(),
            r matches Ok(result) ==> (self.pattern.constant()->0.text() is Some ==> result.dtype()
                == DType::Bool(
                Nullability::of(
                    self.input.dtype.is_nullable() || self.pattern.spec_dtype().is_nullable(),
                ),
            )),
            r is Ok ==> (self.pattern.constant()->0.text() matches Some(text) ==> respects_shape(
                compile_result(text, self.options.case_insensitive)->Ok_0,
                text,
                self.options.case_insensitive,
            )),
    {
        regex_execute(&self.input, &self.pattern, self.options)
    }
}

/// Looks up the rows of `codes` in `values`.
pub fn take_bools(values: &BoolArray, codes: &Codes) -> (taken: BoolArray)
    requires
        values.wf(),
        codes.wf(values.bits@.len()),
    ensures
        taken.wf(),
        taken.rows() == take_rows(values.rows(), codes.rows()),
        taken.validity@ is NonNullable <==> values.validity@ is NonNullable
            && codes.validity@ is NonNullable,
{
    let mut bits: Vec<bool> = Vec::new();
    let mut flags: Vec<bool> = Vec::new();
    let mut i: usize = 0;
    while i < codes.codes.len()
        invariant
            values.wf(),
            codes.wf(values.bits@.len()),
            i <= codes.codes@.len(),
            bits@.len() == i,
            flags@.len() == i,
            forall|j: int|
                0 <= j < i ==> take_rows(values.rows(), codes.rows())[j] == (
                if #[trigger] flags@[j] {
                    Some(bits@[j])
                } else {
                    None
                }),
        decreases codes.codes.len() - i,
    {
        let row: Option<bool> = if codes.validity.is_valid(i) {
            values.row(codes.codes[i])
        } else {
            None
        };
        match row {
            Some(b) => {
                bits.push(b);
                flags.push(true);
            },
            None => {
                bits.push(false);
                flags.push(false);
            },
        }
        i = i + 1;
    }
    let non_nullable = match (&values.validity, &codes.validity) {
        (Validity::NonNullable, Validity::NonNullable) => true,
        _ => false,
    };
    let ghost expected = take_rows(values.rows(), codes.rows());
    let taken = if non_nullable {
        proof {
            assert forall|j: int| 0 <= j < bits@.len() implies expected[j] == Some(bits@[j]) by {
                assert(codes.validity@.is_valid(j));
                assert(expected[j] == (if flags@[j] {
                    Some(bits@[j])
                } else {
                    None
                }));
            }
        }
        BoolArray { bits, validity: Validity::NonNullable }
    } else {
        BoolArray { bits, validity: Validity::Array(flags) }
    };
    assert(taken.rows() =~= expected);
    taken
}

impl DictArray<RegexArray> {
    /// Whether `r` is the match of the values with the codes looked up in it.
    ///
    /// Where the match of the values fails, so does the whole. Otherwise each
    /// row is what matching the value that it refers to gives, and the result
    /// may be null if the matched values or the codes may.
    pub open spec fn executes_to(self, r: Result<BoolArray, Error>) -> bool {
        &&& match r {
            Err(e) => is_execution(
                self.values.input@,
                self.values.pattern,
                self.values.options,
                Err(e),
            ),
            Ok(result) => {
                &&& result.wf()
                &&& exists|matched: BoolArray| #[trigger]
                    is_execution(
                        self.values.input@,
                        self.values.pattern,
                        self.values.options,
                        Ok(matched),
                    ) && result.rows() == take_rows(matched.rows(), self.codes.rows()) && (
                    result.validity@ is NonNullable <==> matched.validity@ is NonNullable
                        && self.codes.validity@ is NonNullable)
            },
        }
        &&& self.values.pattern.constant() matches Some(value) ==> (value.text() matches Some(text)
            ==> (compile_result(text, self.values.options.case_insensitive) matches Ok(language)
            ==> (r matches Ok(result) && result.rows() == matched_rows(
            take_rows(self.values.input@.rows(), self.codes.rows()),
            language,
            self.values.options.negated,
        ) && result.dtype() == DType::Bool(
            Nullability::of(
                self.values.input.dtype.is_nullable() || value.spec_dtype().is_nullable()
                    || self.codes.validity@.nullability() == Nullability::Nullable,
            ),
        ))))
    }

    /// Executes the match of the values and looks the codes up in the result.
    pub fn execute(&self) -> (r: Result<BoolArray, Error>)
        requires
            self.values.wf(),
            self.codes.wf(self.values.input.bytes@.len()),
        ensures
            match r {
                Err(e) => is_execution(
                    self.values.input@,
                    self.values.pattern,
                    self.values.options,
                    Err(e),
                ),
                Ok(result) => {
                    &&& result.wf()
                    &&& exists|matched: BoolArray| #[trigger]
                        is_execution(
                            self.values.input@,
                            self.values.pattern,
                            self.values.options,
                            Ok(matched),
                        ) && result.rows() == take_rows(matched.rows(), self.codes.rows()) && (
                        result.validity@ is NonNullable <==> matched.validity@ is NonNullable
                            && self.codes.validity@ is NonNullable)
                },
            },
            self.values.pattern.constant() matches Some(value) ==> (value.text() matches Some(text)
                ==> (compile_result(text, self.values.options.case_insensitive) matches Ok(language)
                ==> (r matches Ok(result) && result.rows() == matched_rows(
                take_rows(self.values.input@.rows(), self.codes.rows()),
                language,
                self.values.options.negated,
            ) && result.dtype() == DType::Bool(
                Nullability::of(
                    self.values.input.dtype.is_nullable() || value.spec_dtype().is_nullable()
                        || self.codes.validity@.nullability() == Nullability::Nullable,
                ),
            )))),
            self.executes_to(r),
    {
        match self.values.execute() {
            Err(e) => Err(e),
            Ok(matched) => {
                let result = take_bools(&matched, &self.codes);
                proof {
                    if let Some(text) = self.values.pattern.constant()->0.text() {
                        let language = compile_result(
                            text,
                            self.values.options.case_insensitive,
                        )->Ok_0;
                        law_match_commutes_with_lookup(
                            self.values.input@.rows(),
                            self.codes.rows(),
                            language,
                            self.values.options.negated,
                        );
                    }
                }
                Ok(result)
            },
        }
    }
}

/// The dictionary encoding.
#[derive(Debug, Default)]
pub struct Dict;

impl RegexReduce for Dict {
    type Array = DictArray<VarBinViewArray>;

    type Output = DictArray<RegexArray>;

    /// The codes refer to values.
    open spec fn can_match(array: DictArray<VarBinViewArray>, pattern: PatternArray) -> bool {
        array.values@.wf() && array.codes.wf(array.values.bytes@.len())
    }

    /// A match against one and the same pattern is reduced to a match of the
    /// values, unless there are more of them than rows.
    open spec fn reduces_to(
        array: DictArray<VarBinViewArray>,
        pattern: PatternArray,
        options: RegexOptions,
        r: Result<Option<DictArray<RegexArray>>, Error>,
    ) -> bool {
        if array.values.bytes@.len() > array.codes.codes@.len() {
            r == Ok::<Option<DictArray<RegexArray>>, Error>(None)
        } else {
            match pattern.constant() {
                None => r == Ok::<Option<DictArray<RegexArray>>, Error>(None),
                Some(value) => if !array.values.dtype.is_utf8() {
                    r == Err::<Option<DictArray<RegexArray>>, Error>(
                        Error::InputDType(array.values.dtype),
                    )
                } else if !value.spec_dtype().is_utf8() {
                    r == Err::<Option<DictArray<RegexArray>>, Error>(
                        Error::PatternDType(value.spec_dtype()),
                    )
                } else {
                    &&& r matches Ok(Some(reduced))
                    &&& reduced.codes.codes@ == array.codes.codes@
                    &&& reduced.codes.validity@ == array.codes.validity@
                    &&& reduced.all_values_referenced == array.all_values_referenced
                    &&& reduced.values.wf()
                    &&& reduced.values.input@ == array.values@
                    &&& reduced.values.pattern == (PatternArray::Constant {
                        value,
                        len: array.values.spec_len(),
                    })
                    &&& reduced.values.options == options
                },
            }
        }
    }

    fn regex(
        array: &DictArray<VarBinViewArray>,
        pattern: &PatternArray,
        options: RegexOptions,
    ) -> (r: Result<Option<DictArray<RegexArray>>, Error>) {
        // With more values than codes it is faster to decode first.
        if array.values.len() > array.codes.codes.len() {
            return Ok(None);
        }
        match pattern.as_constant() {
            None => Ok(None),
            Some(value) => {
                let pattern = PatternArray::Constant {
                    value: value.clone(),
                    len: array.values.len(),
                };
                let input = array.values.clone();
                assert(input.bytes@.len() == input@.contents.len());
                assert(array.values.bytes@.len() == array.values@.contents.len());
                match RegexArray::try_new(input, pattern, options) {
                    Err(e) => Err(e),
                    Ok(values) => Ok(
                        Some(
                            DictArray {
                                codes: array.codes.clone(),
                                values,
                                all_values_referenced: array.all_values_referenced,
                            },
                        ),
                    ),
                }
            },
        }
    }
}

/// A match of a dictionary is a dictionary of matches: to match the values and
/// look the codes up in the result gives the same rows as to look the codes up
/// and match every row.
pub proof fn law_match_commutes_with_lookup(
    values: Seq<Option<Seq<u8>>>,
    codes: Seq<Option<usize>>,
    language: Set<Seq<char>>,
    negated: bool,
)
    requires
        forall|i: int| 0 <= i < codes.len() ==> (#[trigger] codes[i] matches Some(code) ==> code
            < values.len()),
    ensures
        take_rows(matched_rows(values, language, negated), codes) == matched_rows(
            take_rows(values, codes),
            language,
            negated,
        ),
{
    let left = take_rows(matched_rows(values, language, negated), codes);
    let right = matched_rows(take_rows(values, codes), language, negated);
    assert forall|i: int| 0 <= i < codes.len() implies left[i] == right[i] by {
        match codes[i] {
            Some(code) => {
                assert(code < values.len());
            },
            None => {},
        }
    }
    assert(left =~= right);
}

} // verus!

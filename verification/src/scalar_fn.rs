//! Matching text against a regular expression as a scalar function.

use vstd::prelude::*;
use vstd::string::*;
use vstd::utf8::encode_utf8;

use crate::array::BoolArray;
use crate::array::PatternArray;
use crate::array::VarBinViewArray;
use crate::dtype::DType;
use crate::dtype::Nullability;
use crate::error::Error;
use crate::execute::compile_result;
use crate::execute::is_execution;
use crate::execute::regex_execute;
use crate::execute::respects_shape;
use crate::expr::and;
use crate::expr::binary;
use crate::expr::gt;
use crate::expr::gt_eq;
use crate::expr::lit;
use crate::expr::lt;
use crate::expr::match_operator;
use crate::expr::or;
use crate::expr::Expression;
use crate::expr::Operator;
use crate::literal_shape::literal_shape;
use crate::literal_shape::LiteralShape;
use crate::literal_shape::RegexLiteralShape;
use crate::options::RegexOptions;
use crate::scalar::Scalar;
use crate::text::increment;
use crate::text::successor;
use crate::utf8::lemma_bytes_total;
use crate::utf8::lemma_bytes_transitive;
use crate::utf8::lemma_common_beginning;
use crate::utf8::lemma_encode_concat;
use crate::utf8::lemma_encode_last;
use crate::utf8::lemma_next_scalar_after;
use crate::utf8::lemma_prefix_not_after;
use crate::utf8::text_lt;
use crate::wire::decode_options;
use crate::wire::decoded_options;
use crate::wire::encode_options;
use crate::wire::encoded_options;

verus! {

/// How many operands a function takes.
#[derive(Debug, Clone, Copy, PartialEq, Eq, Structural)]
pub enum Arity {
    /// This many.
    Exact(usize),
}

/// Expressions for the least and the greatest value of a column, as far as
/// they are known.
#[derive(Debug)]
pub struct StatBounds {
    pub min: Option<Expression>,
    pub max: Option<Expression>,
}

/// Expression that matches each row of a string input against a regular
/// expression.
///
/// The pattern is unanchored: a match anywhere in the input is a match. To
/// anchor the pattern, callers write `^` and `$` themselves.
#[derive(Debug, Clone, Copy, PartialEq, Eq, Structural)]
pub struct Regex;

/// Whether `e` is the constant `text`.
pub open spec fn is_text_literal(e: Expression, text: Seq<char>) -> bool {
    e matches Expression::Literal(Scalar::Utf8(s, n)) && s@ == text && n
        == Nullability::NonNullable
}

/// Whether `e` is `lhs op text`.
pub open spec fn compares(e: Expression, op: Operator, lhs: Expression, text: Seq<char>) -> bool {
    e matches Expression::Binary { op: o, lhs: l, rhs: r } && o == op && *l == lhs
        && is_text_literal(*r, text)
}

/// Whether `e` is the condition on the bounds of a column under which no row
/// has what `shape` asks for: `min > text or max < text` for an exact match,
/// `min >= successor or max < prefix` for a prefix.
pub open spec fn is_falsification(
    e: Expression,
    shape: LiteralShape,
    min: Expression,
    max: Expression,
) -> bool {
    e matches Expression::Binary { op, lhs, rhs } && op == Operator::Or && match shape {
        LiteralShape::Exact(text) => compares(*lhs, Operator::Gt, min, text) && compares(
            *rhs,
            Operator::Lt,
            max,
            text,
        ),
        LiteralShape::Prefix(prefix) => successor(prefix) matches Some(next) && compares(
            *lhs,
            Operator::Gte,
            min,
            next,
        ) && compares(*rhs, Operator::Lt, max, prefix),
        _ => false,
    }
}

/// Whether there is a condition on the bounds for the shape of a pattern.
pub open spec fn has_falsification(shape: LiteralShape) -> bool {
    match shape {
        LiteralShape::Exact(_) => true,
        LiteralShape::Prefix(prefix) => successor(prefix) is Some,
        LiteralShape::Suffix(_) => false,
        LiteralShape::Contains(_) => false,
    }
}

/// Whether `r` is the condition on the bounds of a column under which no row can
/// match. There is one if the match is plain, the text is literal between its
/// anchors, both bounds are known, and the shape of the text has one.
pub open spec fn is_stat_falsification(
    options: RegexOptions,
    pattern: Expression,
    bounds: StatBounds,
    r: Option<Expression>,
) -> bool {
    &&& r is Some <==> {
        &&& !options.negated
        &&& !options.case_insensitive
        &&& pattern->Literal_0.text() matches Some(text)
        &&& bounds.min is Some
        &&& bounds.max is Some
        &&& literal_shape(text) matches Some(shape)
        &&& has_falsification(shape)
    }
    &&& r matches Some(e) ==> is_falsification(
        e,
        literal_shape(pattern->Literal_0.text()->0)->0,
        bounds.min->0,
        bounds.max->0,
    )
}

/// The type of a match of an input of type `input` against a pattern of type
/// `pattern`.
pub open spec fn match_dtype(input: DType, pattern: DType) -> Result<DType, Error> {
    if !input.is_utf8() {
        Err(Error::InputDType(input))
    } else if !pattern.is_utf8() {
        Err(Error::PatternDType(pattern))
    } else {
        Ok(DType::Bool(Nullability::of(input.is_nullable() || pattern.is_nullable())))
    }
}

impl Regex {
    /// The name of the function.
    pub fn id(&self) -> (id: &'static str)
        ensures
            id@ == "vortex.regex"@,
    {
        "vortex.regex"
    }

    /// Encodes the options.
    pub fn serialize(&self, options: &RegexOptions) -> (r: Result<Option<Vec<u8>>, Error>)
        ensures
            r matches Ok(Some(bytes)) && bytes@ == encoded_options(*options),
    {
        Ok(Some(encode_options(options)))
    }

    /// Decodes options. What was encoded is decoded again.
    pub fn deserialize(&self, metadata: &[u8]) -> (r: Result<RegexOptions, Error>)
        ensures
            match decoded_options(
                RegexOptions { negated: false, case_insensitive: false },
                metadata@,
            ) {
                Ok(options) => r == Ok::<_, Error>(options),
                Err(reason) => r matches Err(Error::Decode(text)) && text@ == reason,
            },
            forall|options: RegexOptions|
                metadata@ == #[trigger] encoded_options(options) ==> r == Ok::<_, Error>(options),
    {
        decode_options(metadata)
    }

    /// The function takes a text and a pattern.
    pub fn arity(&self, _options: &RegexOptions) -> (arity: Arity)
        ensures
            arity == Arity::Exact(2),
    {
        Arity::Exact(2)
    }

    /// The names of the operands.
    pub fn child_name(&self, _options: &RegexOptions, child_idx: usize) -> (name: &'static str)
        requires
            child_idx < 2,
        ensures
            child_idx == 0 ==> name@ == "child"@,
            child_idx == 1 ==> name@ == "pattern"@,
    {
        match child_idx {
            0 => "child",
            _ => "pattern",
        }
    }

    /// Writes the match in SQL notation.
    pub fn fmt_sql(
        &self,
        options: &RegexOptions,
        child: &Expression,
        pattern: &Expression,
        out: &mut String,
    )
        ensures
            final(out)@ == old(out)@ + child.sql() + match_operator(*options) + pattern.sql(),
    {
        child.fmt_sql(out);
        if options.negated {
            out.append(" !~");
        } else {
            out.append(" ~");
        }
        if options.case_insensitive {
            out.append("* ");
        } else {
            out.append(" ");
        }
        pattern.fmt_sql(out);
        assert(out@ =~= old(out)@ + child.sql() + match_operator(*options) + pattern.sql());
    }

    /// The type of the result: a boolean that may be null if an operand may.
    pub fn return_dtype(&self, _options: &RegexOptions, arg_dtypes: &[DType]) -> (r: Result<
        DType,
        Error,
    >)
        requires
            arg_dtypes@.len() >= 2,
        ensures
            !arg_dtypes@[0].is_utf8() ==> r == Err::<DType, _>(Error::InputDType(arg_dtypes@[0])),
            arg_dtypes@[0].is_utf8() && !arg_dtypes@[1].is_utf8() ==> r == Err::<DType, _>(
                Error::PatternDType(arg_dtypes@[1]),
            ),
            arg_dtypes@[0].is_utf8() && arg_dtypes@[1].is_utf8() ==> r == Ok::<_, Error>(
                DType::Bool(
                    Nullability::of(arg_dtypes@[0].is_nullable() || arg_dtypes@[1].is_nullable()),
                ),
            ),
            r == match_dtype(arg_dtypes@[0], arg_dtypes@[1]),
    {
        let input = &arg_dtypes[0];
        let pattern = &arg_dtypes[1];
        if !input.is_utf8() {
            return Err(Error::InputDType(*input));
        }
        if !pattern.is_utf8() {
            return Err(Error::PatternDType(*pattern));
        }
        Ok(DType::Bool(Nullability::from_bool(input.is_nullable() || pattern.is_nullable())))
    }

    /// Matches the rows of an array.
    pub fn execute(
        &self,
        options: &RegexOptions,
        child: &VarBinViewArray,
        pattern: &PatternArray,
    ) -> (r: Result<BoolArray, Error>)
        requires
            child@.wf(),
            child.dtype.is_utf8() && pattern.spec_dtype().is_utf8() ==> child.spec_len()
                == pattern.spec_len(),
        ensures
            is_execution(child@, *pattern, *options, r),
            r matches Ok(result) ==> result.wf() && result.bits@.len() == child.bytes@.len(),
            r matches Ok(result) ==> (pattern.constant()->0.text() is Some ==> result.dtype()
                == DType::Bool(
                Nullability::of(child.dtype.is_nullable() || pattern.spec_dtype().is_nullable()),
            )),
            r is Ok ==> (pattern.constant()->0.text() matches Some(text) ==> respects_shape(
                compile_result(text, options.case_insensitive)->Ok_0,
                text,
                options.case_insensitive,
            )),
    {
        regex_execute(child, pattern, *options)
    }

    /// The rows on which the result is not null: those on which neither operand
    /// is.
    pub fn validity(
        &self,
        _options: &RegexOptions,
        child_validity: Expression,
        pattern_validity: Expression,
    ) -> (r: Result<Option<Expression>, Error>)
        ensures
            r == Ok::<_, Error>(
                Some(binary(Operator::And, child_validity, pattern_validity)),
            ),
    {
        Ok(Some(and(child_validity, pattern_validity)))
    }

    /// A null operand makes the result null, whatever the other one is.
    pub fn is_null_sensitive(&self, _options: &RegexOptions) -> (b: bool)
        ensures
            !b,
    {
        false
    }

    /// The condition on the bounds of a column under which no row can match.
    ///
    /// There is one for `^literal$` and for `^literal`. The case-insensitive
    /// and the negated forms are no ranges of strings.
    pub fn stat_falsification(
        &self,
        options: &RegexOptions,
        pattern: &Expression,
        bounds: &StatBounds,
    ) -> (r: Option<Expression>)
        requires
            !options.negated && !options.case_insensitive ==> (*pattern matches Expression::Literal(
                value,
            ) && value.spec_dtype().is_utf8()),
        ensures
            r is Some <==> {
                &&& !options.negated
                &&& !options.case_insensitive
                &&& pattern->Literal_0.text() matches Some(text)
                &&& bounds.min is Some
                &&& bounds.max is Some
                &&& literal_shape(text) matches Some(shape)
                &&& has_falsification(shape)
            },
            r matches Some(e) ==> is_falsification(
                e,
                literal_shape(pattern->Literal_0.text()->0)->0,
                bounds.min->0,
                bounds.max->0,
            ),
            is_stat_falsification(*options, *pattern, *bounds, r),
    {
        if options.negated || options.case_insensitive {
            return None;
        }
        let text = match pattern {
            Expression::Literal(value) => match value.as_text() {
                Some(text) => text,
                None => return None,
            },
            _ => return None,
        };
        let min = match &bounds.min {
            Some(min) => min.clone(),
            None => return None,
        };
        let max = match &bounds.max {
            Some(max) => max.clone(),
            None => return None,
        };
        match RegexLiteralShape::analyze(text) {
            None => None,
            Some(RegexLiteralShape::Exact(text)) => Some(
                or(gt(min, lit(Scalar::utf8(text))), lt(max, lit(Scalar::utf8(text)))),
            ),
            Some(RegexLiteralShape::Prefix(prefix)) => match increment(prefix.to_owned()) {
                Ok(next) => Some(
                    or(
                        gt_eq(min, lit(Scalar::utf8(next.as_str()))),
                        lt(max, lit(Scalar::utf8(prefix))),
                    ),
                ),
                Err(_) => None,
            },
            Some(RegexLiteralShape::Suffix(_)) => None,
            Some(RegexLiteralShape::Contains(_)) => None,
        }
    }
}

/// The text of an operand, where `value_of` gives the text of what is no
/// constant.
pub open spec fn operand_text(
    e: Expression,
    value_of: spec_fn(Expression) -> Seq<char>,
) -> Seq<char> {
    match e {
        Expression::Literal(Scalar::Utf8(s, _)) => s@,
        _ => value_of(e),
    }
}

/// Whether a condition made of comparisons holds.
pub open spec fn condition_holds(
    e: Expression,
    value_of: spec_fn(Expression) -> Seq<char>,
) -> bool
    decreases e,
{
    match e {
        Expression::Binary { op, lhs, rhs } => {
            let l = operand_text(*lhs, value_of);
            let r = operand_text(*rhs, value_of);
            match op {
                Operator::Or => condition_holds(*lhs, value_of) || condition_holds(*rhs, value_of),
                Operator::And => condition_holds(*lhs, value_of) && condition_holds(
                    *rhs,
                    value_of,
                ),
                Operator::Eq => l == r,
                Operator::NotEq => l != r,
                Operator::Gt => text_lt(r, l),
                Operator::Gte => !text_lt(l, r),
                Operator::Lt => text_lt(l, r),
                Operator::Lte => !text_lt(r, l),
            }
        },
        _ => false,
    }
}

/// A text with a prefix comes before the successor of the prefix, and not
/// before the prefix.
pub proof fn lemma_prefix_range(text: Seq<char>, prefix: Seq<char>, next: Seq<char>)
    requires
        prefix.is_prefix_of(text),
        successor(prefix) == Some(next),
    ensures
        !text_lt(text, prefix),
        text_lt(text, next),
{
    let rest = text.skip(prefix.len() as int);
    let common = prefix.drop_last();
    let c = prefix.last() as u32;
    let d = (c + 1) as u32;
    assert(text =~= prefix + rest);
    lemma_encode_concat(prefix, rest);
    lemma_prefix_not_after(encode_utf8(prefix), encode_utf8(rest));
    lemma_encode_last(prefix);
    lemma_encode_last(next);
    assert(next.drop_last() =~= common);
    vstd::utf8::char_is_scalar(prefix.last());
    assert(next.last() as u32 == d);
    lemma_next_scalar_after(c, encode_utf8(rest));
    let head = vstd::utf8::encode_scalar(c);
    assert(encode_utf8(text) =~= encode_utf8(common) + (head + encode_utf8(rest)));
    lemma_common_beginning(
        encode_utf8(common),
        head + encode_utf8(rest),
        vstd::utf8::encode_scalar(d),
    );
}

/// Pruning is sound: where the condition made for a pattern holds of the bounds
/// of a column, no text between the bounds is what the pattern asks for.
pub proof fn law_falsification_is_sound(
    e: Expression,
    shape: LiteralShape,
    min: Expression,
    max: Expression,
    value_of: spec_fn(Expression) -> Seq<char>,
    text: Seq<char>,
)
    requires
        is_falsification(e, shape, min, max),
        !text_lt(text, operand_text(min, value_of)),
        !text_lt(operand_text(max, value_of), text),
        condition_holds(e, value_of),
    ensures
        !shape.finds(text),
{
    reveal_with_fuel(condition_holds, 3);
    let low = encode_utf8(operand_text(min, value_of));
    let high = encode_utf8(operand_text(max, value_of));
    let bytes = encode_utf8(text);
    if shape.finds(text) {
        match shape {
            LiteralShape::Exact(literal) => {},
            LiteralShape::Prefix(prefix) => {
                let next = successor(prefix)->0;
                lemma_prefix_range(text, prefix, next);
                if !text_lt(operand_text(min, value_of), next) {
                    lemma_bytes_total(low, bytes);
                    if low != bytes {
                        lemma_bytes_transitive(low, bytes, encode_utf8(next));
                    }
                } else {
                    lemma_bytes_total(high, bytes);
                    if high != bytes {
                        lemma_bytes_transitive(bytes, high, encode_utf8(prefix));
                    }
                }
            },
            _ => {},
        }
    }
}

} // verus!

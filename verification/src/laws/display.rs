//! Laws of how things are shown.

use vstd::prelude::*;

use crate::dtype::DType;
use crate::dtype::Nullability;
use crate::dtype::PType;
use crate::error::Error;
use crate::expr::match_operator;
use crate::expr::Expression;
use crate::expr::Operator;
use crate::options::RegexOptions;
use crate::scalar::PValue;
use crate::scalar::Scalar;
use crate::text::decimal;
use crate::text::signed_decimal;

verus! {

/// The number that a row of digits stands for.
pub open spec fn number_of(digits: Seq<char>) -> int
    decreases digits.len(),
{
    if digits.len() == 0 {
        0
    } else {
        10 * number_of(digits.drop_last()) + (digits.last() as u32 - '0' as u32)
    }
}

/// A number is shown as the digits that stand for it, without a zero in front.
pub proof fn law_decimal_notation(n: nat)
    ensures
        number_of(decimal(n)) == n,
        decimal(n).len() > 0,
        decimal(n)[0] == '0' ==> n == 0,
        forall|i: int| 0 <= i < decimal(n).len() ==> '0' <= #[trigger] decimal(n)[i] <= '9',
    decreases n,
{
    reveal_with_fuel(number_of, 2);
    if n < 10 {
        assert(decimal(n).drop_last() =~= Seq::empty());
    } else {
        law_decimal_notation(n / 10);
        assert(decimal(n).drop_last() =~= decimal(n / 10));
        assert(decimal(n)[0] == decimal(n / 10)[0]);
    }
}

/// A negative number is shown as its opposite behind a minus sign.
pub proof fn law_signed_notation(n: int)
    requires
        n > 0,
    ensures
        signed_decimal(n) == decimal(n as nat),
        signed_decimal(0) == decimal(0),
        signed_decimal(-n) == seq!['-'] + signed_decimal(n),
{
}

/// Options are shown by the name of the match, which depends on the case
/// sensitivity alone, behind a `NOT` if the match is negated.
pub proof fn law_shown_options(case_insensitive: bool)
    ensures
        (RegexOptions { negated: false, case_insensitive: false }).display() == "REGEXP_MATCH"@,
        (RegexOptions { negated: false, case_insensitive: true }).display() == "REGEXP_IMATCH"@,
        (RegexOptions { negated: true, case_insensitive }).display() == "NOT "@ + (RegexOptions {
            negated: false,
            case_insensitive,
        }).display(),
{
}

/// A match is shown with a `~` between its operands, behind a `!` if it is
/// negated, and before a `*` if case does not matter.
pub proof fn law_shown_matches(
    child: Expression,
    pattern: Expression,
    negated: bool,
    case_insensitive: bool,
)
    ensures
        (Expression::Regex {
            options: RegexOptions { negated, case_insensitive },
            child: Box::new(child),
            pattern: Box::new(pattern),
        }).sql() == child.sql() + match_operator(RegexOptions { negated, case_insensitive })
            + pattern.sql(),
        match_operator(RegexOptions { negated, case_insensitive }) == match (
            negated,
            case_insensitive,
        ) {
            (false, false) => seq![' ', '~', ' '],
            (false, true) => seq![' ', '~', '*', ' '],
            (true, false) => seq![' ', '!', '~', ' '],
            (true, true) => seq![' ', '!', '~', '*', ' '],
        },
{
    reveal_strlit(" !~");
    reveal_strlit(" ~");
    reveal_strlit("* ");
    reveal_strlit(" ");
    let shown = match_operator(RegexOptions { negated, case_insensitive });
    assert(shown =~= match (negated, case_insensitive) {
        (false, false) => seq![' ', '~', ' '],
        (false, true) => seq![' ', '~', '*', ' '],
        (true, false) => seq![' ', '!', '~', ' '],
        (true, true) => seq![' ', '!', '~', '*', ' '],
    });
}

/// How the other expressions are shown.
pub proof fn law_shown_expressions(
    a: Expression,
    b: Expression,
    op: Operator,
    field: String,
    value: Scalar,
)
    ensures
        Expression::Root.sql() == "$"@,
        Expression::Literal(value).sql() == value.display(),
        (Expression::GetItem { field, child: Box::new(a) }).sql() == a.sql() + "."@ + field@,
        (Expression::Binary { op, lhs: Box::new(a), rhs: Box::new(b) }).sql() == "("@ + a.sql()
            + " "@ + op.symbol() + " "@ + b.sql() + ")"@,
        Expression::IsNull(Box::new(a)).sql() == "is_null("@ + a.sql() + ")"@,
        Operator::Eq.symbol() == "="@ && Operator::NotEq.symbol() == "!="@
            && Operator::Gt.symbol() == ">"@ && Operator::Gte.symbol() == ">="@
            && Operator::Lt.symbol() == "<"@ && Operator::Lte.symbol() == "<="@
            && Operator::And.symbol() == "and"@ && Operator::Or.symbol() == "or"@,
{
}

/// How values are shown: text in quotes, a number with its type behind it.
pub proof fn law_shown_values(d: DType, v: PValue, s: String, n: Nullability)
    ensures
        Scalar::Null(d).display() == "null"@,
        Scalar::Bool(true, n).display() == "true"@,
        Scalar::Bool(false, n).display() == "false"@,
        Scalar::Utf8(s, n).display() == "\""@ + s@ + "\""@,
        Scalar::Primitive(v, n).display() == signed_decimal(v.value()) + v.spec_ptype().spec_name(),
{
}

/// The names of primitive types, and of their variants.
pub proof fn law_names_of_types()
    ensures
        PType::U8.spec_name() == "u8"@ && PType::U8.spec_variant() == "U8"@,
        PType::U16.spec_name() == "u16"@ && PType::U16.spec_variant() == "U16"@,
        PType::U32.spec_name() == "u32"@ && PType::U32.spec_variant() == "U32"@,
        PType::U64.spec_name() == "u64"@ && PType::U64.spec_variant() == "U64"@,
        PType::I8.spec_name() == "i8"@ && PType::I8.spec_variant() == "I8"@,
        PType::I16.spec_name() == "i16"@ && PType::I16.spec_variant() == "I16"@,
        PType::I32.spec_name() == "i32"@ && PType::I32.spec_variant() == "I32"@,
        PType::I64.spec_name() == "i64"@ && PType::I64.spec_variant() == "I64"@,
        PType::F16.spec_name() == "f16"@ && PType::F16.spec_variant() == "F16"@,
        PType::F32.spec_name() == "f32"@ && PType::F32.spec_variant() == "F32"@,
        PType::F64.spec_name() == "f64"@ && PType::F64.spec_variant() == "F64"@,
{
}

/// A type that may hold nulls is shown as the one that may not, with a question
/// mark behind it.
pub proof fn law_shown_types(ptype: PType)
    ensures
        DType::Null.display() == "null"@,
        DType::Bool(Nullability::NonNullable).display() == "bool"@,
        DType::Utf8(Nullability::NonNullable).display() == "utf8"@,
        DType::Binary(Nullability::NonNullable).display() == "binary"@,
        DType::Primitive(ptype, Nullability::NonNullable).display() == ptype.spec_name(),
        DType::Bool(Nullability::Nullable).display() == DType::Bool(
            Nullability::NonNullable,
        ).display() + "?"@,
        DType::Utf8(Nullability::Nullable).display() == DType::Utf8(
            Nullability::NonNullable,
        ).display() + "?"@,
        DType::Binary(Nullability::Nullable).display() == DType::Binary(
            Nullability::NonNullable,
        ).display() + "?"@,
        DType::Primitive(ptype, Nullability::Nullable).display() == DType::Primitive(
            ptype,
            Nullability::NonNullable,
        ).display() + "?"@,
{
}

/// The messages of errors.
pub proof fn law_messages(
    dtype: DType,
    ptype: PType,
    pattern: String,
    reason: String,
    a: u64,
    b: u64,
)
    ensures
        Error::InputDType(dtype).text() == "REGEX expression requires UTF8 input dtype, got "@
            + dtype.display(),
        Error::PatternDType(dtype).text() == "REGEX expression requires UTF8 pattern dtype, got "@
            + dtype.display(),
        Error::InputArray(dtype).text() == "regex_execute requires a UTF8 input array, got "@
            + dtype.display(),
        Error::PatternArray(dtype).text() == "regex_execute requires a UTF8 pattern, got "@
            + dtype.display(),
        Error::PatternNotConstant.text() == "REGEX pattern must be a constant expression"@,
        (Error::InvalidPattern { pattern, reason }).text() == "Failed to compile regex pattern '"@
            + pattern@ + "': "@ + reason@,
        Error::Decode(reason).text() == reason@,
        Error::CodesPType(ptype).text() == "unexpected dict codes ptype "@ + ptype.spec_variant()
            + " for code-domain pruning"@,
        Error::TooManyValues(a).text() == "too many dictionary values: "@ + decimal(a as nat),
        (Error::SplitOutOfBounds { end: a, row_count: b }).text() == "split range ends at row "@
            + decimal(a as nat) + " of "@ + decimal(b as nat),
{
}

} // verus!

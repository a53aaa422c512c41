//! Laws of literal patterns and of the order of strings.

use vstd::prelude::*;
use vstd::utf8::encode_utf8;

use crate::dtype::DType;
use crate::dtype::Nullability;
use crate::error::Error;
use crate::execute::respects_shape;
use crate::expr::binary;
use crate::expr::Expression;
use crate::expr::Operator;
use crate::literal_shape::is_metacharacter;
use crate::literal_shape::is_metacharacter_byte;
use crate::literal_shape::literal_shape;
use crate::literal_shape::stands_at;
use crate::literal_shape::LiteralShape;
use crate::literal_shape::RegexLiteralShape;
use crate::options::RegexOptions;
use crate::scalar::Scalar;
use crate::scalar_fn::condition_holds;
use crate::scalar_fn::has_falsification;
use crate::scalar_fn::is_falsification;
use crate::scalar_fn::is_stat_falsification;
use crate::scalar_fn::law_falsification_is_sound;
use crate::scalar_fn::match_dtype;
use crate::scalar_fn::operand_text;
use crate::scalar_fn::StatBounds;
use crate::text::successor;
use crate::utf8::bytes_lt;
use crate::utf8::text_lt;

verus! {

/// Whether a text has none of the characters that mean something in a pattern.
pub open spec fn is_plain(text: Seq<char>) -> bool {
    forall|i: int|
        #![trigger text[i]]
        0 <= i < text.len() ==> !seq![
            '.',
            '*',
            '+',
            '?',
            '(',
            ')',
            '[',
            ']',
            '{',
            '}',
            '|',
            '\\',
            '^',
            '$',
        ].contains(text[i])
}

proof fn lemma_metacharacters(c: char)
    ensures
        is_metacharacter(c) <==> seq![
            '.',
            '*',
            '+',
            '?',
            '(',
            ')',
            '[',
            ']',
            '{',
            '}',
            '|',
            '\\',
            '^',
            '$',
        ].contains(c),
{
    let all = seq!['.', '*', '+', '?', '(', ')', '[', ']', '{', '}', '|', '\\', '^', '$'];
    assert(all[0] == '.' && all[1] == '*' && all[2] == '+' && all[3] == '?' && all[4] == '('
        && all[5] == ')' && all[6] == '[' && all[7] == ']' && all[8] == '{' && all[9] == '}'
        && all[10] == '|' && all[11] == '\\' && all[12] == '^' && all[13] == '$');
    if all.contains(c) {
        let i = all.index_of(c);
        assert(all[i] == c);
    }
}

proof fn lemma_plain(text: Seq<char>)
    ensures
        is_plain(text) <==> (forall|i: int| 0 <= i < text.len() ==> !is_metacharacter(
            #[trigger] text[i],
        )),
{
    assert forall|i: int| 0 <= i < text.len() implies (#[trigger] is_metacharacter(text[i])
        <==> seq!['.', '*', '+', '?', '(', ')', '[', ']', '{', '}', '|', '\\', '^', '$'].contains(
        text[i],
    )) by {
        lemma_metacharacters(text[i]);
    }
}

/// A pattern with a plain text between its anchors is classified by its anchors,
/// with that text as its literal.
pub proof fn law_plain_patterns_are_classified(body: Seq<char>)
    requires
        is_plain(body),
    ensures
        literal_shape(seq!['^'] + body + seq!['$']) == Some(LiteralShape::Exact(body)),
        literal_shape(seq!['^'] + body) == Some(LiteralShape::Prefix(body)),
        literal_shape(body + seq!['$']) == Some(LiteralShape::Suffix(body)),
        literal_shape(body) == Some(LiteralShape::Contains(body)),
{
    lemma_plain(body);
    crate::literal_shape::law_written_pattern_keeps_its_shape(LiteralShape::Exact(body));
    crate::literal_shape::law_written_pattern_keeps_its_shape(LiteralShape::Prefix(body));
    crate::literal_shape::law_written_pattern_keeps_its_shape(LiteralShape::Suffix(body));
    crate::literal_shape::law_written_pattern_keeps_its_shape(LiteralShape::Contains(body));
}

/// Any pattern that is classified is its anchors around a plain text.
pub proof fn law_classified_patterns_are_plain(pattern: Seq<char>)
    ensures
        literal_shape(pattern) matches Some(shape) ==> match shape {
            LiteralShape::Exact(body) => is_plain(body) && pattern == seq!['^'] + body + seq!['$'],
            LiteralShape::Prefix(body) => is_plain(body) && pattern == seq!['^'] + body,
            LiteralShape::Suffix(body) => is_plain(body) && pattern == body + seq!['$'],
            LiteralShape::Contains(body) => is_plain(body) && pattern == body,
        },
{
    crate::literal_shape::law_pattern_is_anchors_around_literal(pattern);
    if let Some(shape) = literal_shape(pattern) {
        lemma_plain(shape.literal());
    }
}

/// An exact pattern asks for the literal itself, a prefix pattern for the
/// literal and something behind it.
pub proof fn law_exact_and_prefix_ask_for(literal: Seq<char>, text: Seq<char>)
    ensures
        LiteralShape::Exact(literal).finds(text) <==> text == literal,
        LiteralShape::Prefix(literal).finds(text) <==> exists|behind: Seq<char>|
            text == #[trigger] (literal + behind),
{
    let n = literal.len() as int;
    if literal.is_prefix_of(text) {
        assert(text =~= literal + text.skip(n));
    }
    if exists|behind: Seq<char>| text == #[trigger] (literal + behind) {
        let behind = choose|behind: Seq<char>| text == #[trigger] (literal + behind);
        assert(text.subrange(0, n) =~= literal);
    }
}

/// A suffix pattern asks for something and the literal behind it.
pub proof fn law_suffix_asks_for(literal: Seq<char>, text: Seq<char>)
    ensures
        LiteralShape::Suffix(literal).finds(text) <==> exists|before: Seq<char>|
            text == #[trigger] (before + literal),
{
    let n = literal.len() as int;
    if literal.is_suffix_of(text) {
        assert(text =~= text.take(text.len() - n) + literal);
    }
    if exists|before: Seq<char>| text == #[trigger] (before + literal) {
        let before = choose|before: Seq<char>| text == #[trigger] (before + literal);
        assert(text.subrange(text.len() - n, text.len() as int) =~= literal);
    }
}

/// Whether a text is a literal with something before and behind it.
pub open spec fn surrounds(
    text: Seq<char>,
    before: Seq<char>,
    literal: Seq<char>,
    behind: Seq<char>,
) -> bool {
    text == before + literal + behind
}

/// A pattern without anchors asks for the literal with something around it.
pub proof fn law_contains_asks_for(literal: Seq<char>, text: Seq<char>)
    ensures
        LiteralShape::Contains(literal).finds(text) <==> exists|
            before: Seq<char>,
            behind: Seq<char>,
        | surrounds(text, before, literal, behind),
{
    let n = literal.len() as int;
    let shape = LiteralShape::Contains(literal);
    assert(shape.finds(text) <==> exists|at: int| stands_at(text, literal, at)) by {
        match shape {
            LiteralShape::Contains(s) => {
                assert(s == literal);
            },
            _ => {},
        }
    }
    if exists|at: int| stands_at(text, literal, at) {
        let at = choose|at: int| stands_at(text, literal, at);
        let (before, behind) = (text.take(at), text.skip(at + n));
        assert(text =~= before + literal + behind);
        assert(surrounds(text, before, literal, behind));
    }
    if exists|before: Seq<char>, behind: Seq<char>| surrounds(text, before, literal, behind) {
        let (before, behind) = choose|before: Seq<char>, behind: Seq<char>|
            surrounds(text, before, literal, behind);
        let at = before.len() as int;
        assert(text.subrange(at, at + n) =~= literal);
        assert(stands_at(text, literal, at));
    }
}

/// The order of strings: the first byte in which they differ decides, and a
/// string comes before its continuations.
pub proof fn law_order_of_bytes(a: Seq<u8>, b: Seq<u8>)
    ensures
        bytes_lt(a, b) <==> exists|k: int|
            {
                &&& 0 <= k <= a.len()
                &&& k < b.len()
                &&& #[trigger] a.take(k) == b.take(k)
                &&& k == a.len() || a[k] < b[k]
            },
    decreases a.len(),
{
    if b.len() > 0 && a.len() > 0 {
        let (x, y) = (a.drop_first(), b.drop_first());
        law_order_of_bytes(x, y);
        if a[0] == b[0] && bytes_lt(x, y) {
            let k = choose|k: int|
                {
                    &&& 0 <= k <= x.len()
                    &&& k < y.len()
                    &&& #[trigger] x.take(k) == y.take(k)
                    &&& k == x.len() || x[k] < y[k]
                };
            assert(a.take(k + 1) =~= seq![a[0]] + x.take(k));
            assert(b.take(k + 1) =~= seq![b[0]] + y.take(k));
            assert(a.take(k + 1) == b.take(k + 1));
        }
        if a[0] < b[0] {
            assert(a.take(0) =~= b.take(0));
        }
        if exists|k: int|
            {
                &&& 0 <= k <= a.len()
                &&& k < b.len()
                &&& #[trigger] a.take(k) == b.take(k)
                &&& k == a.len() || a[k] < b[k]
            } {
            let k = choose|k: int|
                {
                    &&& 0 <= k <= a.len()
                    &&& k < b.len()
                    &&& #[trigger] a.take(k) == b.take(k)
                    &&& k == a.len() || a[k] < b[k]
                };
            if k > 0 {
                assert(a.take(k)[0] == b.take(k)[0]);
                assert(x.take(k - 1) =~= a.take(k).skip(1));
                assert(y.take(k - 1) =~= b.take(k).skip(1));
                assert(x.take(k - 1) == y.take(k - 1));
            }
        }
    } else if b.len() > 0 {
        assert(a.take(0) =~= b.take(0));
    }
}

/// Texts are in the order of their bytes.
pub proof fn law_order_of_texts(a: Seq<char>, b: Seq<char>)
    ensures
        text_lt(a, b) == bytes_lt(encode_utf8(a), encode_utf8(b)),
{
}

/// The successor of a text differs in its last character alone, which is the one
/// that follows. Only the empty text and those that end right before a gap in
/// the characters have none.
pub proof fn law_successor(text: Seq<char>)
    ensures
        successor(text) matches Some(next) ==> {
            &&& text.len() > 0
            &&& next.len() == text.len()
            &&& next.drop_last() == text.drop_last()
            &&& next.last() as u32 == text.last() as u32 + 1
        },
        successor(text) is None <==> text.len() == 0 || text.last() as u32 == 0xD7FF
            || text.last() as u32 == 0x10FFFF,
{
    if text.len() > 0 {
        vstd::utf8::char_is_scalar(text.last());
        if let Some(next) = successor(text) {
            assert(next.drop_last() =~= text.drop_last());
            let value = (text.last() as u32 + 1) as u32;
            assert(next.last() as u32 == value);
        }
    }
}

/// Which shapes have a condition on the bounds of a column: an exact match
/// always, a prefix if it has a successor, the others never.
pub proof fn law_shapes_with_a_condition(literal: Seq<char>)
    ensures
        has_falsification(LiteralShape::Exact(literal)),
        has_falsification(LiteralShape::Prefix(literal)) <==> literal.len() > 0
            && literal.last() as u32 != 0xD7FF && literal.last() as u32 != 0x10FFFF,
        !has_falsification(LiteralShape::Suffix(literal)),
        !has_falsification(LiteralShape::Contains(literal)),
{
    law_successor(literal);
}

/// Whether an expression is `lhs op "text"`.
pub open spec fn is_comparison(
    e: Expression,
    op: Operator,
    lhs: Expression,
    text: Seq<char>,
) -> bool {
    match e {
        Expression::Binary { op: o, lhs: l, rhs: r } => match *r {
            Expression::Literal(Scalar::Utf8(s, n)) => o == op && *l == lhs && s@ == text && n
                == Nullability::NonNullable,
            _ => false,
        },
        _ => false,
    }
}

/// The condition on the bounds: `min > "literal" or max < "literal"` for an exact
/// match; for a prefix `min >= "next" or max < "prefix"`, where the next text
/// ends in the character that follows. There is no other.
pub proof fn law_condition_on_the_bounds(
    e: Expression,
    shape: LiteralShape,
    min: Expression,
    max: Expression,
)
    requires
        is_falsification(e, shape, min, max),
    ensures
        e matches Expression::Binary { op: Operator::Or, lhs, rhs } && match shape {
            LiteralShape::Exact(literal) => is_comparison(*lhs, Operator::Gt, min, literal)
                && is_comparison(*rhs, Operator::Lt, max, literal),
            LiteralShape::Prefix(prefix) => is_comparison(*rhs, Operator::Lt, max, prefix)
                && exists|next: Seq<char>| #[trigger]
                is_comparison(*lhs, Operator::Gte, min, next) && next.len() == prefix.len()
                    && next.len() > 0 && next.drop_last() == prefix.drop_last()
                    && next.last() as u32 == prefix.last() as u32 + 1,
            _ => false,
        },
{
    if let LiteralShape::Prefix(prefix) = shape {
        law_successor(prefix);
        let next = successor(prefix)->0;
        if let Expression::Binary { op, lhs, rhs } = e {
            assert(is_comparison(*lhs, Operator::Gte, min, next));
        }
    }
}

/// Pruning by bounds loses no row: where a condition is made for a match and
/// holds of the bounds of a column, no text between the bounds is one on which
/// the match is true, negation and case sensitivity included.
pub proof fn law_pruning_by_bounds_loses_no_row(
    options: RegexOptions,
    pattern: String,
    n: Nullability,
    bounds: StatBounds,
    condition: Expression,
    value_of: spec_fn(Expression) -> Seq<char>,
    language: Set<Seq<char>>,
    text: Seq<char>,
)
    requires
        is_stat_falsification(
            options,
            Expression::Literal(Scalar::Utf8(pattern, n)),
            bounds,
            Some(condition),
        ),
        respects_shape(language, pattern@, options.case_insensitive),
        condition_holds(condition, value_of),
        !text_lt(text, operand_text(bounds.min->0, value_of)),
        !text_lt(operand_text(bounds.max->0, value_of), text),
    ensures
        !(language.contains(text) != options.negated),
{
    law_falsification_is_sound(
        condition,
        literal_shape(pattern@)->0,
        bounds.min->0,
        bounds.max->0,
        value_of,
        text,
    );
}

/// For which matches a condition is made: plain ones with both bounds, against
/// `^literal$`, or against `^literal` where the literal has a next one.
pub proof fn law_which_matches_are_pruned_by_bounds(
    options: RegexOptions,
    pattern: String,
    n: Nullability,
    bounds: StatBounds,
    r: Option<Expression>,
    body: Seq<char>,
)
    requires
        is_stat_falsification(
            options,
            Expression::Literal(Scalar::Utf8(pattern, n)),
            bounds,
            r,
        ),
    ensures
        options.negated || options.case_insensitive || bounds.min is None || bounds.max is None
            ==> r is None,
        !options.negated && !options.case_insensitive && bounds.min is Some && bounds.max is Some
            && is_plain(body) ==> {
            &&& pattern@ == seq!['^'] + body + seq!['$'] ==> r is Some
            &&& pattern@ == seq!['^'] + body ==> (r is Some <==> body.len() > 0
                && body.last() as u32 != 0xD7FF && body.last() as u32 != 0x10FFFF)
        },
        is_plain(body) && (pattern@ == body || pattern@ == body + seq!['$']) ==> r is None,
        r is Some ==> pattern@.len() > 0 && pattern@[0] == '^',
{
    law_classified_patterns_are_plain(pattern@);
    if is_plain(body) {
        law_plain_patterns_are_classified(body);
        law_shapes_with_a_condition(body);
    }
}

/// Without a text there is no condition.
pub proof fn law_null_patterns_are_not_pruned_by(
    options: RegexOptions,
    d: DType,
    bounds: StatBounds,
    r: Option<Expression>,
)
    requires
        is_stat_falsification(options, Expression::Literal(Scalar::Null(d)), bounds, r),
    ensures
        r is None,
{
}

/// The type of a match: a boolean that rules out nulls exactly if both operands
/// do. An operand that is no string is refused, the input before the pattern.
pub proof fn law_type_of_a_match(input: DType, pattern: DType, a: Nullability, b: Nullability)
    ensures
        match_dtype(DType::Utf8(a), DType::Utf8(b)) == Ok::<DType, Error>(
            DType::Bool(
                if a == Nullability::NonNullable && b == Nullability::NonNullable {
                    Nullability::NonNullable
                } else {
                    Nullability::Nullable
                },
            ),
        ),
        !(input is Utf8) ==> match_dtype(input, pattern) == Err::<DType, Error>(
            Error::InputDType(input),
        ),
        !(pattern is Utf8) ==> match_dtype(DType::Utf8(a), pattern) == Err::<DType, Error>(
            Error::PatternDType(pattern),
        ),
{
}

/// Which bytes mean something in a pattern: those of the characters that do.
pub proof fn law_metacharacter_bytes(b: u8)
    ensures
        is_metacharacter_byte(b) <==> seq![
            0x2eu8,
            0x2au8,
            0x2bu8,
            0x3fu8,
            0x28u8,
            0x29u8,
            0x5bu8,
            0x5du8,
            0x7bu8,
            0x7du8,
            0x7cu8,
            0x5cu8,
            0x5eu8,
            0x24u8,
        ].contains(b),
{
    let all = seq![
        0x2eu8,
        0x2au8,
        0x2bu8,
        0x3fu8,
        0x28u8,
        0x29u8,
        0x5bu8,
        0x5du8,
        0x7bu8,
        0x7du8,
        0x7cu8,
        0x5cu8,
        0x5eu8,
        0x24u8,
    ];
    assert(all[0] == 0x2e && all[1] == 0x2a && all[2] == 0x2b && all[3] == 0x3f && all[4] == 0x28
        && all[5] == 0x29 && all[6] == 0x5b && all[7] == 0x5d && all[8] == 0x7b && all[9] == 0x7d
        && all[10] == 0x7c && all[11] == 0x5c && all[12] == 0x5e && all[13] == 0x24);
    if all.contains(b) {
        let i = all.index_of(b);
        assert(all[i] == b);
    }
}

/// Two expressions and an operator are put together in that order.
pub proof fn law_binary_expressions(op: Operator, a: Expression, b: Expression)
    ensures
        binary(op, a, b) matches Expression::Binary { op: o, lhs, rhs } && o == op && *lhs == a
            && *rhs == b,
{
}

/// A classified pattern keeps its kind and its literal.
pub proof fn law_kinds_of_classified_patterns(s: &str)
    ensures
        RegexLiteralShape::Exact(s)@ == LiteralShape::Exact(s@),
        RegexLiteralShape::Prefix(s)@ == LiteralShape::Prefix(s@),
        RegexLiteralShape::Suffix(s)@ == LiteralShape::Suffix(s@),
        RegexLiteralShape::Contains(s)@ == LiteralShape::Contains(s@),
        LiteralShape::Exact(s@).literal() == s@,
        LiteralShape::Prefix(s@).literal() == s@,
        LiteralShape::Suffix(s@).literal() == s@,
        LiteralShape::Contains(s@).literal() == s@,
{
}

} // verus!

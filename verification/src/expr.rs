//! Expressions over the rows of an array.

use vstd::prelude::*;
use vstd::string::*;

use crate::options::RegexOptions;
use crate::scalar::Scalar;

verus! {

/// Binary operators.
#[derive(Debug, Clone, Copy, PartialEq, Eq, Hash, Structural)]
pub enum Operator {
    Eq,
    NotEq,
    Gt,
    Gte,
    Lt,
    Lte,
    And,
    Or,
}

impl Operator {
    /// How the operator is shown.
    pub open spec fn symbol(self) -> Seq<char> {
        match self {
            Operator::Eq => "="@,
            Operator::NotEq => "!="@,
            Operator::Gt => ">"@,
            Operator::Gte => ">="@,
            Operator::Lt => "<"@,
            Operator::Lte => "<="@,
            Operator::And => "and"@,
            Operator::Or => "or"@,
        }
    }

    fn as_str(self) -> (text: &'static str)
        ensures
            text@ == self.symbol(),
    {
        match self {
            Operator::Eq => "=",
            Operator::NotEq => "!=",
            Operator::Gt => ">",
            Operator::Gte => ">=",
            Operator::Lt => "<",
            Operator::Lte => "<=",
            Operator::And => "and",
            Operator::Or => "or",
        }
    }
}

/// An expression over the value of a row.
#[derive(Debug, PartialEq, Eq, Hash)]
pub enum Expression {
    /// The value itself.
    Root,
    /// A constant.
    Literal(Scalar),
    /// A field of a struct value.
    GetItem { field: String, child: Box<Expression> },
    /// Two values and an operator.
    Binary { op: Operator, lhs: Box<Expression>, rhs: Box<Expression> },
    /// Whether a value is null.
    IsNull(Box<Expression>),
    /// Whether a text matches a pattern.
    Regex { options: RegexOptions, child: Box<Expression>, pattern: Box<Expression> },
}

impl Clone for Expression {
    fn clone(&self) -> (copy: Self)
        ensures
            copy == *self,
        decreases self,
    {
        match self {
            Expression::Root => Expression::Root,
            Expression::Literal(value) => Expression::Literal(value.clone()),
            Expression::GetItem { field, child } => Expression::GetItem {
                field: field.clone(),
                child: Box::new((&**child).clone()),
            },
            Expression::Binary { op, lhs, rhs } => Expression::Binary {
                op: *op,
                lhs: Box::new((&**lhs).clone()),
                rhs: Box::new((&**rhs).clone()),
            },
            Expression::IsNull(child) => Expression::IsNull(Box::new((&**child).clone())),
            Expression::Regex { options, child, pattern } => Expression::Regex {
                options: *options,
                child: Box::new((&**child).clone()),
                pattern: Box::new((&**pattern).clone()),
            },
        }
    }
}

/// How a match is shown between its operands.
pub open spec fn match_operator(options: RegexOptions) -> Seq<char> {
    (if options.negated {
        " !~"@
    } else {
        " ~"@
    }) + (if options.case_insensitive {
        "* "@
    } else {
        " "@
    })
}

impl Expression {
    /// The expression in SQL notation.
    pub open spec fn sql(self) -> Seq<char>
        decreases self,
    {
        match self {
            Expression::Root => "$"@,
            Expression::Literal(value) => value.display(),
            Expression::GetItem { field, child } => child.sql() + "."@ + field@,
            Expression::Binary { op, lhs, rhs } => "("@ + lhs.sql() + " "@ + op.symbol() + " "@
                + rhs.sql() + ")"@,
            Expression::IsNull(child) => "is_null("@ + child.sql() + ")"@,
            Expression::Regex { options, child, pattern } => child.sql() + match_operator(options)
                + pattern.sql(),
        }
    }

    /// Writes the expression in SQL notation.
    pub fn fmt_sql(&self, out: &mut String)
        ensures
            final(out)@ == old(out)@ + self.sql(),
        decreases self,
    {
        match self {
            Expression::Root => out.append("$"),
            Expression::Literal(value) => value.write(out),
            Expression::GetItem { field, child } => {
                child.fmt_sql(out);
                out.append(".");
                out.append(field.as_str());
                assert(out@ =~= old(out)@ + self.sql());
            },
            Expression::Binary { op, lhs, rhs } => {
                out.append("(");
                lhs.fmt_sql(out);
                out.append(" ");
                out.append(op.as_str());
                out.append(" ");
                rhs.fmt_sql(out);
                out.append(")");
                assert(out@ =~= old(out)@ + self.sql());
            },
            Expression::IsNull(child) => {
                out.append("is_null(");
                child.fmt_sql(out);
                out.append(")");
                assert(out@ =~= old(out)@ + self.sql());
            },
            Expression::Regex { options, child, pattern } => {
                child.fmt_sql(out);
                if options.negated {
                    out.append(" !~");
                } else {
                    out.append(" ~");
                }
                if options.case_insensitive {
                    out.append("* ");
                } else {
                    out.append(" ");
                }
                pattern.fmt_sql(out);
                assert(out@ =~= old(out)@ + self.sql());
            },
        }
    }

    /// The expression as text.
    pub fn to_string(&self) -> (text: String)
        ensures
            text@ == self.sql(),
    {
        let mut text = String::new();
        self.fmt_sql(&mut text);
        assert(text@ =~= self.sql());
        text
    }
}

/// Two expressions and an operator.
pub open spec fn binary(op: Operator, lhs: Expression, rhs: Expression) -> Expression {
    Expression::Binary { op, lhs: Box::new(lhs), rhs: Box::new(rhs) }
}

/// The value of the row.
pub fn root() -> (e: Expression)
    ensures
        e == Expression::Root,
{
    Expression::Root
}

/// A constant.
pub fn lit(value: Scalar) -> (e: Expression)
    ensures
        e == Expression::Literal(value),
{
    Expression::Literal(value)
}

/// A field of a struct.
pub fn get_item(field: &str, child: Expression) -> (e: Expression)
    ensures
        e matches Expression::GetItem { field: f, child: c } && f@ == field@ && *c == child,
{
    Expression::GetItem { field: field.to_owned(), child: Box::new(child) }
}

/// A field of the row.
pub fn col(field: &str) -> (e: Expression)
    ensures
        e matches Expression::GetItem { field: f, child: c } && f@ == field@ && *c
            == Expression::Root,
{
    get_item(field, root())
}

/// `lhs = rhs`
pub fn eq(lhs: Expression, rhs: Expression) -> (e: Expression)
    ensures
        e == binary(Operator::Eq, lhs, rhs),
{
    Expression::Binary { op: Operator::Eq, lhs: Box::new(lhs), rhs: Box::new(rhs) }
}

/// `lhs > rhs`
pub fn gt(lhs: Expression, rhs: Expression) -> (e: Expression)
    ensures
        e == binary(Operator::Gt, lhs, rhs),
{
    Expression::Binary { op: Operator::Gt, lhs: Box::new(lhs), rhs: Box::new(rhs) }
}

/// `lhs >= rhs`
pub fn gt_eq(lhs: Expression, rhs: Expression) -> (e: Expression)
    ensures
        e == binary(Operator::Gte, lhs, rhs),
{
    Expression::Binary { op: Operator::Gte, lhs: Box::new(lhs), rhs: Box::new(rhs) }
}

/// `lhs < rhs`
pub fn lt(lhs: Expression, rhs: Expression) -> (e: Expression)
    ensures
        e == binary(Operator::Lt, lhs, rhs),
{
    Expression::Binary { op: Operator::Lt, lhs: Box::new(lhs), rhs: Box::new(rhs) }
}

/// `lhs and rhs`
pub fn and(lhs: Expression, rhs: Expression) -> (e: Expression)
    ensures
        e == binary(Operator::And, lhs, rhs),
{
    Expression::Binary { op: Operator::And, lhs: Box::new(lhs), rhs: Box::new(rhs) }
}

/// `lhs or rhs`
pub fn or(lhs: Expression, rhs: Expression) -> (e: Expression)
    ensures
        e == binary(Operator::Or, lhs, rhs),
{
    Expression::Binary { op: Operator::Or, lhs: Box::new(lhs), rhs: Box::new(rhs) }
}

/// Whether `child` is null.
pub fn is_null(child: Expression) -> (e: Expression)
    ensures
        e == Expression::IsNull(Box::new(child)),
{
    Expression::IsNull(Box::new(child))
}

fn regex_with(child: Expression, pattern: Expression, options: RegexOptions) -> (e: Expression)
    ensures
        e == (Expression::Regex { options, child: Box::new(child), pattern: Box::new(pattern) }),
{
    Expression::Regex { options, child: Box::new(child), pattern: Box::new(pattern) }
}

/// `child ~ pattern`
pub fn regex(child: Expression, pattern: Expression) -> (e: Expression)
    ensures
        e == (Expression::Regex {
            options: RegexOptions { negated: false, case_insensitive: false },
            child: Box::new(child),
            pattern: Box::new(pattern),
        }),
{
    regex_with(child, pattern, RegexOptions { negated: false, case_insensitive: false })
}

/// `child ~* pattern`
pub fn iregex(child: Expression, pattern: Expression) -> (e: Expression)
    ensures
        e == (Expression::Regex {
            options: RegexOptions { negated: false, case_insensitive: true },
            child: Box::new(child),
            pattern: Box::new(pattern),
        }),
{
    regex_with(child, pattern, RegexOptions { negated: false, case_insensitive: true })
}

/// `child !~ pattern`
pub fn not_regex(child: Expression, pattern: Expression) -> (e: Expression)
    ensures
        e == (Expression::Regex {
            options: RegexOptions { negated: true, case_insensitive: false },
            child: Box::new(child),
            pattern: Box::new(pattern),
        }),
{
    regex_with(child, pattern, RegexOptions { negated: true, case_insensitive: false })
}

/// `child !~* pattern`
pub fn not_iregex(child: Expression, pattern: Expression) -> (e: Expression)
    ensures
        e == (Expression::Regex {
            options: RegexOptions { negated: true, case_insensitive: true },
            child: Box::new(child),
            pattern: Box::new(pattern),
        }),
{
    regex_with(child, pattern, RegexOptions { negated: true, case_insensitive: true })
}

/// The disjunction of `terms`, or `None` if there is none.
pub open spec fn disjunction(terms: Seq<Expression>) -> Option<Expression>
    decreases terms.len(),
{
    if terms.len() == 0 {
        None
    } else if terms.len() == 1 {
        Some(terms[0])
    } else {
        Some(binary(Operator::Or, disjunction(terms.drop_last())->0, terms.last()))
    }
}

/// Joins `terms` with `or`.
pub fn or_collect(terms: Vec<Expression>) -> (e: Option<Expression>)
    ensures
        e == disjunction(terms@),
{
    let ghost all = terms@;
    let mut joined: Option<Expression> = None;
    let mut i: usize = 0;
    while i < terms.len()
        invariant
            i <= terms@.len(),
            all == terms@,
            joined == disjunction(all.take(i as int)),
            i > 0 ==> joined is Some,
        decreases terms.len() - i,
    {
        let term = terms[i].clone();
        assert(all.take(i as int + 1).drop_last() =~= all.take(i as int));
        joined = match joined {
            None => Some(term),
            Some(so_far) => Some(or(so_far, term)),
        };
        i = i + 1;
    }
    assert(all.take(i as int) =~= all);
    joined
}

} // verus!

//! Laws of pruning a dictionary column by its codes.

use vstd::prelude::*;

use crate::array::BoolArray;
use crate::dict::Codes;
use crate::dtype::DType;
use crate::dtype::Nullability;
use crate::dtype::PType;
use crate::error::Error;
use crate::expr::disjunction;
use crate::expr::Expression;
use crate::expr::Operator;
use crate::laws::arrays::present;
use crate::laws::dictionaries::law_lookup;
use crate::layout::dictionary::code_predicate;
use crate::layout::dictionary::code_term;
use crate::layout::dictionary::code_value;
use crate::layout::dictionary::filtered_rows;
use crate::layout::dictionary::lemma_satisfied_codes;
use crate::layout::dictionary::prunable;
use crate::layout::dictionary::prunes_by;
use crate::layout::dictionary::prunes_to;
use crate::layout::dictionary::satisfied_codes;
use crate::layout::dictionary::Pruning;
use crate::mask::Mask;
use crate::options::RegexOptions;
use crate::scalar::PValue;
use crate::scalar::Scalar;

verus! {

/// What expressions mean, as far as it is not fixed below: the value and the
/// truth of an expression on a row.
pub struct Meaning {
    pub value: spec_fn(Expression, Scalar) -> Scalar,
    pub truth: spec_fn(Expression, Scalar) -> Option<bool>,
}

impl Meaning {
    /// The value of an operand on a row.
    pub open spec fn operand(self, e: Expression, row: Scalar) -> Scalar {
        match e {
            Expression::Root => row,
            Expression::Literal(value) => value,
            _ => (self.value)(e, row),
        }
    }

    /// Whether a predicate is true of a row, false of it, or neither. An
    /// equality with null is neither; a disjunction is true if one side is; and
    /// a test for null is true of null.
    pub open spec fn holds(self, e: Expression, row: Scalar) -> Option<bool>
        decreases e,
    {
        match e {
            Expression::Binary { op: Operator::Eq, lhs, rhs } => {
                let (a, b) = (self.operand(*lhs, row), self.operand(*rhs, row));
                if a is Null || b is Null {
                    None
                } else {
                    Some(agree(a, b))
                }
            },
            Expression::Binary { op: Operator::Or, lhs, rhs } => match (
                self.holds(*lhs, row),
                self.holds(*rhs, row),
            ) {
                (Some(true), _) => Some(true),
                (_, Some(true)) => Some(true),
                (Some(false), Some(false)) => Some(false),
                _ => None,
            },
            Expression::IsNull(child) => Some(self.operand(*child, row) is Null),
            _ => (self.truth)(e, row),
        }
    }
}

/// Whether two values that are not null agree.
pub open spec fn agree(a: Scalar, b: Scalar) -> bool {
    match (a, b) {
        (Scalar::Bool(x, _), Scalar::Bool(y, _)) => x == y,
        (Scalar::Primitive(x, _), Scalar::Primitive(y, _)) => x.value() == y.value()
            && x.spec_ptype() == y.spec_ptype(),
        (Scalar::Utf8(x, _), Scalar::Utf8(y, _)) => x@ == y@,
        _ => false,
    }
}

/// Whatever expressions mean, one that is pruned by is not true of null.
pub proof fn law_pruned_predicates_are_not_true_of_null(
    meaning: Meaning,
    expr: Expression,
    dtype: DType,
)
    requires
        prunable(expr),
    ensures
        meaning.holds(expr, Scalar::Null(dtype)) != Some(true),
    decreases expr,
{
    if let Expression::Binary { op: Operator::Or, lhs, rhs } = expr {
        law_pruned_predicates_are_not_true_of_null(meaning, *lhs, dtype);
        law_pruned_predicates_are_not_true_of_null(meaning, *rhs, dtype);
    }
}

/// Whatever expressions mean, what is pruned by depends on nothing but the value
/// of the row: rows whose values agree are alike.
pub proof fn law_pruned_predicates_look_at_the_value(
    meaning: Meaning,
    other: Meaning,
    expr: Expression,
    row: Scalar,
    like: Scalar,
)
    requires
        prunable(expr),
        agree(row, like),
    ensures
        meaning.holds(expr, row) == other.holds(expr, like),
        meaning.holds(expr, row) is Some,
    decreases expr,
{
    if let Expression::Binary { op: Operator::Or, lhs, rhs } = expr {
        law_pruned_predicates_look_at_the_value(meaning, other, *lhs, row, like);
        law_pruned_predicates_look_at_the_value(meaning, other, *rhs, row, like);
    }
}

/// Which predicates are pruned by: equalities of the value and a constant that is
/// not null, in either order, and disjunctions both sides of which are such.
pub proof fn law_equalities_are_pruned_by(v: Scalar, a: Expression, b: Expression)
    ensures
        prunable(
            Expression::Binary {
                op: Operator::Eq,
                lhs: Box::new(Expression::Root),
                rhs: Box::new(Expression::Literal(v)),
            },
        ) <==> !(v is Null),
        prunable(
            Expression::Binary {
                op: Operator::Eq,
                lhs: Box::new(Expression::Literal(v)),
                rhs: Box::new(Expression::Root),
            },
        ) <==> !(v is Null),
        prunable(
            Expression::Binary { op: Operator::Or, lhs: Box::new(a), rhs: Box::new(b) },
        ) <==> prunable(a) && prunable(b),
{
}

/// No other predicate is: no range, no conjunction, no test for null, no match,
/// and no equality but of the value and a constant.
pub proof fn law_other_predicates_are_not_pruned_by(
    op: Operator,
    a: Expression,
    b: Expression,
    field: String,
    v: Scalar,
    options: RegexOptions,
)
    ensures
        op != Operator::Eq && op != Operator::Or ==> !prunable(
            Expression::Binary { op, lhs: Box::new(a), rhs: Box::new(b) },
        ),
        !(a is Root && b is Literal) && !(a is Literal && b is Root) ==> !prunable(
            Expression::Binary { op: Operator::Eq, lhs: Box::new(a), rhs: Box::new(b) },
        ),
        !prunable(Expression::IsNull(Box::new(a))),
        !prunable(Expression::Root),
        !prunable(Expression::Literal(v)),
        !prunable(Expression::GetItem { field, child: Box::new(a) }),
        !prunable(Expression::Regex { options, child: Box::new(a), pattern: Box::new(b) }),
{
}

/// The largest number of an integer type.
pub open spec fn largest(ptype: PType) -> int {
    match ptype {
        PType::U8 => 0xff,
        PType::U16 => 0xffff,
        PType::U32 => 0xffff_ffff,
        PType::U64 => 0xffff_ffff_ffff_ffff,
        PType::I8 => 0x7f,
        PType::I16 => 0x7fff,
        PType::I32 => 0x7fff_ffff,
        PType::I64 => 0x7fff_ffff_ffff_ffff,
        _ => -1,
    }
}

/// How many numbers an integer type has.
pub open spec fn numbers_of(ptype: PType) -> int {
    match ptype {
        PType::U8 | PType::I8 => 0x100,
        PType::U16 | PType::I16 => 0x1_0000,
        PType::U32 | PType::I32 => 0x1_0000_0000,
        _ => 0x1_0000_0000_0000_0000,
    }
}

/// A code is a number of the type of the codes: itself if the type has it, else
/// one that differs by a multiple of how many numbers the type has. There is one
/// for every integer type and for no other.
#[verifier::rlimit(40)]
#[verifier::spinoff_prover]
pub proof fn law_numbers_of_codes(code: usize, ptype: PType)
    ensures
        code_value(code, ptype) is Some <==> ptype != PType::F16 && ptype != PType::F32 && ptype
            != PType::F64,
        code_value(code, ptype) matches Some(v) ==> {
            &&& v.spec_ptype() == ptype
            &&& code <= largest(ptype) ==> v.value() == code
            &&& (v.value() - code) % numbers_of(ptype) == 0
        },
{
    let (w, x, y, z) = (code as u8, code as u16, code as u32, code as u64);
    let (e, f, g, h) = (code as i8, code as i16, code as i32, code as i64);
    assert(w == code % 0x100) by (bit_vector)
        requires
            w == code as u8,
    ;
    assert(x == code % 0x1_0000) by (bit_vector)
        requires
            x == code as u16,
    ;
    assert(z == code);
    assert(y == z % 0x1_0000_0000) by (bit_vector)
        requires
            y == z as u32,
    ;
    assert(e == w || e + 0x100 == w) by (bit_vector)
        requires
            w == code as u8,
            e == code as i8,
    ;
    assert(f == x || f + 0x1_0000 == x) by (bit_vector)
        requires
            x == code as u16,
            f == code as i16,
    ;
    assert(g == y || g + 0x1_0000_0000 == y) by (bit_vector)
        requires
            y == z as u32,
            g == z as i32,
    ;
    assert(h == z || h + 0x1_0000_0000_0000_0000 == z) by (bit_vector)
        requires
            h == z as i64,
    ;
}

/// A disjunction of predicates that are true or false of a row is there if there
/// is one of them, and it is true of the row exactly if one of them is.
pub proof fn law_disjunction(meaning: Meaning, terms: Seq<Expression>, row: Scalar)
    requires
        terms.len() > 0,
        forall|k: int| 0 <= k < terms.len() ==> (#[trigger] meaning.holds(terms[k], row)) is Some,
    ensures
        disjunction(Seq::empty()) is None,
        disjunction(terms) is Some,
        meaning.holds(disjunction(terms)->0, row) is Some,
        meaning.holds(disjunction(terms)->0, row) == Some(true) <==> exists|k: int|
            0 <= k < terms.len() && #[trigger] meaning.holds(terms[k], row) == Some(true),
    decreases terms.len(),
{
    if terms.len() > 1 {
        let before = terms.drop_last();
        assert forall|k: int| 0 <= k < before.len() implies (#[trigger] meaning.holds(
            before[k],
            row,
        )) is Some by {
            assert(meaning.holds(terms[k], row) is Some);
        }
        law_disjunction(meaning, before, row);
        let last = terms.len() - 1;
        assert(meaning.holds(terms[last], row) is Some);
        if exists|k: int| 0 <= k < before.len() && #[trigger] meaning.holds(before[k], row) == Some(
            true,
        ) {
            let k = choose|k: int|
                0 <= k < before.len() && #[trigger] meaning.holds(before[k], row) == Some(true);
            assert(meaning.holds(terms[k], row) == Some(true));
        }
        if exists|k: int| 0 <= k < terms.len() && #[trigger] meaning.holds(terms[k], row) == Some(
            true,
        ) {
            let k = choose|k: int|
                0 <= k < terms.len() && #[trigger] meaning.holds(terms[k], row) == Some(true);
            if k < before.len() {
                assert(meaning.holds(before[k], row) == Some(true));
            }
        }
    } else {
        assert(meaning.holds(terms[0], row) is Some);
    }
}

/// There is a predicate on the codes exactly if an entry is satisfied. It is true
/// of the code of every satisfied entry; and if every code is a number of the
/// type of the codes, it is true of no other code.
pub proof fn law_predicate_on_the_codes(
    meaning: Meaning,
    satisfied: Seq<bool>,
    ptype: PType,
    code: usize,
    number: PValue,
    n: Nullability,
)
    requires
        code < satisfied.len() <= usize::MAX,
        largest(ptype) > 0,
        Some(number) == code_value(code, ptype),
    ensures
        code_predicate(satisfied, ptype) is Some <==> exists|c: int|
            0 <= c < satisfied.len() && #[trigger] satisfied[c],
        satisfied[code as int] ==> meaning.holds(
            code_predicate(satisfied, ptype)->0,
            Scalar::Primitive(number, n),
        ) == Some(true),
        satisfied.len() - 1 <= largest(ptype) && code_predicate(satisfied, ptype) is Some
            ==> meaning.holds(
            code_predicate(satisfied, ptype)->0,
            Scalar::Primitive(number, n),
        ) == Some(satisfied[code as int]),
{
    let len = satisfied.len() as int;
    let codes = satisfied_codes(satisfied, len);
    let terms = Seq::new(codes.len(), |k: int| code_term(codes[k], ptype));
    let row = Scalar::Primitive(number, n);
    lemma_satisfied_codes(satisfied, len);
    law_numbers_of_codes(code, ptype);
    assert forall|k: int| 0 <= k < terms.len() implies (#[trigger] meaning.holds(terms[k], row))
        == Some(
        code_value(codes[k], ptype)->0.value() == number.value() && code_value(
            codes[k],
            ptype,
        )->0.spec_ptype() == number.spec_ptype(),
    ) by {}
    if codes.len() > 0 {
        law_disjunction(meaning, terms, row);
        assert(codes.contains(codes[0]));
        assert(satisfied[codes[0] as int]);
        if satisfied[code as int] {
            assert(codes.contains(code));
            let k = codes.index_of(code);
            assert(meaning.holds(terms[k], row) == Some(true));
        }
        if len - 1 <= largest(ptype) {
            if exists|k: int| 0 <= k < terms.len() && #[trigger] meaning.holds(terms[k], row)
                == Some(true) {
                let k = choose|k: int|
                    0 <= k < terms.len() && #[trigger] meaning.holds(terms[k], row) == Some(true);
                assert(codes.contains(codes[k]));
                law_numbers_of_codes(codes[k], ptype);
            }
        }
    } else {
        assert forall|c: int| 0 <= c < satisfied.len() implies !(#[trigger] satisfied[c]) by {
            if satisfied[c] {
                assert(codes.contains(c as usize));
            }
        }
    }
}

/// Pruning loses no row, null rows among them: whatever expressions mean, a row
/// of which a predicate that is pruned by is true has a code, there is a
/// predicate on the codes, and it is true of the code.
pub proof fn law_pruning_loses_no_row(
    meaning: Meaning,
    expr: Expression,
    values: Seq<Scalar>,
    satisfied: Seq<bool>,
    dtype: DType,
    ptype: PType,
    code: Option<usize>,
    n: Nullability,
)
    requires
        prunable(expr),
        largest(ptype) > 0,
        satisfied.len() == values.len() <= usize::MAX,
        forall|c: int|
            0 <= c < values.len() ==> #[trigger] satisfied[c] == (meaning.holds(expr, values[c])
                == Some(true)),
        code matches Some(c) ==> c < values.len(),
        meaning.holds(
            expr,
            match code {
                Some(c) => values[c as int],
                None => Scalar::Null(dtype),
            },
        ) == Some(true),
    ensures
        code matches Some(c) && code_predicate(satisfied, ptype) matches Some(predicate)
            && meaning.holds(predicate, Scalar::Primitive(code_value(c, ptype)->0, n)) == Some(
            true,
        ),
{
    match code {
        Some(c) => {
            assert(satisfied[c as int]);
            law_numbers_of_codes(c, ptype);
            law_predicate_on_the_codes(
                meaning,
                satisfied,
                ptype,
                c,
                code_value(c, ptype)->0,
                n,
            );
        },
        None => {
            law_pruned_predicates_are_not_true_of_null(meaning, expr, dtype);
        },
    }
}

/// Pruning begins for what is pruned by alone, and with the type that the codes
/// have.
pub proof fn law_where_pruning_begins(expr: Expression, ptype: PType, n: Nullability)
    ensures
        prunable(expr) ==> prunes_by(expr, DType::Primitive(ptype, n)) == Some(ptype),
        forall|d: DType| #[trigger]
            prunes_by(expr, d) matches Some(found) ==> prunable(expr) && (d == DType::Primitive(
                found,
                Nullability::NonNullable,
            ) || d == DType::Primitive(found, Nullability::Nullable)),
{
}

/// How pruning goes on. If no entry is satisfied, no row is left. Otherwise it
/// fails if the codes are no integers, and else leaves the mask as it is and
/// hands on a predicate that is true of the code of every satisfied entry.
pub proof fn law_how_pruning_goes_on(
    meaning: Meaning,
    satisfied: Seq<bool>,
    ptype: PType,
    mask: Mask,
    r: Result<Pruning, Error>,
    code: usize,
    n: Nullability,
    i: int,
)
    requires
        prunes_to(satisfied, ptype, mask, r),
        code < satisfied.len() <= usize::MAX,
    ensures
        (forall|c: int| 0 <= c < satisfied.len() ==> !(#[trigger] satisfied[c])) ==> (
        r matches Ok(Pruning::Done(none)) && none@.len() == mask@.len() && (0 <= i < mask@.len()
            ==> !none@[i])),
        satisfied[code as int] && (ptype == PType::F16 || ptype == PType::F32 || ptype
            == PType::F64) ==> r == Err::<Pruning, Error>(Error::CodesPType(ptype)),
        satisfied[code as int] && largest(ptype) > 0 ==> (r matches Ok(
            Pruning::Codes(predicate, left),
        ) && left@ == mask@ && meaning.holds(
            predicate,
            Scalar::Primitive(code_value(code, ptype)->0, n),
        ) == Some(true)),
        !satisfied[code as int] && satisfied.len() - 1 <= largest(ptype) ==> (r matches Ok(
            Pruning::Codes(predicate, left),
        ) ==> meaning.holds(predicate, Scalar::Primitive(code_value(code, ptype)->0, n)) == Some(
            false,
        )),
{
    let codes = satisfied_codes(satisfied, satisfied.len() as int);
    lemma_satisfied_codes(satisfied, satisfied.len() as int);
    law_numbers_of_codes(code, ptype);
    law_numbers_of_codes(0, ptype);
    if satisfied[code as int] {
        assert(codes.contains(code));
        assert(codes.len() > 0);
    }
    if codes.len() > 0 {
        assert(codes.contains(codes[0]));
        assert(satisfied[codes[0] as int]);
    }
    if largest(ptype) > 0 {
        law_predicate_on_the_codes(
            meaning,
            satisfied,
            ptype,
            code,
            code_value(code, ptype)->0,
            n,
        );
    }
}

/// Filtering by codes selects a row exactly if it is selected, its code is there,
/// and the outcome for the value it refers to is there and true.
pub proof fn law_filtering_by_codes(outcome: BoolArray, codes: Codes, mask: Seq<bool>, i: int)
    requires
        mask.len() == codes.codes@.len(),
        0 <= i < mask.len(),
        present(codes.validity, i) ==> codes.codes@[i] < outcome.bits@.len(),
    ensures
        filtered_rows(outcome, codes, mask).len() == mask.len(),
        filtered_rows(outcome, codes, mask)[i] <==> mask[i] && present(codes.validity, i) && present(
            outcome.validity,
            codes.codes@[i] as int,
        ) && outcome.bits@[codes.codes@[i] as int],
{
    law_lookup(outcome, codes, i);
}

/// A disjunction of one predicate is that predicate, and with one more behind it
/// a disjunction is put in front of that one.
pub proof fn law_disjunctions_grow(terms: Seq<Expression>, next: Expression)
    ensures
        disjunction(seq![next]) == Some(next),
        disjunction(terms) matches Some(e) ==> (disjunction(terms.push(next)) matches Some(
            Expression::Binary { op, lhs, rhs },
        ) && op == Operator::Or && *lhs == e && *rhs == next),
{
    assert(terms.push(next).drop_last() =~= terms);
}

} // verus!

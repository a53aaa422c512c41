//! Columns that are stored as a dictionary: an array of distinct values, and an
//! array of codes that refer to them.
//!
//! A predicate on the value is evaluated once for each entry of the dictionary.
//! For filtering, the codes are looked up in the outcome. For pruning, an
//! equality is rewritten into a predicate on the codes: a value has a single
//! code, so a zone whose least and greatest codes exclude it holds no matching
//! row.

use vstd::prelude::*;
use vstd::string::*;

use crate::array::BoolArray;
use crate::dict::take_bools;
use crate::dict::take_rows;
use crate::dict::Codes;
use crate::dtype::DType;
use crate::dtype::Nullability;
use crate::dtype::PType;
use crate::error::Error;
use crate::expr::binary;
use crate::expr::disjunction;
use crate::expr::eq;
use crate::expr::lit;
use crate::expr::or_collect;
use crate::expr::root;
use crate::expr::Expression;
use crate::expr::Operator;
use crate::mask::count;
use crate::mask::lemma_count_monotonic;
use crate::mask::lemma_count_step;
use crate::mask::lemma_rank;
use crate::mask::Mask;
use crate::scalar::PValue;
use crate::scalar::Scalar;

verus! {

/// Whether `expr` is a constant that is not null.
pub open spec fn non_null_literal(expr: Expression) -> bool {
    expr matches Expression::Literal(value) && !(value is Null)
}

/// Whether `expr` compares the value for equality with a constant that is not
/// null, or is a disjunction of such equalities.
pub open spec fn prunable(expr: Expression) -> bool
    decreases expr,
{
    match expr {
        Expression::Binary { op: Operator::Eq, lhs, rhs } => {
            ||| *lhs is Root && non_null_literal(*rhs)
            ||| *rhs is Root && non_null_literal(*lhs)
        },
        Expression::Binary { op: Operator::Or, lhs, rhs } => prunable(*lhs) && prunable(*rhs),
        _ => false,
    }
}

/// Whether `expr` is a constant that is not null.
pub fn is_non_null_literal(expr: &Expression) -> (b: bool)
    ensures
        b == non_null_literal(*expr),
{
    match expr {
        Expression::Literal(value) => !value.is_null(),
        _ => false,
    }
}

/// Whether `expr` is an equality of the value (`root == lit`), or an OR-tree of
/// such equalities (the `IN`-list shape), with constants that are not null.
///
/// These are exactly the predicates that map onto single codes. Ranges do not,
/// as codes are not in the order of the values; and a test for null must not
/// drive a skip, as the least and greatest codes of a zone say nothing of nulls.
pub fn is_prunable_dict_eq(expr: &Expression) -> (b: bool)
    ensures
        b == prunable(*expr),
    decreases expr,
{
    match expr {
        Expression::Binary { op, lhs, rhs } => match op {
            Operator::Eq => {
                let lhs_root = match &**lhs {
                    Expression::Root => true,
                    _ => false,
                };
                let rhs_root = match &**rhs {
                    Expression::Root => true,
                    _ => false,
                };
                (lhs_root && is_non_null_literal(rhs)) || (rhs_root && is_non_null_literal(lhs))
            },
            Operator::Or => is_prunable_dict_eq(lhs) && is_prunable_dict_eq(rhs),
            _ => false,
        },
        _ => false,
    }
}

/// The code as a number of a type, cut off if it does not fit. `None` if the
/// type is no integer type.
pub open spec fn code_value(code: usize, ptype: PType) -> Option<PValue> {
    match ptype {
        PType::U8 => Some(PValue::U8(code as u8)),
        PType::U16 => Some(PValue::U16(code as u16)),
        PType::U32 => Some(PValue::U32(code as u32)),
        PType::U64 => Some(PValue::U64(code as u64)),
        PType::I8 => Some(PValue::I8(code as i8)),
        PType::I16 => Some(PValue::I16(code as i16)),
        PType::I32 => Some(PValue::I32(code as i32)),
        PType::I64 => Some(PValue::I64(code as i64)),
        PType::F16 => None,
        PType::F32 => None,
        PType::F64 => None,
    }
}

/// A scalar for a code, of the type that the codes have. Fails if that is no
/// integer type.
pub fn code_scalar(code: usize, codes_ptype: PType) -> (r: Result<Scalar, Error>)
    ensures
        match code_value(code, codes_ptype) {
            Some(value) => r == Ok::<Scalar, Error>(
                Scalar::Primitive(value, Nullability::NonNullable),
            ),
            None => r == Err::<Scalar, Error>(Error::CodesPType(codes_ptype)),
        },
{
    let value = match codes_ptype {
        PType::U8 => PValue::U8(#[verifier::truncate] (code as u8)),
        PType::U16 => PValue::U16(#[verifier::truncate] (code as u16)),
        PType::U32 => PValue::U32(#[verifier::truncate] (code as u32)),
        PType::U64 => PValue::U64(code as u64),
        PType::I8 => PValue::I8(#[verifier::truncate] (code as i8)),
        PType::I16 => PValue::I16(#[verifier::truncate] (code as i16)),
        PType::I32 => PValue::I32(#[verifier::truncate] (code as i32)),
        PType::I64 => PValue::I64(#[verifier::truncate] (code as i64)),
        other => return Err(Error::CodesPType(other)),
    };
    Ok(Scalar::Primitive(value, Nullability::NonNullable))
}

/// The type of the codes, if they can be pruned by a predicate.
pub open spec fn prunes_by(expr: Expression, codes_dtype: DType) -> Option<PType> {
    if prunable(expr) {
        codes_dtype.spec_ptype()
    } else {
        None
    }
}

/// The type of the codes, if a predicate can be rewritten for them: it must be
/// an equality, and the codes must be of a primitive type.
pub fn pruning_ptype(expr: &Expression, codes_dtype: &DType) -> (ptype: Option<PType>)
    ensures
        ptype == (if prunable(*expr) {
            codes_dtype.spec_ptype()
        } else {
            None
        }),
        ptype == prunes_by(*expr, *codes_dtype),
{
    if !is_prunable_dict_eq(expr) {
        return None;
    }
    codes_dtype.ptype()
}

/// The predicate `code == c`.
pub open spec fn code_term(code: usize, ptype: PType) -> Expression {
    binary(
        Operator::Eq,
        Expression::Root,
        Expression::Literal(Scalar::Primitive(code_value(code, ptype)->0, Nullability::NonNullable)),
    )
}

/// The codes of the satisfied entries up to entry `n`, in order.
pub open spec fn satisfied_codes(satisfied: Seq<bool>, n: int) -> Seq<usize>
    decreases n,
{
    if n <= 0 {
        Seq::empty()
    } else if satisfied[n - 1] {
        satisfied_codes(satisfied, n - 1).push((n - 1) as usize)
    } else {
        satisfied_codes(satisfied, n - 1)
    }
}

/// The predicate `code == c0 or code == c1 or ..` for the satisfied entries.
pub open spec fn code_predicate(satisfied: Seq<bool>, ptype: PType) -> Option<Expression> {
    let codes = satisfied_codes(satisfied, satisfied.len() as int);
    disjunction(Seq::new(codes.len(), |k: int| code_term(codes[k], ptype)))
}

/// How pruning goes on once the predicate was evaluated on the dictionary.
#[derive(Debug)]
pub enum Pruning {
    /// It is done: these are the rows that are left.
    Done(Mask),
    /// The codes are pruned by this predicate, with this mask.
    Codes(Expression, Mask),
}

/// Whether `r` is how pruning goes on: if no entry is satisfied, with no row;
/// otherwise with the predicate on the codes and the same mask, or with a failure
/// if the codes are no integers.
pub open spec fn prunes_to(
    satisfied: Seq<bool>,
    codes_ptype: PType,
    mask: Mask,
    r: Result<Pruning, Error>,
) -> bool {
    match code_predicate(satisfied, codes_ptype) {
        None => r matches Ok(Pruning::Done(none)) && none@ == Seq::new(
            mask@.len(),
            |i: int| false,
        ),
        Some(predicate) => match code_value(0, codes_ptype) {
            Some(_) => r == Ok::<Pruning, Error>(Pruning::Codes(predicate, mask)),
            None => r == Err::<Pruning, Error>(Error::CodesPType(codes_ptype)),
        },
    }
}

/// Goes on with pruning once it is known which entries of the dictionary
/// satisfy the predicate.
///
/// If none does, no row does. Otherwise the codes are to be pruned by their
/// being one of those of the satisfied entries.
pub fn prune_codes(satisfied: &Mask, codes_ptype: PType, mask: Mask) -> (r: Result<Pruning, Error>)
    ensures
        match code_predicate(satisfied@, codes_ptype) {
            None => r matches Ok(Pruning::Done(none)) && none@ == Seq::new(
                mask@.len(),
                |i: int| false,
            ),
            Some(predicate) => match code_value(0, codes_ptype) {
                Some(_) => r == Ok::<Pruning, Error>(Pruning::Codes(predicate, mask)),
                None => r == Err::<Pruning, Error>(Error::CodesPType(codes_ptype)),
            },
        },
        prunes_to(satisfied@, codes_ptype, mask, r),
{
    let n_entries = satisfied.len();
    let indices = satisfied.indices();
    proof {
        assert(satisfied@.len() == n_entries);
        let codes = satisfied_codes(satisfied@, satisfied@.len() as int);
        lemma_satisfied_codes_are_indices(satisfied@, indices@);
        lemma_disjunction(Seq::new(codes.len(), |k: int| code_term(codes[k], codes_ptype)));
    }
    if indices.len() == 0 {
        return Ok(Pruning::Done(Mask::new_false(mask.len())));
    }
    let mut terms: Vec<Expression> = Vec::new();
    let mut k: usize = 0;
    while k < indices.len()
        invariant
            k <= indices@.len(),
            indices@.len() > 0,
            indices@ == satisfied_codes(satisfied@, satisfied@.len() as int),
            code_predicate(satisfied@, codes_ptype) is Some,
            terms@.len() == k,
            forall|j: int| 0 <= j < k ==> #[trigger] terms@[j] == code_term(indices@[j], codes_ptype),
            k > 0 ==> code_value(0, codes_ptype) is Some,
        decreases indices.len() - k,
    {
        match code_scalar(indices[k], codes_ptype) {
            Ok(code) => {
                terms.push(eq(root(), lit(code)));
            },
            Err(e) => {
                return Err(e);
            },
        }
        k = k + 1;
    }
    let ghost all = terms@;
    assert(all =~= Seq::new(indices@.len(), |k: int| code_term(indices@[k], codes_ptype)));
    match or_collect(terms) {
        Some(rewritten) => Ok(Pruning::Codes(rewritten, mask)),
        None => Ok(Pruning::Done(Mask::new_false(mask.len()))),
    }
}

/// The rows of a mask on which looking the codes up in an outcome gives true.
pub open spec fn filtered_rows(outcome: BoolArray, codes: Codes, mask: Seq<bool>) -> Seq<bool> {
    Seq::new(
        mask.len(),
        |i: int| mask[i] && take_rows(outcome.rows(), codes.rows())[i] == Some(true),
    )
}

/// Filters rows by looking their codes up in the outcome of a predicate on the
/// dictionary. A row on which the outcome is null, or whose code is, is left
/// out.
pub fn filter_codes(outcome: &BoolArray, codes: &Codes, mask: &Mask) -> (result: Mask)
    requires
        outcome.wf(),
        codes.wf(outcome.bits@.len()),
        mask@.len() == codes.codes@.len(),
    ensures
        result@ == Seq::new(
            mask@.len(),
            |i: int| mask@[i] && take_rows(outcome.rows(), codes.rows())[i] == Some(true),
        ),
        result@ == filtered_rows(*outcome, *codes, mask@),
{
    let taken = take_bools(outcome, codes);
    let mut bits: Vec<bool> = Vec::new();
    let mut i: usize = 0;
    assert(taken.rows().len() == codes.codes@.len());
    while i < taken.bits.len()
        invariant
            i <= taken.bits@.len(),
            taken.wf(),
            bits@.len() == i,
            forall|j: int| 0 <= j < i ==> #[trigger] bits@[j] == (taken.rows()[j] == Some(true)),
        decreases taken.bits.len() - i,
    {
        bits.push(
            match taken.row(i) {
                Some(b) => b,
                None => false,
            },
        );
        i = i + 1;
    }
    let dict_mask = Mask::from_bits(bits);
    let result = mask.bitand(&dict_mask);
    assert(result@ =~= filtered_rows(*outcome, *codes, mask@));
    result
}

/// The number of values of a dictionary, if it can be addressed.
pub fn values_len(row_count: u64) -> (r: Result<usize, Error>)
    ensures
        row_count <= usize::MAX ==> r == Ok::<usize, Error>(row_count as usize),
        row_count > usize::MAX ==> r == Err::<usize, Error>(Error::TooManyValues(row_count)),
{
    if row_count <= usize::MAX as u64 {
        Ok(row_count as usize)
    } else {
        Err(Error::TooManyValues(row_count))
    }
}

/// The name of the reader of the values.
pub fn values_name(name: &str) -> (child: String)
    ensures
        child@ == name@ + ".values"@,
{
    let mut child = name.to_owned();
    child.append(".values");
    child
}

/// The name of the reader of the codes.
pub fn codes_name(name: &str) -> (child: String)
    ensures
        child@ == name@ + ".codes"@,
{
    let mut child = name.to_owned();
    child.append(".codes");
    child
}

/// Whether two values are known to be equal: both are of the same kind, neither
/// is null, and they agree.
pub open spec fn same_value(a: Scalar, b: Scalar) -> bool {
    match (a, b) {
        (Scalar::Bool(x, _), Scalar::Bool(y, _)) => x == y,
        (Scalar::Primitive(x, _), Scalar::Primitive(y, _)) => x == y,
        (Scalar::Utf8(x, _), Scalar::Utf8(y, _)) => x@ == y@,
        _ => false,
    }
}

/// What an operand of an equality stands for on a row.
pub open spec fn operand(expr: Expression, row: Scalar) -> Scalar {
    match expr {
        Expression::Literal(value) => value,
        _ => row,
    }
}

/// Whether a predicate made of equalities is true of a row.
pub open spec fn holds(expr: Expression, row: Scalar) -> bool
    decreases expr,
{
    match expr {
        Expression::Binary { op: Operator::Eq, lhs, rhs } => same_value(
            operand(*lhs, row),
            operand(*rhs, row),
        ),
        Expression::Binary { op: Operator::Or, lhs, rhs } => holds(*lhs, row) || holds(*rhs, row),
        _ => false,
    }
}

/// Whether the code is a number of the type.
pub open spec fn code_fits(code: usize, ptype: PType) -> bool {
    match ptype {
        PType::U8 => code <= u8::MAX,
        PType::U16 => code <= u16::MAX,
        PType::U32 => code <= u32::MAX,
        PType::U64 => code <= u64::MAX,
        PType::I8 => code <= i8::MAX,
        PType::I16 => code <= i16::MAX,
        PType::I32 => code <= i32::MAX,
        PType::I64 => code <= i64::MAX,
        PType::F16 => false,
        PType::F32 => false,
        PType::F64 => false,
    }
}

/// The value of a code in an array of codes of a type.
pub open spec fn code_row(code: usize, ptype: PType) -> Scalar {
    Scalar::Primitive(code_value(code, ptype)->0, Nullability::NonNullable)
}

/// The codes of the satisfied entries are the indices of those entries.
pub proof fn lemma_satisfied_codes(satisfied: Seq<bool>, n: int)
    requires
        0 <= n <= satisfied.len(),
        n <= usize::MAX + 1,
    ensures
        satisfied_codes(satisfied, n).len() == count(satisfied.take(n)),
        forall|i: int|
            0 <= i < n && #[trigger] satisfied[i] ==> satisfied_codes(satisfied, n)[count(
                satisfied.take(i),
            ) as int] == i,
        forall|c: usize| #[trigger]
            satisfied_codes(satisfied, n).contains(c) <==> c < n && satisfied[c as int],
    decreases n,
{
    if n > 0 {
        let before = satisfied_codes(satisfied, n - 1);
        let codes = satisfied_codes(satisfied, n);
        lemma_satisfied_codes(satisfied, n - 1);
        lemma_count_step(satisfied, n - 1);
        assert forall|i: int| 0 <= i < n && #[trigger] satisfied[i] implies codes[count(
            satisfied.take(i),
        ) as int] == i by {
            if i < n - 1 {
                assert(satisfied.take(n - 1)[i]);
                lemma_rank(satisfied.take(n - 1), i);
                assert(satisfied.take(n - 1).take(i) =~= satisfied.take(i));
            }
        }
        assert forall|c: usize| #[trigger] codes.contains(c) <==> c < n && satisfied[c as int] by {
            if codes.contains(c) {
                let k = codes.index_of(c);
                if k < before.len() {
                    assert(before[k] == c);
                    assert(before.contains(c));
                }
            }
            if c < n && satisfied[c as int] {
                if c < n - 1 {
                    assert(before.contains(c));
                    assert(codes[before.index_of(c)] == c);
                } else {
                    assert(codes[before.len() as int] == c);
                }
            }
        }
    }
}

/// The ascending list of the satisfied entries is the one that is listed.
proof fn lemma_satisfied_codes_are_indices(satisfied: Seq<bool>, indices: Seq<usize>)
    requires
        satisfied.len() <= usize::MAX + 1,
        indices.len() == count(satisfied),
        forall|k: int|
            0 <= k < indices.len() ==> #[trigger] indices[k] < satisfied.len()
                && satisfied[indices[k] as int],
        forall|j: int, k: int| 0 <= j < k < indices.len() ==> indices[j] < indices[k],
        forall|i: usize|
            i < satisfied.len() ==> #[trigger] satisfied[i as int] == indices.contains(i),
    ensures
        indices == satisfied_codes(satisfied, satisfied.len() as int),
{
    let n = satisfied.len() as int;
    let codes = satisfied_codes(satisfied, n);
    lemma_satisfied_codes(satisfied, n);
    assert(satisfied.take(n) =~= satisfied);
    assert forall|k: int| 0 <= k < indices.len() implies indices[k] == codes[k] by {
        lemma_rank_of_index(satisfied, indices, k);
        assert(satisfied[indices[k] as int]);
    }
    assert(indices =~= codes);
}

/// The place of an entry of an ascending list of all satisfied entries is the
/// number of satisfied entries before it.
proof fn lemma_rank_of_index(satisfied: Seq<bool>, indices: Seq<usize>, k: int)
    requires
        indices.len() == count(satisfied),
        forall|j: int|
            0 <= j < indices.len() ==> #[trigger] indices[j] < satisfied.len()
                && satisfied[indices[j] as int],
        forall|j: int, l: int| 0 <= j < l < indices.len() ==> indices[j] < indices[l],
        0 <= k < indices.len(),
    ensures
        count(satisfied.take(indices[k] as int)) == k,
{
    lemma_rank_at_least(satisfied, indices, k);
    lemma_rank_at_most(satisfied, indices, k);
}

proof fn lemma_rank_at_least(satisfied: Seq<bool>, indices: Seq<usize>, k: int)
    requires
        forall|j: int|
            0 <= j < indices.len() ==> #[trigger] indices[j] < satisfied.len()
                && satisfied[indices[j] as int],
        forall|j: int, l: int| 0 <= j < l < indices.len() ==> indices[j] < indices[l],
        0 <= k < indices.len(),
    ensures
        count(satisfied.take(indices[k] as int)) >= k,
    decreases k,
{
    if k > 0 {
        let before = indices[k - 1] as int;
        assert(satisfied[before]);
        lemma_rank_at_least(satisfied, indices, k - 1);
        lemma_count_step(satisfied, before);
        lemma_count_monotonic(satisfied, before + 1, indices[k] as int);
    }
}

proof fn lemma_rank_at_most(satisfied: Seq<bool>, indices: Seq<usize>, k: int)
    requires
        indices.len() == count(satisfied),
        forall|j: int|
            0 <= j < indices.len() ==> #[trigger] indices[j] < satisfied.len()
                && satisfied[indices[j] as int],
        forall|j: int, l: int| 0 <= j < l < indices.len() ==> indices[j] < indices[l],
        0 <= k < indices.len(),
    ensures
        count(satisfied.take(indices[k] as int)) <= k,
    decreases indices.len() - k,
{
    let at = indices[k] as int;
    assert(satisfied[at]);
    lemma_count_step(satisfied, at);
    if k == indices.len() - 1 {
        lemma_count_monotonic(satisfied, at + 1, satisfied.len() as int);
        assert(satisfied.take(satisfied.len() as int) =~= satisfied);
    } else {
        lemma_rank_at_most(satisfied, indices, k + 1);
        lemma_count_monotonic(satisfied, at + 1, indices[k + 1] as int);
    }
}

/// There is a disjunction exactly if there are terms.
proof fn lemma_disjunction(terms: Seq<Expression>)
    ensures
        disjunction(terms) is Some <==> terms.len() > 0,
{
}

/// A disjunction of equalities is true of a row if one of them is.
proof fn lemma_disjunction_holds(terms: Seq<Expression>, row: Scalar)
    requires
        terms.len() > 0,
    ensures
        holds(disjunction(terms)->0, row) <==> exists|k: int|
            0 <= k < terms.len() && holds(#[trigger] terms[k], row),
    decreases terms.len(),
{
    if terms.len() > 1 {
        let before = terms.drop_last();
        lemma_disjunction_holds(before, row);
        if exists|k: int| 0 <= k < before.len() && holds(#[trigger] before[k], row) {
            let k = choose|k: int| 0 <= k < before.len() && holds(#[trigger] before[k], row);
            assert(holds(terms[k], row));
        }
        if exists|k: int| 0 <= k < terms.len() && holds(#[trigger] terms[k], row) {
            let k = choose|k: int| 0 <= k < terms.len() && holds(#[trigger] terms[k], row);
            if k < before.len() {
                assert(holds(before[k], row));
            }
        }
        assert(holds(terms[terms.len() - 1], row) == holds(terms.last(), row));
    } else {
        assert(holds(terms[0], row) == holds(disjunction(terms)->0, row));
    }
}

/// A predicate that is pruned by is not true of null.
pub proof fn law_prunable_is_false_of_null(expr: Expression, dtype: DType)
    requires
        prunable(expr),
    ensures
        !holds(expr, Scalar::Null(dtype)),
    decreases expr,
{
    match expr {
        Expression::Binary { op: Operator::Or, lhs, rhs } => {
            law_prunable_is_false_of_null(*lhs, dtype);
            law_prunable_is_false_of_null(*rhs, dtype);
        },
        _ => {},
    }
}

/// The predicate on the codes is true of the codes of all entries that satisfy
/// the predicate on the values; and of no others, if every code is a number of
/// the type of the codes.
pub proof fn law_code_predicate_holds_of_satisfied_codes(
    satisfied: Seq<bool>,
    ptype: PType,
    code: usize,
)
    requires
        code < satisfied.len(),
        satisfied.len() <= usize::MAX + 1,
    ensures
        satisfied[code as int] ==> (code_predicate(satisfied, ptype) matches Some(predicate)
            && holds(predicate, code_row(code, ptype))),
        (forall|c: usize| c < satisfied.len() ==> #[trigger] code_fits(c, ptype)) ==> match code_predicate(
            satisfied,
            ptype,
        ) {
            Some(predicate) => holds(predicate, code_row(code, ptype)) == satisfied[code as int],
            None => !satisfied[code as int],
        },
{
    let n = satisfied.len() as int;
    let codes = satisfied_codes(satisfied, n);
    let terms = Seq::new(codes.len(), |k: int| code_term(codes[k], ptype));
    let row = code_row(code, ptype);
    lemma_satisfied_codes(satisfied, n);
    if codes.len() > 0 {
        lemma_disjunction(terms);
        lemma_disjunction_holds(terms, row);
        if satisfied[code as int] {
            assert(codes.contains(code));
            let k = codes.index_of(code);
            assert(holds(terms[k], row));
        }
        if forall|c: usize| c < satisfied.len() ==> #[trigger] code_fits(c, ptype) {
            assert(code_fits(code, ptype));
            if exists|k: int| 0 <= k < terms.len() && holds(#[trigger] terms[k], row) {
                let k = choose|k: int| 0 <= k < terms.len() && holds(#[trigger] terms[k], row);
                assert(codes.contains(codes[k]));
                assert(code_fits(codes[k], ptype));
                assert(code_value(codes[k], ptype)->0.value() == codes[k]);
                assert(code_value(code, ptype)->0.value() == code);
            }
        }
    } else {
        if satisfied[code as int] {
            assert(codes.contains(code));
        }
    }
}

/// Pruning by codes loses no row: where the predicate on the values is true of
/// the value of a row, there is a predicate on the codes, and it is true of the
/// code. If every code is a number of the type of the codes, pruning by codes is
/// pruning by values: the predicate on the codes is true of no other code.
pub proof fn law_pruning_codes_is_pruning_values(
    expr: Expression,
    values: Seq<Scalar>,
    ptype: PType,
    code: usize,
)
    requires
        prunable(expr),
        code < values.len(),
        values.len() <= usize::MAX + 1,
    ensures
        ({
            let satisfied = Seq::new(values.len(), |c: int| holds(expr, values[c]));
            holds(expr, values[code as int]) ==> (code_predicate(satisfied, ptype) matches Some(
                predicate,
            ) && holds(predicate, code_row(code, ptype)))
        }),
        ({
            let satisfied = Seq::new(values.len(), |c: int| holds(expr, values[c]));
            (forall|c: usize| c < values.len() ==> #[trigger] code_fits(c, ptype))
                ==> match code_predicate(satisfied, ptype) {
                Some(predicate) => holds(predicate, code_row(code, ptype)) == holds(
                    expr,
                    values[code as int],
                ),
                None => !holds(expr, values[code as int]),
            }
        }),
{
    let satisfied = Seq::new(values.len(), |c: int| holds(expr, values[c]));
    law_code_predicate_holds_of_satisfied_codes(satisfied, ptype, code);
    if forall|c: usize| c < values.len() ==> #[trigger] code_fits(c, ptype) {
        assert forall|c: usize| c < satisfied.len() implies #[trigger] code_fits(c, ptype) by {
            assert(c < values.len());
        }
    }
}

/// The value of a row: null where its code is.
pub open spec fn row_value(values: Seq<Scalar>, code: Option<usize>, dtype: DType) -> Scalar {
    match code {
        Some(c) => values[c as int],
        None => Scalar::Null(dtype),
    }
}

/// Filtering by codes is filtering by values: to evaluate an equality on the
/// dictionary and look the codes up in the outcome finds the rows of which the
/// equality is true.
pub proof fn law_filtering_codes_is_filtering_values(
    expr: Expression,
    values: Seq<Scalar>,
    codes: Seq<Option<usize>>,
    dtype: DType,
    i: int,
)
    requires
        prunable(expr),
        0 <= i < codes.len(),
        codes[i] matches Some(c) ==> c < values.len(),
    ensures
        ({
            let outcome = Seq::new(values.len(), |c: int| Some(holds(expr, values[c])));
            (take_rows(outcome, codes)[i] == Some(true)) == holds(
                expr,
                row_value(values, codes[i], dtype),
            )
        }),
{
    law_prunable_is_false_of_null(expr, dtype);
}

} // verus!

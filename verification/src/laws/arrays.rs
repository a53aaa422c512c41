//! Laws of arrays, types and single values.

use vstd::prelude::*;

use crate::array::BoolArray;
use crate::array::PatternArray;
use crate::array::Validity;
use crate::array::VarBinViewArray;
use crate::dict::Codes;
use crate::dtype::DType;
use crate::dtype::Nullability;
use crate::dtype::PType;
use crate::scalar::PValue;
use crate::scalar::Scalar;

verus! {

/// Whether row `i` is there: no row is null without flags, every row is null in
/// an array of nulls, and otherwise the flag of the row says so.
pub open spec fn present(validity: Validity, i: int) -> bool {
    match validity {
        Validity::NonNullable => true,
        Validity::AllValid => true,
        Validity::AllInvalid => false,
        Validity::Array(flags) => flags@[i],
    }
}

/// Whether flags, if there are any, are those of `len` rows.
pub open spec fn flags_fit(validity: Validity, len: nat) -> bool {
    match validity {
        Validity::Array(flags) => flags@.len() == len,
        _ => true,
    }
}

/// Which rows are there is read off the validity, and an array may hold nulls
/// unless its validity rules them out.
pub proof fn law_validity(validity: Validity, i: int, len: nat)
    ensures
        validity@.is_valid(i) == present(validity, i),
        validity@.covers(len) == flags_fit(validity, len),
        validity@.nullability() == Nullability::NonNullable <==> validity is NonNullable,
{
}

/// To allow nulls loses no row and adds none; and nulls stay ruled out only if
/// both sides rule them out.
pub proof fn law_allowing_nulls_keeps_the_rows(
    before: Validity,
    after: Validity,
    nullability: Nullability,
    i: int,
)
    requires
        after@ == before@.union_nullability(nullability),
    ensures
        present(after, i) == present(before, i),
        after is NonNullable <==> before is NonNullable && nullability == Nullability::NonNullable,
{
}

/// A row of booleans is its bit where it is there, and null elsewhere.
pub proof fn law_boolean_rows(array: BoolArray, i: int)
    requires
        0 <= i < array.bits@.len(),
    ensures
        array.rows().len() == array.bits@.len(),
        present(array.validity, i) ==> array.rows()[i] == Some(array.bits@[i]),
        !present(array.validity, i) ==> array.rows()[i] is None,
        array.dtype() == DType::Bool(Nullability::NonNullable) <==> array.validity is NonNullable,
        array.dtype() == DType::Bool(Nullability::Nullable) <==> !(array.validity is NonNullable),
{
}

/// A row of strings is its bytes where it is there, and null elsewhere.
pub proof fn law_string_rows(array: VarBinViewArray, i: int)
    requires
        0 <= i < array.bytes@.len(),
    ensures
        array@.rows().len() == array.bytes@.len(),
        array@.contents.len() == array.bytes@.len(),
        array@.contents[i] == array.bytes@[i]@,
        present(array.validity, i) ==> array@.rows()[i] == Some(array.bytes@[i]@),
        !present(array.validity, i) ==> array@.rows()[i] is None,
        array@.dtype == array.dtype,
{
}

/// A row of codes is its code where it is there, and null elsewhere; and codes
/// are valid exactly if each row that is there refers to a value.
pub proof fn law_code_rows(codes: Codes, n_values: nat, i: int)
    requires
        0 <= i < codes.codes@.len(),
    ensures
        codes.rows().len() == codes.codes@.len(),
        present(codes.validity, i) ==> codes.rows()[i] == Some(codes.codes@[i]),
        !present(codes.validity, i) ==> codes.rows()[i] is None,
        codes.wf(n_values) <==> {
            &&& flags_fit(codes.validity, codes.codes@.len())
            &&& forall|k: int|
                0 <= k < codes.codes@.len() && present(codes.validity, k)
                    ==> #[trigger] codes.codes@[k] < n_values
        },
{
    assert forall|k: int| codes.validity@.is_valid(k) == present(codes.validity, k) by {}
}

/// Which pattern arrays hold one value for every row.
pub proof fn law_constant_patterns(value: Scalar, len: usize, array: VarBinViewArray)
    ensures
        (PatternArray::Constant { value, len }).constant() == Some(value),
        (PatternArray::Constant { value, len }).spec_len() == len,
        (PatternArray::Constant { value, len }).spec_dtype() == value.spec_dtype(),
        PatternArray::PerRow(array).constant() is None,
        PatternArray::PerRow(array).spec_len() == array.bytes@.len(),
        PatternArray::PerRow(array).spec_dtype() == array.dtype,
{
}

/// Which types are strings, which may hold nulls, and which are primitive.
pub proof fn law_types(n: Nullability, ptype: PType)
    ensures
        DType::Utf8(n).is_utf8(),
        !DType::Null.is_utf8() && !DType::Bool(n).is_utf8() && !DType::Primitive(ptype, n).is_utf8()
            && !DType::Binary(n).is_utf8(),
        DType::Null.spec_is_nullable(),
        forall|d: DType|
            d == DType::Bool(n) || d == DType::Primitive(ptype, n) || d == DType::Utf8(n) || d
                == DType::Binary(n) ==> #[trigger] d.spec_nullability() == n && d.spec_is_nullable()
                == (n == Nullability::Nullable),
        DType::Primitive(ptype, n).spec_ptype() == Some(ptype),
        DType::Null.spec_ptype() is None && DType::Bool(n).spec_ptype() is None && DType::Utf8(
            n,
        ).spec_ptype() is None && DType::Binary(n).spec_ptype() is None,
        Nullability::of(true) == Nullability::Nullable,
        Nullability::of(false) == Nullability::NonNullable,
{
}

/// The type of a value, and the text of one that has a text.
pub proof fn law_values(d: DType, b: bool, v: PValue, s: String, n: Nullability)
    ensures
        Scalar::Null(d).spec_dtype() == d,
        Scalar::Bool(b, n).spec_dtype() == DType::Bool(n),
        Scalar::Primitive(v, n).spec_dtype() == DType::Primitive(v.spec_ptype(), n),
        Scalar::Utf8(s, n).spec_dtype() == DType::Utf8(n),
        Scalar::Utf8(s, n).text() == Some(s@),
        Scalar::Null(d).text() is None,
        Scalar::Bool(b, n).text() is None,
        Scalar::Primitive(v, n).text() is None,
{
}

/// A number keeps its value and its type.
pub proof fn law_numbers(
    a: u8,
    b: u16,
    c: u32,
    d: u64,
    e: i8,
    f: i16,
    g: i32,
    h: i64,
)
    ensures
        PValue::U8(a).value() == a && PValue::U8(a).spec_ptype() == PType::U8,
        PValue::U16(b).value() == b && PValue::U16(b).spec_ptype() == PType::U16,
        PValue::U32(c).value() == c && PValue::U32(c).spec_ptype() == PType::U32,
        PValue::U64(d).value() == d && PValue::U64(d).spec_ptype() == PType::U64,
        PValue::I8(e).value() == e && PValue::I8(e).spec_ptype() == PType::I8,
        PValue::I16(f).value() == f && PValue::I16(f).spec_ptype() == PType::I16,
        PValue::I32(g).value() == g && PValue::I32(g).spec_ptype() == PType::I32,
        PValue::I64(h).value() == h && PValue::I64(h).spec_ptype() == PType::I64,
{
}

} // verus!

//! Arrays in memory: which rows are null, booleans, strings, and patterns.

use vstd::prelude::*;

use crate::dtype::DType;
use crate::dtype::Nullability;
use crate::scalar::Scalar;

verus! {

/// Which rows of an array are not null.
#[derive(Debug, PartialEq, Eq)]
pub enum Validity {
    /// No row can be null.
    NonNullable,
    /// Rows can be null, and none is.
    AllValid,
    /// Every row is null.
    AllInvalid,
    /// A row is null where the flag is false.
    Array(Vec<bool>),
}

/// The validity of an array as a mathematical value.
pub enum ValidityModel {
    NonNullable,
    AllValid,
    AllInvalid,
    Array(Seq<bool>),
}

impl ValidityModel {
    /// Whether row `i` is not null.
    pub open spec fn is_valid(self, i: int) -> bool {
        match self {
            ValidityModel::NonNullable => true,
            ValidityModel::AllValid => true,
            ValidityModel::AllInvalid => false,
            ValidityModel::Array(flags) => flags[i],
        }
    }

    /// Whether the validity is that of an array with `len` rows.
    pub open spec fn covers(self, len: nat) -> bool {
        self matches ValidityModel::Array(flags) ==> flags.len() == len
    }

    /// Whether rows can be null.
    pub open spec fn nullability(self) -> Nullability {
        if self is NonNullable {
            Nullability::NonNullable
        } else {
            Nullability::Nullable
        }
    }

    /// The validity of the same rows in an array that may hold nulls if
    /// `other` does.
    pub open spec fn union_nullability(self, other: Nullability) -> Self {
        if self is NonNullable && other == Nullability::Nullable {
            ValidityModel::AllValid
        } else {
            self
        }
    }
}

impl View for Validity {
    type V = ValidityModel;

    open spec fn view(&self) -> ValidityModel {
        match self {
            Validity::NonNullable => ValidityModel::NonNullable,
            Validity::AllValid => ValidityModel::AllValid,
            Validity::AllInvalid => ValidityModel::AllInvalid,
            Validity::Array(flags) => ValidityModel::Array(flags@),
        }
    }
}

impl Clone for Validity {
    fn clone(&self) -> (copy: Self)
        ensures
            copy@ == self@,
    {
        match self {
            Validity::NonNullable => Validity::NonNullable,
            Validity::AllValid => Validity::AllValid,
            Validity::AllInvalid => Validity::AllInvalid,
            Validity::Array(flags) => {
                let copied = flags.clone();
                assert(copied@ =~= flags@);
                Validity::Array(copied)
            },
        }
    }
}

impl Validity {
    /// Whether row `i` is not null.
    pub fn is_valid(&self, i: usize) -> (b: bool)
        requires
            self@ matches ValidityModel::Array(flags) ==> i < flags.len(),
        ensures
            b == self@.is_valid(i as int),
    {
        match self {
            Validity::NonNullable => true,
            Validity::AllValid => true,
            Validity::AllInvalid => false,
            Validity::Array(flags) => flags[i],
        }
    }

    /// Whether this is the validity of an array with `len` rows.
    pub fn is_for(&self, len: usize) -> (b: bool)
        ensures
            b == self@.covers(len as nat),
    {
        match self {
            Validity::Array(flags) => flags.len() == len,
            _ => true,
        }
    }

    /// The validity of the same rows in an array that may hold nulls if
    /// `nullability` says so.
    pub fn union_nullability(self, nullability: Nullability) -> (v: Self)
        ensures
            v@ == self@.union_nullability(nullability),
    {
        match self {
            Validity::NonNullable => {
                if nullability == Nullability::Nullable {
                    Validity::AllValid
                } else {
                    Validity::NonNullable
                }
            },
            other => other,
        }
    }
}

/// An array of booleans. A null row has a bit too, which means nothing.
#[derive(Debug, PartialEq, Eq)]
pub struct BoolArray {
    pub bits: Vec<bool>,
    pub validity: Validity,
}

impl BoolArray {
    /// The validity is that of the rows.
    pub open spec fn wf(self) -> bool {
        self.validity@.covers(self.bits@.len())
    }

    /// The rows, null ones as `None`.
    pub open spec fn rows(self) -> Seq<Option<bool>> {
        Seq::new(
            self.bits@.len(),
            |i: int|
                if self.validity@.is_valid(i) {
                    Some(self.bits@[i])
                } else {
                    None
                },
        )
    }

    /// The type of the array.
    pub open spec fn dtype(self) -> DType {
        DType::Bool(self.validity@.nullability())
    }

    /// The row at `i`, `None` if it is null.
    pub fn row(&self, i: usize) -> (row: Option<bool>)
        requires
            self.wf(),
            i < self.bits@.len(),
        ensures
            row == self.rows()[i as int],
    {
        if self.validity.is_valid(i) {
            Some(self.bits[i])
        } else {
            None
        }
    }
}

/// An array of byte strings as a mathematical value. A null row has bytes too,
/// which mean nothing.
#[verifier::ext_equal]
pub struct Strings {
    pub dtype: DType,
    pub contents: Seq<Seq<u8>>,
    pub validity: ValidityModel,
}

impl Strings {
    /// The validity is that of the rows, and it fits the type.
    pub open spec fn wf(self) -> bool {
        &&& self.validity.covers(self.contents.len())
        &&& self.dtype.spec_nullability() == self.validity.nullability()
    }

    /// The rows, null ones as `None`.
    pub open spec fn rows(self) -> Seq<Option<Seq<u8>>> {
        Seq::new(
            self.contents.len(),
            |i: int|
                if self.validity.is_valid(i) {
                    Some(self.contents[i])
                } else {
                    None
                },
        )
    }
}

/// An array of byte strings. A null row has bytes too, which mean nothing.
#[derive(Debug, PartialEq, Eq)]
pub struct VarBinViewArray {
    pub dtype: DType,
    pub bytes: Vec<Vec<u8>>,
    pub validity: Validity,
}

impl VarBinViewArray {
    /// The number of rows.
    pub open spec fn spec_len(&self) -> usize {
        self.bytes.len()
    }

    /// The number of rows.
    #[verifier::when_used_as_spec(spec_len)]
    pub fn len(&self) -> (len: usize)
        ensures
            len == self.spec_len(),
    {
        self.bytes.len()
    }
}

impl View for VarBinViewArray {
    type V = Strings;

    open spec fn view(&self) -> Strings {
        Strings {
            dtype: self.dtype,
            contents: Seq::new(self.bytes@.len(), |i: int| self.bytes@[i]@),
            validity: self.validity@,
        }
    }
}

impl Clone for VarBinViewArray {
    fn clone(&self) -> (copy: Self)
        ensures
            copy@ == self@,
    {
        let mut bytes: Vec<Vec<u8>> = Vec::new();
        let mut i: usize = 0;
        while i < self.bytes.len()
            invariant
                i <= self.bytes@.len(),
                bytes@.len() == i,
                forall|j: int| 0 <= j < i ==> #[trigger] bytes@[j]@ == self.bytes@[j]@,
            decreases self.bytes.len() - i,
        {
            let row = self.bytes[i].clone();
            assert(row@ =~= self.bytes@[i as int]@);
            bytes.push(row);
            i = i + 1;
        }
        let copy = VarBinViewArray { dtype: self.dtype, bytes, validity: self.validity.clone() };
        assert(copy@.contents =~= self@.contents);
        copy
    }
}

/// The pattern operand of a match: one value for every row, or one for each.
#[derive(Debug, PartialEq, Eq)]
pub enum PatternArray {
    Constant { value: Scalar, len: usize },
    PerRow(VarBinViewArray),
}

impl PatternArray {
    /// The number of rows.
    pub open spec fn spec_len(&self) -> usize {
        match self {
            PatternArray::Constant { value, len } => *len,
            PatternArray::PerRow(array) => array.spec_len(),
        }
    }

    /// The number of rows.
    #[verifier::when_used_as_spec(spec_len)]
    pub fn len(&self) -> (len: usize)
        ensures
            len == self.spec_len(),
    {
        match self {
            PatternArray::Constant { value, len } => *len,
            PatternArray::PerRow(array) => array.len(),
        }
    }

    /// The type of the rows.
    pub open spec fn spec_dtype(&self) -> DType {
        match self {
            PatternArray::Constant { value, len } => value.spec_dtype(),
            PatternArray::PerRow(array) => array.dtype,
        }
    }

    /// The type of the rows.
    #[verifier::when_used_as_spec(spec_dtype)]
    pub fn dtype(&self) -> (dtype: DType)
        ensures
            dtype == self.spec_dtype(),
    {
        match self {
            PatternArray::Constant { value, len } => value.dtype(),
            PatternArray::PerRow(array) => array.dtype,
        }
    }

    /// The value of every row, if there is one.
    pub open spec fn constant(self) -> Option<Scalar> {
        match self {
            PatternArray::Constant { value, len } => Some(value),
            PatternArray::PerRow(_) => None,
        }
    }

    /// The value of every row, if there is one.
    pub fn as_constant(&self) -> (value: Option<&Scalar>)
        ensures
            value is Some <==> self.constant() is Some,
            value matches Some(v) ==> self.constant() == Some(*v),
    {
        match self {
            PatternArray::Constant { value, len } => Some(value),
            PatternArray::PerRow(_) => None,
        }
    }
}

} // verus!

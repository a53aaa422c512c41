//! Logical types.

use vstd::prelude::*;
use vstd::string::*;

verus! {

/// Whether values of a type may be null.
#[derive(Debug, Clone, Copy, PartialEq, Eq, Hash, Structural)]
pub enum Nullability {
    NonNullable,
    Nullable,
}

impl Nullability {
    /// The nullability of a result that is null where an input is.
    pub open spec fn of(nullable: bool) -> Self {
        if nullable {
            Nullability::Nullable
        } else {
            Nullability::NonNullable
        }
    }

    /// [`Nullability::Nullable`] if `nullable` is true.
    pub fn from_bool(nullable: bool) -> (n: Self)
        ensures
            n == Nullability::of(nullable),
    {
        if nullable {
            Nullability::Nullable
        } else {
            Nullability::NonNullable
        }
    }
}

/// Primitive number types.
#[derive(Debug, Clone, Copy, PartialEq, Eq, Hash, Structural)]
pub enum PType {
    U8,
    U16,
    U32,
    U64,
    I8,
    I16,
    I32,
    I64,
    F16,
    F32,
    F64,
}

impl PType {
    /// The name of the type.
    pub open spec fn spec_name(self) -> Seq<char> {
        match self {
            PType::U8 => "u8"@,
            PType::U16 => "u16"@,
            PType::U32 => "u32"@,
            PType::U64 => "u64"@,
            PType::I8 => "i8"@,
            PType::I16 => "i16"@,
            PType::I32 => "i32"@,
            PType::I64 => "i64"@,
            PType::F16 => "f16"@,
            PType::F32 => "f32"@,
            PType::F64 => "f64"@,
        }
    }

    /// The name of the type.
    pub fn name(self) -> (name: &'static str)
        ensures
            name@ == self.spec_name(),
    {
        match self {
            PType::U8 => "u8",
            PType::U16 => "u16",
            PType::U32 => "u32",
            PType::U64 => "u64",
            PType::I8 => "i8",
            PType::I16 => "i16",
            PType::I32 => "i32",
            PType::I64 => "i64",
            PType::F16 => "f16",
            PType::F32 => "f32",
            PType::F64 => "f64",
        }
    }
}

impl PType {
    /// The name of the variant.
    pub open spec fn spec_variant(self) -> Seq<char> {
        match self {
            PType::U8 => "U8"@,
            PType::U16 => "U16"@,
            PType::U32 => "U32"@,
            PType::U64 => "U64"@,
            PType::I8 => "I8"@,
            PType::I16 => "I16"@,
            PType::I32 => "I32"@,
            PType::I64 => "I64"@,
            PType::F16 => "F16"@,
            PType::F32 => "F32"@,
            PType::F64 => "F64"@,
        }
    }

    /// The name of the variant.
    pub fn variant(self) -> (name: &'static str)
        ensures
            name@ == self.spec_variant(),
    {
        match self {
            PType::U8 => "U8",
            PType::U16 => "U16",
            PType::U32 => "U32",
            PType::U64 => "U64",
            PType::I8 => "I8",
            PType::I16 => "I16",
            PType::I32 => "I32",
            PType::I64 => "I64",
            PType::F16 => "F16",
            PType::F32 => "F32",
            PType::F64 => "F64",
        }
    }
}

/// The logical type of an array or a scalar.
#[derive(Debug, Clone, Copy, PartialEq, Eq, Hash, Structural)]
pub enum DType {
    Null,
    Bool(Nullability),
    Primitive(PType, Nullability),
    Utf8(Nullability),
    Binary(Nullability),
}

impl DType {
    /// Whether this is a string type.
    #[verifier::allow_in_spec]
    pub fn is_utf8(&self) -> bool
        returns
            *self is Utf8,
    {
        match self {
            DType::Utf8(_) => true,
            _ => false,
        }
    }

    /// Whether values of the type may be null.
    pub open spec fn spec_is_nullable(&self) -> bool {
        match self {
            DType::Null => true,
            DType::Bool(n) | DType::Primitive(_, n) | DType::Utf8(n) | DType::Binary(n) => n
                == Nullability::Nullable,
        }
    }

    /// Whether values of the type may be null.
    #[verifier::when_used_as_spec(spec_is_nullable)]
    pub fn is_nullable(&self) -> (b: bool)
        ensures
            b == self.spec_is_nullable(),
    {
        match self {
            DType::Null => true,
            DType::Bool(n) => *n == Nullability::Nullable,
            DType::Primitive(_, n) => *n == Nullability::Nullable,
            DType::Utf8(n) => *n == Nullability::Nullable,
            DType::Binary(n) => *n == Nullability::Nullable,
        }
    }

    /// The nullability of the type.
    pub open spec fn spec_nullability(&self) -> Nullability {
        Nullability::of(self.spec_is_nullable())
    }

    /// The nullability of the type.
    #[verifier::when_used_as_spec(spec_nullability)]
    pub fn nullability(&self) -> (n: Nullability)
        ensures
            n == self.spec_nullability(),
    {
        Nullability::from_bool(self.is_nullable())
    }

    /// The primitive type, if this is one.
    pub open spec fn spec_ptype(&self) -> Option<PType> {
        match self {
            DType::Primitive(ptype, _) => Some(*ptype),
            _ => None,
        }
    }

    /// The primitive type, if this is one.
    #[verifier::when_used_as_spec(spec_ptype)]
    pub fn ptype(&self) -> (ptype: Option<PType>)
        ensures
            ptype == self.spec_ptype(),
    {
        match self {
            DType::Primitive(ptype, _) => Some(*ptype),
            _ => None,
        }
    }

    /// How the type is shown: its name, and a question mark if it is nullable.
    pub open spec fn display(self) -> Seq<char> {
        let name = match self {
            DType::Null => "null"@,
            DType::Bool(_) => "bool"@,
            DType::Primitive(ptype, _) => ptype.spec_name(),
            DType::Utf8(_) => "utf8"@,
            DType::Binary(_) => "binary"@,
        };
        if self !is Null && self.spec_is_nullable() {
            name + "?"@
        } else {
            name
        }
    }

    /// Writes the type the way it is shown.
    pub fn write(&self, out: &mut String)
        ensures
            final(out)@ == old(out)@ + self.display(),
    {
        let name = match self {
            DType::Null => "null",
            DType::Bool(_) => "bool",
            DType::Primitive(ptype, _) => ptype.name(),
            DType::Utf8(_) => "utf8",
            DType::Binary(_) => "binary",
        };
        out.append(name);
        let null = match self {
            DType::Null => true,
            _ => false,
        };
        if !null && self.is_nullable() {
            out.append("?");
            assert(out@ =~= old(out)@ + self.display());
        }
    }
}

} // verus!

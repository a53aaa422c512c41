//! Single values.

use vstd::prelude::*;
use vstd::string::*;

use crate::dtype::DType;
use crate::dtype::Nullability;
use crate::dtype::PType;
use crate::text::signed_decimal;
use crate::text::write_decimal;
use crate::text::write_signed_decimal;

verus! {

/// An integer of a primitive type.
#[derive(Debug, Clone, Copy, PartialEq, Eq, Hash, Structural)]
pub enum PValue {
    U8(u8),
    U16(u16),
    U32(u32),
    U64(u64),
    I8(i8),
    I16(i16),
    I32(i32),
    I64(i64),
}

impl PValue {
    /// The number.
    pub open spec fn value(self) -> int {
        match self {
            PValue::U8(v) => v as int,
            PValue::U16(v) => v as int,
            PValue::U32(v) => v as int,
            PValue::U64(v) => v as int,
            PValue::I8(v) => v as int,
            PValue::I16(v) => v as int,
            PValue::I32(v) => v as int,
            PValue::I64(v) => v as int,
        }
    }

    /// The type of the number.
    pub open spec fn spec_ptype(self) -> PType {
        match self {
            PValue::U8(_) => PType::U8,
            PValue::U16(_) => PType::U16,
            PValue::U32(_) => PType::U32,
            PValue::U64(_) => PType::U64,
            PValue::I8(_) => PType::I8,
            PValue::I16(_) => PType::I16,
            PValue::I32(_) => PType::I32,
            PValue::I64(_) => PType::I64,
        }
    }

    /// The type of the number.
    #[verifier::when_used_as_spec(spec_ptype)]
    pub fn ptype(self) -> (ptype: PType)
        ensures
            ptype == self.spec_ptype(),
    {
        match self {
            PValue::U8(_) => PType::U8,
            PValue::U16(_) => PType::U16,
            PValue::U32(_) => PType::U32,
            PValue::U64(_) => PType::U64,
            PValue::I8(_) => PType::I8,
            PValue::I16(_) => PType::I16,
            PValue::I32(_) => PType::I32,
            PValue::I64(_) => PType::I64,
        }
    }

    /// Writes the number.
    fn write(&self, out: &mut String)
        ensures
            final(out)@ == old(out)@ + signed_decimal(self.value()),
    {
        match *self {
            PValue::U8(v) => write_decimal(out, v as u64),
            PValue::U16(v) => write_decimal(out, v as u64),
            PValue::U32(v) => write_decimal(out, v as u64),
            PValue::U64(v) => write_decimal(out, v),
            PValue::I8(v) => write_signed_decimal(out, v as i64),
            PValue::I16(v) => write_signed_decimal(out, v as i64),
            PValue::I32(v) => write_signed_decimal(out, v as i64),
            PValue::I64(v) => write_signed_decimal(out, v),
        }
    }
}

/// A value with its type.
#[derive(Debug, PartialEq, Eq, Hash)]
pub enum Scalar {
    /// The null of a type.
    Null(DType),
    Bool(bool, Nullability),
    Primitive(PValue, Nullability),
    Utf8(String, Nullability),
}

impl Clone for Scalar {
    fn clone(&self) -> (copy: Self)
        ensures
            copy == *self,
    {
        match self {
            Scalar::Null(dtype) => Scalar::Null(*dtype),
            Scalar::Bool(b, n) => Scalar::Bool(*b, *n),
            Scalar::Primitive(v, n) => Scalar::Primitive(*v, *n),
            Scalar::Utf8(s, n) => Scalar::Utf8(s.clone(), *n),
        }
    }
}

impl Scalar {
    /// The type of the value.
    pub open spec fn spec_dtype(&self) -> DType {
        match self {
            Scalar::Null(dtype) => *dtype,
            Scalar::Bool(_, n) => DType::Bool(*n),
            Scalar::Primitive(v, n) => DType::Primitive(v.spec_ptype(), *n),
            Scalar::Utf8(_, n) => DType::Utf8(*n),
        }
    }

    /// The type of the value.
    #[verifier::when_used_as_spec(spec_dtype)]
    pub fn dtype(&self) -> (dtype: DType)
        ensures
            dtype == self.spec_dtype(),
    {
        match self {
            Scalar::Null(dtype) => *dtype,
            Scalar::Bool(_, n) => DType::Bool(*n),
            Scalar::Primitive(v, n) => DType::Primitive(v.ptype(), *n),
            Scalar::Utf8(_, n) => DType::Utf8(*n),
        }
    }

    /// Whether the value is null.
    #[verifier::allow_in_spec]
    pub fn is_null(&self) -> bool
        returns
            *self is Null,
    {
        match self {
            Scalar::Null(_) => true,
            _ => false,
        }
    }

    /// The text, if this is a string that is not null.
    pub open spec fn text(self) -> Option<Seq<char>> {
        match self {
            Scalar::Utf8(s, _) => Some(s@),
            _ => None,
        }
    }

    /// The text, if this is a string that is not null.
    pub fn as_text(&self) -> (text: Option<&str>)
        ensures
            text is Some <==> self.text() is Some,
            text matches Some(s) ==> self.text() == Some(s@),
    {
        match self {
            Scalar::Utf8(s, _) => Some(s.as_str()),
            _ => None,
        }
    }

    /// A string that cannot be null.
    pub fn utf8(text: &str) -> (scalar: Self)
        ensures
            scalar.text() == Some(text@),
            scalar.spec_dtype() == DType::Utf8(Nullability::NonNullable),
    {
        Scalar::Utf8(text.to_owned(), Nullability::NonNullable)
    }

    /// How the value is shown: text in quotes, a number with its type.
    pub open spec fn display(self) -> Seq<char> {
        match self {
            Scalar::Null(_) => "null"@,
            Scalar::Bool(b, _) => if b {
                "true"@
            } else {
                "false"@
            },
            Scalar::Primitive(v, _) => signed_decimal(v.value()) + v.spec_ptype().spec_name(),
            Scalar::Utf8(s, _) => "\""@ + s@ + "\""@,
        }
    }

    /// Writes the value the way it is shown.
    pub fn write(&self, out: &mut String)
        ensures
            final(out)@ == old(out)@ + self.display(),
    {
        match self {
            Scalar::Null(_) => out.append("null"),
            Scalar::Bool(b, _) => {
                if *b {
                    out.append("true")
                } else {
                    out.append("false")
                }
            },
            Scalar::Primitive(v, _) => {
                v.write(out);
                out.append(v.ptype().name());
                assert(out@ =~= old(out)@ + self.display());
            },
            Scalar::Utf8(s, _) => {
                out.append("\"");
                out.append(s.as_str());
                out.append("\"");
                assert(out@ =~= old(out)@ + self.display());
            },
        }
    }
}

} // verus!

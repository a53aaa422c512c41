//! What can go wrong.

use vstd::prelude::*;
use vstd::string::*;

use crate::dtype::DType;
use crate::dtype::PType;
use crate::text::decimal;
use crate::text::write_decimal;

verus! {

/// What can go wrong.
#[derive(Debug)]
pub enum Error {
    /// A match is asked for on a type that is no string type.
    InputDType(DType),
    /// A match is asked for with a pattern type that is no string type.
    PatternDType(DType),
    /// The array to match is no string array.
    InputArray(DType),
    /// The pattern array is no string array.
    PatternArray(DType),
    /// The pattern differs from row to row.
    PatternNotConstant,
    /// The pattern is no regular expression.
    InvalidPattern { pattern: String, reason: String },
    /// The encoded options are malformed.
    Decode(String),
    /// The codes of a dictionary are no integers.
    CodesPType(PType),
    /// A dictionary has more values than can be addressed.
    TooManyValues(u64),
    /// A range of rows reaches beyond its column.
    SplitOutOfBounds { end: u64, row_count: u64 },
}

impl Error {
    /// The message for a reader.
    pub open spec fn text(self) -> Seq<char> {
        match self {
            Error::InputDType(dtype) => "REGEX expression requires UTF8 input dtype, got "@
                + dtype.display(),
            Error::PatternDType(dtype) => "REGEX expression requires UTF8 pattern dtype, got "@
                + dtype.display(),
            Error::InputArray(dtype) => "regex_execute requires a UTF8 input array, got "@
                + dtype.display(),
            Error::PatternArray(dtype) => "regex_execute requires a UTF8 pattern, got "@
                + dtype.display(),
            Error::PatternNotConstant => "REGEX pattern must be a constant expression"@,
            Error::InvalidPattern { pattern, reason } => "Failed to compile regex pattern '"@
                + pattern@ + "': "@ + reason@,
            Error::Decode(reason) => reason@,
            Error::CodesPType(ptype) => "unexpected dict codes ptype "@ + ptype.spec_variant()
                + " for code-domain pruning"@,
            Error::TooManyValues(count) => "too many dictionary values: "@ + decimal(
                count as nat,
            ),
            Error::SplitOutOfBounds { end, row_count } => "split range ends at row "@ + decimal(
                end as nat,
            ) + " of "@ + decimal(row_count as nat),
        }
    }

    /// The message for a reader.
    pub fn to_string(&self) -> (text: String)
        ensures
            text@ == self.text(),
    {
        let mut text = String::new();
        match self {
            Error::InputDType(dtype) => {
                text.append("REGEX expression requires UTF8 input dtype, got ");
                dtype.write(&mut text);
            },
            Error::PatternDType(dtype) => {
                text.append("REGEX expression requires UTF8 pattern dtype, got ");
                dtype.write(&mut text);
            },
            Error::InputArray(dtype) => {
                text.append("regex_execute requires a UTF8 input array, got ");
                dtype.write(&mut text);
            },
            Error::PatternArray(dtype) => {
                text.append("regex_execute requires a UTF8 pattern, got ");
                dtype.write(&mut text);
            },
            Error::PatternNotConstant => {
                text.append("REGEX pattern must be a constant expression");
            },
            Error::InvalidPattern { pattern, reason } => {
                text.append("Failed to compile regex pattern '");
                text.append(pattern.as_str());
                text.append("': ");
                text.append(reason.as_str());
            },
            Error::Decode(reason) => {
                text.append(reason.as_str());
            },
            Error::CodesPType(ptype) => {
                text.append("unexpected dict codes ptype ");
                text.append(ptype.variant());
                text.append(" for code-domain pruning");
            },
            Error::TooManyValues(count) => {
                text.append("too many dictionary values: ");
                write_decimal(&mut text, *count);
            },
            Error::SplitOutOfBounds { end, row_count } => {
                text.append("split range ends at row ");
                write_decimal(&mut text, *end);
                text.append(" of ");
                write_decimal(&mut text, *row_count);
            },
        }
        assert(text@ =~= self.text());
        text
    }
}

} // verus!

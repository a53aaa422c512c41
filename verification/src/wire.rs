//! The encoded form of [`RegexOptions`]: a protobuf message with the boolean
//! fields `negated`, numbered one, and `case_insensitive`, numbered two.

use vstd::prelude::*;

use prost::encoding::DecodeContext;
use prost::encoding::WireType;

use crate::error::Error;
use crate::options::RegexOptions;

verus! {

/// The number of the field `negated`.
pub const NEGATED_TAG: u32 = 1;

/// The number of the field `case_insensitive`.
pub const CASE_INSENSITIVE_TAG: u32 = 2;

/// What `prost::encoding::decode_key` reads at the front of `bytes`: the number
/// of a field, its wire type and the bytes behind them, or the reason why there
/// is no field.
pub uninterp spec fn field_key(bytes: Seq<u8>) -> Result<(u32, u8, Seq<u8>), Seq<char>>;

/// What `prost::encoding::bool::merge` reads at the front of `bytes` for a field
/// of the given wire type: the value and the bytes behind it, or the reason why
/// there is none.
pub uninterp spec fn bool_field(wire_type: u8, bytes: Seq<u8>) -> Result<
    (bool, Seq<u8>),
    Seq<char>,
>;

/// The bytes behind a field that `prost::encoding::skip_field` passes over, or
/// the reason why there is no such field.
pub uninterp spec fn skipped_field(wire_type: u8, tag: u32, bytes: Seq<u8>) -> Result<
    Seq<u8>,
    Seq<char>,
>;

/// Calls `prost::encoding::bool::encode`. Trusted: for a field number of one
/// byte, the key and the value are appended, one byte each.
#[verifier::external_body]
fn encode_bool(tag: u32, value: bool, out: &mut Vec<u8>)
    requires
        1 <= tag <= 15,
    ensures
        final(out)@ == old(out)@ + seq![(tag * 8) as u8, if value {
            1u8
        } else {
            0u8
        }],
{
    prost::encoding::bool::encode(tag, &value, out)
}

/// Calls `prost::encoding::decode_key`. Trusted: the outcome is a function of
/// the bytes; at least one byte is read; and a key of one byte holds the field
/// number above its three lowest bits, which are one of six wire types.
#[verifier::external_body]
fn decode_key(bytes: &[u8]) -> (r: Result<(u32, u8, &[u8]), String>)
    ensures
        r is Ok == field_key(bytes@) is Ok,
        r matches Ok(key) ==> field_key(bytes@)->Ok_0 == (key.0, key.1, key.2@),
        r matches Err(reason) ==> field_key(bytes@)->Err_0 == reason@,
        r matches Ok(key) ==> key.2@.len() < bytes@.len(),
        bytes@.len() > 0 && bytes@[0] < 0x80 ==> (r is Ok == (bytes@[0] % 8 <= 5 && bytes@[0]
            >= 8)),
        bytes@.len() > 0 && bytes@[0] < 0x80 ==> (r matches Ok(key) ==> key.0 == bytes@[0] / 8
            && key.1 == bytes@[0] % 8 && key.2@ == bytes@.skip(1)),
{
    let mut rest = bytes;
    match prost::encoding::decode_key(&mut rest) {
        Ok((tag, wire_type)) => Ok((tag, wire_type as u8, rest)),
        Err(e) => Err(e.to_string()),
    }
}

/// Calls `prost::encoding::bool::merge`. Trusted: the outcome is a function of
/// the wire type and the bytes; no byte is added; and a value of one byte of
/// the varint wire type is true if it is not zero.
#[verifier::external_body]
fn decode_bool(wire_type: u8, bytes: &[u8]) -> (r: Result<(bool, &[u8]), String>)
    ensures
        r is Ok == bool_field(wire_type, bytes@) is Ok,
        r matches Ok(read) ==> bool_field(wire_type, bytes@)->Ok_0 == (read.0, read.1@),
        r matches Err(reason) ==> bool_field(wire_type, bytes@)->Err_0 == reason@,
        r matches Ok(read) ==> read.1@.len() <= bytes@.len(),
        wire_type == 0 && bytes@.len() > 0 && bytes@[0] < 0x80 ==> r is Ok,
        wire_type == 0 && bytes@.len() > 0 && bytes@[0] < 0x80 ==> (r matches Ok(read) ==> read.0
            == (bytes@[0] != 0) && read.1@ == bytes@.skip(1)),
{
    let wire_type = WireType::try_from(u64::from(wire_type)).map_err(|e| e.to_string())?;
    let mut value = false;
    let mut rest = bytes;
    match prost::encoding::bool::merge(wire_type, &mut value, &mut rest, DecodeContext::default()) {
        Ok(()) => Ok((value, rest)),
        Err(e) => Err(e.to_string()),
    }
}

/// Calls `prost::encoding::skip_field`. Trusted: the outcome is a function of
/// the wire type, the field number and the bytes, and no byte is added.
#[verifier::external_body]
fn skip_field(wire_type: u8, tag: u32, bytes: &[u8]) -> (r: Result<&[u8], String>)
    ensures
        r is Ok == skipped_field(wire_type, tag, bytes@) is Ok,
        r matches Ok(rest) ==> skipped_field(wire_type, tag, bytes@)->Ok_0 == rest@,
        r matches Err(reason) ==> skipped_field(wire_type, tag, bytes@)->Err_0 == reason@,
        r matches Ok(rest) ==> rest@.len() <= bytes@.len(),
{
    let wire_type = WireType::try_from(u64::from(wire_type)).map_err(|e| e.to_string())?;
    let mut rest = bytes;
    match prost::encoding::skip_field(wire_type, tag, &mut rest, DecodeContext::default()) {
        Ok(()) => Ok(rest),
        Err(e) => Err(e.to_string()),
    }
}

/// The encoded options: a field is written if it is set.
pub open spec fn encoded_options(options: RegexOptions) -> Seq<u8> {
    (if options.negated {
        seq![0x08u8, 0x01u8]
    } else {
        Seq::empty()
    }) + (if options.case_insensitive {
        seq![0x10u8, 0x01u8]
    } else {
        Seq::empty()
    })
}

/// The options that `bytes` encode, where fields that are not in `bytes` are
/// taken from `options`, and fields with other numbers are passed over.
pub open spec fn decoded_options(options: RegexOptions, bytes: Seq<u8>) -> Result<
    RegexOptions,
    Seq<char>,
>
    decreases bytes.len(),
{
    if bytes.len() == 0 {
        Ok(options)
    } else {
        match field_key(bytes) {
            Err(reason) => Err(reason),
            Ok((tag, wire_type, value)) => if tag == NEGATED_TAG {
                match bool_field(wire_type, value) {
                    Err(reason) => Err(reason),
                    Ok((negated, rest)) => if rest.len() < bytes.len() {
                        decoded_options(RegexOptions { negated, ..options }, rest)
                    } else {
                        arbitrary()
                    },
                }
            } else if tag == CASE_INSENSITIVE_TAG {
                match bool_field(wire_type, value) {
                    Err(reason) => Err(reason),
                    Ok((case_insensitive, rest)) => if rest.len() < bytes.len() {
                        decoded_options(RegexOptions { case_insensitive, ..options }, rest)
                    } else {
                        arbitrary()
                    },
                }
            } else {
                match skipped_field(wire_type, tag, value) {
                    Err(reason) => Err(reason),
                    Ok(rest) => if rest.len() < bytes.len() {
                        decoded_options(options, rest)
                    } else {
                        arbitrary()
                    },
                }
            },
        }
    }
}

/// Encodes the options.
pub fn encode_options(options: &RegexOptions) -> (bytes: Vec<u8>)
    ensures
        bytes@ == encoded_options(*options),
{
    let mut bytes: Vec<u8> = Vec::new();
    if options.negated {
        encode_bool(NEGATED_TAG, true, &mut bytes);
    }
    if options.case_insensitive {
        encode_bool(CASE_INSENSITIVE_TAG, true, &mut bytes);
    }
    assert(bytes@ =~= encoded_options(*options));
    bytes
}

/// Decodes options.
pub fn decode_options(bytes: &[u8]) -> (r: Result<RegexOptions, Error>)
    ensures
        match decoded_options(RegexOptions { negated: false, case_insensitive: false }, bytes@) {
            Ok(options) => r == Ok::<_, Error>(options),
            Err(reason) => r matches Err(Error::Decode(text)) && text@ == reason,
        },
        forall|options: RegexOptions|
            bytes@ == #[trigger] encoded_options(options) ==> r == Ok::<_, Error>(options),
{
    let mut options = RegexOptions { negated: false, case_insensitive: false };
    let ghost none_set = options;
    let mut rest = bytes;
    while rest.len() > 0
        invariant
            none_set == (RegexOptions { negated: false, case_insensitive: false }),
            decoded_options(none_set, bytes@) == decoded_options(options, rest@),
            forall|target: RegexOptions|
                bytes@ == #[trigger] encoded_options(target) ==> still_to_read(
                    target,
                    options,
                    rest@,
                ),
        decreases rest@.len(),
    {
        let ghost before = rest@;
        let ghost options_before = options;
        match decode_key(rest) {
            Err(reason) => {
                return Err(Error::Decode(reason));
            },
            Ok((tag, wire_type, value)) => {
                if tag == NEGATED_TAG {
                    match decode_bool(wire_type, value) {
                        Err(reason) => {
                            return Err(Error::Decode(reason));
                        },
                        Ok((negated, behind)) => {
                            options = RegexOptions { negated, ..options };
                            rest = behind;
                        },
                    }
                } else if tag == CASE_INSENSITIVE_TAG {
                    match decode_bool(wire_type, value) {
                        Err(reason) => {
                            return Err(Error::Decode(reason));
                        },
                        Ok((case_insensitive, behind)) => {
                            options = RegexOptions { case_insensitive, ..options };
                            rest = behind;
                        },
                    }
                } else {
                    match skip_field(wire_type, tag, value) {
                        Err(reason) => {
                            return Err(Error::Decode(reason));
                        },
                        Ok(behind) => {
                            rest = behind;
                        },
                    }
                }
            },
        }
        proof {
            assert forall|target: RegexOptions| bytes@ == #[trigger] encoded_options(
                target,
            ) implies still_to_read(target, options, rest@) by {
                assert(still_to_read(target, options_before, before));
                let rest_of = RegexOptions { negated: false, ..target };
                assert(before.skip(1).skip(1) =~= before.skip(2));
                if target.negated && before == encoded_options(target) {
                    assert(before.skip(2) =~= encoded_options(rest_of));
                } else {
                    assert(before.skip(2) =~= Seq::empty());
                }
            }
        }
    }
    Ok(options)
}

/// Whether reading `rest` turns `options` into `target`, where `rest` is the
/// end of an encoding of `target`.
spec fn still_to_read(target: RegexOptions, options: RegexOptions, rest: Seq<u8>) -> bool {
    ||| rest == encoded_options(target) && options == (RegexOptions {
        negated: false,
        case_insensitive: false,
    })
    ||| rest == encoded_options(RegexOptions { negated: false, ..target }) && options == (
    RegexOptions { negated: target.negated, case_insensitive: false })
    ||| rest.len() == 0 && options == target
}

} // verus!

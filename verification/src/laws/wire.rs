//! Laws of encoded options.

use vstd::prelude::*;

use crate::options::RegexOptions;
use crate::wire::bool_field;
use crate::wire::decoded_options;
use crate::wire::encoded_options;
use crate::wire::field_key;
use crate::wire::skipped_field;

verus! {

/// The encoded options: a field of number one, of the varint wire type and with
/// the value one, if the match is negated; then one of number two, if case does
/// not matter.
pub proof fn law_encoded_options(options: RegexOptions)
    ensures
        encoded_options(options) == match (options.negated, options.case_insensitive) {
            (false, false) => Seq::<u8>::empty(),
            (true, false) => seq![(1 * 8 + 0) as u8, 1u8],
            (false, true) => seq![(2 * 8 + 0) as u8, 1u8],
            (true, true) => seq![(1 * 8 + 0) as u8, 1u8, (2 * 8 + 0) as u8, 1u8],
        },
{
    assert(encoded_options(options) =~= match (options.negated, options.case_insensitive) {
        (false, false) => Seq::<u8>::empty(),
        (true, false) => seq![8u8, 1u8],
        (false, true) => seq![16u8, 1u8],
        (true, true) => seq![8u8, 1u8, 16u8, 1u8],
    });
}

/// Different options are encoded differently.
pub proof fn law_encoding_is_injective(a: RegexOptions, b: RegexOptions)
    requires
        encoded_options(a) == encoded_options(b),
    ensures
        a == b,
{
    law_encoded_options(a);
    law_encoded_options(b);
    if a.negated != b.negated || a.case_insensitive != b.case_insensitive {
        let (x, y) = (encoded_options(a), encoded_options(b));
        assert(x.len() == y.len());
        if x.len() > 0 {
            assert(x[0] == y[0]);
        }
    }
}

/// Decoding reads one field after the other: a field of number one sets the
/// negation, one of number two the case sensitivity, the last one of a number
/// counts, and a field of any other number is passed over. Where a field cannot
/// be read, decoding fails with the reason.
pub proof fn law_decoding_reads_fields(
    options: RegexOptions,
    bytes: Seq<u8>,
    tag: u32,
    wire_type: u8,
    value: Seq<u8>,
    flag: bool,
    rest: Seq<u8>,
    reason: Seq<char>,
)
    requires
        bytes.len() > 0,
        rest.len() < bytes.len(),
    ensures
        decoded_options(options, Seq::empty()) == Ok::<RegexOptions, Seq<char>>(options),
        field_key(bytes) == Err::<(u32, u8, Seq<u8>), Seq<char>>(reason) ==> decoded_options(
            options,
            bytes,
        ) == Err::<RegexOptions, Seq<char>>(reason),
        field_key(bytes) == Ok::<(u32, u8, Seq<u8>), Seq<char>>((tag, wire_type, value)) ==> {
            &&& tag == 1 && bool_field(wire_type, value) == Ok::<(bool, Seq<u8>), Seq<char>>(
                (flag, rest),
            ) ==> decoded_options(options, bytes) == decoded_options(
                RegexOptions { negated: flag, case_insensitive: options.case_insensitive },
                rest,
            )
            &&& tag == 2 && bool_field(wire_type, value) == Ok::<(bool, Seq<u8>), Seq<char>>(
                (flag, rest),
            ) ==> decoded_options(options, bytes) == decoded_options(
                RegexOptions { negated: options.negated, case_insensitive: flag },
                rest,
            )
            &&& (tag == 1 || tag == 2) && bool_field(wire_type, value) == Err::<
                (bool, Seq<u8>),
                Seq<char>,
            >(reason) ==> decoded_options(options, bytes) == Err::<RegexOptions, Seq<char>>(reason)
            &&& tag != 1 && tag != 2 && skipped_field(wire_type, tag, value) == Ok::<
                Seq<u8>,
                Seq<char>,
            >(rest) ==> decoded_options(options, bytes) == decoded_options(options, rest)
            &&& tag != 1 && tag != 2 && skipped_field(wire_type, tag, value) == Err::<
                Seq<u8>,
                Seq<char>,
            >(reason) ==> decoded_options(options, bytes) == Err::<RegexOptions, Seq<char>>(reason)
        },
{
}

} // verus!

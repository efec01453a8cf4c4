//! The percent codec under its longer, `url_`-prefixed names.
//!
//! Each function forwards to its counterpart in [`crate::url_encode`] and
//! carries the same contract; callers that use these spellings keep working.

use vstd::prelude::*;

use crate::error::DecodeError;
use crate::error::DecodeErrorV;
use crate::url_encode::spec_decode;
use crate::url_encode::spec_encodes_with;
use crate::url_encode::spec_escape_comma;

verus! {

/// Should the option codec escape this byte?  True for `,` and `%`.
pub fn escape_comma(byte: u8) -> (r: bool)
    ensures
        r == spec_escape_comma(byte),
{
    crate::url_encode::escape_comma(byte)
}

/// Append the encoding of `data` to `buffer`, escaping the bytes that
/// `should_escape` selects.
pub fn url_encode_append<F: Fn(u8) -> bool>(buffer: &mut Vec<u8>, data: &[u8], should_escape: F)
    requires
        forall|b: u8| #[trigger] call_requires(should_escape, (b,)),
    ensures
        old(buffer)@.is_prefix_of(final(buffer)@),
        spec_encodes_with(
            data@,
            final(buffer)@.skip(old(buffer)@.len() as int),
            |b: u8, e: bool| call_ensures(should_escape, (b,), e),
        ),
{
    crate::url_encode::encode_append(buffer, data, should_escape)
}

/// Encode `data`, escaping the bytes that `should_escape` selects.
pub fn url_encode<F: Fn(u8) -> bool>(data: &[u8], should_escape: F) -> (r: Vec<u8>)
    requires
        forall|b: u8| #[trigger] call_requires(should_escape, (b,)),
    ensures
        spec_encodes_with(data@, r@, |b: u8, e: bool| call_ensures(should_escape, (b,), e)),
{
    crate::url_encode::encode(data, should_escape)
}

/// Append the decoding of `data` to `buffer`.
pub fn url_decode_append(buffer: &mut Vec<u8>, data: &[u8]) -> (r: Result<(), DecodeError>)
    ensures
        old(buffer)@.is_prefix_of(final(buffer)@),
        match r {
            Ok(()) => spec_decode(data@) == Some(
                final(buffer)@.skip(old(buffer)@.len() as int),
            ),
            Err(e) => spec_decode(data@) is None && e@ == DecodeErrorV::Malformed,
        },
{
    crate::url_encode::decode_append(buffer, data)
}

/// Decode percent-escaped `data`.
pub fn url_decode(data: &[u8]) -> (r: Result<Vec<u8>, DecodeError>)
    ensures
        match r {
            Ok(v) => spec_decode(data@) == Some(v@),
            Err(e) => spec_decode(data@) is None && e@ == DecodeErrorV::Malformed,
        },
{
    crate::url_encode::decode(data)
}

/// Numeric value of an ASCII hexadecimal digit, `None` for any other byte.
pub fn u8_from_ascii_hex_digit(byte: u8) -> (r: Option<u8>)
    ensures
        r == if crate::url_encode::spec_is_hex_digit(byte) {
            Some(crate::url_encode::spec_hex_value(byte))
        } else {
            None::<u8>
        },
{
    crate::url_encode::u8_from_ascii_hex_digit(byte)
}

/// Upper-case ASCII hexadecimal digit for a value below 16, `None` otherwise.
pub fn u8_to_ascii_hex_digit(byte: u8) -> (r: Option<u8>)
    ensures
        r == if byte < 16 {
            Some(crate::url_encode::spec_hex_digit(byte))
        } else {
            None::<u8>
        },
{
    crate::url_encode::u8_to_ascii_hex_digit(byte)
}

} // verus!

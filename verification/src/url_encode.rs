//! Percent-style escaping of byte strings.
//!
//! The encoder replaces every byte that a caller-chosen predicate selects by
//! `%` followed by two upper-case hexadecimal digits; every other byte passes
//! through unchanged.  The decoder undoes exactly that: a `%` must be followed
//! by two hexadecimal digits (either case), anything else is an error.

use vstd::prelude::*;

use crate::error::DecodeError;
use crate::error::DecodeErrorV;

verus! {

/// True exactly for the bytes the option codec escapes: `,` (44) and `%` (37).
pub open spec fn spec_escape_comma(b: u8) -> bool {
    b == 44 || b == 37
}

/// The byte is an ASCII hexadecimal digit.
pub open spec fn spec_is_hex_digit(b: u8) -> bool {
    (48 <= b && b <= 57) || (65 <= b && b <= 70) || (97 <= b && b <= 102)
}

/// Numeric value of an ASCII hexadecimal digit.
pub open spec fn spec_hex_value(b: u8) -> u8
    recommends
        spec_is_hex_digit(b),
{
    if 48 <= b && b <= 57 {
        (b - 48) as u8
    } else if 65 <= b && b <= 70 {
        (b - 55) as u8
    } else {
        (b - 87) as u8
    }
}

/// Upper-case ASCII hexadecimal digit for a value below 16.
pub open spec fn spec_hex_digit(v: u8) -> u8
    recommends
        v < 16,
{
    if v < 10 {
        (48 + v) as u8
    } else {
        (55 + v) as u8
    }
}

/// Encoding of one byte: an escaped byte becomes `%XX`, any other byte
/// passes through as itself.
pub open spec fn spec_encode_byte(b: u8, escaped: bool) -> Seq<u8> {
    if escaped {
        seq![37u8, spec_hex_digit(b / 16), spec_hex_digit(b % 16)]
    } else {
        seq![b]
    }
}

/// Percent encoding with the fixed `,`/`%` escape set.
pub open spec fn spec_encode_comma(data: Seq<u8>) -> Seq<u8>
    decreases data.len(),
{
    if data.len() == 0 {
        Seq::empty()
    } else {
        spec_encode_byte(data[0], spec_escape_comma(data[0])) + spec_encode_comma(
            data.drop_first(),
        )
    }
}

/// `out` encodes `data`, where each byte's escape decision is some boolean
/// that the relation `r` admits for it.  With a deterministic `r` this pins
/// the output down completely (see `lemma_encodes_with_comma`).
pub open spec fn spec_encodes_with(data: Seq<u8>, out: Seq<u8>, r: spec_fn(u8, bool) -> bool) -> bool
    decreases data.len(),
{
    if data.len() == 0 {
        out.len() == 0
    } else {
        let b = data[0];
        ||| (r(b, false) && out.len() >= 1 && out[0] == b && spec_encodes_with(
            data.drop_first(),
            out.drop_first(),
            r,
        ))
        ||| (r(b, true) && out.len() >= 3 && out[0] == 37 && out[1] == spec_hex_digit(b / 16)
            && out[2] == spec_hex_digit(b % 16) && spec_encodes_with(
            data.drop_first(),
            out.skip(3),
            r,
        ))
    }
}

/// Percent decoding; `None` when some `%` is not followed by two hexadecimal
/// digits.
pub open spec fn spec_decode(data: Seq<u8>) -> Option<Seq<u8>>
    decreases data.len(),
{
    if data.len() == 0 {
        Some(Seq::empty())
    } else if data[0] == 37 {
        if data.len() >= 3 && spec_is_hex_digit(data[1]) && spec_is_hex_digit(data[2]) {
            match spec_decode(data.skip(3)) {
                Some(rest) => Some(
                    seq![(spec_hex_value(data[1]) * 16 + spec_hex_value(data[2])) as u8] + rest,
                ),
                None => None,
            }
        } else {
            None
        }
    } else {
        match spec_decode(data.drop_first()) {
            Some(rest) => Some(seq![data[0]] + rest),
            None => None,
        }
    }
}

/// Should the option codec escape this byte?  True for `,` and `%`.
pub fn escape_comma(byte: u8) -> (r: bool)
    ensures
        r == spec_escape_comma(byte),
{
    byte == 44 || byte == 37
}

/// Numeric value of an ASCII hexadecimal digit, `None` for any other byte.
pub fn u8_from_ascii_hex_digit(byte: u8) -> (r: Option<u8>)
    ensures
        r == if spec_is_hex_digit(byte) {
            Some(spec_hex_value(byte))
        } else {
            None::<u8>
        },
{
    if 48 <= byte && byte <= 57 {
        Some(byte - 48)
    } else if 97 <= byte && byte <= 102 {
        Some(byte - 97 + 10)
    } else if 65 <= byte && byte <= 70 {
        Some(byte - 65 + 10)
    } else {
        None
    }
}

/// Upper-case ASCII hexadecimal digit for a value below 16, `None` otherwise.
pub fn u8_to_ascii_hex_digit(byte: u8) -> (r: Option<u8>)
    ensures
        r == if byte < 16 {
            Some(spec_hex_digit(byte))
        } else {
            None::<u8>
        },
{
    if byte < 10 {
        Some(48 + byte)
    } else if byte < 16 {
        Some(65 + byte - 10)
    } else {
        None
    }
}

/// Extending an encoding by one more byte keeps it an encoding.
proof fn lemma_encodes_with_snoc(
    data: Seq<u8>,
    out: Seq<u8>,
    r: spec_fn(u8, bool) -> bool,
    b: u8,
    e: bool,
)
    requires
        spec_encodes_with(data, out, r),
        r(b, e),
    ensures
        spec_encodes_with(data.push(b), out + spec_encode_byte(b, e), r),
    decreases data.len(),
{
    let chunk = spec_encode_byte(b, e);
    if data.len() == 0 {
        assert(out.len() == 0);
        assert((out + chunk) =~= chunk);
        assert(data.push(b)[0] == b);
        assert(data.push(b).drop_first() =~= Seq::<u8>::empty());
        if e {
            assert((out + chunk).skip(3) =~= Seq::<u8>::empty());
            assert(spec_encodes_with(data.push(b).drop_first(), (out + chunk).skip(3), r));
        } else {
            assert((out + chunk).drop_first() =~= Seq::<u8>::empty());
            assert(spec_encodes_with(
                data.push(b).drop_first(),
                (out + chunk).drop_first(),
                r,
            ));
        }
        assert(spec_encodes_with(data.push(b), out + chunk, r));
    } else {
        let d0 = data[0];
        assert(data.push(b)[0] == d0);
        assert(data.push(b).drop_first() =~= data.drop_first().push(b));
        if r(d0, false) && out.len() >= 1 && out[0] == d0 && spec_encodes_with(
            data.drop_first(),
            out.drop_first(),
            r,
        ) {
            lemma_encodes_with_snoc(data.drop_first(), out.drop_first(), r, b, e);
            assert((out + chunk).drop_first() =~= out.drop_first() + chunk);
        } else {
            lemma_encodes_with_snoc(data.drop_first(), out.skip(3), r, b, e);
            assert((out + chunk).skip(3) =~= out.skip(3) + chunk);
        }
    }
}

/// When the relation only admits the `,`/`%` escape decision, the relational
/// encoding coincides with `spec_encode_comma`.
pub proof fn lemma_encodes_with_comma(data: Seq<u8>, out: Seq<u8>, r: spec_fn(u8, bool) -> bool)
    requires
        spec_encodes_with(data, out, r),
        forall|b: u8, e: bool| #[trigger] r(b, e) ==> e == spec_escape_comma(b),
    ensures
        out == spec_encode_comma(data),
    decreases data.len(),
{
    if data.len() == 0 {
    } else {
        let b = data[0];
        let chunk = spec_encode_byte(b, spec_escape_comma(b));
        if r(b, false) && out.len() >= 1 && out[0] == b && spec_encodes_with(
            data.drop_first(),
            out.drop_first(),
            r,
        ) {
            lemma_encodes_with_comma(data.drop_first(), out.drop_first(), r);
            assert(out =~= chunk + out.drop_first());
        } else {
            lemma_encodes_with_comma(data.drop_first(), out.skip(3), r);
            assert(out =~= chunk + out.skip(3));
        }
    }
}

/// Append the encoding of `data` to `buffer`, escaping the bytes that
/// `should_escape` selects.
pub fn encode_append<F: Fn(u8) -> bool>(buffer: &mut Vec<u8>, data: &[u8], should_escape: F)
    requires
        forall|b: u8| #[trigger] call_requires(should_escape, (b,)),
    ensures
        old(buffer)@.is_prefix_of(final(buffer)@),
        spec_encodes_with(
            data@,
            final(buffer)@.skip(old(buffer)@.len() as int),
            |b: u8, e: bool| call_ensures(should_escape, (b,), e),
        ),
{
    let ghost orig = buffer@;
    let mut i: usize = 0;
    while i < data.len()
        invariant
            i <= data@.len(),
            orig == old(buffer)@,
            orig.is_prefix_of(buffer@),
            forall|b: u8| #[trigger] call_requires(should_escape, (b,)),
            spec_encodes_with(
                data@.take(i as int),
                buffer@.skip(orig.len() as int),
                |bb: u8, ee: bool| call_ensures(should_escape, (bb,), ee),
            ),
        decreases data@.len() - i,
    {
        let ghost before = buffer@.skip(orig.len() as int);
        let b = data[i];
        let e = should_escape(b);
        if e {
            buffer.push(37);
            let hi = u8_to_ascii_hex_digit(b / 16).unwrap();
            let lo = u8_to_ascii_hex_digit(b % 16).unwrap();
            buffer.push(hi);
            buffer.push(lo);
        } else {
            buffer.push(b);
        }
        proof {
            lemma_encodes_with_snoc(
                data@.take(i as int),
                before,
                |bb: u8, ee: bool| call_ensures(should_escape, (bb,), ee),
                b,
                e,
            );
            assert(data@.take(i + 1 as int) =~= data@.take(i as int).push(b));
            assert(buffer@.skip(orig.len() as int) =~= before + spec_encode_byte(b, e));
        }
        i = i + 1;
    }
    proof {
        assert(data@.take(i as int) =~= data@);
    }
}

/// Encode `data`, escaping the bytes that `should_escape` selects.
pub fn encode<F: Fn(u8) -> bool>(data: &[u8], should_escape: F) -> (r: Vec<u8>)
    requires
        forall|b: u8| #[trigger] call_requires(should_escape, (b,)),
    ensures
        spec_encodes_with(data@, r@, |b: u8, e: bool| call_ensures(should_escape, (b,), e)),
{
    let mut buffer = Vec::new();
    encode_append(&mut buffer, data, should_escape);
    proof {
        assert(buffer@.skip(0) =~= buffer@);
    }
    buffer
}

/// Encode `data` with the fixed `,`/`%` escape set.
pub fn encode_comma(data: &[u8]) -> (r: Vec<u8>)
    ensures
        r@ == spec_encode_comma(data@),
{
    let r = encode(data, escape_comma);
    proof {
        lemma_encodes_with_comma(
            data@,
            r@,
            |b: u8, e: bool| call_ensures(escape_comma, (b,), e),
        );
    }
    r
}

/// Append the decoding of `data` to `buffer`.  On an error `buffer` keeps its
/// old contents as a prefix but may have grown by a partial decode.
pub fn decode_append(buffer: &mut Vec<u8>, data: &[u8]) -> (r: Result<(), DecodeError>)
    ensures
        old(buffer)@.is_prefix_of(final(buffer)@),
        match r {
            Ok(()) => spec_decode(data@) == Some(
                final(buffer)@.skip(old(buffer)@.len() as int),
            ),
            Err(e) => spec_decode(data@) is None && e@ == DecodeErrorV::Malformed,
        },
{
    let ghost orig = buffer@;
    let mut i: usize = 0;
    proof {
        assert(data@.skip(0) =~= data@);
    }
    while i < data.len()
        invariant
            i <= data@.len(),
            orig == old(buffer)@,
            orig.is_prefix_of(buffer@),
            spec_decode(data@) == match spec_decode(data@.skip(i as int)) {
                Some(t) => Some(buffer@.skip(orig.len() as int) + t),
                None => None::<Seq<u8>>,
            },
        decreases data@.len() - i,
    {
        let ghost s = data@.skip(i as int);
        let ghost delta = buffer@.skip(orig.len() as int);
        let byte = data[i];
        assert(s[0] == byte);
        if byte == 37 {
            if data.len() - i < 3 {
                assert(s.len() < 3);
                return Err(DecodeError::Malformed);
            }
            let high = match u8_from_ascii_hex_digit(data[i + 1]) {
                Some(v) => v,
                None => {
                    assert(s[1] == data@[i + 1]);
                    return Err(DecodeError::Malformed);
                },
            };
            let low = match u8_from_ascii_hex_digit(data[i + 2]) {
                Some(v) => v,
                None => {
                    assert(s[2] == data@[i + 2]);
                    return Err(DecodeError::Malformed);
                },
            };
            buffer.push(high * 16 + low);
            proof {
                assert(s[1] == data@[i + 1] && s[2] == data@[i + 2]);
                assert(s.skip(3) =~= data@.skip(i + 3 as int));
                let one = seq![
                    (spec_hex_value(data@[i + 1]) * 16 + spec_hex_value(data@[i + 2])) as u8,
                ];
                assert(buffer@.skip(orig.len() as int) =~= delta + one);
                match spec_decode(data@.skip(i + 3 as int)) {
                    Some(t) => {
                        assert((delta + (one + t)) =~= ((delta + one) + t));
                    },
                    None => {},
                }
            }
            i = i + 3;
        } else {
            buffer.push(byte);
            proof {
                assert(s.drop_first() =~= data@.skip(i + 1 as int));
                assert(buffer@.skip(orig.len() as int) =~= delta + seq![byte]);
                match spec_decode(data@.skip(i + 1 as int)) {
                    Some(t) => {
                        assert((delta + (seq![byte] + t)) =~= ((delta + seq![byte]) + t));
                    },
                    None => {},
                }
            }
            i = i + 1;
        }
    }
    proof {
        assert(data@.skip(i as int) =~= Seq::<u8>::empty());
        assert(buffer@.skip(orig.len() as int) + Seq::<u8>::empty() =~= buffer@.skip(
            orig.len() as int,
        ));
    }
    Ok(())
}

/// Decode percent-escaped `data`.
pub fn decode(data: &[u8]) -> (r: Result<Vec<u8>, DecodeError>)
    ensures
        match r {
            Ok(v) => spec_decode(data@) == Some(v@),
            Err(e) => spec_decode(data@) is None && e@ == DecodeErrorV::Malformed,
        },
{
    let mut buffer = Vec::new();
    match decode_append(&mut buffer, data) {
        Ok(()) => {
            proof {
                assert(buffer@.skip(0) =~= buffer@);
            }
            Ok(buffer)
        },
        Err(e) => Err(e),
    }
}

/// Decoding inverts encoding: the `,`/`%` escaped form of any byte string
/// decodes back to exactly that byte string.
pub proof fn lemma_decode_encode_comma(data: Seq<u8>)
    ensures
        spec_decode(spec_encode_comma(data)) == Some(data),
    decreases data.len(),
{
    if data.len() == 0 {
        assert(spec_encode_comma(data) =~= Seq::<u8>::empty());
    } else {
        let b = data[0];
        let rest = data.drop_first();
        let enc = spec_encode_comma(data);
        lemma_decode_encode_comma(rest);
        if spec_escape_comma(b) {
            assert(enc =~= seq![37u8, spec_hex_digit(b / 16), spec_hex_digit(b % 16)]
                + spec_encode_comma(rest));
            assert(enc.skip(3) =~= spec_encode_comma(rest));
            assert(b / 16 < 16 && b % 16 < 16);
            assert(spec_hex_value(spec_hex_digit(b / 16)) == b / 16);
            assert(spec_hex_value(spec_hex_digit(b % 16)) == b % 16);
            assert((b / 16) * 16 + b % 16 == b) by (nonlinear_arith);
            assert(seq![b] + rest =~= data);
        } else {
            assert(enc =~= seq![b] + spec_encode_comma(rest));
            assert(enc[0] == b && b != 37);
            assert(enc.drop_first() =~= spec_encode_comma(rest));
            assert(seq![b] + rest =~= data);
        }
    }
}

/// A byte string without `%` decodes to itself.
pub proof fn lemma_decode_plain(s: Seq<u8>)
    requires
        forall|k: int| 0 <= k < s.len() ==> (#[trigger] s[k]) != 37,
    ensures
        spec_decode(s) == Some(s),
    decreases s.len(),
{
    if s.len() == 0 {
        assert(s =~= Seq::<u8>::empty());
    } else {
        lemma_decode_plain(s.drop_first());
        assert(seq![s[0]] + s.drop_first() =~= s);
    }
}

/// The `,`/`%` escaped form of a byte string never contains a comma.
pub proof fn lemma_encode_comma_no_comma(data: Seq<u8>)
    ensures
        forall|i: int|
            0 <= i < spec_encode_comma(data).len() ==> spec_encode_comma(data)[i] != 44,
    decreases data.len(),
{
    if data.len() == 0 {
    } else {
        let b = data[0];
        lemma_encode_comma_no_comma(data.drop_first());
        assert(spec_encode_comma(data) =~= spec_encode_byte(b, spec_escape_comma(b))
            + spec_encode_comma(data.drop_first()));
        if spec_escape_comma(b) {
            assert(spec_hex_digit(b / 16) != 44 && spec_hex_digit(b % 16) != 44);
        }
    }
}

} // verus!

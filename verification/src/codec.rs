//! The wire codec: an ordered option list to and from one text blob.
//!
//! The encoded form is `name=value` pairs joined by single commas, in list
//! order.  Text values are percent-escaped so they may contain the list
//! delimiter; integer values are written in canonical decimal.  Decoding
//! splits on commas, drops empty segments, splits each segment on its first
//! `=`, percent-decodes the value, and parses it against the registry entry
//! found under the name; the first error aborts the whole decode.

use vstd::prelude::*;

use crate::error::DecodeError;
use crate::error::DecodeErrorV;
use crate::options::SetOption;
use crate::options::SetOptionV;
use crate::options::Value;
use crate::options::ValueV;
use crate::options::spec_find;
use crate::options::spec_i64_dec;
use crate::options::spec_options;
use crate::options::spec_option_valid;
use crate::options::spec_parse_name_value;
use crate::options::spec_result_view;
use crate::options::spec_value_kind;
use crate::options::spec_value_wf;
use crate::options::format_long;
use crate::options::lemma_i64_dec_shape;
use crate::options::lemma_parse_format_long;
use crate::options::lemma_registry_names;
use crate::url_encode::spec_decode;
use crate::url_encode::spec_encode_comma;
use crate::url_encode::lemma_decode_encode_comma;
use crate::url_encode::lemma_encode_comma_no_comma;

verus! {

/// The views of a sequence of options.
pub open spec fn opts_view(s: Seq<SetOption>) -> Seq<SetOptionV> {
    Seq::new(s.len(), |i: int| s[i]@)
}

/// Encoded form of one value: percent-escaped text, or canonical decimal.
pub open spec fn spec_encode_value(v: ValueV) -> Seq<u8> {
    match v {
        ValueV::Text(t) => spec_encode_comma(t),
        ValueV::Integer(n) => spec_i64_dec(n),
    }
}

/// Encoded form of one option: `name`, `=`, then the encoded value.
pub open spec fn spec_encode_option(o: SetOptionV) -> Seq<u8> {
    o.name + seq![61u8] + spec_encode_value(o.value)
}

/// Encoded form of an option list: the encoded options joined by commas.
pub open spec fn spec_serialize_options(l: Seq<SetOptionV>) -> Seq<u8>
    decreases l.len(),
{
    if l.len() == 0 {
        Seq::empty()
    } else if l.len() == 1 {
        spec_encode_option(l[0])
    } else {
        spec_serialize_options(l.drop_last()) + seq![44u8] + spec_encode_option(l.last())
    }
}

/// Split a byte string on commas.  Splitting the empty string gives one
/// empty segment, as splitting does in general: `n` commas give `n + 1`
/// segments.
pub open spec fn spec_split_commas(s: Seq<u8>) -> Seq<Seq<u8>>
    decreases s.len(),
{
    if s.len() == 0 {
        seq![Seq::<u8>::empty()]
    } else if s[0] == 44 {
        seq![Seq::<u8>::empty()] + spec_split_commas(s.drop_first())
    } else {
        let rest = spec_split_commas(s.drop_first());
        seq![seq![s[0]] + rest[0]] + rest.drop_first()
    }
}

/// Index of the first occurrence of `b` in `s` at or after `i`.
pub open spec fn spec_find_byte_from(s: Seq<u8>, b: u8, i: int) -> Option<int>
    decreases s.len() - i,
        when 0 <= i <= s.len()
{
    if i >= s.len() {
        None
    } else if s[i] == b {
        Some(i)
    } else {
        spec_find_byte_from(s, b, i + 1)
    }
}

/// Index of the first occurrence of `b` in `s`.
pub open spec fn spec_find_byte(s: Seq<u8>, b: u8) -> Option<int> {
    spec_find_byte_from(s, b, 0)
}

/// Decoding of one non-empty `name=value` segment.
pub open spec fn spec_decode_option(seg: Seq<u8>) -> Result<SetOptionV, DecodeErrorV> {
    match spec_find_byte(seg, 61) {
        None => Err(DecodeErrorV::Malformed),
        Some(p) => match spec_decode(seg.skip(p + 1)) {
            None => Err(DecodeErrorV::Malformed),
            Some(raw) => spec_parse_name_value(seg.take(p), raw),
        },
    }
}

/// Decoding of a sequence of segments: empty segments are dropped, every
/// other segment is decoded, and the first error aborts the whole decode.
pub open spec fn spec_parse_segments(segs: Seq<Seq<u8>>) -> Result<Seq<SetOptionV>, DecodeErrorV>
    decreases segs.len(),
{
    if segs.len() == 0 {
        Ok(Seq::empty())
    } else {
        match spec_parse_segments(segs.drop_last()) {
            Err(e) => Err(e),
            Ok(parsed) => if segs.last().len() == 0 {
                Ok(parsed)
            } else {
                match spec_decode_option(segs.last()) {
                    Err(e) => Err(e),
                    Ok(o) => Ok(parsed.push(o)),
                }
            },
        }
    }
}

/// Decoding of an encoded option list.
pub open spec fn spec_parse_options(s: Seq<u8>) -> Result<Seq<SetOptionV>, DecodeErrorV> {
    spec_parse_segments(spec_split_commas(s))
}

/// Splitting always yields at least one segment.
proof fn lemma_split_nonempty(s: Seq<u8>)
    ensures
        spec_split_commas(s).len() >= 1,
    decreases s.len(),
{
    if s.len() > 0 {
        lemma_split_nonempty(s.drop_first());
    }
}

/// A comma-free byte string splits into exactly itself.
proof fn lemma_split_no_comma(s: Seq<u8>)
    requires
        forall|k: int| 0 <= k < s.len() ==> (#[trigger] s[k]) != 44,
    ensures
        spec_split_commas(s) == seq![s],
    decreases s.len(),
{
    if s.len() == 0 {
        assert(spec_split_commas(s) =~~= seq![s]);
    } else {
        lemma_split_no_comma(s.drop_first());
        let rest = spec_split_commas(s.drop_first());
        assert(rest == seq![s.drop_first()]);
        assert(seq![s[0]] + rest[0] =~= s);
        assert(spec_split_commas(s) =~~= seq![s]);
    }
}

/// Splitting distributes over a comma: the segments of `a ++ [,] ++ b` are
/// the segments of `a` followed by the segments of `b`.
proof fn lemma_split_concat(a: Seq<u8>, b: Seq<u8>)
    ensures
        spec_split_commas(a + seq![44u8] + b) == spec_split_commas(a) + spec_split_commas(b),
    decreases a.len(),
{
    let s = a + seq![44u8] + b;
    if a.len() == 0 {
        assert(s[0] == 44);
        assert(s.drop_first() =~= b);
        assert(spec_split_commas(s) =~= seq![Seq::<u8>::empty()] + spec_split_commas(b));
        assert(spec_split_commas(a) =~= seq![Seq::<u8>::empty()]);
        assert(spec_split_commas(s) =~= spec_split_commas(a) + spec_split_commas(b));
    } else {
        lemma_split_concat(a.drop_first(), b);
        lemma_split_nonempty(a.drop_first());
        assert(s[0] == a[0]);
        assert(s.drop_first() =~= a.drop_first() + seq![44u8] + b);
        let r = spec_split_commas(a.drop_first() + seq![44u8] + b);
        let ra = spec_split_commas(a.drop_first());
        let rb = spec_split_commas(b);
        assert(r == ra + rb);
        if a[0] == 44 {
            assert(spec_split_commas(s) =~= seq![Seq::<u8>::empty()] + (ra + rb));
            assert(spec_split_commas(a) =~= seq![Seq::<u8>::empty()] + ra);
            assert((seq![Seq::<u8>::empty()] + ra) + rb =~= seq![Seq::<u8>::empty()] + (ra + rb));
        } else {
            assert(r[0] == ra[0]);
            assert(r.drop_first() =~= ra.drop_first() + rb);
            assert(spec_split_commas(s) =~= seq![seq![a[0]] + ra[0]] + (ra.drop_first() + rb));
            assert(spec_split_commas(a) =~= seq![seq![a[0]] + ra[0]] + ra.drop_first());
            assert((seq![seq![a[0]] + ra[0]] + ra.drop_first()) + rb =~= seq![seq![a[0]] + ra[0]]
                + (ra.drop_first() + rb));
        }
    }
}

/// An error in a prefix of the segments is the error of the whole sequence.
proof fn lemma_parse_segments_prefix_err(a: Seq<Seq<u8>>, b: Seq<Seq<u8>>, e: DecodeErrorV)
    requires
        spec_parse_segments(a) == Err::<Seq<SetOptionV>, DecodeErrorV>(e),
    ensures
        spec_parse_segments(a + b) == Err::<Seq<SetOptionV>, DecodeErrorV>(e),
    decreases b.len(),
{
    if b.len() == 0 {
        assert(a + b =~= a);
    } else {
        lemma_parse_segments_prefix_err(a, b.drop_last(), e);
        assert((a + b).drop_last() =~= a + b.drop_last());
    }
}

/// Append the encoded form of one option to `buffer`.
pub fn encode_option_append(buffer: &mut Vec<u8>, option: &SetOption)
    ensures
        final(buffer)@ == old(buffer)@ + spec_encode_option(option@),
{
    let ghost orig = buffer@;
    buffer.extend_from_slice(option.name.as_bytes());
    buffer.push(61);
    match &option.value {
        Value::Text(bytes) => {
            let mut enc = crate::url_encode::encode_comma(bytes.as_slice());
            buffer.append(&mut enc);
            proof {
                assert(buffer@ =~= orig + spec_encode_option(option@));
            }
        },
        Value::Integer(n) => {
            let mut digits = format_long(*n);
            buffer.append(&mut digits);
            proof {
                assert(buffer@ =~= orig + spec_encode_option(option@));
            }
        },
    }
}

/// Encode an option list into one text blob: `name=value` pairs joined by
/// commas, in list order.  The empty list encodes to the empty string.
pub fn serialize_options(options: &Vec<SetOption>) -> (r: Vec<u8>)
    ensures
        r@ == spec_serialize_options(opts_view(options@)),
{
    let mut buffer: Vec<u8> = Vec::new();
    let mut i: usize = 0;
    while i < options.len()
        invariant
            i <= options@.len(),
            buffer@ == spec_serialize_options(opts_view(options@.take(i as int))),
        decreases options@.len() - i,
    {
        if i > 0 {
            buffer.push(44);
        }
        encode_option_append(&mut buffer, &options[i]);
        proof {
            let prev = opts_view(options@.take(i as int));
            let cur = opts_view(options@.take(i + 1 as int));
            assert(cur.drop_last() =~= prev);
            assert(cur.last() == options@[i as int]@);
            if i == 0 {
                assert(buffer@ =~= spec_encode_option(cur[0]));
            } else {
                assert(buffer@ =~= spec_serialize_options(prev) + seq![44u8] + spec_encode_option(
                    cur.last(),
                ));
            }
        }
        i = i + 1;
    }
    proof {
        assert(options@.take(i as int) =~= options@);
    }
    buffer
}


/// Decode one `name=value` segment.
pub fn decode_option(data: &[u8]) -> (r: Result<SetOption, DecodeError>)
    ensures
        spec_result_view(r) == spec_decode_option(data@),
{
    let mut i: usize = 0;
    while i < data.len()
        invariant
            i <= data@.len(),
            spec_find_byte(data@, 61) == spec_find_byte_from(data@, 61, i as int),
        decreases data@.len() - i,
    {
        if data[i] == 61 {
            let name = &data[0..i];
            let value_enc = &data[i + 1..data.len()];
            proof {
                assert(spec_find_byte(data@, 61) == Some(i as int));
                assert(name@ =~= data@.take(i as int));
                assert(value_enc@ =~= data@.skip(i + 1 as int));
            }
            let raw = match crate::url_encode::decode(value_enc) {
                Ok(v) => v,
                Err(e) => {
                    return Err(e);
                },
            };
            return SetOption::parse_name_value_bytes(name, raw.as_slice());
        }
        i = i + 1;
    }
    Err(DecodeError::Malformed)
}

/// The segments of the prefix that the cursor at `p` has fully passed:
/// those before the comma at `p - 1`, or none at the very start.
pub open spec fn spec_prefix_segs(s: Seq<u8>, p: int) -> Seq<Seq<u8>> {
    if p == 0 {
        Seq::empty()
    } else {
        spec_split_commas(s.take(p - 1))
    }
}

/// Completing the comma-free segment that spans `p..j` extends the passed
/// prefix by exactly that segment.
proof fn lemma_split_segment_step(s: Seq<u8>, p: int, j: int)
    requires
        0 <= p <= j <= s.len(),
        p == 0 || s[p - 1] == 44,
        forall|k: int| p <= k < j ==> (#[trigger] s[k]) != 44,
    ensures
        spec_split_commas(s.take(j)) == spec_prefix_segs(s, p) + seq![s.subrange(p, j)],
{
    let seg = s.subrange(p, j);
    assert(forall|k: int| 0 <= k < seg.len() ==> (#[trigger] seg[k]) != 44);
    lemma_split_no_comma(seg);
    if p == 0 {
        assert(s.take(j) =~= seg);
        assert(spec_prefix_segs(s, p) + seq![seg] =~= seq![seg]);
    } else {
        assert(s.take(p - 1) + seq![44u8] + seg =~= s.take(j));
        lemma_split_concat(s.take(p - 1), seg);
    }
}

/// Parse an encoded option list.  Empty segments are tolerated; the first
/// error aborts the whole parse.
pub fn parse_options(data: &[u8]) -> (r: Result<Vec<SetOption>, DecodeError>)
    ensures
        match (r, spec_parse_options(data@)) {
            (Ok(v), Ok(sv)) => opts_view(v@) == sv,
            (Err(e), Err(ev)) => e@ == ev,
            _ => false,
        },
{
    let mut acc: Vec<SetOption> = Vec::new();
    let mut seg_start: usize = 0;
    let mut i: usize = 0;
    proof {
        assert(opts_view(acc@) =~= Seq::<SetOptionV>::empty());
    }
    while i < data.len()
        invariant
            seg_start <= i <= data@.len(),
            seg_start == 0 || data@[seg_start - 1] == 44,
            forall|k: int| seg_start <= k < i ==> (#[trigger] data@[k]) != 44,
            spec_parse_segments(spec_prefix_segs(data@, seg_start as int)) == Ok::<
                Seq<SetOptionV>,
                DecodeErrorV,
            >(opts_view(acc@)),
        decreases data@.len() - i,
    {
        if data[i] == 44 {
            let ghost seg = data@.subrange(seg_start as int, i as int);
            let ghost prefix = spec_prefix_segs(data@, seg_start as int);
            proof {
                lemma_split_segment_step(data@, seg_start as int, i as int);
                assert((prefix + seq![seg]).drop_last() =~= prefix);
                assert((prefix + seq![seg]).last() == seg);
            }
            if i > seg_start {
                let segment = &data[seg_start..i];
                assert(segment@ == seg);
                match decode_option(segment) {
                    Ok(o) => {
                        let ghost before = opts_view(acc@);
                        acc.push(o);
                        proof {
                            assert(opts_view(acc@) =~= before.push(o@));
                        }
                    },
                    Err(e) => {
                        proof {
                            assert(spec_parse_segments(spec_split_commas(data@.take(i as int)))
                                == Err::<Seq<SetOptionV>, DecodeErrorV>(e@));
                            lemma_split_concat(data@.take(i as int), data@.skip(i + 1 as int));
                            assert(data@.take(i as int) + seq![44u8] + data@.skip(i + 1 as int)
                                =~= data@);
                            lemma_parse_segments_prefix_err(
                                spec_split_commas(data@.take(i as int)),
                                spec_split_commas(data@.skip(i + 1 as int)),
                                e@,
                            );
                        }
                        return Err(e);
                    },
                }
            }
            seg_start = i + 1;
        }
        i = i + 1;
    }
    let ghost seg = data@.subrange(seg_start as int, data@.len() as int);
    let ghost prefix = spec_prefix_segs(data@, seg_start as int);
    proof {
        lemma_split_segment_step(data@, seg_start as int, data@.len() as int);
        assert(data@.take(data@.len() as int) =~= data@);
        assert((prefix + seq![seg]).drop_last() =~= prefix);
        assert((prefix + seq![seg]).last() == seg);
    }
    if data.len() > seg_start {
        let segment = &data[seg_start..data.len()];
        assert(segment@ == seg);
        match decode_option(segment) {
            Ok(o) => {
                let ghost before = opts_view(acc@);
                acc.push(o);
                proof {
                    assert(opts_view(acc@) =~= before.push(o@));
                }
            },
            Err(e) => {
                return Err(e);
            },
        }
    }
    Ok(acc)
}


/// The first occurrence of `x` in `a ++ [x] ++ c` is at `a.len()` when `a`
/// itself holds no `x`.
proof fn lemma_find_byte_concat(a: Seq<u8>, x: u8, c: Seq<u8>)
    requires
        forall|k: int| 0 <= k < a.len() ==> (#[trigger] a[k]) != x,
    ensures
        spec_find_byte(a + seq![x] + c, x) == Some(a.len() as int),
{
    let s = a + seq![x] + c;
    assert forall|i: int| 0 <= i <= a.len() implies spec_find_byte_from(s, x, i) == Some(
        a.len() as int,
    ) by {
        lemma_find_byte_concat_aux(a, x, c, a.len() - i);
    }
}

/// Helper for `lemma_find_byte_concat`: induction on the distance left.
proof fn lemma_find_byte_concat_aux(a: Seq<u8>, x: u8, c: Seq<u8>, d: int)
    requires
        forall|k: int| 0 <= k < a.len() ==> (#[trigger] a[k]) != x,
        0 <= d <= a.len(),
    ensures
        spec_find_byte_from(a + seq![x] + c, x, a.len() - d) == Some(a.len() as int),
    decreases d,
{
    let s = a + seq![x] + c;
    let i = a.len() - d;
    assert(s[a.len() as int] == x);
    if d == 0 {
    } else {
        assert(s[i as int] == a[i as int]);
        lemma_find_byte_concat_aux(a, x, c, d - 1);
    }
}

/// The encoded form of a valid option holds no comma and is never empty.
proof fn lemma_encode_option_shape(o: SetOptionV)
    requires
        spec_option_valid(o),
    ensures
        spec_encode_option(o).len() > 0,
        forall|k: int|
            0 <= k < spec_encode_option(o).len() ==> (#[trigger] spec_encode_option(o)[k]) != 44,
{
    lemma_registry_names();
    let i = choose|i: int|
        0 <= i < spec_options().len() && (#[trigger] spec_options()[i]).name == o.name
            && spec_options()[i].option == o.option && spec_options()[i].kind == spec_value_kind(
            o.value,
        ) && spec_value_wf(o.value);
    let enc = spec_encode_option(o);
    let venc = spec_encode_value(o.value);
    match o.value {
        ValueV::Text(t) => {
            lemma_encode_comma_no_comma(t);
        },
        ValueV::Integer(n) => {
            lemma_i64_dec_shape(n);
        },
    }
    assert(enc =~= o.name + seq![61u8] + venc);
    assert forall|k: int| 0 <= k < enc.len() implies (#[trigger] enc[k]) != 44 by {
        if k < o.name.len() {
            assert(enc[k] == o.name[k]);
        } else if k == o.name.len() {
            assert(enc[k] == 61);
        } else {
            assert(enc[k] == venc[k - o.name.len() - 1]);
        }
    }
}

/// Decoding one encoded option recovers exactly it.
proof fn lemma_decode_option_encode(o: SetOptionV)
    requires
        spec_option_valid(o),
    ensures
        spec_decode_option(spec_encode_option(o)) == Ok::<SetOptionV, DecodeErrorV>(o),
{
    lemma_registry_names();
    let i = choose|i: int|
        0 <= i < spec_options().len() && (#[trigger] spec_options()[i]).name == o.name
            && spec_options()[i].option == o.option && spec_options()[i].kind == spec_value_kind(
            o.value,
        ) && spec_value_wf(o.value);
    let enc = spec_encode_option(o);
    let venc = spec_encode_value(o.value);
    lemma_find_byte_concat(o.name, 61, venc);
    assert(enc =~= (o.name + seq![61u8]) + venc);
    assert(spec_find_byte(enc, 61) == Some(o.name.len() as int));
    let p = o.name.len() as int;
    assert(enc.take(p) =~= o.name);
    assert(enc.skip(p + 1) =~= venc);
    match o.value {
        ValueV::Text(t) => {
            lemma_decode_encode_comma(t);
            assert(spec_decode(venc) == Some(t));
        },
        ValueV::Integer(n) => {
            lemma_i64_dec_shape(n);
            assert(forall|k: int| 0 <= k < venc.len() ==> (#[trigger] venc[k]) != 37);
            crate::url_encode::lemma_decode_plain(venc);
            lemma_parse_format_long(n);
        },
    }
    assert(spec_find(o.name) == Some(i));
}

/// Decoding inverts encoding: an option list in which every entry pairs a
/// registry entry with a well-formed value of that entry's kind comes back
/// from `decode(encode(list))` exactly, in the same order.
pub proof fn lemma_options_round_trip(l: Seq<SetOptionV>)
    requires
        forall|i: int| 0 <= i < l.len() ==> spec_option_valid(#[trigger] l[i]),
    ensures
        spec_parse_options(spec_serialize_options(l)) == Ok::<Seq<SetOptionV>, DecodeErrorV>(l),
    decreases l.len(),
{
    assert(spec_parse_segments(Seq::<Seq<u8>>::empty()) == Ok::<Seq<SetOptionV>, DecodeErrorV>(
        Seq::<SetOptionV>::empty(),
    ));
    if l.len() == 0 {
        let s = spec_serialize_options(l);
        assert(s =~= Seq::<u8>::empty());
        assert(spec_split_commas(s) =~~= seq![Seq::<u8>::empty()]);
        assert(spec_split_commas(s).drop_last() =~= Seq::<Seq<u8>>::empty());
        assert(l =~= Seq::<SetOptionV>::empty());
        assert(spec_parse_segments(spec_split_commas(s)) == Ok::<Seq<SetOptionV>, DecodeErrorV>(l));
    } else if l.len() == 1 {
        let o = l[0];
        let s = spec_serialize_options(l);
        assert(s == spec_encode_option(o));
        lemma_encode_option_shape(o);
        lemma_split_no_comma(s);
        lemma_decode_option_encode(o);
        let segs = spec_split_commas(s);
        assert(segs == seq![s]);
        assert(segs.drop_last() =~= Seq::<Seq<u8>>::empty());
        assert(segs.last() == s);
        assert(Seq::<SetOptionV>::empty().push(o) =~= l);
    } else {
        let rest = l.drop_last();
        let o = l.last();
        lemma_options_round_trip(rest);
        lemma_encode_option_shape(o);
        lemma_decode_option_encode(o);
        let a = spec_serialize_options(rest);
        let eo = spec_encode_option(o);
        let s = spec_serialize_options(l);
        assert(s == a + seq![44u8] + eo);
        lemma_split_concat(a, eo);
        lemma_split_no_comma(eo);
        let segs = spec_split_commas(s);
        assert(segs == spec_split_commas(a) + seq![eo]);
        assert(segs.drop_last() =~= spec_split_commas(a));
        assert(segs.last() == eo);
        assert(rest.push(o) =~= l);
    }
}

} // verus!

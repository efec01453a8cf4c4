//! The option registry: the fixed table of settable curl options, lookup by
//! name, and construction of concrete option values.

use vstd::prelude::*;
use vstd::string::StrSliceExecFns;
use vstd::string::StringSliceAdditionalSpecFns;

use crate::error::DecodeError;
use crate::error::DecodeErrorV;

verus! {

/// The two kinds of values a curl option can carry.
#[derive(Clone, Copy, Debug, PartialEq, Eq, Structural)]
pub enum Kind {
    /// A byte string without an embedded NUL byte.
    Text,
    /// A signed platform `long`.
    Integer,
}

/// A concrete value for a curl option.
#[derive(Debug, PartialEq)]
pub enum Value {
    /// Bytes of a text value; well-formed values hold no NUL byte.
    Text(Vec<u8>),
    /// An integer value.
    Integer(i64),
}

/// Mathematical model of `Value`.
pub enum ValueV {
    Text(Seq<u8>),
    Integer(i64),
}

impl View for Value {
    type V = ValueV;

    open spec fn view(&self) -> ValueV {
        match self {
            Value::Text(bytes) => ValueV::Text(bytes@),
            Value::Integer(n) => ValueV::Integer(*n),
        }
    }
}

/// The kind a value belongs to.
pub open spec fn spec_value_kind(v: ValueV) -> Kind {
    match v {
        ValueV::Text(_) => Kind::Text,
        ValueV::Integer(_) => Kind::Integer,
    }
}

/// A well-formed value: text holds no NUL byte.
pub open spec fn spec_value_wf(v: ValueV) -> bool {
    match v {
        ValueV::Text(bytes) => !bytes.contains(0),
        ValueV::Integer(_) => true,
    }
}

impl Clone for Value {
    fn clone(&self) -> (res: Self)
        ensures
            res@ == self@,
    {
        match self {
            Value::Text(bytes) => {
                let mut copy: Vec<u8> = Vec::new();
                copy.extend_from_slice(bytes.as_slice());
                proof {
                    assert(copy@ =~= bytes@);
                }
                Value::Text(copy)
            },
            Value::Integer(n) => Value::Integer(*n),
        }
    }
}

impl Clone for SetOption {
    fn clone(&self) -> (res: Self)
        ensures
            res@ == self@,
    {
        SetOption { name: self.name, option: self.option, value: self.value.clone() }
    }
}

impl Value {
    /// The kind of this value.
    pub fn kind(&self) -> (r: Kind)
        ensures
            r == spec_value_kind(self@),
    {
        match self {
            Value::Text(_) => Kind::Text,
            Value::Integer(_) => Kind::Integer,
        }
    }
}

impl Kind {
    /// A short human-readable word for the kind.
    pub fn describe(&self) -> (r: &'static str)
        ensures
            self is Text ==> r@ == ("string")@,
            self is Integer ==> r@ == ("integer")@,
    {
        match self {
            Kind::Text => "string",
            Kind::Integer => "integer",
        }
    }
}

/// Metadata for one curl option the registry knows.
#[derive(Clone, Copy, Debug)]
pub struct Meta {
    /// The human-friendly name used on the command line and on the wire.
    pub name: &'static str,
    /// The name the curl library documents for the option.
    pub curl_name: &'static str,
    /// The numeric identifier the curl library gives the option.
    pub option: u32,
    /// The kind of value the option takes.
    pub kind: Kind,
    /// A description of the option for humans.
    pub help: &'static str,
}

/// Mathematical model of `Meta`.  The name is kept as its bytes, which is
/// what lookup and the wire format work on.
pub struct MetaV {
    pub name: Seq<u8>,
    pub curl_name: Seq<char>,
    pub option: u32,
    pub kind: Kind,
    pub help: Seq<char>,
}

impl View for Meta {
    type V = MetaV;

    open spec fn view(&self) -> MetaV {
        MetaV {
            name: self.name.spec_bytes(),
            curl_name: self.curl_name@,
            option: self.option@,
            kind: self.kind,
            help: self.help@,
        }
    }
}

/// A curl option together with the value to set for it.
#[derive(Debug, PartialEq)]
pub struct SetOption {
    /// The registry name of the option.
    pub name: &'static str,
    /// The numeric identifier the curl library gives the option.
    pub option: u32,
    /// The value to set.
    pub value: Value,
}

/// Mathematical model of `SetOption`.
pub struct SetOptionV {
    pub name: Seq<u8>,
    pub option: u32,
    pub value: ValueV,
}

impl View for SetOption {
    type V = SetOptionV;

    open spec fn view(&self) -> SetOptionV {
        SetOptionV { name: self.name.spec_bytes(), option: self.option@, value: self.value@ }
    }
}

/// A `SetOption` is valid when it pairs a registry entry's name and numeric
/// identifier with a well-formed value of that entry's kind.
pub open spec fn spec_option_valid(o: SetOptionV) -> bool {
    exists|i: int|
        0 <= i < spec_options().len() && (#[trigger] spec_options()[i]).name == o.name
            && spec_options()[i].option == o.option && spec_options()[i].kind == spec_value_kind(
            o.value,
        ) && spec_value_wf(o.value)
}

/// The registry: every option the launcher can set, in its fixed order.
pub open spec fn spec_options() -> Seq<MetaV> {
    seq![
        (MetaV {
            name: ("verbose").spec_bytes(),
            curl_name: ("CURLOPT_VERBOSE")@,
            option: 41u32,
            kind: Kind::Integer,
            help: ("CURLOPT_VERBOSE: Enable verbose output from CURL.")@,
        }),
        (MetaV {
            name: ("timeout").spec_bytes(),
            curl_name: ("CURLOPT_TIMEOUT_MS")@,
            option: 155u32,
            kind: Kind::Integer,
            help: ("CURLOPT_TIMEOUT_MS: Timeout in milliseconds for the whole request.")@,
        }),
        (MetaV {
            name: ("connect-timeout").spec_bytes(),
            curl_name: ("CURLOPT_CONNECTTIMEOUT_MS")@,
            option: 156u32,
            kind: Kind::Integer,
            help: (
            "CURLOPT_CONNECTTIMEOUT_MS: Timeout in milliseconds for the connection phase of the request."
            )@,
        }),
        (MetaV {
            name: ("proxy").spec_bytes(),
            curl_name: ("CURLOPT_PROXY")@,
            option: 10004u32,
            kind: Kind::Text,
            help: ("CURLOPT_PROXY: Set the proxy to use.")@,
        }),
        (MetaV {
            name: ("proxy-port").spec_bytes(),
            curl_name: ("CURLOPT_PROXYPORT")@,
            option: 59u32,
            kind: Kind::Integer,
            help: ("CURLOPT_PROXYPORT: Set the proxy port.")@,
        }),
        (MetaV {
            name: ("proxy-type").spec_bytes(),
            curl_name: ("CURLOPT_PROXYTYPE")@,
            option: 101u32,
            kind: Kind::Text,
            help: ("CURLOPT_PROXYTYPE: Set the proxy type.")@,
        }),
        (MetaV {
            name: ("proxy-tunnel").spec_bytes(),
            curl_name: ("CURLOPT_HTTPPROXYTUNNEL")@,
            option: 61u32,
            kind: Kind::Integer,
            help: (
            "CURLOPT_HTTPPROXYTUNNEL: Use CONNECT to tunnel through a configured HTTP proxy."
            )@,
        }),
        (MetaV {
            name: ("no-proxy").spec_bytes(),
            curl_name: ("CURLOPT_NOPROXY")@,
            option: 10177u32,
            kind: Kind::Text,
            help: ("CURLOPT_NOPROXY: Contact these hosts directly, bypassing the proxy.")@,
        }),
        (MetaV {
            name: ("client-cert").spec_bytes(),
            curl_name: ("CURLOPT_SSLCERT")@,
            option: 10025u32,
            kind: Kind::Text,
            help: ("CURLOPT_SSLCERT: Use a client certificate for requests.")@,
        }),
        (MetaV {
            name: ("client-cert-type").spec_bytes(),
            curl_name: ("CURLOPT_SSLCERTTYPE")@,
            option: 10086u32,
            kind: Kind::Text,
            help: ("CURLOPT_SSLCERTTYPE: Specify the type of the client certificate.")@,
        }),
        (MetaV {
            name: ("client-key").spec_bytes(),
            curl_name: ("CURLOPT_SSLKEY")@,
            option: 10087u32,
            kind: Kind::Text,
            help: (
            "CURLOPT_SSLKEY: Use a separate file as key with the client certificate."
            )@,
        }),
        (MetaV {
            name: ("client-key-type").spec_bytes(),
            curl_name: ("CURLOPT_SSLKEYTYPE")@,
            option: 10088u32,
            kind: Kind::Text,
            help: ("CURLOPT_SSLKEYTYPE: Specify the type of the client key.")@,
        }),
    ]
}

/// The numeric option identifiers of the registry, in registry order.
pub open spec fn spec_option_ids() -> Seq<u32> {
    seq![41u32, 155u32, 156u32, 10004u32, 59u32, 101u32, 61u32, 10177u32, 10025u32, 10086u32, 10087u32, 10088u32]
}

/// Relies on the curl bindings' `CURLOPT_*` constants: the numeric
/// identifiers, in registry order, of the options the registry names.
#[verifier::external_body]
fn curl_option_ids() -> (r: Vec<u32>)
    ensures
        r@ == spec_option_ids(),
{
    vec![
        curl_sys::CURLOPT_VERBOSE,
        curl_sys::CURLOPT_TIMEOUT_MS,
        curl_sys::CURLOPT_CONNECTTIMEOUT_MS,
        curl_sys::CURLOPT_PROXY,
        curl_sys::CURLOPT_PROXYPORT,
        curl_sys::CURLOPT_PROXYTYPE,
        curl_sys::CURLOPT_HTTPPROXYTUNNEL,
        curl_sys::CURLOPT_NOPROXY,
        curl_sys::CURLOPT_SSLCERT,
        curl_sys::CURLOPT_SSLCERTTYPE,
        curl_sys::CURLOPT_SSLKEY,
        curl_sys::CURLOPT_SSLKEYTYPE,
    ]
}

/// The registry as a vector, in its fixed order.
pub fn options() -> (r: Vec<Meta>)
    ensures
        r@.len() == spec_options().len(),
        forall|i: int| 0 <= i < r@.len() ==> (#[trigger] r@[i])@ == spec_options()[i],
{
    let ids = curl_option_ids();
    let mut v: Vec<Meta> = Vec::new();
    v.push(
        Meta {
            name: "verbose",
            curl_name: "CURLOPT_VERBOSE",
            option: ids[0],
            kind: Kind::Integer,
            help: "CURLOPT_VERBOSE: Enable verbose output from CURL.",
        },
    );
    v.push(
        Meta {
            name: "timeout",
            curl_name: "CURLOPT_TIMEOUT_MS",
            option: ids[1],
            kind: Kind::Integer,
            help: "CURLOPT_TIMEOUT_MS: Timeout in milliseconds for the whole request.",
        },
    );
    v.push(
        Meta {
            name: "connect-timeout",
            curl_name: "CURLOPT_CONNECTTIMEOUT_MS",
            option: ids[2],
            kind: Kind::Integer,
            help: "CURLOPT_CONNECTTIMEOUT_MS: Timeout in milliseconds for the connection phase of the request.",
        },
    );
    v.push(
        Meta {
            name: "proxy",
            curl_name: "CURLOPT_PROXY",
            option: ids[3],
            kind: Kind::Text,
            help: "CURLOPT_PROXY: Set the proxy to use.",
        },
    );
    v.push(
        Meta {
            name: "proxy-port",
            curl_name: "CURLOPT_PROXYPORT",
            option: ids[4],
            kind: Kind::Integer,
            help: "CURLOPT_PROXYPORT: Set the proxy port.",
        },
    );
    v.push(
        Meta {
            name: "proxy-type",
            curl_name: "CURLOPT_PROXYTYPE",
            option: ids[5],
            kind: Kind::Text,
            help: "CURLOPT_PROXYTYPE: Set the proxy type.",
        },
    );
    v.push(
        Meta {
            name: "proxy-tunnel",
            curl_name: "CURLOPT_HTTPPROXYTUNNEL",
            option: ids[6],
            kind: Kind::Integer,
            help: "CURLOPT_HTTPPROXYTUNNEL: Use CONNECT to tunnel through a configured HTTP proxy.",
        },
    );
    v.push(
        Meta {
            name: "no-proxy",
            curl_name: "CURLOPT_NOPROXY",
            option: ids[7],
            kind: Kind::Text,
            help: "CURLOPT_NOPROXY: Contact these hosts directly, bypassing the proxy.",
        },
    );
    v.push(
        Meta {
            name: "client-cert",
            curl_name: "CURLOPT_SSLCERT",
            option: ids[8],
            kind: Kind::Text,
            help: "CURLOPT_SSLCERT: Use a client certificate for requests.",
        },
    );
    v.push(
        Meta {
            name: "client-cert-type",
            curl_name: "CURLOPT_SSLCERTTYPE",
            option: ids[9],
            kind: Kind::Text,
            help: "CURLOPT_SSLCERTTYPE: Specify the type of the client certificate.",
        },
    );
    v.push(
        Meta {
            name: "client-key",
            curl_name: "CURLOPT_SSLKEY",
            option: ids[10],
            kind: Kind::Text,
            help: "CURLOPT_SSLKEY: Use a separate file as key with the client certificate.",
        },
    );
    v.push(
        Meta {
            name: "client-key-type",
            curl_name: "CURLOPT_SSLKEYTYPE",
            option: ids[11],
            kind: Kind::Text,
            help: "CURLOPT_SSLKEYTYPE: Specify the type of the client key.",
        },
    );
    v
}

/// ASCII lower-casing of one byte.
pub open spec fn spec_lower(b: u8) -> u8 {
    if 65 <= b && b <= 90 {
        (b + 32) as u8
    } else {
        b
    }
}

/// Byte strings equal up to ASCII case.
pub open spec fn spec_eq_ci(a: Seq<u8>, b: Seq<u8>) -> bool {
    a.len() == b.len() && forall|i: int|
        0 <= i < a.len() ==> spec_lower(#[trigger] a[i]) == spec_lower(b[i])
}

/// Compare two byte strings, ignoring ASCII case.
pub fn eq_ignore_ascii_case_bytes(a: &[u8], b: &[u8]) -> (r: bool)
    ensures
        r == spec_eq_ci(a@, b@),
{
    if a.len() != b.len() {
        return false;
    }
    let mut i: usize = 0;
    while i < a.len()
        invariant
            a@.len() == b@.len(),
            i <= a@.len(),
            forall|j: int| 0 <= j < i ==> spec_lower(#[trigger] a@[j]) == spec_lower(b@[j]),
        decreases a@.len() - i,
    {
        let mut x = a[i];
        let mut y = b[i];
        if 65 <= x && x <= 90 {
            x = x + 32;
        }
        if 65 <= y && y <= 90 {
            y = y + 32;
        }
        if x != y {
            assert(spec_lower(a@[i as int]) != spec_lower(b@[i as int]));
            return false;
        }
        i = i + 1;
    }
    true
}

/// Index of the first registry entry at or after `i` whose name equals
/// `name` up to ASCII case.
pub open spec fn spec_find_from(name: Seq<u8>, i: int) -> Option<int>
    decreases spec_options().len() - i,
        when 0 <= i <= spec_options().len()
{
    if i >= spec_options().len() {
        None
    } else if spec_eq_ci(spec_options()[i].name, name) {
        Some(i)
    } else {
        spec_find_from(name, i + 1)
    }
}

/// Index of the first registry entry whose name equals `name` up to ASCII
/// case.
pub open spec fn spec_find(name: Seq<u8>) -> Option<int> {
    spec_find_from(name, 0)
}

/// Lookup finds exactly the compiled-in table: a successful lookup returns
/// an in-range index whose entry matches the name up to ASCII case, and a
/// failed lookup means no entry matches.
pub proof fn lemma_find_from_range(name: Seq<u8>, i: int)
    requires
        0 <= i <= spec_options().len(),
    ensures
        match spec_find_from(name, i) {
            Some(j) => i <= j < spec_options().len() && spec_eq_ci(spec_options()[j].name, name),
            None => forall|j: int|
                i <= j < spec_options().len() ==> !spec_eq_ci(
                    (#[trigger] spec_options()[j]).name,
                    name,
                ),
        },
    decreases spec_options().len() - i,
{
    if i < spec_options().len() && !spec_eq_ci(spec_options()[i].name, name) {
        lemma_find_from_range(name, i + 1);
    }
}

/// Look a name, given as bytes, up in the registry, ignoring ASCII case.
pub fn find_bytes(name: &[u8]) -> (r: Option<Meta>)
    ensures
        match r {
            Some(m) => spec_find(name@) matches Some(i) && m@ == spec_options()[i],
            None => spec_find(name@) is None,
        },
{
    let opts = options();
    let mut i: usize = 0;
    while i < opts.len()
        invariant
            i <= opts@.len(),
            opts@.len() == spec_options().len(),
            forall|k: int| 0 <= k < opts@.len() ==> (#[trigger] opts@[k])@ == spec_options()[k],
            spec_find(name@) == spec_find_from(name@, i as int),
        decreases opts@.len() - i,
    {
        if eq_ignore_ascii_case_bytes(opts[i].name.as_bytes(), name) {
            return Some(opts[i]);
        }
        i = i + 1;
    }
    None
}

/// Look a name up in the registry, ignoring ASCII case.
pub fn find(name: &str) -> (r: Option<Meta>)
    ensures
        match r {
            Some(m) => spec_find(name.spec_bytes()) matches Some(i) && m@ == spec_options()[i],
            None => spec_find(name.spec_bytes()) is None,
        },
{
    find_bytes(name.as_bytes())
}

/// The byte is an ASCII decimal digit.
pub open spec fn spec_is_digit(b: u8) -> bool {
    48 <= b && b <= 57
}

/// Every byte is an ASCII decimal digit.
pub open spec fn spec_all_digits(s: Seq<u8>) -> bool {
    forall|i: int| 0 <= i < s.len() ==> spec_is_digit(#[trigger] s[i])
}

/// Numeric value of a digit string, most significant digit first.
pub open spec fn spec_digits_val(s: Seq<u8>) -> int
    decreases s.len(),
{
    if s.len() == 0 {
        0
    } else {
        spec_digits_val(s.drop_last()) * 10 + (s.last() - 48)
    }
}

/// Parsing of a decimal integer, as `from_str_radix` with radix 10 does it:
/// an optional `+` or `-` sign, then at least one digit, and the value must
/// fit the target type.
pub open spec fn spec_parse_long(s: Seq<u8>) -> Option<i64> {
    let signed = s.len() > 0 && (s[0] == 43 || s[0] == 45);
    let ds = if signed {
        s.drop_first()
    } else {
        s
    };
    let neg = s.len() > 0 && s[0] == 45;
    if ds.len() == 0 || !spec_all_digits(ds) {
        None
    } else {
        let v = if neg {
            -spec_digits_val(ds)
        } else {
            spec_digits_val(ds)
        };
        if i64::MIN <= v <= i64::MAX {
            Some(v as i64)
        } else {
            None
        }
    }
}

/// A digit string's value is at least the value of any of its prefixes, and
/// never negative.
proof fn lemma_digits_val_prefix(s: Seq<u8>, j: int)
    requires
        spec_all_digits(s),
        0 <= j <= s.len(),
    ensures
        0 <= spec_digits_val(s.take(j)) <= spec_digits_val(s),
    decreases s.len(),
{
    if s.len() == 0 {
        assert(s.take(j) =~= s);
    } else {
        lemma_digits_val_prefix(s.drop_last(), if j < s.len() { j } else { j - 1 });
        assert(spec_all_digits(s.drop_last()));
        if j < s.len() {
            assert(s.take(j) =~= s.drop_last().take(j));
            assert(spec_digits_val(s.drop_last()) * 10 + (s.last() - 48) >= spec_digits_val(
                s.drop_last(),
            )) by (nonlinear_arith)
                requires
                    spec_digits_val(s.drop_last()) >= 0,
                    s.last() >= 48,
            ;
        } else {
            assert(s.take(j) =~= s);
        }
    }
}

/// Parse a decimal integer from bytes: an optional sign, then decimal
/// digits; `None` when the text is not of that shape or the value does not
/// fit an `i64`.
pub fn parse_long(bytes: &[u8]) -> (r: Option<i64>)
    ensures
        r == spec_parse_long(bytes@),
{
    let signed = bytes.len() > 0 && (bytes[0] == 43 || bytes[0] == 45);
    let neg = bytes.len() > 0 && bytes[0] == 45;
    let start: usize = if signed {
        1
    } else {
        0
    };
    let ghost ds = if signed {
        bytes@.drop_first()
    } else {
        bytes@
    };
    if bytes.len() == start {
        assert(ds.len() == 0);
        return None;
    }
    let mut mag: u64 = 0;
    let mut i: usize = start;
    while i < bytes.len()
        invariant
            start <= i <= bytes@.len(),
            start <= 1,
            signed == (bytes@.len() > 0 && (bytes@[0] == 43 || bytes@[0] == 45)),
            neg == (bytes@.len() > 0 && bytes@[0] == 45),
            start == if signed {
                1int
            } else {
                0int
            },
            ds == if signed {
                bytes@.drop_first()
            } else {
                bytes@
            },
            ds.len() > 0,
            spec_all_digits(bytes@.subrange(start as int, i as int)),
            mag == spec_digits_val(bytes@.subrange(start as int, i as int)),
            mag <= 9223372036854775808u64,
        decreases bytes@.len() - i,
    {
        let b = bytes[i];
        if b < 48 || b > 57 {
            proof {
                assert(ds[i - start] == bytes@[i as int]);
                assert(!spec_all_digits(ds));
            }
            return None;
        }
        let d = (b - 48) as u64;
        let ghost prefix = bytes@.subrange(start as int, i as int);
        let ghost prefix1 = bytes@.subrange(start as int, i + 1 as int);
        proof {
            assert(prefix1.drop_last() =~= prefix);
            assert(prefix1.last() == bytes@[i as int]);
            assert(spec_digits_val(prefix1) == mag * 10 + d);
        }
        if mag > (9223372036854775808u64 - d) / 10 {
            proof {
                assert(mag * 10 + d > 9223372036854775808) by (nonlinear_arith)
                    requires
                        mag > (9223372036854775808u64 - d) / 10,
                        0 <= d <= 9,
                        mag >= 0,
                ;
                assert(ds.take(i + 1 - start) =~= prefix1);
                if spec_all_digits(ds) {
                    lemma_digits_val_prefix(ds, i + 1 - start);
                    assert(spec_digits_val(ds) > 9223372036854775808);
                }
            }
            return None;
        }
        proof {
            assert(mag * 10 + d <= 9223372036854775808) by (nonlinear_arith)
                requires
                    mag <= (9223372036854775808u64 - d) / 10,
                    0 <= d <= 9,
                    mag >= 0,
            ;
        }
        mag = mag * 10 + d;
        i = i + 1;
    }
    proof {
        assert(bytes@.subrange(start as int, bytes@.len() as int) =~= ds);
    }
    if neg {
        if mag == 9223372036854775808u64 {
            Some(i64::MIN)
        } else {
            Some(-(mag as i64))
        }
    } else {
        if mag > 9223372036854775807u64 {
            None
        } else {
            Some(mag as i64)
        }
    }
}

/// Decimal digits of a non-negative integer, most significant first.
pub open spec fn spec_udec(m: int) -> Seq<u8>
    recommends
        m >= 0,
    decreases m,
{
    if m < 10 {
        seq![(48 + m) as u8]
    } else {
        spec_udec(m / 10) + seq![(48 + m % 10) as u8]
    }
}

/// The canonical decimal form of an integer: a `-` sign when negative, then
/// the digits of its magnitude.
pub open spec fn spec_i64_dec(n: i64) -> Seq<u8> {
    if n < 0 {
        seq![45u8] + spec_udec(-(n as int))
    } else {
        spec_udec(n as int)
    }
}

fn push_udec(buf: &mut Vec<u8>, m: u64)
    ensures
        final(buf)@ == old(buf)@ + spec_udec(m as int),
    decreases m,
{
    if m >= 10 {
        push_udec(buf, m / 10);
        buf.push(48 + (m % 10) as u8);
        proof {
            assert(final(buf)@ =~= old(buf)@ + (spec_udec(m as int / 10) + seq![
                (48 + m as int % 10) as u8,
            ]));
        }
    } else {
        buf.push(48 + m as u8);
        proof {
            assert(final(buf)@ =~= old(buf)@ + seq![(48 + m as int) as u8]);
        }
    }
}

/// Render an integer in its canonical decimal form.
pub fn format_long(n: i64) -> (r: Vec<u8>)
    ensures
        r@ == spec_i64_dec(n),
{
    let mut buf: Vec<u8> = Vec::new();
    if n < 0 {
        buf.push(45);
        let mag: u64 = if n == i64::MIN {
            9223372036854775808u64
        } else {
            (-n) as u64
        };
        push_udec(&mut buf, mag);
        proof {
            assert(buf@ =~= seq![45u8] + spec_udec(mag as int));
        }
    } else {
        push_udec(&mut buf, n as u64);
        proof {
            assert(buf@ =~= spec_udec(n as int));
        }
    }
    buf
}

/// The digits of a non-negative integer parse back to exactly it.
proof fn lemma_udec_val(m: int)
    requires
        m >= 0,
    ensures
        spec_udec(m).len() >= 1,
        spec_all_digits(spec_udec(m)),
        spec_digits_val(spec_udec(m)) == m,
    decreases m,
{
    if m < 10 {
        assert(spec_udec(m) =~= seq![(48 + m) as u8]);
        assert(spec_udec(m).drop_last() =~= Seq::<u8>::empty());
        assert(spec_digits_val(Seq::<u8>::empty()) == 0);
        assert(spec_udec(m).last() == (48 + m) as u8);
        assert(spec_digits_val(spec_udec(m)) == 0 * 10 + ((48 + m) as u8 - 48));
    } else {
        lemma_udec_val(m / 10);
        let s = spec_udec(m);
        assert(s =~= spec_udec(m / 10) + seq![(48 + m % 10) as u8]);
        assert(s.drop_last() =~= spec_udec(m / 10));
        assert(0 <= m % 10 < 10);
        assert(s.last() == (48 + m % 10) as u8);
        assert(s.last() - 48 == m % 10);
        assert(spec_digits_val(s) == (m / 10) * 10 + m % 10);
        vstd::arithmetic::div_mod::lemma_fundamental_div_mod(m, 10);
        assert((m / 10) * 10 + m % 10 == m);
    }
}

/// Parsing inverts printing: the canonical decimal form of any `i64` parses
/// back to exactly that value.
pub proof fn lemma_parse_format_long(n: i64)
    ensures
        spec_parse_long(spec_i64_dec(n)) == Some(n),
{
    if n < 0 {
        let mag = -(n as int);
        lemma_udec_val(mag);
        let s = spec_i64_dec(n);
        assert(s =~= seq![45u8] + spec_udec(mag));
        assert(s[0] == 45);
        assert(s.drop_first() =~= spec_udec(mag));
    } else {
        lemma_udec_val(n as int);
        let s = spec_i64_dec(n);
        assert(s[0] >= 48 && s[0] <= 57);
    }
}

/// Every byte of the canonical decimal form of an integer is either the `-`
/// sign or a decimal digit.
pub proof fn lemma_i64_dec_shape(n: i64)
    ensures
        spec_i64_dec(n).len() >= 1,
        forall|k: int|
            0 <= k < spec_i64_dec(n).len() ==> ((#[trigger] spec_i64_dec(n)[k]) == 45
                || spec_is_digit(spec_i64_dec(n)[k])),
{
    if n < 0 {
        lemma_udec_val(-(n as int));
        assert(forall|k: int|
            0 <= k < spec_i64_dec(n).len() ==> spec_i64_dec(n)[k] == (seq![45u8] + spec_udec(
                -(n as int),
            ))[k]);
    } else {
        lemma_udec_val(n as int);
    }
}

/// The registry's names, concretely: each is non-empty, holds neither `,`
/// nor `=` nor `%`, and is found at its own index by a lookup.
pub proof fn lemma_registry_names()
    ensures
        forall|i: int|
            0 <= i < spec_options().len() ==> #[trigger] spec_find(spec_options()[i].name)
                == Some(i),
        forall|i: int| 0 <= i < spec_options().len() ==> (#[trigger] spec_options()[i]).name.len() > 0,
        forall|i: int, k: int|
            0 <= i < spec_options().len() && 0 <= k < spec_options()[i].name.len() ==> ((
            #[trigger] spec_options()[i].name[k]) != 44 && spec_options()[i].name[k] != 61
                && spec_options()[i].name[k] != 37),
{
    reveal_strlit("verbose");
    reveal_strlit("timeout");
    reveal_strlit("connect-timeout");
    reveal_strlit("proxy");
    reveal_strlit("proxy-port");
    reveal_strlit("proxy-type");
    reveal_strlit("proxy-tunnel");
    reveal_strlit("no-proxy");
    reveal_strlit("client-cert");
    reveal_strlit("client-cert-type");
    reveal_strlit("client-key");
    reveal_strlit("client-key-type");
    assert(vstd::utf8::is_ascii_chars(("verbose")@));
    assert(vstd::utf8::is_ascii_chars(("timeout")@));
    assert(vstd::utf8::is_ascii_chars(("connect-timeout")@));
    assert(vstd::utf8::is_ascii_chars(("proxy")@));
    assert(vstd::utf8::is_ascii_chars(("proxy-port")@));
    assert(vstd::utf8::is_ascii_chars(("proxy-type")@));
    assert(vstd::utf8::is_ascii_chars(("proxy-tunnel")@));
    assert(vstd::utf8::is_ascii_chars(("no-proxy")@));
    assert(vstd::utf8::is_ascii_chars(("client-cert")@));
    assert(vstd::utf8::is_ascii_chars(("client-cert-type")@));
    assert(vstd::utf8::is_ascii_chars(("client-key")@));
    assert(vstd::utf8::is_ascii_chars(("client-key-type")@));
    vstd::utf8::is_ascii_chars_encode_utf8(("verbose")@);
    vstd::utf8::is_ascii_chars_encode_utf8(("timeout")@);
    vstd::utf8::is_ascii_chars_encode_utf8(("connect-timeout")@);
    vstd::utf8::is_ascii_chars_encode_utf8(("proxy")@);
    vstd::utf8::is_ascii_chars_encode_utf8(("proxy-port")@);
    vstd::utf8::is_ascii_chars_encode_utf8(("proxy-type")@);
    vstd::utf8::is_ascii_chars_encode_utf8(("proxy-tunnel")@);
    vstd::utf8::is_ascii_chars_encode_utf8(("no-proxy")@);
    vstd::utf8::is_ascii_chars_encode_utf8(("client-cert")@);
    vstd::utf8::is_ascii_chars_encode_utf8(("client-cert-type")@);
    vstd::utf8::is_ascii_chars_encode_utf8(("client-key")@);
    vstd::utf8::is_ascii_chars_encode_utf8(("client-key-type")@);
    assert(("verbose").spec_bytes() =~= seq![118u8, 101u8, 114u8, 98u8, 111u8, 115u8, 101u8]);
    assert(("timeout").spec_bytes() =~= seq![116u8, 105u8, 109u8, 101u8, 111u8, 117u8, 116u8]);
    assert(("connect-timeout").spec_bytes() =~= seq![
        99u8, 111u8, 110u8, 110u8, 101u8, 99u8, 116u8, 45u8, 116u8, 105u8, 109u8, 101u8, 111u8,
        117u8, 116u8,
    ]);
    assert(("proxy").spec_bytes() =~= seq![112u8, 114u8, 111u8, 120u8, 121u8]);
    assert(("proxy-port").spec_bytes() =~= seq![
        112u8, 114u8, 111u8, 120u8, 121u8, 45u8, 112u8, 111u8, 114u8, 116u8,
    ]);
    assert(("proxy-type").spec_bytes() =~= seq![
        112u8, 114u8, 111u8, 120u8, 121u8, 45u8, 116u8, 121u8, 112u8, 101u8,
    ]);
    assert(("proxy-tunnel").spec_bytes() =~= seq![
        112u8, 114u8, 111u8, 120u8, 121u8, 45u8, 116u8, 117u8, 110u8, 110u8, 101u8, 108u8,
    ]);
    assert(("no-proxy").spec_bytes() =~= seq![
        110u8, 111u8, 45u8, 112u8, 114u8, 111u8, 120u8, 121u8,
    ]);
    assert(("client-cert").spec_bytes() =~= seq![
        99u8, 108u8, 105u8, 101u8, 110u8, 116u8, 45u8, 99u8, 101u8, 114u8, 116u8,
    ]);
    assert(("client-cert-type").spec_bytes() =~= seq![
        99u8, 108u8, 105u8, 101u8, 110u8, 116u8, 45u8, 99u8, 101u8, 114u8, 116u8, 45u8, 116u8,
        121u8, 112u8, 101u8,
    ]);
    assert(("client-key").spec_bytes() =~= seq![
        99u8, 108u8, 105u8, 101u8, 110u8, 116u8, 45u8, 107u8, 101u8, 121u8,
    ]);
    assert(("client-key-type").spec_bytes() =~= seq![
        99u8, 108u8, 105u8, 101u8, 110u8, 116u8, 45u8, 107u8, 101u8, 121u8, 45u8, 116u8, 121u8,
        112u8, 101u8,
    ]);
    reveal_with_fuel(spec_find_from, 13);
    assert(spec_find(spec_options()[0].name) == Some(0int));
    assert(spec_find(spec_options()[1].name) == Some(1int));
    assert(spec_find(spec_options()[2].name) == Some(2int));
    assert(spec_find(spec_options()[3].name) == Some(3int));
    assert(spec_find(spec_options()[4].name) == Some(4int));
    assert(spec_find(spec_options()[5].name) == Some(5int));
    assert(spec_find(spec_options()[6].name) == Some(6int));
    assert(spec_find(spec_options()[7].name) == Some(7int));
    assert(spec_find(spec_options()[8].name) == Some(8int));
    assert(spec_find(spec_options()[9].name) == Some(9int));
    assert(spec_find(spec_options()[10].name) == Some(10int));
    assert(spec_find(spec_options()[11].name) == Some(11int));
}

/// Turn a raw value into a `SetOption` for an option with known metadata.
pub open spec fn spec_parse_value(m: MetaV, value: Seq<u8>) -> Result<SetOptionV, DecodeErrorV> {
    match m.kind {
        Kind::Text => if value.contains(0) {
            Err(DecodeErrorV::InvalidValue(m.name))
        } else {
            Ok((SetOptionV { name: m.name, option: m.option, value: ValueV::Text(value) }))
        },
        Kind::Integer => match spec_parse_long(value) {
            Some(v) => Ok(
                (SetOptionV { name: m.name, option: m.option, value: ValueV::Integer(v) }),
            ),
            None => Err(DecodeErrorV::InvalidValue(m.name)),
        },
    }
}

/// Model of a `Result` carrying a `SetOption` or a `DecodeError`.
pub open spec fn spec_result_view(r: Result<SetOption, DecodeError>) -> Result<
    SetOptionV,
    DecodeErrorV,
> {
    match r {
        Ok(o) => Ok(o@),
        Err(e) => Err(e@),
    }
}

/// Looking a name up and then parsing a raw value against the entry found.
pub open spec fn spec_parse_name_value(name: Seq<u8>, value: Seq<u8>) -> Result<
    SetOptionV,
    DecodeErrorV,
> {
    match spec_find(name) {
        Some(i) => spec_parse_value(spec_options()[i], value),
        None => Err(DecodeErrorV::UnknownOption(name)),
    }
}

impl SetOption {
    /// Parse the raw value for an option with known metadata.
    pub fn parse_value(meta: Meta, value: &[u8]) -> (r: Result<SetOption, DecodeError>)
        ensures
            spec_result_view(r) == spec_parse_value(meta@, value@),
    {
        match meta.kind {
            Kind::Text => {
                let mut i: usize = 0;
                while i < value.len()
                    invariant
                        i <= value@.len(),
                        meta.kind == Kind::Text,
                        forall|j: int| 0 <= j < i ==> value@[j] != 0,
                    decreases value@.len() - i,
                {
                    if value[i] == 0 {
                        assert(value@.contains(0));
                        return Err(DecodeError::InvalidValue(meta.name.as_bytes_vec()));
                    }
                    i = i + 1;
                }
                assert(!value@.contains(0));
                let mut text: Vec<u8> = Vec::new();
                text.extend_from_slice(value);
                assert(text@ =~= value@);
                Ok(SetOption { name: meta.name, option: meta.option, value: Value::Text(text) })
            },
            Kind::Integer => match parse_long(value) {
                Some(v) => Ok(
                    SetOption { name: meta.name, option: meta.option, value: Value::Integer(v) },
                ),
                None => Err(DecodeError::InvalidValue(meta.name.as_bytes_vec())),
            },
        }
    }

    /// Parse an option from its name, given as bytes, and a raw value.
    pub fn parse_name_value_bytes(name: &[u8], value: &[u8]) -> (r: Result<
        SetOption,
        DecodeError,
    >)
        ensures
            spec_result_view(r) == spec_parse_name_value(name@, value@),
    {
        match find_bytes(name) {
            Some(meta) => Self::parse_value(meta, value),
            None => {
                let mut owned: Vec<u8> = Vec::new();
                owned.extend_from_slice(name);
                assert(owned@ =~= name@);
                Err(DecodeError::UnknownOption(owned))
            },
        }
    }

    /// Parse an option from its name and a raw value.  The name is looked up
    /// in the registry, ignoring ASCII case.
    pub fn parse_name_value(name: &str, value: &[u8]) -> (r: Result<SetOption, DecodeError>)
        ensures
            spec_result_view(r) == spec_parse_name_value(name.spec_bytes(), value@),
    {
        Self::parse_name_value_bytes(name.as_bytes(), value)
    }

    /// Pair a name with an already-typed value.  Fails when the name is
    /// unknown or the value's kind is not the kind the registry gives.
    pub fn parse_name(name: &str, value: Value) -> (r: Result<SetOption, DecodeError>)
        requires
            spec_value_wf(value@),
        ensures
            spec_result_view(r) == match spec_find(name.spec_bytes()) {
                Some(i) => if spec_options()[i].kind == spec_value_kind(value@) {
                    Ok(
                        (SetOptionV {
                            name: spec_options()[i].name,
                            option: spec_options()[i].option,
                            value: value@,
                        }),
                    )
                } else {
                    Err(DecodeErrorV::InvalidValue(name.spec_bytes()))
                },
                None => Err(DecodeErrorV::UnknownOption(name.spec_bytes())),
            },
            r matches Ok(o) ==> spec_option_valid(o@),
    {
        match find_bytes(name.as_bytes()) {
            Some(meta) => {
                let vk = value.kind();
                if !kind_eq(meta.kind, vk) {
                    Err(DecodeError::InvalidValue(name.as_bytes_vec()))
                } else {
                    let r = SetOption { name: meta.name, option: meta.option, value };
                    proof {
                        lemma_find_from_range(name.spec_bytes(), 0);
                        if let Some(idx) = spec_find(name.spec_bytes()) {
                            assert(spec_options()[idx].name == r@.name && spec_options()[idx].option
                                == r@.option && spec_options()[idx].kind == spec_value_kind(
                                r@.value,
                            ) && spec_value_wf(r@.value));
                        }
                    }
                    Ok(r)
                }
            },
            None => Err(DecodeError::UnknownOption(name.as_bytes_vec())),
        }
    }
}

/// Are two kinds the same?
fn kind_eq(a: Kind, b: Kind) -> (r: bool)
    ensures
        r == (a == b),
{
    match (a, b) {
        (Kind::Text, Kind::Text) => true,
        (Kind::Integer, Kind::Integer) => true,
        _ => false,
    }
}

} // verus!

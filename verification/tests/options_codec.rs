use curl_inject_opt::error::DecodeError;
use curl_inject_opt::options::{find, options, parse_long, format_long, Kind, SetOption, Value};
use curl_inject_opt::{parse_options, serialize_options};

fn opt(name: &str, value: Value) -> SetOption {
    SetOption::parse_name(name, value).unwrap()
}

#[test]
fn empty_list_encodes_to_empty_string() {
    assert_eq!(serialize_options(&Vec::new()), Vec::<u8>::new());
    assert_eq!(parse_options(b"").unwrap(), Vec::<SetOption>::new());
}

#[test]
fn doubled_comma_is_tolerated() {
    let with_gap = parse_options(b"verbose=1,,timeout=250").unwrap();
    let plain = parse_options(b"verbose=1,timeout=250").unwrap();
    assert_eq!(with_gap, plain);
    assert_eq!(with_gap.len(), 2);
    assert_eq!(parse_options(b",verbose=1,").unwrap().len(), 1);
}

#[test]
fn unknown_option_is_rejected() {
    assert_eq!(
        parse_options(b"unknown-option=5"),
        Err(DecodeError::UnknownOption(b"unknown-option".to_vec()))
    );
}

#[test]
fn registry_known_names_are_exactly_the_table() {
    let names: Vec<&str> = options().iter().map(|m| m.name).collect();
    assert_eq!(
        names,
        vec![
            "verbose",
            "timeout",
            "connect-timeout",
            "proxy",
            "proxy-port",
            "proxy-type",
            "proxy-tunnel",
            "no-proxy",
            "client-cert",
            "client-cert-type",
            "client-key",
            "client-key-type",
        ]
    );
    for m in options() {
        assert!(find(m.name).is_some());
        assert_eq!(find(m.name).unwrap().option, m.option);
    }
    assert!(find("verbose2").is_none());
}

#[test]
fn lookup_ignores_ascii_case() {
    let m = find("VERBOSE").unwrap();
    assert_eq!(m.name, "verbose");
    assert_eq!(m.kind, Kind::Integer);
    let m = find("Client-Cert").unwrap();
    assert_eq!(m.name, "client-cert");
    assert_eq!(m.kind, Kind::Text);
}

#[test]
fn malformed_segment_is_rejected() {
    assert_eq!(parse_options(b"verbose"), Err(DecodeError::Malformed));
    assert_eq!(parse_options(b"verbose=1,timeout"), Err(DecodeError::Malformed));
}

#[test]
fn bad_integer_value_is_rejected() {
    assert_eq!(
        parse_options(b"verbose=abc"),
        Err(DecodeError::InvalidValue(b"verbose".to_vec()))
    );
    assert_eq!(
        parse_options(b"timeout="),
        Err(DecodeError::InvalidValue(b"timeout".to_vec()))
    );
}

#[test]
fn text_value_with_nul_is_rejected() {
    assert_eq!(
        parse_options(b"proxy=a%00b"),
        Err(DecodeError::InvalidValue(b"proxy".to_vec()))
    );
}

#[test]
fn first_error_aborts_the_decode() {
    assert_eq!(
        parse_options(b"nope=1,verbose=abc"),
        Err(DecodeError::UnknownOption(b"nope".to_vec()))
    );
    assert_eq!(
        parse_options(b"verbose=abc,nope=1"),
        Err(DecodeError::InvalidValue(b"verbose".to_vec()))
    );
}

#[test]
fn options_round_trip_through_the_wire_format() {
    let list = vec![
        opt("client-cert", Value::Text(b"/tmp/c.pem".to_vec())),
        opt("timeout", Value::Integer(2500)),
        opt("proxy", Value::Text(b"socks5://host:1080,fall%back".to_vec())),
        opt("verbose", Value::Integer(-1)),
    ];
    let encoded = serialize_options(&list);
    assert_eq!(
        encoded,
        b"client-cert=/tmp/c.pem,timeout=2500,proxy=socks5://host:1080%2Cfall%25back,verbose=-1"
            .to_vec()
    );
    assert_eq!(parse_options(&encoded).unwrap(), list);
}

#[test]
fn text_value_may_contain_equals_sign() {
    let list = vec![opt("no-proxy", Value::Text(b"a=b=c".to_vec()))];
    let encoded = serialize_options(&list);
    assert_eq!(encoded, b"no-proxy=a=b=c".to_vec());
    assert_eq!(parse_options(&encoded).unwrap(), list);
}

#[test]
fn parse_name_checks_the_kind() {
    assert!(SetOption::parse_name("verbose", Value::Integer(1)).is_ok());
    assert_eq!(
        SetOption::parse_name("verbose", Value::Text(b"1".to_vec())),
        Err(DecodeError::InvalidValue(b"verbose".to_vec()))
    );
    assert_eq!(
        SetOption::parse_name("nope", Value::Integer(1)),
        Err(DecodeError::UnknownOption(b"nope".to_vec()))
    );
}

#[test]
fn parse_name_value_parses_the_raw_value() {
    let o = SetOption::parse_name_value("timeout", b"10").unwrap();
    assert_eq!(o.name, "timeout");
    assert_eq!(o.value, Value::Integer(10));
    let o = SetOption::parse_name_value("PROXY", b"localhost").unwrap();
    assert_eq!(o.name, "proxy");
    assert_eq!(o.value, Value::Text(b"localhost".to_vec()));
}

#[test]
fn integer_text_round_trips_at_the_edges() {
    for n in [0i64, 1, -1, 42, i64::MAX, i64::MIN] {
        let text = format_long(n);
        assert_eq!(parse_long(&text), Some(n));
    }
    assert_eq!(format_long(-2), b"-2".to_vec());
    assert_eq!(format_long(i64::MIN), b"-9223372036854775808".to_vec());
    assert_eq!(format_long(i64::MAX), b"9223372036854775807".to_vec());
}

#[test]
fn integer_parsing_matches_the_decimal_grammar() {
    assert_eq!(parse_long(b"+7"), Some(7));
    assert_eq!(parse_long(b"-0"), Some(0));
    assert_eq!(parse_long(b""), None);
    assert_eq!(parse_long(b"-"), None);
    assert_eq!(parse_long(b"1.5"), None);
    assert_eq!(parse_long(b" 1"), None);
    assert_eq!(parse_long(b"9223372036854775807"), Some(i64::MAX));
    assert_eq!(parse_long(b"9223372036854775808"), None);
    assert_eq!(parse_long(b"-9223372036854775808"), Some(i64::MIN));
    assert_eq!(parse_long(b"-9223372036854775809"), None);
    assert_eq!(parse_long(b"99999999999999999999999"), None);
}

#[test]
fn kind_describes_itself() {
    assert_eq!(Kind::Text.describe(), "string");
    assert_eq!(Kind::Integer.describe(), "integer");
}

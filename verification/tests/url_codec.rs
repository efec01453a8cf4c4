use curl_inject_opt::error::DecodeError;
use curl_inject_opt::url_encode::{decode, encode, escape_comma, u8_from_ascii_hex_digit, u8_to_ascii_hex_digit};
use curl_inject_opt::urlencode;

#[test]
fn test_urlencode() {
    assert_eq!(&encode(b",foo,bar,", escape_comma), b"%2Cfoo%2Cbar%2C");
    assert_eq!(&encode(b"%2Cfoo%2Cbar%2C", escape_comma), b"%252Cfoo%252Cbar%252C");
    assert_eq!(&encode(b"%,foo%,%bar,%", escape_comma), b"%25%2Cfoo%25%2C%25bar%2C%25");
}

#[test]
fn test_urldecode() {
    assert_eq!(&decode(b"%2Cfoo%2Cbar%2C").unwrap(), b",foo,bar,");
    assert_eq!(&decode(b"%252Cfoo%252Cbar%252C").unwrap(), b"%2Cfoo%2Cbar%2C");
    assert_eq!(&decode(b"%25%2Cfoo%25%2C%25bar%2C%25").unwrap(), b"%,foo%,%bar,%");
}

#[test]
fn percent_comma_decodes_to_comma() {
    assert_eq!(decode(b"%2C").unwrap(), vec![b',']);
    assert_eq!(decode(b"%2c").unwrap(), vec![b',']);
}

#[test]
fn invalid_hex_digit_fails() {
    assert_eq!(decode(b"%G1"), Err(DecodeError::Malformed));
    assert_eq!(decode(b"%1G"), Err(DecodeError::Malformed));
}

#[test]
fn truncated_escape_fails() {
    assert_eq!(decode(b"%"), Err(DecodeError::Malformed));
    assert_eq!(decode(b"abc%1"), Err(DecodeError::Malformed));
}

#[test]
fn empty_round_trip() {
    assert_eq!(encode(b"", escape_comma), Vec::<u8>::new());
    assert_eq!(decode(b"").unwrap(), Vec::<u8>::new());
}

#[test]
fn encode_then_decode_is_identity() {
    let samples: [&[u8]; 5] = [b"", b"plain", b",,,", b"%%%", b"a=b,c%d"];
    for s in samples {
        assert_eq!(decode(&encode(s, escape_comma)).unwrap(), s.to_vec());
    }
}

#[test]
fn non_reserved_bytes_pass_through() {
    let all: Vec<u8> = (0u8..=255).filter(|b| *b != b',' && *b != b'%').collect();
    assert_eq!(encode(&all, escape_comma), all);
}

#[test]
fn hex_digit_conversions() {
    assert_eq!(u8_to_ascii_hex_digit(0), Some(b'0'));
    assert_eq!(u8_to_ascii_hex_digit(9), Some(b'9'));
    assert_eq!(u8_to_ascii_hex_digit(10), Some(b'A'));
    assert_eq!(u8_to_ascii_hex_digit(15), Some(b'F'));
    assert_eq!(u8_to_ascii_hex_digit(16), None);
    assert_eq!(u8_from_ascii_hex_digit(b'7'), Some(7));
    assert_eq!(u8_from_ascii_hex_digit(b'a'), Some(10));
    assert_eq!(u8_from_ascii_hex_digit(b'F'), Some(15));
    assert_eq!(u8_from_ascii_hex_digit(b'g'), None);
}

#[test]
fn url_prefixed_names_agree() {
    assert_eq!(
        urlencode::url_encode(b",foo,", urlencode::escape_comma),
        encode(b",foo,", escape_comma)
    );
    assert_eq!(urlencode::url_decode(b"%2Cfoo").unwrap(), decode(b"%2Cfoo").unwrap());
    let mut a = vec![b'x'];
    urlencode::url_encode_append(&mut a, b",", urlencode::escape_comma);
    assert_eq!(a, b"x%2C".to_vec());
    let mut d = vec![b'y'];
    urlencode::url_decode_append(&mut d, b"%2C").unwrap();
    assert_eq!(d, b"y,".to_vec());
    assert_eq!(urlencode::u8_from_ascii_hex_digit(b'b'), Some(11));
    assert_eq!(urlencode::u8_to_ascii_hex_digit(11), Some(b'B'));
}

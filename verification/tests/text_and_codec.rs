use rustgi::codec::decode_path;
use rustgi::text::{
    eq_ignore_case, parse_number, split_at_space, text_eq, to_lower, to_upper, to_variable_name,
    write_number,
};

#[test]
fn numbers_are_parsed_like_unsigned_integers() {
    assert_eq!(parse_number("10", u64::MAX), Some(10));
    assert_eq!(parse_number("+7", u64::MAX), Some(7));
    assert_eq!(parse_number("007", u64::MAX), Some(7));
    assert_eq!(parse_number("18446744073709551615", u64::MAX), Some(u64::MAX));
    assert_eq!(parse_number("18446744073709551616", u64::MAX), None);
    assert_eq!(parse_number("256", 255), None);
    assert_eq!(parse_number("255", 255), Some(255));
    for text in ["", "+", "-1", "1x", " 1", "++1", "1+"] {
        assert_eq!(parse_number(text, u64::MAX), None);
        assert!(text.parse::<u64>().is_err());
    }
}

#[test]
fn numbers_are_written_without_leading_zeros() {
    assert_eq!(write_number(0, 10), "0");
    assert_eq!(write_number(1024, 10), "1024");
    assert_eq!(write_number(255, 16), "FF");
    assert_eq!(write_number(4096, 16), "1000");
    assert_eq!(write_number(5, 2), "101");
    assert_eq!(write_number(u64::MAX, 10), u64::MAX.to_string());
}

#[test]
fn written_numbers_are_read_back() {
    for n in [0u64, 9, 10, 99, 12345, u64::MAX] {
        assert_eq!(parse_number(&write_number(n, 10), u64::MAX), Some(n));
        assert_eq!(u64::from_str_radix(&write_number(n, 16), 16), Ok(n));
        assert_eq!(write_number(n, 16), format!("{:X}", n));
    }
}

#[test]
fn header_names_become_variable_names() {
    assert_eq!(to_variable_name("x-request-id"), "HTTP_X_REQUEST_ID");
    assert_eq!(to_variable_name("Host"), "HTTP_HOST");
    assert_eq!(to_variable_name(""), "HTTP_");
    assert_eq!(to_variable_name("a_b-\u{e9}"), "HTTP_A_B_\u{e9}");
    assert_eq!(to_upper('z'), 'Z');
    assert_eq!(to_upper('-'), '-');
    assert_eq!(to_lower('A'), 'a');
    assert_eq!(to_lower('['), '[');
}

#[test]
fn texts_are_compared_with_and_without_case() {
    assert!(text_eq("abc", "abc"));
    assert!(!text_eq("abc", "abd"));
    assert!(!text_eq("abc", "ab"));
    assert!(eq_ignore_case("Content-Length", "content-LENGTH"));
    assert!(!eq_ignore_case("Content-Length", "content_length"));
    assert!(!eq_ignore_case("\u{e9}", "\u{c9}"));
}

#[test]
fn status_is_split_at_its_first_space() {
    assert_eq!(split_at_space("200 OK"), Some("200".to_string()));
    assert_eq!(split_at_space("404 Not Found"), Some("404".to_string()));
    assert_eq!(split_at_space(" OK"), Some("".to_string()));
    assert_eq!(split_at_space("200"), None);
    assert_eq!(split_at_space(""), None);
}

#[test]
fn paths_are_percent_decoded_byte_by_byte() {
    assert_eq!(decode_path("/a%20b"), "/a b");
    assert_eq!(decode_path("/%2f%2F"), "///");
    assert_eq!(decode_path("/100%"), "/100%");
    assert_eq!(decode_path("/%zz%4"), "/%zz%4");
    assert_eq!(decode_path("/%%41"), "/%A");
    assert_eq!(decode_path("/%C3%A9"), "/\u{c3}\u{a9}");
    assert_eq!(decode_path("/\u{e9}"), "/\u{c3}\u{a9}");
    assert_eq!(decode_path(""), "");
}

use http_core::headers::{Headers, HeadersError};

#[test]
fn valid_single_header() {
    match Headers::parse("Host: localhost:42069\r\n\r\n".as_bytes()) {
        Ok(v) => {
            assert_eq!(v.get("host").unwrap(), "localhost:42069");
        }
        Err(_) => panic!("error"),
    }
}

#[test]
fn invalid_space_header() {
    match Headers::parse("       Host : localhost:42069       \r\n\r\n".as_bytes()) {
        Ok(_) => panic!("should not pass"),
        Err(e) => assert_eq!(e, HeadersError::MalformedFieldName),
    }
}

#[test]
fn invalid_character_header() {
    match Headers::parse("H©st: localhost:42069\r\n\r\n".as_bytes()) {
        Ok(_) => panic!("should not pass"),
        Err(e) => assert_eq!(e, HeadersError::MalformedFieldName),
    }
}

#[test]
fn valid_multiple_header() {
    match Headers::parse("Host: localhost:42069\r\nUser-Agent: curl/8.5.0\r\n\r\n".as_bytes()) {
        Ok(v) => {
            assert_eq!(v.get("host").unwrap(), "localhost:42069");
            assert_eq!(v.get("user-agent").unwrap(), "curl/8.5.0")
        }
        Err(_) => panic!("error"),
    }
}

#[test]
fn valid_multiple_same_header() {
    match Headers::parse("Host: localhost:42069\r\nHost: localhost:3333\r\n\r\n".as_bytes()) {
        Ok(v) => {
            assert_eq!(v.get("host").unwrap(), "localhost:42069, localhost:3333");
        }
        Err(_) => panic!("error"),
    }
}

#[test]
fn names_fold_and_values_join_in_order() {
    let h = Headers::parse("Host: a\r\nHOST: b\r\nhost: c\r\nX-Id: 7\r\n\r\n".as_bytes()).unwrap();
    assert_eq!(h.get("host").unwrap(), "a, b, c");
    assert_eq!(h.get("HoSt").unwrap(), "a, b, c");
    assert_eq!(h.get("x-id").unwrap(), "7");
    assert!(h.get("missing").is_none());
}

#[test]
fn space_before_colon_fails_whatever_the_value() {
    for line in ["Host : v\r\n\r\n", "Host :\r\n\r\n", "Host : a: b\r\n\r\n"] {
        assert_eq!(
            Headers::parse(line.as_bytes()).err(),
            Some(HeadersError::MalformedFieldName)
        );
    }
}

#[test]
fn values_are_trimmed() {
    let h = Headers::parse("  Accept:   */*   \r\n\r\n".as_bytes()).unwrap();
    assert_eq!(h.get("accept").unwrap(), "*/*");
}

#[test]
fn line_without_colon_is_malformed_part() {
    assert_eq!(
        Headers::parse("Host localhost\r\n\r\n".as_bytes()).err(),
        Some(HeadersError::MalformedPart)
    );
}

#[test]
fn line_without_crlf_is_malformed_end_of_line() {
    assert_eq!(
        Headers::parse("Host: a\n\r\n".as_bytes()).err(),
        Some(HeadersError::MalformedEndOfLine)
    );
}

#[test]
fn unterminated_long_line_is_too_long() {
    let mut text = String::from("X-Long: ");
    while text.len() < 9000 {
        text.push('a');
    }
    assert_eq!(
        Headers::parse(text.as_bytes()).err(),
        Some(HeadersError::LineTooLong)
    );
}

#[test]
fn missing_blank_line_is_read_error() {
    assert_eq!(
        Headers::parse("Host: a\r\n".as_bytes()).err(),
        Some(HeadersError::ReadError)
    );
    assert_eq!(Headers::parse(b"").err(), Some(HeadersError::ReadError));
}

#[test]
fn invalid_utf8_value_is_read_error() {
    assert_eq!(
        Headers::parse(b"Host: \xff\xfe\r\n\r\n").err(),
        Some(HeadersError::ReadError)
    );
}

#[test]
fn set_checks_name_and_joins() {
    let mut h = Headers::new();
    assert_eq!(h.set("Bad Name", "x"), Err(HeadersError::MalformedFieldName));
    assert!(h.get("bad name").is_none());
    assert_eq!(h.set("Content-Type", "  text/html "), Ok(()));
    assert_eq!(h.get("content-type").unwrap(), "text/html");
    assert_eq!(h.set("CONTENT-TYPE", "x"), Ok(()));
    assert_eq!(h.get("content-type").unwrap(), "text/html, x");
}

#[test]
fn to_bytes_writes_lines_and_blank_line() {
    let mut h = Headers::new();
    h.set("Host", "a").unwrap();
    h.set("Accept", "b").unwrap();
    assert_eq!(h.to_bytes(), b"host: a\r\naccept: b\r\n\r\n".to_vec());
    assert_eq!(Headers::new().to_bytes(), b"\r\n".to_vec());
}

#[test]
fn check_field_rules() {
    assert!(Headers::check_field(b"Content-Type").is_ok());
    assert!(Headers::check_field(b"  Host").is_ok());
    assert!(Headers::check_field(b"Host ").is_err());
    assert!(Headers::check_field(b"Ho(st").is_err());
}

#[test]
fn parse_from_gives_end_position() {
    let input = b"A: 1\r\n\r\nrest";
    let (h, end) = Headers::parse_from(input, 0).unwrap();
    assert_eq!(h.get("a").unwrap(), "1");
    assert_eq!(end, 8);
}

#[test]
fn trailing_tab_in_name_is_refused() {
    assert_eq!(
        Headers::parse("Host\t: v\r\n\r\n".as_bytes()).err(),
        Some(HeadersError::MalformedFieldName)
    );
    assert!(Headers::check_field(b"Host\t").is_err());
    let mut h = Headers::new();
    assert_eq!(h.set("Host\t", "v"), Err(HeadersError::MalformedFieldName));
}

#[test]
fn terminated_line_over_limit_is_too_long() {
    let mut line = String::from("X-Long: ");
    while line.len() < 9000 {
        line.push('a');
    }
    line.push_str("\r\n\r\n");
    assert_eq!(
        Headers::parse(line.as_bytes()).err(),
        Some(HeadersError::LineTooLong)
    );
}

#[test]
fn line_limit_boundary() {
    let mut at_limit = String::from("X-Long: ");
    while at_limit.len() < 8190 {
        at_limit.push('a');
    }
    let ok = format!("{}\r\n\r\n", at_limit);
    assert!(Headers::parse(ok.as_bytes()).is_ok());
    let over = format!("{}a\r\n\r\n", at_limit);
    assert_eq!(
        Headers::parse(over.as_bytes()).err(),
        Some(HeadersError::LineTooLong)
    );
}

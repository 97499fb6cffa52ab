use http_core::request::{request_from_reader, RequestLine, RequestLineError};

#[test]
fn good_get_request_line() {
    match request_from_reader("GET / HTTP/1.1\r\nHost: localhost:42069\r\nUser-Agent: curl/7.81.0\r\nAccept: */*\r\n\r\n".as_bytes()) {
        Ok(r) => {
            assert_eq!(r.request_line.method, "GET");
            assert_eq!(r.request_line.http_version, "1.1");
            assert_eq!(r.request_line.request_target, "/");
        }
        Err(e) => panic!("{}", e.message()),
    }
}

#[test]
fn good_get_request_line_with_path() {
    match request_from_reader("GET /coffee HTTP/1.1\r\nHost: localhost:42069\r\nUser-Agent: curl/7.81.0\r\nAccept: */*\r\n\r\n".as_bytes()) {
        Ok(r) => {
            assert_eq!(r.request_line.method, "GET");
            assert_eq!(r.request_line.http_version, "1.1");
            assert_eq!(r.request_line.request_target, "/coffee");
        }
        Err(e) => panic!("{}", e.message()),
    }
}

#[test]
fn invalid_version_get_request_line_with_path() {
    match request_from_reader("GET /coffee HTTP/1.3\r\nHost: localhost:42069\r\nUser-Agent: curl/7.81.0\r\nAccept: */*\r\n\r\n".as_bytes()) {
        Ok(_) => panic!("should not pass"),
        Err(e) => assert_eq!(e, RequestLineError::BadHTTPVersion),
    }
}

#[test]
fn invalid_get_request_line_with_path() {
    match request_from_reader("GET /coffee HTTP/1.1\nHost: localhost:42069\r\nUser-Agent: curl/7.81.0\r\nAccept: */*\r\n\r\n".as_bytes()) {
        Ok(_) => panic!("should not pass"),
        Err(e) => assert_eq!(e, RequestLineError::MalformedEndOfLine),
    }
}

#[test]
fn good_post_request_line_with_path() {
    match request_from_reader("POST /coffee HTTP/1.1\r\nHost: localhost:42069\r\nUser-Agent: curl/7.81.0\r\nAccept: */*\r\n\r\n".as_bytes()) {
        Ok(r) => {
            assert_eq!(r.request_line.method, "POST");
            assert_eq!(r.request_line.http_version, "1.1");
            assert_eq!(r.request_line.request_target, "/coffee");
        }
        Err(e) => panic!("{}", e.message()),
    }
}

#[test]
fn invalid_post_request_line_with_path() {
    match request_from_reader("post /coffee HTTP/1.1\r\nHost: localhost:42069\r\nUser-Agent: curl/7.81.0\r\nAccept: */*\r\n\r\n".as_bytes()) {
        Ok(_) => panic!("should not pass"),
        Err(e) => assert_eq!(e, RequestLineError::MalformedMethod),
    }
}

#[test]
fn invalid_number_of_part_in_request_line() {
    match request_from_reader("/coffee HTTP/1.1\r\nHost: localhost:42069\r\nUser-Agent: curl/7.81.0\r\nAccept: */*\r\n\r\n".as_bytes()) {
        Ok(_) => panic!("should not pass"),
        Err(e) => assert_eq!(e, RequestLineError::MalformedPart),
    }
}

#[test]
fn target_must_start_with_slash() {
    assert_eq!(
        request_from_reader(b"GET coffee HTTP/1.1\r\n\r\n").err(),
        Some(RequestLineError::MalformedTarget)
    );
}

#[test]
fn empty_input_is_read_error() {
    assert_eq!(request_from_reader(b"").err(), Some(RequestLineError::ReadError));
}

#[test]
fn long_unterminated_request_line_is_too_long() {
    let mut line = String::from("GET /");
    while line.len() < 8192 {
        line.push('a');
    }
    assert_eq!(
        request_from_reader(line.as_bytes()).err(),
        Some(RequestLineError::LineTooLong)
    );
}

#[test]
fn header_error_surfaces_as_read_error() {
    assert_eq!(
        request_from_reader(b"GET / HTTP/1.1\r\nHost : x\r\n\r\n").err(),
        Some(RequestLineError::ReadError)
    );
}

#[test]
fn body_of_declared_length_is_read() {
    let r = request_from_reader(b"POST /a HTTP/1.1\r\nContent-Length: 13\r\n\r\nhello world!\n").unwrap();
    assert_eq!(r.body.unwrap().as_bytes(), b"hello world!\n");
    assert_eq!(r.headers.get("content-length").unwrap(), "13");
}

#[test]
fn body_one_byte_short_or_over_fails() {
    assert_eq!(
        request_from_reader(b"POST /a HTTP/1.1\r\nContent-Length: 13\r\n\r\nhello world!").err(),
        Some(RequestLineError::ReadError)
    );
    assert_eq!(
        request_from_reader(b"POST /a HTTP/1.1\r\nContent-Length: 13\r\n\r\nhello world!\n\n").err(),
        Some(RequestLineError::ReadError)
    );
}

#[test]
fn no_content_length_means_no_body() {
    let r = request_from_reader(b"GET / HTTP/1.1\r\nHost: a\r\n\r\n").unwrap();
    assert!(r.body.is_none());
}

#[test]
fn request_line_new_and_messages() {
    let l = RequestLine::new("1.1", "/x", "GET");
    assert_eq!(l.http_version, "1.1");
    assert_eq!(l.request_target, "/x");
    assert_eq!(l.method, "GET");
    assert_eq!(RequestLineError::LineTooLong.message(), "Line too long");
    assert_eq!(
        RequestLineError::BadHTTPVersion.message(),
        "Bad http version only 1.1 supported"
    );
}

#[test]
fn whitespace_after_version_is_bad_version() {
    assert_eq!(
        request_from_reader(b"GET / HTTP/1.1\t\r\n\r\n").err(),
        Some(RequestLineError::BadHTTPVersion)
    );
}

#[test]
fn four_tokens_are_malformed_part() {
    assert_eq!(
        request_from_reader(b"GET /coffee HTTP/1.1 extra\r\nHost: localhost\r\n\r\n").err(),
        Some(RequestLineError::MalformedPart)
    );
}

#[test]
fn terminated_request_line_over_limit_is_too_long() {
    let mut line = String::from("GET /");
    while line.len() < 9000 {
        line.push('a');
    }
    line.push_str(" HTTP/1.1\r\n\r\n");
    assert_eq!(
        request_from_reader(line.as_bytes()).err(),
        Some(RequestLineError::LineTooLong)
    );
}

use http_core::body::{Body, BodyError};

#[test]
fn standard_body() {
    match Body::parse("hello world!\n".as_bytes(), "13") {
        Ok(b) => assert_eq!(b.to_string_lossy(), "hello world!\n"),
        Err(e) => panic!("dont pass {:?}", e),
    }
}

#[test]
fn too_mush_length_standard_body() {
    match Body::parse("hello world!\n".as_bytes(), "12") {
        Ok(_) => panic!("should not pass"),
        Err(e) => assert_eq!(e, BodyError::TooMushData),
    }
}

#[test]
fn one_byte_short_is_missing_data() {
    assert_eq!(
        Body::parse("hello world!".as_bytes(), "13").err(),
        Some(BodyError::MissingData)
    );
}

#[test]
fn bad_length_is_invalid_content_length() {
    for length in ["", "-1", "abc", "1 2", "99999999999999999999999"] {
        assert_eq!(
            Body::parse(b"x", length).err(),
            Some(BodyError::InvalidContentLength)
        );
    }
    assert_eq!(Body::parse(b"x", "+1").unwrap().len(), 1);
    assert_eq!(Body::parse(b"", "0").unwrap().len(), 0);
}

#[test]
fn body_accessors() {
    let mut b = Body::new(vec![104, 105]);
    assert_eq!(b.as_bytes(), b"hi");
    assert_eq!(b.len(), 2);
    b.set(vec![0xff, 0x41]);
    assert_eq!(b.to_string_lossy(), "\u{fffd}A");
}

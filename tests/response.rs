use http_core::response::{content_type_for, mentions_gzip, Response, Status};
use std::io::Read;

const DATE: &str = "Mon, 01 Jan 2024 00:00:00 +0000";

fn split_head(bytes: &[u8]) -> (String, Vec<u8>) {
    let mut i = 0;
    while &bytes[i..i + 4] != b"\r\n\r\n" {
        i += 1;
    }
    (
        String::from_utf8(bytes[..i + 4].to_vec()).unwrap(),
        bytes[i + 4..].to_vec(),
    )
}

#[test]
fn new_response_is_ok_with_server_field() {
    let r = Response::new();
    assert_eq!(r.status_code(), Status::OK);
    assert_eq!(r.headers().get("server").unwrap(), "rust");
    assert!(r.body_bytes().is_none());
}

#[test]
fn json_body_is_application_json() {
    let mut r = Response::new();
    r.body(b"{\"Salut\": \"coupain\"}".to_vec());
    assert_eq!(r.headers().get("content-type").unwrap(), "application/json");
    assert!(r.should_compress());
}

#[test]
fn png_signature_is_image_png() {
    let mut r = Response::new();
    r.body(vec![0x89, 0x50, 0x4e, 0x47, 0x0d, 0x0a, 0x1a, 0x0a, 0, 0, 0, 0x0d]);
    assert_eq!(r.headers().get("content-type").unwrap(), "image/png");
    assert!(!r.should_compress());
}

#[test]
fn other_body_is_plain_text() {
    let mut r = Response::new();
    r.body(b"Hello World".to_vec());
    assert_eq!(
        r.headers().get("content-type").unwrap(),
        "text/plain; charset=utf-8"
    );
    assert_eq!(r.body_bytes().unwrap(), b"Hello World");
}

#[test]
fn content_type_choice_order() {
    assert_eq!(content_type_for(true, Some("image/gif".to_string())), "application/json");
    assert_eq!(content_type_for(false, Some("image/gif".to_string())), "image/gif");
    assert_eq!(content_type_for(false, None), "text/plain; charset=utf-8");
}

#[test]
fn serialize_writes_status_headers_and_body() {
    let mut r = Response::new();
    r.body(b"Hello World".to_vec());
    let gzip = "gzip".to_string();
    let out = r.serialize(Some(&gzip), DATE).unwrap();
    let expected = format!(
        "HTTP/1.1 200 OK\r\nserver: rust\r\ncontent-type: text/plain; charset=utf-8\r\ndate: {}\r\n\r\nHello World",
        DATE
    );
    assert_eq!(out, expected.into_bytes());
}

#[test]
fn html_with_gzip_is_compressed_and_round_trips() {
    let html = b"<html><body>hello hello hello hello</body></html>".to_vec();
    let mut r = Response::new();
    r.body(html.clone());
    assert_eq!(r.headers().get("content-type").unwrap(), "text/html");
    let accept = "deflate, gzip".to_string();
    let out = r.serialize(Some(&accept), DATE).unwrap();
    let (head, body) = split_head(&out);
    assert!(head.contains("content-encoding: gzip\r\n"));
    assert!(head.contains(&format!("content-length: {}\r\n", body.len())));
    assert_ne!(body, html);
    let mut decoded = Vec::new();
    flate2::read::GzDecoder::new(&body[..])
        .read_to_end(&mut decoded)
        .unwrap();
    assert_eq!(decoded, html);
}

#[test]
fn no_accept_encoding_means_no_compression() {
    let html = b"<html><body>hi</body></html>".to_vec();
    let mut r = Response::new();
    r.body(html.clone());
    let out = r.serialize(None, DATE).unwrap();
    let (head, body) = split_head(&out);
    assert!(!head.contains("content-encoding"));
    assert_eq!(body, html);
}

#[test]
fn type_outside_list_is_not_compressed() {
    let mut r = Response::new();
    r.body(b"plain words".to_vec());
    let accept = "gzip".to_string();
    r.auto_compress(Some(&accept)).unwrap();
    assert!(r.headers().get("content-encoding").is_none());
    assert_eq!(r.body_bytes().unwrap(), b"plain words");
}

#[test]
fn status_replaces_status_and_copies() {
    let mut r = Response::new();
    let copy = r.status(Status::NotFound);
    assert_eq!(r.status_code(), Status::NotFound);
    assert_eq!(copy.status_code(), Status::NotFound);
    assert_eq!(copy.headers().get("server").unwrap(), "rust");
    let mut r = copy;
    let out = r.serialize(None, DATE).unwrap();
    assert!(out.starts_with(b"HTTP/1.1 404 Not Found\r\n"));
}

#[test]
fn partial_content_line_ends_with_crlf() {
    let mut r = Response::new();
    r.status(Status::PartialContent);
    let out = r.serialize(None, DATE).unwrap();
    assert!(out.starts_with(b"HTTP/1.1 206 Partial Content\r\nserver: rust\r\n"));
}

#[test]
fn set_header_folds_name() {
    let mut r = Response::new();
    r.set_header("X-Trace", "abc");
    assert_eq!(r.headers().get("x-trace").unwrap(), "abc");
}

#[test]
fn send_dates_the_response() {
    let mut r = Response::new();
    let out = r.send(None).unwrap();
    let (head, _) = split_head(&out);
    assert!(head.starts_with("HTTP/1.1 200 OK\r\n"));
    assert!(head.contains("date: "));
}

#[test]
fn gzip_token_search() {
    assert!(mentions_gzip(b"deflate, gzip"));
    assert!(!mentions_gzip(b"gzi"));
    assert!(!mentions_gzip(b"deflate"));
}

#[test]
fn status_texts() {
    assert_eq!(Status::OK.text(), "200 OK");
    assert_eq!(Status::TooManyRequests.text(), "429 Too Many Requests");
    assert_eq!(Status::GatewayTimeout.text(), "504 Gateway Timeout");
}

#[test]
fn send_leaves_png_uncompressed_with_gzip_accepted() {
    let png = vec![0x89, 0x50, 0x4e, 0x47, 0x0d, 0x0a, 0x1a, 0x0a, 0, 0, 0, 0x0d];
    let mut r = Response::new();
    r.body(png.clone());
    let accept = "gzip".to_string();
    let out = r.send(Some(&accept)).unwrap();
    let (head, body) = split_head(&out);
    assert!(!head.contains("content-encoding"));
    assert_eq!(body, png);
}

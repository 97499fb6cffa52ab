use flate2::write::GzEncoder;
use flate2::Compression;
use std::io::Write;
use vstd::prelude::*;
use vstd::string::*;
use vstd::utf8::*;

use crate::body::Body;
use crate::headers::{
    fields_bytes, has_name, lemma_add_field_names, lookup, set_value, FieldList, Headers,
};
use crate::request::content_length_name;
use crate::text::{
    append_bytes, crlf, decimal_of, lemma_ascii_valid_utf8, lemma_decimal_ascii, lower,
    push_decimal, trim, utf8_string,
};

verus! {

/// `std::io::Error`, carried through as an opaque value.
#[verifier::external_type_specification]
#[verifier::external_body]
pub struct ExIoError(std::io::Error);

/// Whether `b` is one well-formed JSON document.
pub uninterp spec fn is_json(b: Seq<u8>) -> bool;

/// The MIME type of the first known file signature that `b` carries, if any.
pub uninterp spec fn sniffed_type(b: Seq<u8>) -> Option<Seq<char>>;

/// The gzip stream of `b` at the default compression level.
pub uninterp spec fn gzip_of(b: Seq<u8>) -> Seq<u8>;

/// Relies on `serde_json::from_slice::<serde_json::Value>`: it succeeds exactly on a
/// well-formed JSON document.
#[verifier::external_body]
fn parses_as_json(b: &[u8]) -> (r: bool)
    ensures
        r == is_json(b@),
{
    serde_json::from_slice::<serde_json::Value>(b).is_ok()
}

/// Relies on `infer::get` and `infer::Type::mime_type`: the MIME type of the first
/// matcher that recognises `b`.
#[verifier::external_body]
fn sniff_mime(b: &[u8]) -> (r: Option<String>)
    ensures
        match sniffed_type(b@) {
            Some(m) => r matches Some(s) && s@ == m,
            None => r is None,
        },
{
    match infer::get(b) {
        Some(t) => Some(t.mime_type().to_string()),
        None => None,
    }
}

/// Relies on `flate2::write::GzEncoder` with `Compression::default()`: writing `b` and
/// finishing gives the gzip stream of `b`; an I/O error of the encoder is passed on.
#[verifier::external_body]
fn gzip(b: &[u8]) -> (r: Result<Vec<u8>, std::io::Error>)
    ensures
        r matches Ok(z) ==> z@ == gzip_of(b@),
{
    let mut encoder = GzEncoder::new(Vec::new(), Compression::default());
    encoder.write_all(b)?;
    encoder.finish()
}

/// Relies on `chrono::Local::now` and `DateTime::to_rfc2822`: the current local time
/// in RFC 2822 form.
#[verifier::external_body]
fn now_rfc2822() -> (r: String) {
    chrono::Local::now().to_rfc2822()
}

#[derive(Clone, Copy, Debug, PartialEq, Eq, Structural)]
pub enum Version {
    OneDotOne,
}

#[derive(Clone, Copy, Debug, PartialEq, Eq, Structural)]
pub enum Status {
    OK,
    Created,
    Accepted,
    NoContent,
    PartialContent,
    MovedPermanently,
    Found,
    NotModified,
    BadRequest,
    Unauthorized,
    Forbidden,
    NotFound,
    MethodNotAllowed,
    Conflict,
    UnprocessableContent,
    TooManyRequests,
    InternalServerError,
    NotImplemented,
    ServiceUnavailable,
    GatewayTimeout,
}

/// Code and reason phrase of a status.
pub open spec fn status_text(s: Status) -> Seq<char> {
    match s {
        Status::OK => "200 OK"@,
        Status::Created => "201 Created"@,
        Status::Accepted => "202 Accepted"@,
        Status::NoContent => "204 No Content"@,
        Status::PartialContent => "206 Partial Content"@,
        Status::MovedPermanently => "301 Moved Permanently"@,
        Status::Found => "302 Found"@,
        Status::NotModified => "304 Not Modified"@,
        Status::BadRequest => "400 Bad Request"@,
        Status::Unauthorized => "401 Unauthorized"@,
        Status::Forbidden => "403 Forbidden"@,
        Status::NotFound => "404 Not Found"@,
        Status::MethodNotAllowed => "405 Method Not Allowed"@,
        Status::Conflict => "409 Conflict"@,
        Status::UnprocessableContent => "422 Unprocessable Content"@,
        Status::TooManyRequests => "429 Too Many Requests"@,
        Status::InternalServerError => "500 Internal Server Error"@,
        Status::NotImplemented => "501 Not Implemented"@,
        Status::ServiceUnavailable => "503 Service Unavailable"@,
        Status::GatewayTimeout => "504 Gateway Timeout"@,
    }
}

impl Version {
    /// The protocol name and the space that follows it on a status line.
    pub fn text(&self) -> (r: &'static str)
        ensures
            r@ == "HTTP/1.1 "@,
    {
        match self {
            Version::OneDotOne => "HTTP/1.1 ",
        }
    }
}

impl Status {
    pub fn text(&self) -> (r: &'static str)
        ensures
            r@ == status_text(*self),
    {
        match self {
            Status::OK => "200 OK",
            Status::Created => "201 Created",
            Status::Accepted => "202 Accepted",
            Status::NoContent => "204 No Content",
            Status::PartialContent => "206 Partial Content",
            Status::MovedPermanently => "301 Moved Permanently",
            Status::Found => "302 Found",
            Status::NotModified => "304 Not Modified",
            Status::BadRequest => "400 Bad Request",
            Status::Unauthorized => "401 Unauthorized",
            Status::Forbidden => "403 Forbidden",
            Status::NotFound => "404 Not Found",
            Status::MethodNotAllowed => "405 Method Not Allowed",
            Status::Conflict => "409 Conflict",
            Status::UnprocessableContent => "422 Unprocessable Content",
            Status::TooManyRequests => "429 Too Many Requests",
            Status::InternalServerError => "500 Internal Server Error",
            Status::NotImplemented => "501 Not Implemented",
            Status::ServiceUnavailable => "503 Service Unavailable",
            Status::GatewayTimeout => "504 Gateway Timeout",
        }
    }
}

/// `HTTP/1.1 <code> <reason>` and CRLF.
pub open spec fn status_line(s: Status) -> Seq<u8> {
    encode_utf8("HTTP/1.1 "@) + encode_utf8(status_text(s)) + crlf()
}

pub open spec fn server_name() -> Seq<u8> {
    seq![0x73u8, 0x65u8, 0x72u8, 0x76u8, 0x65u8, 0x72u8]
}

pub open spec fn content_type_name() -> Seq<u8> {
    seq![
        0x63u8, 0x6fu8, 0x6eu8, 0x74u8, 0x65u8, 0x6eu8, 0x74u8, 0x2du8, 0x74u8, 0x79u8, 0x70u8,
        0x65u8,
    ]
}

pub open spec fn content_encoding_name() -> Seq<u8> {
    seq![
        0x63u8, 0x6fu8, 0x6eu8, 0x74u8, 0x65u8, 0x6eu8, 0x74u8, 0x2du8, 0x65u8, 0x6eu8, 0x63u8,
        0x6fu8, 0x64u8, 0x69u8, 0x6eu8, 0x67u8,
    ]
}

pub open spec fn date_name() -> Seq<u8> {
    seq![0x64u8, 0x61u8, 0x74u8, 0x65u8]
}

pub open spec fn gzip_token() -> Seq<u8> {
    seq![0x67u8, 0x7au8, 0x69u8, 0x70u8]
}

/// The content type that a body gets: JSON first, then a known signature, then plain text.
pub open spec fn content_type_choice(json: bool, sniffed: Option<Seq<char>>) -> Seq<char> {
    if json {
        "application/json"@
    } else {
        match sniffed {
            Some(m) => m,
            None => "text/plain; charset=utf-8"@,
        }
    }
}

/// The content types whose bodies are worth compressing.
pub open spec fn compressible(v: Seq<char>) -> bool {
    v == "text/html"@ || v == "text/css"@ || v == "application/javascript"@ || v
        == "application/json"@ || v == "text/plain"@
}

/// Whether the fields declare a compressible content type.
pub open spec fn compress_allowed(m: FieldList) -> bool {
    match lookup(m, content_type_name()) {
        Some(v) => compressible(v),
        None => false,
    }
}

/// Whether `b` contains `gzip`.
pub open spec fn has_gzip(b: Seq<u8>) -> bool {
    exists|i: int| 0 <= i && i + 4 <= b.len() && #[trigger] b.subrange(i, i + 4) == gzip_token()
}

pub open spec fn accept_view(a: Option<&String>) -> Option<Seq<char>> {
    match a {
        Some(s) => Some(s@),
        None => None,
    }
}

/// Whether a response with fields `m` is compressed for a client that accepts `accept`.
pub open spec fn wants_gzip(accept: Option<Seq<char>>, m: FieldList) -> bool {
    match accept {
        Some(a) => has_gzip(encode_utf8(a)) && compress_allowed(m),
        None => false,
    }
}

/// Status, header fields and body of a response.
pub type ResponseView = (Status, FieldList, Option<Seq<u8>>);

/// `v` with its body, if any, gzip-compressed and its encoding and length declared.
pub open spec fn compressed(v: ResponseView) -> ResponseView {
    match v.2 {
        None => v,
        Some(b) => (
            v.0,
            set_value(
                set_value(v.1, content_encoding_name(), "gzip"@),
                content_length_name(),
                decode_utf8(decimal_of(gzip_of(b).len())),
            ),
            Some(gzip_of(b)),
        ),
    }
}

/// `v` as it stands after compression is decided for a client that accepts `accept`.
pub open spec fn negotiated(v: ResponseView, accept: Option<Seq<char>>) -> ResponseView {
    if wants_gzip(accept, v.1) {
        compressed(v)
    } else {
        v
    }
}

/// `v` with its `Date` field set to `date`.
pub open spec fn dated(v: ResponseView, date: Seq<char>) -> ResponseView {
    (v.0, set_value(v.1, date_name(), date), v.2)
}

/// The bytes of `v` on the wire: status line, header block, body.
pub open spec fn wire(v: ResponseView) -> Seq<u8> {
    status_line(v.0) + fields_bytes(v.1) + crlf() + match v.2 {
        Some(b) => b,
        None => Seq::empty(),
    }
}

/// The content type of `body` as `Response::body` infers it.
pub open spec fn inferred_type(body: Seq<u8>) -> Seq<char> {
    content_type_choice(is_json(body), sniffed_type(body))
}

pub struct ResponseLine {
    version: Version,
    status: Status,
}

/// A response under construction.
pub struct Response {
    response_line: ResponseLine,
    headers: Headers,
    body: Option<Body>,
}

impl View for Response {
    type V = ResponseView;

    closed spec fn view(&self) -> ResponseView {
        (
            self.response_line.status,
            self.headers@,
            match self.body {
                Some(b) => Some(b@),
                None => None,
            },
        )
    }
}

/// The content type for a body, from whether it parsed as JSON and what its signature showed.
pub fn content_type_for(json: bool, sniffed: Option<String>) -> (r: String)
    ensures
        r@ == content_type_choice(
            json,
            match sniffed {
                Some(s) => Some(s@),
                None => None,
            },
        ),
{
    if json {
        "application/json".to_owned()
    } else {
        match sniffed {
            Some(m) => m,
            None => "text/plain; charset=utf-8".to_owned(),
        }
    }
}

/// Whether `b` contains `gzip`.
pub fn mentions_gzip(b: &[u8]) -> (r: bool)
    ensures
        r == has_gzip(b@),
{
    if b.len() < 4 {
        return false;
    }
    let mut i: usize = 0;
    while i <= b.len() - 4
        invariant
            b@.len() >= 4,
            i <= b@.len() - 3,
            forall|j: int| 0 <= j < i ==> #[trigger] b@.subrange(j, j + 4) != gzip_token(),
        decreases b@.len() - i,
    {
        if b[i] == 0x67 && b[i + 1] == 0x7a && b[i + 2] == 0x69 && b[i + 3] == 0x70 {
            assert(b@.subrange(i as int, i + 4) =~= gzip_token());
            return true;
        }
        assert(b@.subrange(i as int, i + 4) != gzip_token()) by {
            if b@.subrange(i as int, i + 4) == gzip_token() {
                assert(b@.subrange(i as int, i + 4)[0] == b@[i as int]);
                assert(b@.subrange(i as int, i + 4)[1] == b@[i + 1]);
                assert(b@.subrange(i as int, i + 4)[2] == b@[i + 2]);
                assert(b@.subrange(i as int, i + 4)[3] == b@[i + 3]);
            }
        }
        i = i + 1;
    }
    assert forall|j: int| 0 <= j && j + 4 <= b@.len() implies #[trigger] b@.subrange(j, j + 4)
        != gzip_token() by {
        assert(j < i);
    }
    false
}

/// Decimal text of `n`.
fn decimal_string(n: usize) -> (r: String)
    ensures
        r@ == decode_utf8(decimal_of(n as nat)),
{
    let mut d: Vec<u8> = Vec::new();
    push_decimal(&mut d, n);
    proof {
        assert(d@ =~= decimal_of(n as nat));
        lemma_decimal_ascii(n as nat);
        lemma_ascii_valid_utf8(d@);
    }
    match utf8_string(d) {
        Some(s) => s,
        None => String::new(),
    }
}

/// Compression is negotiated: for a client that accepts gzip and a body of a compressible
/// declared type, the body becomes its gzip stream and `Content-Encoding` and
/// `Content-Length` are declared; for a client that names no encoding, or a type outside
/// the list, the response stays as it is.
pub proof fn lemma_compression_negotiation(v: ResponseView, accept: Option<Seq<char>>)
    ensures
        accept is None || !compress_allowed(v.1) ==> negotiated(v, accept) == v,
        wants_gzip(accept, v.1) && v.2 is Some ==> negotiated(v, accept).2 == Some(
            gzip_of(v.2.unwrap()),
        ) && has_name(negotiated(v, accept).1, content_encoding_name()) && has_name(
            negotiated(v, accept).1,
            content_length_name(),
        ) && negotiated(v, accept).0 == v.0,
{
    if wants_gzip(accept, v.1) && v.2 is Some {
        let b = v.2.unwrap();
        let m1 = set_value(v.1, content_encoding_name(), "gzip"@);
        lemma_add_field_names(
            v.1,
            content_encoding_name(),
            if has_name(v.1, content_encoding_name()) {
                "gzip"@
            } else {
                crate::text::trim_chars("gzip"@)
            },
            content_encoding_name(),
        );
        let l = decode_utf8(decimal_of(gzip_of(b).len()));
        lemma_add_field_names(
            m1,
            content_length_name(),
            if has_name(m1, content_length_name()) {
                l
            } else {
                crate::text::trim_chars(l)
            },
            content_encoding_name(),
        );
    }
}

fn server_field() -> (r: Vec<u8>)
    ensures
        r@ == server_name(),
{
    let r: Vec<u8> = vec![0x73u8, 0x65u8, 0x72u8, 0x76u8, 0x65u8, 0x72u8];
    assert(r@ =~= server_name());
    r
}

fn content_type_field() -> (r: Vec<u8>)
    ensures
        r@ == content_type_name(),
{
    let r: Vec<u8> = vec![
        0x63u8, 0x6fu8, 0x6eu8, 0x74u8, 0x65u8, 0x6eu8, 0x74u8, 0x2du8, 0x74u8, 0x79u8, 0x70u8,
        0x65u8,
    ];
    assert(r@ =~= content_type_name());
    r
}

fn content_encoding_field() -> (r: Vec<u8>)
    ensures
        r@ == content_encoding_name(),
{
    let r: Vec<u8> = vec![
        0x63u8, 0x6fu8, 0x6eu8, 0x74u8, 0x65u8, 0x6eu8, 0x74u8, 0x2du8, 0x65u8, 0x6eu8, 0x63u8,
        0x6fu8, 0x64u8, 0x69u8, 0x6eu8, 0x67u8,
    ];
    assert(r@ =~= content_encoding_name());
    r
}

fn content_length_field() -> (r: Vec<u8>)
    ensures
        r@ == content_length_name(),
{
    let r: Vec<u8> = vec![
        0x63u8, 0x6fu8, 0x6eu8, 0x74u8, 0x65u8, 0x6eu8, 0x74u8, 0x2du8, 0x6cu8, 0x65u8, 0x6eu8,
        0x67u8, 0x74u8, 0x68u8,
    ];
    assert(r@ =~= content_length_name());
    r
}

fn date_field() -> (r: Vec<u8>)
    ensures
        r@ == date_name(),
{
    let r: Vec<u8> = vec![0x64u8, 0x61u8, 0x74u8, 0x65u8];
    assert(r@ =~= date_name());
    r
}

/// Whether `v` is one of the compressible content types.
fn is_compressible(v: &String) -> (r: bool)
    ensures
        r == compressible(v@),
{
    let html = "text/html".to_owned();
    let css = "text/css".to_owned();
    let js = "application/javascript".to_owned();
    let json = "application/json".to_owned();
    let plain = "text/plain".to_owned();
    v.eq(&html) || v.eq(&css) || v.eq(&js) || v.eq(&json) || v.eq(&plain)
}

impl Response {
    /// The response's invariant: its header store is well formed.
    pub closed spec fn wf(&self) -> bool {
        self.headers.wf()
    }

    /// A `200 OK` response with a `Server` field and no body.
    pub fn new() -> (r: Self)
        ensures
            r.wf(),
            r@ == (Status::OK, set_value(Seq::empty(), server_name(), "rust"@), None::<Seq<u8>>),
    {
        let mut headers = Headers::new();
        headers.set_folded(server_field(), "rust");
        Response {
            response_line: ResponseLine { version: Version::OneDotOne, status: Status::OK },
            headers,
            body: None,
        }
    }

    /// The header store.
    pub fn headers(&self) -> (r: &Headers)
        requires
            self.wf(),
        ensures
            r@ == self@.1,
            r.wf(),
    {
        &self.headers
    }

    /// The body's bytes, if a body was set.
    pub fn body_bytes(&self) -> (r: Option<&[u8]>)
        ensures
            match self@.2 {
                Some(b) => r matches Some(x) && x@ == b,
                None => r is None,
            },
    {
        match &self.body {
            Some(b) => Some(b.as_bytes()),
            None => None,
        }
    }

    /// The status.
    pub fn status_code(&self) -> (r: Status)
        ensures
            r == self@.0,
    {
        self.response_line.status
    }

    /// Sets a header field; the name must be a valid field name.
    pub fn set_header(&mut self, key: &str, value: &str)
        requires
            old(self).wf(),
            crate::headers::valid_field_name(key.spec_bytes()),
        ensures
            final(self).wf(),
            final(self)@ == (
                old(self)@.0,
                set_value(old(self)@.1, lower(trim(key.spec_bytes())), value@),
                old(self)@.2,
            ),
    {
        let _ = self.headers.set(key, value);
    }

    /// Replaces the status and gives back a copy of the response.
    pub fn status(&mut self, status: Status) -> (r: Self)
        requires
            old(self).wf(),
        ensures
            final(self).wf(),
            final(self)@ == (status, old(self)@.1, old(self)@.2),
            r.wf(),
            r@ == final(self)@,
    {
        self.response_line.status = status;
        let body = match &self.body {
            Some(b) => {
                let mut content: Vec<u8> = Vec::new();
                append_bytes(&mut content, b.as_bytes());
                Some(Body::new(content))
            },
            None => None,
        };
        Response {
            response_line: ResponseLine { version: self.response_line.version, status },
            headers: self.headers.duplicate(),
            body,
        }
    }

    /// Stores `body` and sets the content type inferred from it.
    pub fn body(&mut self, body: Vec<u8>)
        requires
            old(self).wf(),
        ensures
            final(self).wf(),
            final(self)@ == (
                old(self)@.0,
                set_value(old(self)@.1, content_type_name(), inferred_type(body@)),
                Some(body@),
            ),
    {
        let json = parses_as_json(body.as_slice());
        let sniffed = if json {
            None
        } else {
            sniff_mime(body.as_slice())
        };
        let content_type = content_type_for(json, sniffed);
        self.headers.set_folded(content_type_field(), content_type.as_str());
        self.body = Some(Body::new(body));
    }

    /// Whether the declared content type is one that is compressed.
    pub fn should_compress(&self) -> (r: bool)
        requires
            self.wf(),
        ensures
            r == compress_allowed(self@.1),
    {
        match self.headers.value_of(content_type_field().as_slice()) {
            Some(v) => is_compressible(v),
            None => false,
        }
    }

    /// Gzip-compresses the body, if any, and declares its encoding and new length.
    fn compress_gzip(&mut self) -> (r: Result<(), std::io::Error>)
        requires
            old(self).wf(),
        ensures
            final(self).wf(),
            r is Ok ==> final(self)@ == compressed(old(self)@),
            r is Err ==> final(self)@ == old(self)@ && old(self)@.2 is Some,
    {
        let z = match &self.body {
            None => {
                return Ok(());
            },
            Some(b) => match gzip(b.as_bytes()) {
                Ok(z) => z,
                Err(e) => {
                    return Err(e);
                },
            },
        };
        let length = decimal_string(z.len());
        self.headers.set_folded(content_encoding_field(), "gzip");
        self.headers.set_folded(content_length_field(), length.as_str());
        self.body = Some(Body::new(z));
        Ok(())
    }

    /// Compresses the body when the client accepts gzip and the content type is one
    /// that is compressed.
    pub fn auto_compress(&mut self, accept_encoding: Option<&String>) -> (r: Result<
        (),
        std::io::Error,
    >)
        requires
            old(self).wf(),
        ensures
            final(self).wf(),
            r is Ok ==> final(self)@ == negotiated(old(self)@, accept_view(accept_encoding)),
            r is Err ==> final(self)@ == old(self)@ && wants_gzip(
                accept_view(accept_encoding),
                old(self)@.1,
            ) && old(self)@.2 is Some,
    {
        match accept_encoding {
            Some(encoding) => {
                if mentions_gzip(encoding.as_str().as_bytes()) && self.should_compress() {
                    self.compress_gzip()
                } else {
                    Ok(())
                }
            },
            None => Ok(()),
        }
    }

    /// The response on the wire, with `date` as its `Date` field: status line, header
    /// block and body, compressed when the client accepts gzip.
    pub fn serialize(&mut self, accept_encoding: Option<&String>, date: &str) -> (r: Result<
        Vec<u8>,
        std::io::Error,
    >)
        requires
            old(self).wf(),
        ensures
            final(self).wf(),
            r matches Ok(bytes) ==> final(self)@ == dated(
                negotiated(old(self)@, accept_view(accept_encoding)),
                date@,
            ) && bytes@ == wire(final(self)@),
            r is Err ==> final(self)@ == old(self)@ && wants_gzip(
                accept_view(accept_encoding),
                old(self)@.1,
            ) && old(self)@.2 is Some,
    {
        let mut out: Vec<u8> = Vec::new();
        append_bytes(&mut out, self.response_line.version.text().as_bytes());
        append_bytes(&mut out, self.response_line.status.text().as_bytes());
        out.push(0x0d);
        out.push(0x0a);
        match self.auto_compress(accept_encoding) {
            Err(e) => {
                return Err(e);
            },
            Ok(()) => {},
        }
        self.headers.set_folded(date_field(), date);
        let head = self.headers.to_bytes();
        append_bytes(&mut out, head.as_slice());
        match &self.body {
            Some(b) => append_bytes(&mut out, b.as_bytes()),
            None => {},
        }
        assert(out@ =~= wire(self@));
        Ok(out)
    }

    /// The response on the wire, dated now.
    pub fn send(&mut self, accept_encoding: Option<&String>) -> (r: Result<Vec<u8>, std::io::Error>)
        requires
            old(self).wf(),
        ensures
            final(self).wf(),
            r matches Ok(bytes) ==> exists|date: Seq<char>|
                final(self)@ == dated(negotiated(old(self)@, accept_view(accept_encoding)), date)
                    && bytes@ == wire(final(self)@),
            r is Err ==> final(self)@ == old(self)@ && wants_gzip(
                accept_view(accept_encoding),
                old(self)@.1,
            ) && old(self)@.2 is Some,
    {
        let date = now_rfc2822();
        self.serialize(accept_encoding, date.as_str())
    }
}

} // verus!

use vstd::prelude::*;
use vstd::string::*;
use vstd::utf8::*;

use crate::body::{body_outcome, Body};
use crate::headers::{lookup, parse_fields, FieldList, Headers};
use crate::text::{
    append_bytes, ends_with_crlf, find, find_byte, lemma_ascii_valid_utf8,
    lemma_find_byte, lemma_line_end, line_end, line_too_long, utf8_string, MAX_LINE_LENGTH,
};

verus! {

pub open spec fn is_upper(b: u8) -> bool {
    0x41 <= b <= 0x5a
}

/// The bytes of `HTTP/1.1`.
pub open spec fn http11() -> Seq<u8> {
    seq![0x48u8, 0x54u8, 0x54u8, 0x50u8, 0x2fu8, 0x31u8, 0x2eu8, 0x31u8]
}

/// The bytes of `content-length`.
pub open spec fn content_length_name() -> Seq<u8> {
    seq![
        0x63u8, 0x6fu8, 0x6eu8, 0x74u8, 0x65u8, 0x6eu8, 0x74u8, 0x2du8, 0x6cu8, 0x65u8, 0x6eu8,
        0x67u8, 0x74u8, 0x68u8,
    ]
}

/// The request line at the start of `s`, without its CRLF.
pub open spec fn line_text(s: Seq<u8>) -> Seq<u8> {
    s.subrange(0, line_end(s, 0) - 2)
}

/// Position of the first space of a request line.
pub open spec fn first_space(c: Seq<u8>) -> int {
    find_byte(c, 0, 0x20)
}

/// Position of the second space of a request line.
pub open spec fn second_space(c: Seq<u8>) -> int {
    find_byte(c, first_space(c) + 1, 0x20)
}

/// Whether the request line has exactly three parts: two spaces and no third.
pub open spec fn has_three_parts(c: Seq<u8>) -> bool {
    &&& first_space(c) < c.len()
    &&& second_space(c) < c.len()
    &&& find_byte(c, second_space(c) + 1, 0x20) == c.len()
}

pub open spec fn method_of(c: Seq<u8>) -> Seq<u8> {
    c.subrange(0, first_space(c))
}

pub open spec fn target_of(c: Seq<u8>) -> Seq<u8> {
    c.subrange(first_space(c) + 1, second_space(c))
}

pub open spec fn version_of(c: Seq<u8>) -> Seq<u8> {
    c.subrange(second_space(c) + 1, c.len() as int)
}

pub open spec fn all_upper(m: Seq<u8>) -> bool {
    forall|i: int| 0 <= i < m.len() ==> is_upper(#[trigger] m[i])
}

/// Whether the line that starts `s` is terminated by CRLF.
pub open spec fn line_terminated(s: Seq<u8>) -> bool {
    s.len() > 0 && ends_with_crlf(s.subrange(0, line_end(s, 0)))
}

/// The request line at the start of `s`: its method, its target and the position just
/// past its CRLF.
pub open spec fn request_line_of(s: Seq<u8>) -> Result<(Seq<u8>, Seq<u8>, int), RequestLineError> {
    if s.len() == 0 {
        Err(RequestLineError::ReadError)
    } else if line_too_long(s, 0) {
        Err(RequestLineError::LineTooLong)
    } else if !line_terminated(s) {
        Err(RequestLineError::MalformedEndOfLine)
    } else {
        let c = line_text(s);
        if !has_three_parts(c) {
            Err(RequestLineError::MalformedPart)
        } else if !all_upper(method_of(c)) {
            Err(RequestLineError::MalformedMethod)
        } else if !(target_of(c).len() > 0 && target_of(c)[0] == 0x2f) {
            Err(RequestLineError::MalformedTarget)
        } else if version_of(c) != http11() {
            Err(RequestLineError::BadHTTPVersion)
        } else {
            Ok((method_of(c), target_of(c), line_end(s, 0)))
        }
    }
}

/// A request line is accepted only with the version `HTTP/1.1`: a terminated line within the
/// limit, of three
/// parts whose method and target are sound but whose version differs fails with
/// `BadHTTPVersion`.
pub proof fn lemma_version_gate(s: Seq<u8>)
    ensures
        request_line_of(s) is Ok ==> version_of(line_text(s)) == http11(),
        line_terminated(s) && !line_too_long(s, 0) && has_three_parts(line_text(s)) && all_upper(
            method_of(line_text(s)),
        )
            && target_of(line_text(s)).len() > 0 && target_of(line_text(s))[0] == 0x2f
            && version_of(line_text(s)) != http11() ==> request_line_of(s) == Err::<
            (Seq<u8>, Seq<u8>, int),
            RequestLineError,
        >(RequestLineError::BadHTTPVersion),
{
}

/// A method is accepted only in upper case: a terminated line within the limit, of three
/// parts, whose method
/// holds any other byte fails with `MalformedMethod`.
pub proof fn lemma_method_gate(s: Seq<u8>)
    ensures
        request_line_of(s) is Ok ==> all_upper(method_of(line_text(s))),
        line_terminated(s) && !line_too_long(s, 0) && has_three_parts(line_text(s)) && !all_upper(
            method_of(line_text(s)),
        ) ==> request_line_of(s) == Err::<(Seq<u8>, Seq<u8>, int), RequestLineError>(
            RequestLineError::MalformedMethod,
        ),
{
}

/// The request line `method SP target SP version CRLF`.
pub open spec fn request_line_bytes(m: Seq<u8>, t: Seq<u8>, v: Seq<u8>) -> Seq<u8> {
    m + seq![0x20u8] + t + seq![0x20u8] + v + seq![0x0du8, 0x0au8]
}

/// A request-line part: no space, CR or LF in it.
pub open spec fn plain_part(x: Seq<u8>) -> bool {
    forall|i: int| 0 <= i < x.len() ==> #[trigger] x[i] != 0x20 && x[i] != 0x0d && x[i] != 0x0a
}

/// A request line written as `M SP T SP V CRLF`, within the line limit, with parts free of
/// spaces and line breaks, is read as exactly those three parts. So a method outside
/// `A`-`Z` fails with `MalformedMethod`, and with a sound method and target any version
/// other than `HTTP/1.1` fails with `BadHTTPVersion`, whatever follows the line.
pub proof fn lemma_request_line_parts(m: Seq<u8>, t: Seq<u8>, v: Seq<u8>, rest: Seq<u8>)
    requires
        plain_part(m),
        plain_part(t),
        plain_part(v),
        request_line_bytes(m, t, v).len() <= MAX_LINE_LENGTH,
    ensures
        ({
            let s = request_line_bytes(m, t, v) + rest;
            &&& line_terminated(s)
            &&& !line_too_long(s, 0)
            &&& has_three_parts(line_text(s))
            &&& method_of(line_text(s)) == m
            &&& target_of(line_text(s)) == t
            &&& version_of(line_text(s)) == v
            &&& !all_upper(m) ==> request_line_of(s) == Err::<
                (Seq<u8>, Seq<u8>, int),
                RequestLineError,
            >(RequestLineError::MalformedMethod)
            &&& all_upper(m) && t.len() > 0 && t[0] == 0x2f && v != http11()
                ==> request_line_of(s) == Err::<(Seq<u8>, Seq<u8>, int), RequestLineError>(
                RequestLineError::BadHTTPVersion,
            )
        }),
{
    let line = request_line_bytes(m, t, v);
    let s = line + rest;
    let l = line.len() as int;
    let a = m.len() as int;
    let b = a + 1 + t.len();
    let c = m + seq![0x20u8] + t + seq![0x20u8] + v;
    assert(c.len() == l - 2);
    assert forall|j: int| 0 <= j < l - 2 implies s[j] == #[trigger] c[j] && c[j] != 0x0a && c[j]
        != 0x0d by {
        assert(s[j] == line[j]);
        if j < a {
            assert(c[j] == m[j]);
        } else if a < j < b {
            assert(c[j] == t[j - a - 1]);
        } else if j > b {
            assert(c[j] == v[j - b - 1]);
        }
    }
    assert(s[l - 2] == line[l - 2]);
    assert(s[l - 1] == line[l - 1]);
    crate::text::lemma_find_byte_first(s, 0, l - 1, 0x0a);
    assert(line_end(s, 0) == l);
    assert(s.subrange(0, l) =~= line) by {
        assert forall|j: int| 0 <= j < l implies s.subrange(0, l)[j] == line[j] by {
            assert(s[j] == line[j]);
        }
    }
    assert(line_text(s) =~= c) by {
        assert forall|j: int| 0 <= j < l - 2 implies line_text(s)[j] == c[j] by {
            assert(s[j] == c[j]);
        }
    }
    assert forall|j: int| 0 <= j < a implies c[j] != 0x20 by {
        assert(c[j] == m[j]);
    }
    crate::text::lemma_find_byte_first(c, 0, a, 0x20);
    assert forall|j: int| a + 1 <= j < b implies c[j] != 0x20 by {
        assert(c[j] == t[j - a - 1]);
    }
    crate::text::lemma_find_byte_first(c, a + 1, b, 0x20);
    assert forall|j: int| b + 1 <= j < c.len() implies c[j] != 0x20 by {
        assert(c[j] == v[j - b - 1]);
    }
    lemma_find_byte(c, b + 1, 0x20);
    assert(method_of(c) =~= m);
    assert(target_of(c) =~= t);
    assert(version_of(c) =~= v);
}

/// A whole request read from `s`: method, target, header fields and body, if any.
/// Errors below the request line surface as `ReadError`.
pub open spec fn parse_request(s: Seq<u8>) -> Result<
    (Seq<char>, Seq<char>, FieldList, Option<Seq<u8>>),
    RequestLineError,
> {
    match request_line_of(s) {
        Err(e) => Err(e),
        Ok(line) => if !valid_utf8(line.1) {
            Err(RequestLineError::ReadError)
        } else {
            match parse_fields(s, line.2, Seq::empty()) {
                Err(_) => Err(RequestLineError::ReadError),
                Ok(h) => match lookup(h.0, content_length_name()) {
                    None => Ok((decode_utf8(line.0), decode_utf8(line.1), h.0, None)),
                    Some(v) => match body_outcome(s.subrange(h.1, s.len() as int), encode_utf8(v)) {
                        Err(_) => Err(RequestLineError::ReadError),
                        Ok(b) => Ok((decode_utf8(line.0), decode_utf8(line.1), h.0, Some(b))),
                    },
                },
            }
        },
    }
}

pub struct Request {
    pub request_line: RequestLine,
    pub headers: Headers,
    pub body: Option<Body>,
}

pub struct RequestLine {
    pub http_version: String,
    pub request_target: String,
    pub method: String,
}

impl RequestLine {
    pub fn new(http_version: &str, request_target: &str, method: &str) -> (r: Self)
        ensures
            r.http_version@ == http_version@,
            r.request_target@ == request_target@,
            r.method@ == method@,
    {
        RequestLine {
            http_version: http_version.to_owned(),
            request_target: request_target.to_owned(),
            method: method.to_owned(),
        }
    }
}

#[derive(Debug, PartialEq, Eq, Structural)]
pub enum RequestLineError {
    ReadError,
    MalformedEndOfLine,
    MalformedPart,
    MalformedMethod,
    MalformedTarget,
    BadHTTPVersion,
    LineTooLong,
}

pub open spec fn error_message(e: RequestLineError) -> Seq<char> {
    match e {
        RequestLineError::ReadError => "Error while reading bytes."@,
        RequestLineError::MalformedEndOfLine => "Malformed end of line missing '\r\n'"@,
        RequestLineError::MalformedPart => "Malformed part maximum 3 parts, getting more or less"@,
        RequestLineError::MalformedMethod => "Malformed method, should be in uppercase only"@,
        RequestLineError::MalformedTarget => "Malformed target, should start with a slash"@,
        RequestLineError::BadHTTPVersion => "Bad http version only 1.1 supported"@,
        RequestLineError::LineTooLong => "Line too long"@,
    }
}

impl RequestLineError {
    /// A sentence that describes the error.
    pub fn message(&self) -> (r: &'static str)
        ensures
            r@ == error_message(*self),
    {
        match self {
            RequestLineError::ReadError => "Error while reading bytes.",
            RequestLineError::MalformedEndOfLine => "Malformed end of line missing '\r\n'",
            RequestLineError::MalformedPart => "Malformed part maximum 3 parts, getting more or less",
            RequestLineError::MalformedMethod => "Malformed method, should be in uppercase only",
            RequestLineError::MalformedTarget => "Malformed target, should start with a slash",
            RequestLineError::BadHTTPVersion => "Bad http version only 1.1 supported",
            RequestLineError::LineTooLong => "Line too long",
        }
    }
}

fn upper_only(m: &[u8]) -> (r: bool)
    ensures
        r == all_upper(m@),
{
    let mut i: usize = 0;
    while i < m.len()
        invariant
            i <= m@.len(),
            forall|k: int| 0 <= k < i ==> is_upper(#[trigger] m@[k]),
        decreases m@.len() - i,
    {
        if !(0x41 <= m[i] && m[i] <= 0x5a) {
            return false;
        }
        i = i + 1;
    }
    true
}

fn is_http11(v: &[u8]) -> (r: bool)
    ensures
        r == (v@ == http11()),
{
    let r = v.len() == 8 && v[0] == 0x48 && v[1] == 0x54 && v[2] == 0x54 && v[3] == 0x50 && v[4]
        == 0x2f && v[5] == 0x31 && v[6] == 0x2e && v[7] == 0x31;
    if r {
        assert(v@ =~= http11());
    } else if v.len() == 8 {
        assert(v@ != http11()) by {
            if v@ == http11() {
                assert(v@[0] == http11()[0]);
            }
        }
    }
    r
}

/// Reads one request from `input`, the bytes that the connection delivered: a request
/// line, a header block and, when `Content-Length` is given, a body of exactly that length.
pub fn request_from_reader(input: &[u8]) -> (r: Result<Request, RequestLineError>)
    ensures
        match parse_request(input@) {
            Ok(m) => r matches Ok(req) && req.request_line.method@ == m.0
                && req.request_line.request_target@ == m.1 && req.request_line.http_version@
                == "1.1"@ && req.headers@ == m.2 && req.headers.wf() && match m.3 {
                Some(b) => req.body matches Some(body) && body@ == b,
                None => req.body is None,
            },
            Err(e) => r matches Err(x) && x == e,
        },
{
    let ghost s = input@;
    if input.len() == 0 {
        return Err(RequestLineError::ReadError);
    }
    proof {
        lemma_line_end(s, 0);
    }
    let nl = find(input, 0, 0x0a);
    let end = if nl < input.len() {
        nl + 1
    } else {
        input.len()
    };
    proof {
        let l = s.subrange(0, end as int);
        if l.len() >= 2 {
            assert(l[l.len() - 2] == s[end - 2]);
            assert(l[l.len() - 1] == s[end - 1]);
        }
    }
    proof {
        lemma_find_byte(s, 0, 0x0a);
    }
    if nl >= MAX_LINE_LENGTH && input.len() >= MAX_LINE_LENGTH {
        return Err(RequestLineError::LineTooLong);
    }
    if !(end >= 2 && input[end - 2] == 0x0d && input[end - 1] == 0x0a) {
        return Err(RequestLineError::MalformedEndOfLine);
    }
    let c = &input[0..end - 2];
    let ghost cs = c@;
    assert(cs == line_text(s));
    let space_a = find(c, 0, 0x20);
    proof {
        lemma_find_byte(cs, 0, 0x20);
    }
    if space_a >= c.len() {
        return Err(RequestLineError::MalformedPart);
    }
    let space_b = find(c, space_a + 1, 0x20);
    proof {
        lemma_find_byte(cs, space_a + 1, 0x20);
    }
    if space_b >= c.len() {
        return Err(RequestLineError::MalformedPart);
    }
    let third = find(c, space_b + 1, 0x20);
    if third < c.len() {
        return Err(RequestLineError::MalformedPart);
    }
    assert(first_space(cs) == space_a as int);
    assert(second_space(cs) == space_b as int);
    assert(find_byte(cs, space_b + 1, 0x20) == third as int);
    proof {
        lemma_find_byte(cs, space_b + 1, 0x20);
    }
    assert(has_three_parts(cs));
    if !upper_only(&c[0..space_a]) {
        return Err(RequestLineError::MalformedMethod);
    }
    if !(space_b > space_a + 1 && c[space_a + 1] == 0x2f) {
        return Err(RequestLineError::MalformedTarget);
    }
    if !is_http11(&c[space_b + 1..c.len()]) {
        return Err(RequestLineError::BadHTTPVersion);
    }
    let mut method_bytes: Vec<u8> = Vec::new();
    append_bytes(&mut method_bytes, &c[0..space_a]);
    proof {
        assert(method_bytes@ =~= cs.subrange(0, space_a as int));
        assert forall|k: int| 0 <= k < method_bytes@.len() implies #[trigger] method_bytes@[k]
            < 0x80 by {
            assert(is_upper(cs.subrange(0, space_a as int)[k]));
        }
        lemma_ascii_valid_utf8(method_bytes@);
    }
    let mut target_bytes: Vec<u8> = Vec::new();
    append_bytes(&mut target_bytes, &c[space_a + 1..space_b]);
    assert(target_bytes@ =~= cs.subrange(space_a + 1, space_b as int));
    let method = match utf8_string(method_bytes) {
        Some(m) => m,
        None => {
            return Err(RequestLineError::ReadError);
        },
    };
    let target = match utf8_string(target_bytes) {
        Some(t) => t,
        None => {
            return Err(RequestLineError::ReadError);
        },
    };
    let (headers, hend) = match Headers::parse_from(input, end) {
        Ok(p) => p,
        Err(_) => {
            return Err(RequestLineError::ReadError);
        },
    };
    let name: Vec<u8> = vec![
        0x63u8, 0x6fu8, 0x6eu8, 0x74u8, 0x65u8, 0x6eu8, 0x74u8, 0x2du8, 0x6cu8, 0x65u8, 0x6eu8,
        0x67u8, 0x74u8, 0x68u8,
    ];
    assert(name@ =~= content_length_name());
    let body = match headers.value_of(name.as_slice()) {
        None => None,
        Some(length) => match Body::parse(&input[hend..input.len()], length.as_str()) {
            Ok(b) => Some(b),
            Err(_) => {
                return Err(RequestLineError::ReadError);
            },
        },
    };
    Ok(
        Request {
            request_line: RequestLine::new("1.1", target.as_str(), method.as_str()),
            headers,
            body,
        },
    )
}

} // verus!

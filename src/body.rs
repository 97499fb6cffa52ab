use vstd::prelude::*;
use vstd::string::*;
use vstd::utf8::*;

use crate::text::{append_bytes, parse_decimal, parse_usize};

verus! {

/// The text that `String::from_utf8_lossy` makes of `b`.
pub uninterp spec fn lossy_text(b: Seq<u8>) -> Seq<char>;

/// Relies on `String::from_utf8_lossy`: valid UTF-8 is decoded as it stands, and every
/// invalid sequence becomes U+FFFD.
#[verifier::external_body]
fn utf8_lossy(b: &[u8]) -> (r: String)
    ensures
        r@ == lossy_text(b@),
        valid_utf8(b@) ==> r@ == decode_utf8(b@),
{
    String::from_utf8_lossy(b).into_owned()
}

/// What a body declared with `Content-Length` text `length` gives when `rest` is all
/// that the message still holds.
pub open spec fn body_outcome(rest: Seq<u8>, length: Seq<u8>) -> Result<Seq<u8>, BodyError> {
    match parse_decimal(length) {
        None => Err(BodyError::InvalidContentLength),
        Some(n) => if rest.len() < n {
            Err(BodyError::MissingData)
        } else if rest.len() > n {
            Err(BodyError::TooMushData)
        } else {
            Ok(rest)
        },
    }
}

/// The bytes of a message body.
pub struct Body {
    content: Vec<u8>,
}

impl View for Body {
    type V = Seq<u8>;

    closed spec fn view(&self) -> Seq<u8> {
        self.content@
    }
}

#[derive(Debug, PartialEq, Eq, Structural)]
pub enum BodyError {
    InvalidContentLength,
    MissingData,
    TooMushData,
}

impl Body {
    pub fn new(content: Vec<u8>) -> (r: Self)
        ensures
            r@ == content@,
    {
        Body { content }
    }

    /// Reads a body of the declared `length` from `rest`, the bytes that the message still
    /// holds: exactly that many must be there, no fewer and no more.
    pub fn parse(rest: &[u8], length: &str) -> (r: Result<Body, BodyError>)
        ensures
            match body_outcome(rest@, length.spec_bytes()) {
                Ok(b) => r matches Ok(body) && body@ == b,
                Err(e) => r matches Err(x) && x == e,
            },
    {
        let count = match parse_usize(length.as_bytes()) {
            None => {
                return Err(BodyError::InvalidContentLength);
            },
            Some(n) => n,
        };
        if rest.len() < count {
            return Err(BodyError::MissingData);
        }
        if rest.len() > count {
            return Err(BodyError::TooMushData);
        }
        let mut content: Vec<u8> = Vec::new();
        append_bytes(&mut content, rest);
        assert(content@ =~= rest@);
        Ok(Body { content })
    }

    pub fn as_bytes(&self) -> (r: &[u8])
        ensures
            r@ == self@,
    {
        self.content.as_slice()
    }

    pub fn set(&mut self, content: Vec<u8>)
        ensures
            final(self)@ == content@,
    {
        self.content = content;
    }

    /// The body as text; invalid UTF-8 sequences become U+FFFD.
    pub fn to_string_lossy(&self) -> (r: String)
        ensures
            r@ == lossy_text(self@),
            valid_utf8(self@) ==> r@ == decode_utf8(self@),
    {
        utf8_lossy(self.content.as_slice())
    }

    pub fn len(&self) -> (r: usize)
        ensures
            r == self@.len(),
    {
        self.content.len()
    }
}

/// A body is accepted exactly when the bytes that remain number the declared length, and
/// it is then those bytes; one byte short is missing data, one byte over is too much data.
pub proof fn lemma_body_exact_length(rest: Seq<u8>, length: Seq<u8>, n: nat)
    requires
        parse_decimal(length) == Some(n),
    ensures
        body_outcome(rest, length) is Ok <==> rest.len() == n,
        body_outcome(rest, length) matches Ok(b) ==> b == rest,
        rest.len() + 1 == n ==> body_outcome(rest, length) == Err::<Seq<u8>, BodyError>(
            BodyError::MissingData,
        ),
        rest.len() == n + 1 ==> body_outcome(rest, length) == Err::<Seq<u8>, BodyError>(
            BodyError::TooMushData,
        ),
{
}

} // verus!

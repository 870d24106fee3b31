use vstd::prelude::*;
use vstd::string::{StrSliceExecFns, StringExecFns};

use crate::mime::ContentType;

verus! {

pub const OK: u16 = 200;

pub const BAD_REQUEST: u16 = 400;

pub const FORBIDDEN: u16 = 403;

pub const NOT_FOUND: u16 = 404;

pub const METHOD_NOT_ALLOWED: u16 = 405;

pub const INTERNAL_SERVER_ERROR: u16 = 500;

/// The body of a response: raw bytes, or text that is sent as UTF-8.
#[derive(Clone, Debug)]
pub enum Body {
    Bytes(Vec<u8>),
    Text(String),
}

impl Body {
    /// The bytes that go on the wire: text as its UTF-8 encoding.
    pub fn into_bytes(self) -> (r: Vec<u8>)
        ensures
            match self {
                Body::Bytes(b) => r@ == b@,
                Body::Text(t) => r@ == vstd::utf8::encode_utf8(t@),
            },
    {
        match self {
            Body::Bytes(b) => b,
            Body::Text(t) => t.as_str().as_bytes_vec(),
        }
    }
}

/// One response, written whole before the connection closes.
#[derive(Clone, Debug)]
pub struct Response {
    pub status: u16,
    pub content_type: Option<ContentType>,
    pub body: Body,
}

/// The status line text that stands for `code` in an error body; every
/// code that is not one of the others reads as a bad request.
pub open spec fn status_text_spec(code: u16) -> Seq<char> {
    if code == OK {
        "200 OK"@
    } else if code == FORBIDDEN {
        "403 Forbidden"@
    } else if code == NOT_FOUND {
        "404 Not Found"@
    } else if code == METHOD_NOT_ALLOWED {
        "405 Method Not Allowed"@
    } else if code == INTERNAL_SERVER_ERROR {
        "500 Internal Server Error"@
    } else {
        "400 Bad Request"@
    }
}

/// The status line text of `code`.
pub fn status_text(code: u16) -> (r: &'static str)
    ensures
        r@ == status_text_spec(code),
{
    if code == OK {
        "200 OK"
    } else if code == FORBIDDEN {
        "403 Forbidden"
    } else if code == NOT_FOUND {
        "404 Not Found"
    } else if code == METHOD_NOT_ALLOWED {
        "405 Method Not Allowed"
    } else if code == INTERNAL_SERVER_ERROR {
        "500 Internal Server Error"
    } else {
        "400 Bad Request"
    }
}

/// `r` is the plain error response for `code`: that status, with its
/// status line text as a plain-text body.
pub open spec fn is_error_response(r: Response, code: u16) -> bool {
    &&& r.status == code
    &&& r.content_type == Some(ContentType::PlainText)
    &&& r.body matches Body::Text(t) && t@ == status_text_spec(code)
}

/// The plain error response for `code`.
pub fn create_error_response(code: u16) -> (r: Response)
    ensures
        is_error_response(r, code),
{
    let text = String::from_str(status_text(code));
    Response { status: code, content_type: Some(ContentType::PlainText), body: Body::Text(text) }
}

} // verus!

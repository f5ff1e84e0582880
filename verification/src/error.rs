//! Errors reported by the server core and how they map to HTTP answers.
use vstd::prelude::*;

use crate::text::{push_str, string_from_chars, chars_vec};

verus! {

broadcast use vstd::string::group_string_axioms;

/// The kind of an I/O failure, as far as the HTTP mapping cares.
#[derive(Debug, Clone, Copy, PartialEq, Eq, Structural)]
pub enum IoKind {
    NotFound,
    PermissionDenied,
    Other,
}

#[derive(Debug)]
pub enum QshareError {
    NotFound(String),
    Forbidden(String),
    BadRequest(String),
    NotADirectory(String),
    /// An I/O failure: its kind and its message.
    Io(IoKind, String),
    Internal(String),
}

impl QshareError {
    /// HTTP status of the error response.
    pub open spec fn status_of(self) -> u16 {
        match self {
            QshareError::NotFound(_) => 404,
            QshareError::Forbidden(_) => 403,
            QshareError::BadRequest(_) => 400,
            QshareError::NotADirectory(_) => 400,
            QshareError::Io(k, _) => match k {
                IoKind::NotFound => 404,
                IoKind::PermissionDenied => 403,
                IoKind::Other => 500,
            },
            QshareError::Internal(_) => 500,
        }
    }

    /// Machine-readable code in the JSON error body.
    pub open spec fn code_of(self) -> Seq<char> {
        match self {
            QshareError::NotFound(_) => "not_found"@,
            QshareError::Forbidden(_) => "forbidden"@,
            QshareError::BadRequest(_) => "bad_request"@,
            QshareError::NotADirectory(_) => "not_a_directory"@,
            QshareError::Io(k, _) => match k {
                IoKind::NotFound => "not_found"@,
                IoKind::PermissionDenied => "forbidden"@,
                IoKind::Other => "io_error"@,
            },
            QshareError::Internal(_) => "internal"@,
        }
    }

    /// Human-readable message: a fixed prefix and the error's detail.
    pub open spec fn message_of(self) -> Seq<char> {
        match self {
            QshareError::NotFound(s) => "path not found: "@ + s@,
            QshareError::Forbidden(s) => "forbidden: "@ + s@,
            QshareError::BadRequest(s) => "bad request: "@ + s@,
            QshareError::NotADirectory(s) => "not a directory: "@ + s@,
            QshareError::Io(_, s) => "io error: "@ + s@,
            QshareError::Internal(s) => "internal: "@ + s@,
        }
    }

    pub fn status_code(&self) -> (r: u16)
        ensures
            r == self.status_of(),
    {
        match self {
            QshareError::NotFound(_) => 404,
            QshareError::Forbidden(_) => 403,
            QshareError::BadRequest(_) => 400,
            QshareError::NotADirectory(_) => 400,
            QshareError::Io(k, _) => match k {
                IoKind::NotFound => 404,
                IoKind::PermissionDenied => 403,
                IoKind::Other => 500,
            },
            QshareError::Internal(_) => 500,
        }
    }

    pub fn error_code(&self) -> (r: &'static str)
        ensures
            r@ == self.code_of(),
    {
        match self {
            QshareError::NotFound(_) => "not_found",
            QshareError::Forbidden(_) => "forbidden",
            QshareError::BadRequest(_) => "bad_request",
            QshareError::NotADirectory(_) => "not_a_directory",
            QshareError::Io(k, _) => match k {
                IoKind::NotFound => "not_found",
                IoKind::PermissionDenied => "forbidden",
                IoKind::Other => "io_error",
            },
            QshareError::Internal(_) => "internal",
        }
    }

    /// The error's display text (what `to_string()` gives).
    pub fn message(&self) -> (r: String)
        ensures
            r@ == self.message_of(),
    {
        let (prefix, detail) = match self {
            QshareError::NotFound(s) => ("path not found: ", s),
            QshareError::Forbidden(s) => ("forbidden: ", s),
            QshareError::BadRequest(s) => ("bad request: ", s),
            QshareError::NotADirectory(s) => ("not a directory: ", s),
            QshareError::Io(_, s) => ("io error: ", s),
            QshareError::Internal(s) => ("internal: ", s),
        };
        let mut out = string_from_chars(chars_vec(prefix).as_slice());
        push_str(&mut out, detail.as_str());
        out
    }

    /// Whether this is a `Forbidden` error.
    pub fn is_forbidden(&self) -> (r: bool)
        ensures
            r == (self is Forbidden),
    {
        matches!(self, QshareError::Forbidden(_))
    }
}

/// A new `String` holding the characters of `s`.
pub fn text_of(s: &str) -> (r: String)
    ensures
        r@ == s@,
{
    string_from_chars(chars_vec(s).as_slice())
}

} // verus!

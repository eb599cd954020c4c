//! The error value that request handlers answer with.
use vstd::prelude::*;

verus! {

pub const NOT_FOUND: u16 = 404;

pub const INTERNAL_SERVER_ERROR: u16 = 500;

pub const BAD_REQUEST: u16 = 400;

pub const METHOD_NOT_ALLOWED: u16 = 405;

/// An error reported to a client: a message and an HTTP status code.
pub struct Error {
    /// The tag the error carries on the wire; always `error`.
    pub kind: &'static str,
    pub message: String,
    pub status_code: u16,
}

impl Error {
    pub fn new(message: String, status_code: u16) -> (r: Error)
        ensures
            r.kind@ == "error"@,
            r.message == message,
            r.status_code == status_code,
    {
        Error { kind: "error", message, status_code }
    }

    pub fn not_found() -> (r: Error)
        ensures
            r.kind@ == "error"@,
            r.message@ == "Not found requested resources."@,
            r.status_code == NOT_FOUND,
    {
        Error::new(String::from_str("Not found requested resources."), NOT_FOUND)
    }

    pub fn internal() -> (r: Error)
        ensures
            r.kind@ == "error"@,
            r.message@ == "Server internal error."@,
            r.status_code == INTERNAL_SERVER_ERROR,
    {
        Error::new(String::from_str("Server internal error."), INTERNAL_SERVER_ERROR)
    }

    pub fn bad_request() -> (r: Error)
        ensures
            r.kind@ == "error"@,
            r.message@ == "Bad request."@,
            r.status_code == BAD_REQUEST,
    {
        Error::new(String::from_str("Bad request."), BAD_REQUEST)
    }

    pub fn method_not_allowed() -> (r: Error)
        ensures
            r.kind@ == "error"@,
            r.message@ == "Method not allowed"@,
            r.status_code == METHOD_NOT_ALLOWED,
    {
        Error::new(String::from_str("Method not allowed"), METHOD_NOT_ALLOWED)
    }

    /// An internal error for an unexpected failure described by `detail`.
    /// The detail reaches the client only in debug mode; otherwise the
    /// message is the generic one.
    pub fn unexpected(detail: &str, debug: bool) -> (r: Error)
        ensures
            r.kind@ == "error"@,
            r.status_code == INTERNAL_SERVER_ERROR,
            debug ==> r.message@ == detail@,
            !debug ==> r.message@ == "Server internal error."@,
    {
        let mut error = Error::internal();
        if debug {
            error.message = String::from_str(detail);
        }
        error
    }
}

} // verus!

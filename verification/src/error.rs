//! The library's error type. Each variant stands for one failure kind:
//! I/O, transport, multistatus decoding, a non-success HTTP status, text
//! encoding, or a malformed URL. Transport-level failures carry the
//! message the transport reported; a refused response carries its status
//! code, so a caller can tell "server refused" apart from "server replied
//! but malformed".
use vstd::prelude::*;

verus! {

/// A structural failure while decoding a multistatus document: malformed
/// markup, a missing required element, or an unparsable field value.
#[derive(Debug, Clone, Copy, PartialEq, Eq, Structural)]
pub struct DecodeError;

#[derive(Debug)]
pub enum Error {
    /// An I/O-level failure, with the reported message.
    StdError(String),
    /// A transport (network/connection) failure, with the reported message.
    RequestError(String),
    /// A multistatus document that could not be decoded.
    DeError(DecodeError),
    /// A response whose HTTP status was not a success, carrying the status.
    ResponseError(u16),
    /// A byte sequence that was not valid UTF-8.
    Utf8Error,
    /// A malformed URL.
    UrlError,
}

impl Error {
    pub fn is_std_err(&self) -> (r: bool)
        ensures
            r == (self is StdError),
    {
        matches!(self, Self::StdError(_))
    }

    pub fn is_request_err(&self) -> (r: bool)
        ensures
            r == (self is RequestError),
    {
        matches!(self, Self::RequestError(_))
    }

    pub fn is_de_err(&self) -> (r: bool)
        ensures
            r == (self is DeError),
    {
        matches!(self, Self::DeError(_))
    }

    pub fn is_response_err(&self) -> (r: bool)
        ensures
            r == (self is ResponseError),
    {
        matches!(self, Self::ResponseError(_))
    }

    pub fn is_invalid_utf8_err(&self) -> (r: bool)
        ensures
            r == (self is Utf8Error),
    {
        matches!(self, Self::Utf8Error)
    }

    pub fn is_url_err(&self) -> (r: bool)
        ensures
            r == (self is UrlError),
    {
        matches!(self, Self::UrlError)
    }
}

} // verus!

//! The standardized error of an HTTP API call.

use vstd::prelude::*;
use vstd::string::*;
use crate::text::{nat_decimal, u64_to_text};
use crate::utils::retry::MaybeRetriable;

verus! {

/// What the HTTP client reported about a failed request.
#[derive(Clone, Debug)]
pub struct TransportError {
    /// The client's description of the failure.
    pub message: String,
    /// Connecting failed.
    pub connect: bool,
    /// The request timed out.
    pub timeout: bool,
    /// Sending the request failed.
    pub request: bool,
    /// Reading or writing a body failed.
    pub body: bool,
    /// Decoding the response body failed.
    pub decode: bool,
    /// The status code that the failure came with, if any.
    pub status: Option<u16>,
}

impl MaybeRetriable for TransportError {
    open spec fn retriable(&self) -> bool {
        self.connect || self.timeout || self.request || (self.body && !self.decode)
            || (self.status matches Some(s) && 500 <= s < 600)
    }

    fn is_retriable(&self) -> (r: bool) {
        self.connect || self.timeout || self.request || (self.body && !self.decode) || match self.status {
            Some(s) => s >= 500 && s < 600,
            None => false,
        }
    }
}

/// Represents a standardized error that can happen during an HTTP API call.
#[derive(Clone, Debug)]
pub enum Error {
    UnexpectedStatus { code: u16 },
    ReqwestError { source: TransportError },
    InvalidContents { msg: String },
}

impl Error {
    /// The text that the error shows.
    pub open spec fn text(self) -> Seq<char> {
        match self {
            Error::UnexpectedStatus { code } => "unexpected response status: "@ + nat_decimal(code as nat),
            Error::ReqwestError { source } => source.message@,
            Error::InvalidContents { msg } => msg@,
        }
    }

    /// Renders the error.
    pub fn to_string(&self) -> (s: String)
        ensures
            s@ == self.text(),
    {
        match self {
            Error::UnexpectedStatus { code } => {
                let mut s = String::from_str("unexpected response status: ");
                let n = u64_to_text(*code as u64);
                s.append(n.as_str());
                s
            },
            Error::ReqwestError { source } => source.message.clone(),
            Error::InvalidContents { msg } => msg.clone(),
        }
    }

    /// Returns an error if the status code of a response differs from the expected code.
    pub fn expect_status_code(expected_code: u16, code: u16) -> (r: Result<(), Error>)
        ensures
            code == expected_code ==> r is Ok,
            code != expected_code ==> (r matches Err(Error::UnexpectedStatus { code: c }) && c == code),
    {
        if code != expected_code {
            Err(Error::UnexpectedStatus { code })
        } else {
            Ok(())
        }
    }
}

impl MaybeRetriable for Error {
    /// Server errors and transient transport failures are worth retrying.
    open spec fn retriable(&self) -> bool {
        match self {
            Error::UnexpectedStatus { code } => 500 <= *code < 600,
            Error::ReqwestError { source } => source.retriable(),
            Error::InvalidContents { .. } => false,
        }
    }

    fn is_retriable(&self) -> (r: bool) {
        match self {
            Error::UnexpectedStatus { code } => *code >= 500 && *code < 600,
            Error::ReqwestError { source } => source.is_retriable(),
            Error::InvalidContents { .. } => false,
        }
    }
}

/// A transport failure is worth retrying when connecting, sending the request or waiting for
/// the answer failed, when a body failed for another reason than decoding, or when it came with
/// a server error status (5xx); a failure with none of these, such as a pure decoding failure,
/// is permanent.
pub proof fn law_transport_retry_classification(t: TransportError)
    ensures
        t.connect ==> t.retriable(),
        t.timeout ==> t.retriable(),
        t.request ==> t.retriable(),
        t.body && !t.decode ==> t.retriable(),
        (t.status matches Some(s) && 500 <= s < 600) ==> t.retriable(),
        !t.connect && !t.timeout && !t.request && !(t.body && !t.decode)
            && !(t.status matches Some(s) && 500 <= s < 600) ==> !t.retriable(),
{
}

/// An API error is worth retrying exactly when it is a 5xx status or a retriable transport
/// failure; malformed contents are never retried. In particular every failure to connect is
/// retried.
pub proof fn law_error_retry_classification(e: Error)
    ensures
        e matches Error::UnexpectedStatus { code } ==> (e.retriable() <==> 500 <= code < 600),
        e matches Error::ReqwestError { source } ==> (e.retriable() <==> source.retriable()),
        e matches Error::ReqwestError { source } ==> (source.connect ==> e.retriable()),
        e is InvalidContents ==> !e.retriable(),
{
}

} // verus!

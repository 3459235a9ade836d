//! The library's error type.

use vstd::prelude::*;

use crate::emsg::{emsg_number, EMsg};
use crate::text::{decimal, push_decimal, push_signed, signed_decimal};

verus! {

/// What is known of a failed HTTP request.
#[derive(Debug, Clone, Copy, PartialEq, Eq, Structural)]
pub struct HttpFailure {
    /// The status that the server answered with, if it answered.
    pub status: Option<u16>,
    /// The connection could not be made.
    pub connect: bool,
    /// The request timed out.
    pub timeout: bool,
}

/// Why an operation failed.
#[derive(Debug, Clone)]
pub enum Error {
    /// Anything that has no variant of its own, in words.
    Other(String),
    /// An HTTP request failed.
    Http(HttpFailure),
    /// A server answered a request with this error status; `context` says in
    /// words what was asked for and what came back.
    Status { status: u16, context: String },
    /// The WebSocket failed.
    WebSocket(String),
    /// Reading or writing failed.
    Io(String),
    /// A protobuf message could not be decoded.
    Decode(String),
    /// The CM closed the connection.
    ConnectionClosed,
    /// The CM did not answer this service method in time.
    ServiceMethodTimeout(String),
    /// A frame of this many bytes cannot hold a header.
    MessageTooShort(usize),
    /// A frame ends before its header does.
    MessageTruncated,
    /// The operation needs a session, and nobody has logged on.
    NoSession,
    /// Another message came than the one that was due.
    UnexpectedEMsg { expected: EMsg, got: EMsg },
    /// Steam answered with this result code.
    EResult { code: i32, context: String },
}

/// What an [`Error`] says, over mathematical values.
pub enum ErrorView {
    Other(Seq<char>),
    Http(HttpFailure),
    Status { status: u16, context: Seq<char> },
    WebSocket(Seq<char>),
    Io(Seq<char>),
    Decode(Seq<char>),
    ConnectionClosed,
    ServiceMethodTimeout(Seq<char>),
    MessageTooShort(usize),
    MessageTruncated,
    NoSession,
    UnexpectedEMsg { expected: EMsg, got: EMsg },
    EResult { code: i32, context: Seq<char> },
}

impl View for Error {
    type V = ErrorView;

    open spec fn view(&self) -> ErrorView {
        match *self {
            Error::Other(text) => ErrorView::Other(text@),
            Error::Http(failure) => ErrorView::Http(failure),
            Error::Status { status, context } => ErrorView::Status { status, context: context@ },
            Error::WebSocket(text) => ErrorView::WebSocket(text@),
            Error::Io(text) => ErrorView::Io(text@),
            Error::Decode(text) => ErrorView::Decode(text@),
            Error::ConnectionClosed => ErrorView::ConnectionClosed,
            Error::ServiceMethodTimeout(method) => ErrorView::ServiceMethodTimeout(method@),
            Error::MessageTooShort(length) => ErrorView::MessageTooShort(length),
            Error::MessageTruncated => ErrorView::MessageTruncated,
            Error::NoSession => ErrorView::NoSession,
            Error::UnexpectedEMsg { expected, got } => ErrorView::UnexpectedEMsg { expected, got },
            Error::EResult { code, context } => ErrorView::EResult { code, context: context@ },
        }
    }
}

/// A result over mathematical values.
pub open spec fn viewed<T: View>(r: Result<T, Error>) -> Result<T::V, ErrorView> {
    match r {
        Ok(value) => Ok(value@),
        Err(error) => Err(error@),
    }
}

/// A failure that is told in words.
pub open spec fn refused<T>(text: Seq<char>) -> Result<T, ErrorView> {
    Err(ErrorView::Other(text))
}

/// The result of an outside call, over mathematical values: a value or the
/// text of the outside error.
pub open spec fn outcome<T: View>(r: Result<T, String>) -> Result<T::V, Seq<char>> {
    match r {
        Ok(value) => Ok(value@),
        Err(text) => Err(text@),
    }
}

/// `head` and `detail` with a colon and a space between them.
pub open spec fn labelled(head: Seq<char>, detail: Seq<char>) -> Seq<char> {
    head + ": "@ + detail
}

/// The error in words.
pub open spec fn error_text(e: ErrorView) -> Seq<char> {
    match e {
        ErrorView::Other(text) => text,
        ErrorView::Http(failure) => match failure.status {
            Some(status) => "HTTP status "@ + decimal(status as nat),
            None => if failure.timeout {
                "HTTP request timed out"@
            } else if failure.connect {
                "HTTP connection failed"@
            } else {
                "HTTP request failed"@
            },
        },
        ErrorView::Status { status, context } => context,
        ErrorView::WebSocket(text) => labelled("WebSocket"@, text),
        ErrorView::Io(text) => labelled("I/O"@, text),
        ErrorView::Decode(text) => labelled("protobuf"@, text),
        ErrorView::ConnectionClosed => "connection closed"@,
        ErrorView::ServiceMethodTimeout(method) => labelled("service method timed out"@, method),
        ErrorView::MessageTooShort(length) => "message too short: "@ + decimal(length as nat)
            + " bytes"@,
        ErrorView::MessageTruncated => "message truncated"@,
        ErrorView::NoSession => "no session"@,
        ErrorView::UnexpectedEMsg { expected, got } => "expected message "@ + decimal(
            emsg_number(expected),
        ) + ", got "@ + decimal(emsg_number(got)),
        ErrorView::EResult { code, context } => context + " (result "@ + signed_decimal(code as int)
            + ")"@,
    }
}

/// `head` and `detail` with a colon and a space between them.
pub fn label(head: &str, detail: &str) -> (s: String)
    ensures
        s@ == labelled(head@, detail@),
{
    let mut s: String = head.to_string();
    s.append(": ");
    s.append(detail);
    s
}

impl Error {
    /// An error from a result code and what was asked for.
    pub fn eresult(code: i32, context: String) -> (e: Error)
        ensures
            e@ == (ErrorView::EResult { code, context: context@ }),
    {
        Error::EResult { code, context }
    }

    /// An error in words: `head`, a colon, and `detail`.
    pub fn described(head: &str, detail: &str) -> (e: Error)
        ensures
            e@ == ErrorView::Other(labelled(head@, detail@)),
    {
        Error::Other(label(head, detail))
    }

    /// The failure of a request that a server answered with an error status,
    /// in words: `head`, a colon, and `detail`.
    pub fn status(head: &str, status: u16, detail: &str) -> (e: Error)
        ensures
            e@ == (ErrorView::Status { status, context: labelled(head@, detail@) }),
    {
        Error::Status { status, context: label(head, detail) }
    }

    /// An error that says `text`.
    pub fn other(text: &str) -> (e: Error)
        ensures
            e@ == ErrorView::Other(text@),
    {
        Error::Other(text.to_string())
    }

    /// The error in words.
    pub fn message(&self) -> (s: String)
        ensures
            s@ == error_text(self@),
    {
        match self {
            Error::Other(text) => text.clone(),
            Error::Http(failure) => match failure.status {
                Some(status) => {
                    let mut s: String = "HTTP status ".to_string();
                    push_decimal(&mut s, status as u64);
                    s
                },
                None => if failure.timeout {
                    "HTTP request timed out".to_string()
                } else if failure.connect {
                    "HTTP connection failed".to_string()
                } else {
                    "HTTP request failed".to_string()
                },
            },
            Error::Status { context, .. } => context.clone(),
            Error::WebSocket(text) => label("WebSocket", text.as_str()),
            Error::Io(text) => label("I/O", text.as_str()),
            Error::Decode(text) => label("protobuf", text.as_str()),
            Error::ConnectionClosed => "connection closed".to_string(),
            Error::ServiceMethodTimeout(method) => label(
                "service method timed out",
                method.as_str(),
            ),
            Error::MessageTooShort(length) => {
                let mut s: String = "message too short: ".to_string();
                push_decimal(&mut s, *length as u64);
                s.append(" bytes");
                s
            },
            Error::MessageTruncated => "message truncated".to_string(),
            Error::NoSession => "no session".to_string(),
            Error::UnexpectedEMsg { expected, got } => {
                let mut s: String = "expected message ".to_string();
                push_decimal(&mut s, expected.to_u32() as u64);
                s.append(", got ");
                push_decimal(&mut s, got.to_u32() as u64);
                s
            },
            Error::EResult { code, context } => {
                let mut s: String = context.clone();
                s.append(" (result ");
                push_signed(&mut s, *code as i64);
                s.append(")");
                s
            },
        }
    }
}

} // verus!

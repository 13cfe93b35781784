//! What can go wrong while a packet is read or sent.
use crate::header::LengthError;
use vstd::prelude::*;
use vstd::string::*;

verus! {

/// Why no packet could be received or sent.
///
/// `UnexpectedEof` and `Io` end the stream: no further packet will arrive.
/// Every other error spoils one packet only, and the next attempt starts
/// behind what was read.
#[derive(Debug)]
pub enum TransportError {
    /// The stream ended where at least one more byte was expected.
    UnexpectedEof,
    /// A header line is not UTF-8.
    InvalidHeaderEncoding,
    /// A header line has no `": "`; holds the message that quotes the line.
    MalformedHeader(String),
    /// The header block ended without a `Content-Length` header.
    MissingContentLength,
    /// The value of the `Content-Length` header is no length.
    InvalidContentLength(LengthError),
    /// The body of the packet is not UTF-8.
    InvalidBodyEncoding,
    /// The underlying stream failed; holds what it reported.
    Io(String),
}

/// The mathematical value of a [`TransportError`].
pub enum TransportErrorView {
    UnexpectedEof,
    InvalidHeaderEncoding,
    MalformedHeader(Seq<char>),
    MissingContentLength,
    InvalidContentLength(LengthError),
    InvalidBodyEncoding,
    Io(Seq<char>),
}

impl TransportErrorView {
    /// Whether the stream is over after this error.
    pub open spec fn ends_stream(self) -> bool {
        self is UnexpectedEof || self is Io
    }

    /// The text that describes this error.
    pub open spec fn message(self) -> Seq<char> {
        match self {
            TransportErrorView::UnexpectedEof => "unexpected end of stream"@,
            TransportErrorView::InvalidHeaderEncoding => "stream did not contain valid UTF-8"@,
            TransportErrorView::MalformedHeader(message) => message,
            TransportErrorView::MissingContentLength => "Content-Length header is missing"@,
            TransportErrorView::InvalidContentLength(e) => "Value of Content-Length header is invalid number: "@
                + length_error_text(e),
            TransportErrorView::InvalidBodyEncoding => "Content of a packet is not a valid utf8: invalid utf-8"@,
            TransportErrorView::Io(message) => message,
        }
    }
}

/// The words for each way a length can be wrong.
pub open spec fn length_error_text(e: LengthError) -> Seq<char> {
    match e {
        LengthError::Empty => "cannot parse integer from empty string"@,
        LengthError::InvalidDigit => "invalid digit found in string"@,
        LengthError::Overflow => "number too large to fit in target type"@,
    }
}

impl View for TransportError {
    type V = TransportErrorView;

    open spec fn view(&self) -> TransportErrorView {
        match *self {
            TransportError::UnexpectedEof => TransportErrorView::UnexpectedEof,
            TransportError::InvalidHeaderEncoding => TransportErrorView::InvalidHeaderEncoding,
            TransportError::MalformedHeader(message) => TransportErrorView::MalformedHeader(
                message@,
            ),
            TransportError::MissingContentLength => TransportErrorView::MissingContentLength,
            TransportError::InvalidContentLength(e) => TransportErrorView::InvalidContentLength(e),
            TransportError::InvalidBodyEncoding => TransportErrorView::InvalidBodyEncoding,
            TransportError::Io(message) => TransportErrorView::Io(message@),
        }
    }
}

impl TransportError {
    /// Whether the stream is over after this error, so that reading must
    /// stop.
    pub fn ends_stream(&self) -> (r: bool)
        ensures
            r == self@.ends_stream(),
    {
        match self {
            TransportError::UnexpectedEof => true,
            TransportError::Io(_) => true,
            _ => false,
        }
    }

    /// The text that describes this error.
    pub fn message(&self) -> (r: String)
        ensures
            r@ == self@.message(),
    {
        match self {
            TransportError::UnexpectedEof => String::from_str("unexpected end of stream"),
            TransportError::InvalidHeaderEncoding => String::from_str(
                "stream did not contain valid UTF-8",
            ),
            TransportError::MalformedHeader(message) => message.clone(),
            TransportError::MissingContentLength => String::from_str(
                "Content-Length header is missing",
            ),
            TransportError::InvalidContentLength(e) => {
                let mut text = String::from_str(
                    "Value of Content-Length header is invalid number: ",
                );
                match e {
                    LengthError::Empty => text.append("cannot parse integer from empty string"),
                    LengthError::InvalidDigit => text.append("invalid digit found in string"),
                    LengthError::Overflow => text.append("number too large to fit in target type"),
                }
                text
            },
            TransportError::InvalidBodyEncoding => String::from_str(
                "Content of a packet is not a valid utf8: invalid utf-8",
            ),
            TransportError::Io(message) => message.clone(),
        }
    }
}

/// The mathematical value of what receiving a packet gave.
pub open spec fn outcome_view(r: Result<String, TransportError>) -> Result<
    Seq<char>,
    TransportErrorView,
> {
    match r {
        Ok(packet) => Ok(packet@),
        Err(e) => Err(e@),
    }
}

} // verus!

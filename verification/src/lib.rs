//! Client-side implementation of the line-oriented "AT" command protocol used
//! to drive a serial-attached wireless modem: commands are encoded to wire
//! bytes, responses are framed by terminator markers and decoded into typed
//! results.
//!
//! The crate is organised around three pieces:
//! - the [`Command`] trait, the uniform encode/decode contract that every
//!   request type implements;
//! - the per-command response parsers in [`command`];
//! - the framing accumulator in [`framing`], which recognises the success and
//!   failure markers in an incrementally read byte stream.
//!
//! Opening and driving the actual serial transport is left to the caller: the
//! library works on plain byte buffers only.
use vstd::prelude::*;

pub mod command;
pub mod framing;
pub mod parse;

verus! {

/// Carriage return, the first byte of the protocol's line terminator.
pub const CR: u8 = 13;

/// Line feed, the second byte of the protocol's line terminator.
pub const LF: u8 = 10;

/// True when `s` ends with the byte sequence `suffix`.
pub open spec fn ends_with(s: Seq<u8>, suffix: Seq<u8>) -> bool {
    suffix.len() <= s.len() && s.skip(s.len() - suffix.len()) == suffix
}

/// The protocol's line terminator: carriage return followed by line feed.
pub open spec fn crlf() -> Seq<u8> {
    seq![CR, LF]
}

/// Names the numeric field of an access-point record that failed to parse.
#[derive(Copy, Clone, Debug, PartialEq, Eq, Structural)]
pub enum NumericField {
    Ecn,
    Rssi,
    Channel,
}

/// Everything that can go wrong during one command/response exchange.
///
/// Transport-level I/O errors stay with the caller that owns the transport;
/// this type covers the protocol itself: the remote failure marker, a
/// transport that stopped producing bytes, and every structural defect a
/// response body can have.
#[derive(Debug, PartialEq, Eq)]
pub enum Error {
    /// The transport returned no bytes before a terminator was seen; carries
    /// whatever had been accumulated so far.
    InvalidResponse(Vec<u8>),
    /// The remote side answered with the failure marker; carries the full
    /// accumulated text, marker included.
    Protocol(Vec<u8>),
    /// A required punctuation byte was absent from the response body.
    MissingDelimiter(u8),
    /// The response body ended where another byte was still required.
    UnexpectedEnd,
    /// A required response line was absent.
    MissingLine,
    /// The mode selector digit was not one of the three valid digits; carries
    /// the offending byte.
    UnknownMode(u8),
    /// A numeric field did not parse as its integer type; names the field and
    /// carries its raw text.
    InvalidNumber(NumericField, Vec<u8>),
    /// A text field was not validly encoded; carries its raw bytes.
    InvalidText(Vec<u8>),
}

/// The mathematical image of an [`Error`]: byte buffers become sequences.
pub enum ErrorModel {
    InvalidResponse(Seq<u8>),
    Protocol(Seq<u8>),
    MissingDelimiter(u8),
    UnexpectedEnd,
    MissingLine,
    UnknownMode(u8),
    InvalidNumber(NumericField, Seq<u8>),
    InvalidText(Seq<u8>),
}

impl DeepView for Error {
    type V = ErrorModel;

    open spec fn deep_view(&self) -> ErrorModel {
        match self {
            Error::InvalidResponse(b) => ErrorModel::InvalidResponse(b@),
            Error::Protocol(b) => ErrorModel::Protocol(b@),
            Error::MissingDelimiter(b) => ErrorModel::MissingDelimiter(*b),
            Error::UnexpectedEnd => ErrorModel::UnexpectedEnd,
            Error::MissingLine => ErrorModel::MissingLine,
            Error::UnknownMode(b) => ErrorModel::UnknownMode(*b),
            Error::InvalidNumber(f, b) => ErrorModel::InvalidNumber(*f, b@),
            Error::InvalidText(b) => ErrorModel::InvalidText(b@),
        }
    }
}

/// The uniform contract for one request type: how it serialises itself to
/// wire bytes and how it reads a framed response body back into its typed
/// result.
///
/// `wire` and `decoded` are the mathematical statement of both directions;
/// `encode` and `decode` are held to them exactly. Every request line the
/// protocol sends must be self-terminated, which `wire_terminated` turns into
/// a proof obligation on each implementation.
pub trait Command {
    /// The typed result this command's response decodes to.
    type Output: DeepView;

    /// The exact bytes this command puts on the wire.
    spec fn wire(&self) -> Seq<u8>;

    /// What decoding yields for each possible response body: the typed result
    /// on the bodies this command accepts, and the precise error on all
    /// others.
    spec fn decoded(&self, body: Seq<u8>) -> Result<
        <Self::Output as DeepView>::V,
        ErrorModel,
    >;

    /// Every encoded request ends with the protocol's line terminator.
    proof fn wire_terminated(&self)
        ensures
            ends_with(self.wire(), crlf()),
    ;

    /// Appends this command's wire bytes to `out`.
    fn encode(&self, out: &mut Vec<u8>)
        ensures
            final(out)@ == old(out)@ + self.wire(),
    ;

    /// Decodes a framed response body (end-of-response marker already
    /// stripped) into this command's result. Pure in `body`: the buffer is
    /// neither mutated nor retained.
    fn decode(&self, body: &[u8]) -> (r: Result<Self::Output, Error>)
        ensures
            match r {
                Ok(v) => self.decoded(body@) == Ok::<
                    <Self::Output as DeepView>::V,
                    ErrorModel,
                >(v.deep_view()),
                Err(e) => self.decoded(body@) == Err::<
                    <Self::Output as DeepView>::V,
                    ErrorModel,
                >(e.deep_view()),
            },
    ;
}

} // verus!

//! Errors of the RTSP server library: protocol parsing, session lookup,
//! server lifecycle, and resource exhaustion, plus I/O failures reported by
//! the surrounding transport code.

use vstd::prelude::*;

verus! {

/// Why a request failed to parse.
#[derive(Debug, Clone, Copy, PartialEq, Eq, Structural)]
pub enum ParseErrorKind {
    EmptyRequest,
    InvalidRequestLine,
    InvalidHeader,
}

impl ParseErrorKind {
    pub open spec fn spec_message(self) -> Seq<char> {
        match self {
            ParseErrorKind::EmptyRequest => "empty request"@,
            ParseErrorKind::InvalidRequestLine => "invalid request line"@,
            ParseErrorKind::InvalidHeader => "invalid header"@,
        }
    }

    /// Short description, as logs print it.
    pub fn message(&self) -> (r: &'static str)
        ensures
            r@ == self.spec_message(),
    {
        match self {
            ParseErrorKind::EmptyRequest => "empty request",
            ParseErrorKind::InvalidRequestLine => "invalid request line",
            ParseErrorKind::InvalidHeader => "invalid header",
        }
    }
}

/// Errors that can occur in the RTSP server library.
///
/// These map to specific failure modes in the RTSP/RTP stack: protocol
/// parsing, session lookup and state, server lifecycle, and port allocation.
/// `Io` carries the message of a socket failure observed by the transport
/// code around the library.
#[derive(Debug)]
pub enum RtspError {
    Io(String),
    SessionNotFound(String),
    TransportNotConfigured(String),
    SessionNotPlaying(String),
    NotStarted,
    AlreadyRunning,
    Parse { kind: ParseErrorKind },
    PortRangeExhausted,
}

} // verus!

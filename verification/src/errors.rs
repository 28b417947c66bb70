//! The errors that the protocol reports to its caller.
use crate::text::{decimal, decimal_text};
use vstd::prelude::*;
use vstd::string::StringExecFns;

verus! {

/// The operating system's I/O error, carried through unchanged from the host's
/// sink or source.
#[verifier::external_type_specification]
#[verifier::external_body]
pub struct ExIoError(std::io::Error);

/// What the operations of the protocol return.
pub type ProtocolResult<T> = Result<T, ProtocolError>;

/// What can go wrong.
#[derive(Debug)]
pub enum ProtocolError {
    /// `send` was called with zero bytes.
    EmptyPayload,
    /// The payload needs more fragments than the receive window, or than a fragment
    /// number can count.
    FragmentsGreaterThanWindowSize,
    /// The next message is not fully buffered yet.
    IncompleteMessage,
    /// `recv` was called while no segment is ready.
    EmptyRecvQueue,
    /// The buffer cannot hold the next message, or the input cannot hold a header.
    BufferTooSmall,
    /// An incoming segment names another session.
    InvalidSessionId,
    /// An incoming segment carries an unknown command.
    InvalidCommand,
    /// The host's sink or source failed.
    IOError(std::io::Error),
    /// The payload (first number, in bytes) exceeds the configured cap (second number).
    PayloadTooLarge(usize, usize),
    /// The stream id is not below the configured number of streams.
    InvalidStreamId,
    /// A setting or a combination of guarantees is not supported.
    InvalidConfiguration(&'static str),
}

/// The kind of an error, without what it carries.
#[derive(Clone, Copy, Debug, PartialEq, Eq, Structural)]
pub enum ErrorKind {
    EmptyPayload,
    FragmentsGreaterThanWindowSize,
    IncompleteMessage,
    EmptyRecvQueue,
    BufferTooSmall,
    InvalidSessionId,
    InvalidCommand,
    IOError,
    PayloadTooLarge,
    InvalidStreamId,
    InvalidConfiguration,
}

impl ProtocolError {
    /// The kind of this error.
    pub open spec fn spec_kind(&self) -> ErrorKind {
        match self {
            ProtocolError::EmptyPayload => ErrorKind::EmptyPayload,
            ProtocolError::FragmentsGreaterThanWindowSize => {
                ErrorKind::FragmentsGreaterThanWindowSize
            },
            ProtocolError::IncompleteMessage => ErrorKind::IncompleteMessage,
            ProtocolError::EmptyRecvQueue => ErrorKind::EmptyRecvQueue,
            ProtocolError::BufferTooSmall => ErrorKind::BufferTooSmall,
            ProtocolError::InvalidSessionId => ErrorKind::InvalidSessionId,
            ProtocolError::InvalidCommand => ErrorKind::InvalidCommand,
            ProtocolError::IOError(_) => ErrorKind::IOError,
            ProtocolError::PayloadTooLarge(_, _) => ErrorKind::PayloadTooLarge,
            ProtocolError::InvalidStreamId => ErrorKind::InvalidStreamId,
            ProtocolError::InvalidConfiguration(_) => ErrorKind::InvalidConfiguration,
        }
    }

    /// The kind of this error.
    #[verifier::when_used_as_spec(spec_kind)]
    pub fn kind(&self) -> (k: ErrorKind)
        ensures
            k == self.spec_kind(),
    {
        match self {
            ProtocolError::EmptyPayload => ErrorKind::EmptyPayload,
            ProtocolError::FragmentsGreaterThanWindowSize => {
                ErrorKind::FragmentsGreaterThanWindowSize
            },
            ProtocolError::IncompleteMessage => ErrorKind::IncompleteMessage,
            ProtocolError::EmptyRecvQueue => ErrorKind::EmptyRecvQueue,
            ProtocolError::BufferTooSmall => ErrorKind::BufferTooSmall,
            ProtocolError::InvalidSessionId => ErrorKind::InvalidSessionId,
            ProtocolError::InvalidCommand => ErrorKind::InvalidCommand,
            ProtocolError::IOError(_) => ErrorKind::IOError,
            ProtocolError::PayloadTooLarge(_, _) => ErrorKind::PayloadTooLarge,
            ProtocolError::InvalidStreamId => ErrorKind::InvalidStreamId,
            ProtocolError::InvalidConfiguration(_) => ErrorKind::InvalidConfiguration,
        }
    }
}

impl ProtocolError {
    /// What the error says, for every error but one of the host's I/O.
    pub open spec fn text(&self) -> Seq<char> {
        match self {
            ProtocolError::EmptyPayload => "Attempted to send an empty buffer."@,
            ProtocolError::FragmentsGreaterThanWindowSize => {
                "Number of fragments required is greater than the window size."@
            },
            ProtocolError::IncompleteMessage => {
                "Attempted to peek_size on an incomplete or missing message"@
            },
            ProtocolError::EmptyRecvQueue => "Attempted to recv when the recv_queue is empty."@,
            ProtocolError::BufferTooSmall => {
                "Attempted to recv with a buffer too small to hold the payload."@
            },
            ProtocolError::InvalidSessionId => "Session id doesn't match."@,
            ProtocolError::InvalidCommand => "Unrecognized command."@,
            ProtocolError::IOError(_) => "An IO Error occurred."@,
            ProtocolError::PayloadTooLarge(size, max) => "The payload size ("@ + decimal(
                *size as nat,
            ) + " bytes) was bigger than the max allowed size ("@ + decimal(*max as nat)
                + " bytes)."@,
            ProtocolError::InvalidStreamId => "The desired stream id is too large."@,
            ProtocolError::InvalidConfiguration(reason) => "Invalid Configuration: "@ + reason@,
        }
    }

    /// What the error says. For an error of the host's I/O that is
    /// "An IO Error occurred. Reason: ", then the host's description of the error,
    /// then a full stop.
    pub fn message(&self) -> (m: String)
        ensures
            !(self is IOError) ==> m@ == self.text(),
            self is IOError ==> exists|reason: Seq<char>|
                m@ == #[trigger] ("An IO Error occurred. Reason: "@ + reason) + "."@,
    {
        match self {
            ProtocolError::EmptyPayload => String::from_str("Attempted to send an empty buffer."),
            ProtocolError::FragmentsGreaterThanWindowSize => String::from_str(
                "Number of fragments required is greater than the window size.",
            ),
            ProtocolError::IncompleteMessage => String::from_str(
                "Attempted to peek_size on an incomplete or missing message",
            ),
            ProtocolError::EmptyRecvQueue => String::from_str(
                "Attempted to recv when the recv_queue is empty.",
            ),
            ProtocolError::BufferTooSmall => String::from_str(
                "Attempted to recv with a buffer too small to hold the payload.",
            ),
            ProtocolError::InvalidSessionId => String::from_str("Session id doesn't match."),
            ProtocolError::InvalidCommand => String::from_str("Unrecognized command."),
            ProtocolError::IOError(e) => {
                let mut m = String::from_str("An IO Error occurred. Reason: ");
                let reason = io_error_text(e);
                m.append(reason.as_str());
                m.append(".");
                assert(m@ == ("An IO Error occurred. Reason: "@ + reason@) + "."@);
                m
            },
            ProtocolError::PayloadTooLarge(size, max) => {
                let mut m = String::from_str("The payload size (");
                let size_text = decimal_text(*size);
                m.append(size_text.as_str());
                m.append(" bytes) was bigger than the max allowed size (");
                let max_text = decimal_text(*max);
                m.append(max_text.as_str());
                m.append(" bytes).");
                m
            },
            ProtocolError::InvalidStreamId => String::from_str(
                "The desired stream id is too large.",
            ),
            ProtocolError::InvalidConfiguration(reason) => {
                let mut m = String::from_str("Invalid Configuration: ");
                m.append(reason);
                m
            },
        }
    }
}

/// `std::io::Error::from(ErrorKind::NotConnected)`: the host's error for a link
/// that is not there. Nothing is claimed of the error.
#[verifier::external_body]
pub(crate) fn not_connected() -> (e: std::io::Error) {
    std::io::Error::from(std::io::ErrorKind::NotConnected)
}

/// `format!("{:?}", e)` for the host's I/O error: how the standard library
/// describes the error for debugging. Nothing is claimed of the text.
#[verifier::external_body]
fn io_error_text(e: &std::io::Error) -> (text: String) {
    format!("{:?}", e)
}

/// Two errors are equal when they are of the same kind, whatever they carry.
impl PartialEq for ProtocolError {
    fn eq(&self, other: &ProtocolError) -> (same: bool) {
        self.kind() == other.kind()
    }
}

impl vstd::std_specs::cmp::PartialEqSpecImpl for ProtocolError {
    open spec fn obeys_eq_spec() -> bool {
        true
    }

    open spec fn eq_spec(&self, other: &ProtocolError) -> bool {
        self.spec_kind() == other.spec_kind()
    }
}

impl From<std::io::Error> for ProtocolError {
    fn from(inner: std::io::Error) -> (e: ProtocolError) {
        ProtocolError::IOError(inner)
    }
}

impl vstd::std_specs::convert::FromSpecImpl<std::io::Error> for ProtocolError {
    open spec fn obeys_from_spec() -> bool {
        true
    }

    open spec fn from_spec(inner: std::io::Error) -> ProtocolError {
        ProtocolError::IOError(inner)
    }
}

} // verus!

//! The error type that every fallible operation of the library returns.

use vstd::prelude::*;

use crate::text::{decimal, push_decimal};

verus! {

/// `std::io::Error`, carried through unread.
#[verifier::external_type_specification]
#[verifier::external_body]
pub struct ExIoError(std::io::Error);

/// What can go wrong.
#[derive(Debug)]
pub enum MlinkError {
    Timeout,
    PeerGone { peer_id: String },
    HandlerError(String),
    PayloadTooLarge { size: usize, max: usize },
    UnknownMethod(String),
    StreamFailed { stream_id: u16 },
    Backpressure,
    SecurityError(String),
    CodecError(String),
    CompressError(String),
    /// The radio stack's own message.
    Ble(String),
    Io(std::io::Error),
    /// Every link to the peer is unusable.
    NoHealthyLink { peer_id: String },
    /// The peer claims a room that this side is not in.
    RoomMismatch { peer_id: String },
}

pub type Result<T> = std::result::Result<T, MlinkError>;

/// `std::io::Error::to_string`. The text of an operating system error differs from one
/// machine to another, so nothing is claimed of it.
#[verifier::external_body]
pub(crate) fn io_error_text(e: &std::io::Error) -> String {
    e.to_string()
}

impl MlinkError {
    /// The message of every error but `Io`, whose text the operating system gives.
    pub open spec fn message(self) -> Seq<char> {
        match self {
            MlinkError::Timeout => "request timed out"@,
            MlinkError::PeerGone { peer_id } => "peer disconnected: "@ + peer_id@,
            MlinkError::HandlerError(m) => "handler error: "@ + m@,
            MlinkError::PayloadTooLarge { size, max } => "payload too large: "@ + decimal(size as nat)
                + " > "@ + decimal(max as nat),
            MlinkError::UnknownMethod(m) => "unknown method: "@ + m@,
            MlinkError::StreamFailed { stream_id } => "stream failed: stream_id="@ + decimal(
                stream_id as nat,
            ),
            MlinkError::Backpressure => "backpressure: receiver overloaded"@,
            MlinkError::SecurityError(m) => "security error: "@ + m@,
            MlinkError::CodecError(m) => "codec error: "@ + m@,
            MlinkError::CompressError(m) => "compress error: "@ + m@,
            MlinkError::Ble(m) => "ble error: "@ + m@,
            MlinkError::Io(_) => "io error: "@,
            MlinkError::NoHealthyLink { peer_id } => "no healthy link: "@ + peer_id@,
            MlinkError::RoomMismatch { peer_id } => "room mismatch: "@ + peer_id@,
        }
    }

    /// The error as text, for people.
    pub fn to_string(&self) -> (s: String)
        ensures
            self !is Io ==> s@ == self.message(),
            self is Io ==> self.message().is_prefix_of(s@),
    {
        match self {
            MlinkError::Timeout => "request timed out".to_owned(),
            MlinkError::PeerGone { peer_id } => joined("peer disconnected: ", peer_id.as_str()),
            MlinkError::HandlerError(m) => joined("handler error: ", m.as_str()),
            MlinkError::PayloadTooLarge { size, max } => {
                let mut s = "payload too large: ".to_owned();
                push_decimal(&mut s, *size as u64);
                s.append(" > ");
                push_decimal(&mut s, *max as u64);
                s
            },
            MlinkError::UnknownMethod(m) => joined("unknown method: ", m.as_str()),
            MlinkError::StreamFailed { stream_id } => {
                let mut s = "stream failed: stream_id=".to_owned();
                push_decimal(&mut s, *stream_id as u64);
                s
            },
            MlinkError::Backpressure => "backpressure: receiver overloaded".to_owned(),
            MlinkError::SecurityError(m) => joined("security error: ", m.as_str()),
            MlinkError::CodecError(m) => joined("codec error: ", m.as_str()),
            MlinkError::CompressError(m) => joined("compress error: ", m.as_str()),
            MlinkError::Ble(m) => joined("ble error: ", m.as_str()),
            MlinkError::Io(e) => {
                let text = io_error_text(e);
                let s = joined("io error: ", text.as_str());
                proof {
                    assert(s@.take("io error: "@.len() as int) =~= "io error: "@);
                }
                s
            },
            MlinkError::NoHealthyLink { peer_id } => joined("no healthy link: ", peer_id.as_str()),
            MlinkError::RoomMismatch { peer_id } => joined("room mismatch: ", peer_id.as_str()),
        }
    }
}

/// The message of an error says what kind it is of, and then whom or what it concerns.
pub proof fn messages_of_the_errors(e: MlinkError)
    ensures
        e is Timeout ==> e.message() == "request timed out"@,
        e matches MlinkError::PeerGone { peer_id } ==> e.message() == "peer disconnected: "@
            + peer_id@,
        e matches MlinkError::HandlerError(m) ==> e.message() == "handler error: "@ + m@,
        e matches MlinkError::PayloadTooLarge { size, max } ==> e.message()
            == "payload too large: "@ + decimal(size as nat) + " > "@ + decimal(max as nat),
        e matches MlinkError::UnknownMethod(m) ==> e.message() == "unknown method: "@ + m@,
        e matches MlinkError::StreamFailed { stream_id } ==> e.message()
            == "stream failed: stream_id="@ + decimal(stream_id as nat),
        e is Backpressure ==> e.message() == "backpressure: receiver overloaded"@,
        e matches MlinkError::SecurityError(m) ==> e.message() == "security error: "@ + m@,
        e matches MlinkError::CodecError(m) ==> e.message() == "codec error: "@ + m@,
        e matches MlinkError::CompressError(m) ==> e.message() == "compress error: "@ + m@,
        e matches MlinkError::Ble(m) ==> e.message() == "ble error: "@ + m@,
        e is Io ==> e.message() == "io error: "@,
        e matches MlinkError::NoHealthyLink { peer_id } ==> e.message() == "no healthy link: "@
            + peer_id@,
        e matches MlinkError::RoomMismatch { peer_id } ==> e.message() == "room mismatch: "@
            + peer_id@,
{
}

/// `a` followed by `b`.
pub fn joined(a: &str, b: &str) -> (s: String)
    ensures
        s@ == a@ + b@,
{
    let mut s = a.to_owned();
    s.append(b);
    s
}

impl From<std::io::Error> for MlinkError {
    fn from(e: std::io::Error) -> (r: MlinkError) {
        MlinkError::Io(e)
    }
}

impl vstd::std_specs::convert::FromSpecImpl<std::io::Error> for MlinkError {
    open spec fn obeys_from_spec() -> bool {
        true
    }

    open spec fn from_spec(e: std::io::Error) -> MlinkError {
        MlinkError::Io(e)
    }
}

} // verus!

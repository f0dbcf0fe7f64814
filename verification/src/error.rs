//! Error types for flow-rtt

use vstd::prelude::*;
use vstd::string::*;

verus! {

/// An I/O error of the operating system.
#[verifier::external_type_specification]
#[verifier::external_body]
pub struct ExIoError(std::io::Error);

/// Errors that can occur during passive RTT monitoring
#[derive(Debug)]
pub enum Error {
    /// Failed to open capture device
    CaptureOpen(String),
    /// Failed to set capture filter
    FilterError(String),
    /// Packet capture error
    Capture(String),
    /// Invalid packet format
    InvalidPacket(String),
    /// Interface not found
    InterfaceNotFound(String),
    /// Permission denied (need root/CAP_NET_RAW)
    PermissionDenied(String),
    /// Pcap file error
    PcapFile(String),
    /// Channel closed
    ChannelClosed,
    /// IO error
    Io(std::io::Error),
}

/// `part` occurs in `text`.
pub open spec fn occurs_in(text: Seq<char>, part: Seq<char>) -> bool {
    exists|i: int|
        0 <= i <= text.len() - part.len() && #[trigger] text.subrange(i, i + part.len()) == part
}

/// `str::contains` for a string pattern: whether the pattern occurs in the text.
#[verifier::external_body]
fn contains_text(text: &str, part: &str) -> (b: bool)
    ensures
        b == occurs_in(text@, part@),
{
    text.contains(part)
}

impl Error {
    /// The text of the error. For an I/O error, it ends with that error's own text.
    pub fn to_string(&self) -> (text: String)
        ensures
            match self {
                Error::CaptureOpen(msg) => text@ == "failed to open capture: "@ + msg@,
                Error::FilterError(msg) => text@ == "filter error: "@ + msg@,
                Error::Capture(msg) => text@ == "capture error: "@ + msg@,
                Error::InvalidPacket(msg) => text@ == "invalid packet: "@ + msg@,
                Error::InterfaceNotFound(name) => text@ == "interface not found: "@ + name@,
                Error::PermissionDenied(msg) => text@ == "permission denied: "@ + msg@
                    + " (try running with sudo or CAP_NET_RAW)"@,
                Error::PcapFile(msg) => text@ == "pcap file error: "@ + msg@,
                Error::ChannelClosed => text@ == "channel closed"@,
                Error::Io(e) => exists|own: String|
                    #![trigger own@]
                    to_string_from_display_ensures(e, own) && text@ == "io error: "@ + own@,
            },
    {
        match self {
            Error::CaptureOpen(msg) => "failed to open capture: ".to_owned().concat(msg.as_str()),
            Error::FilterError(msg) => "filter error: ".to_owned().concat(msg.as_str()),
            Error::Capture(msg) => "capture error: ".to_owned().concat(msg.as_str()),
            Error::InvalidPacket(msg) => "invalid packet: ".to_owned().concat(msg.as_str()),
            Error::InterfaceNotFound(name) => {
                "interface not found: ".to_owned().concat(name.as_str())
            },
            Error::PermissionDenied(msg) => {
                "permission denied: ".to_owned().concat(msg.as_str()).concat(
                    " (try running with sudo or CAP_NET_RAW)",
                )
            },
            Error::PcapFile(msg) => "pcap file error: ".to_owned().concat(msg.as_str()),
            Error::ChannelClosed => "channel closed".to_owned(),
            Error::Io(e) => {
                let own = e.to_string();
                "io error: ".to_owned().concat(own.as_str())
            },
        }
    }

    /// The error behind this one, where there is one.
    pub fn source(&self) -> (cause: Option<&std::io::Error>)
        ensures
            match self {
                Error::Io(e) => cause == Some(e),
                _ => cause is None,
            },
    {
        match self {
            Error::Io(e) => Some(e),
            _ => None,
        }
    }

    /// Sorts an error of the capture library by its text: it is about permissions, or it is an
    /// error of the capture.
    pub fn from_capture_text(msg: String) -> (error: Self)
        ensures
            error == if occurs_in(msg@, "permission"@) || occurs_in(
                msg@,
                "Operation not permitted"@,
            ) {
                Error::PermissionDenied(msg)
            } else {
                Error::Capture(msg)
            },
    {
        if contains_text(msg.as_str(), "permission") || contains_text(
            msg.as_str(),
            "Operation not permitted",
        ) {
            Error::PermissionDenied(msg)
        } else {
            Error::Capture(msg)
        }
    }
}

impl From<std::io::Error> for Error {
    fn from(e: std::io::Error) -> (error: Self) {
        Error::Io(e)
    }
}

impl vstd::std_specs::convert::FromSpecImpl<std::io::Error> for Error {
    open spec fn obeys_from_spec() -> bool {
        true
    }

    open spec fn from_spec(e: std::io::Error) -> Self {
        Error::Io(e)
    }
}

/// An I/O error becomes the error of that kind, with nothing lost.
pub proof fn io_errors_are_kept(e: std::io::Error)
    ensures
        <Error as vstd::std_specs::convert::FromSpec<std::io::Error>>::obeys_from_spec(),
        <Error as vstd::std_specs::convert::FromSpec<std::io::Error>>::from_spec(e) == Error::Io(e),
{
}

} // verus!

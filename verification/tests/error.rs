//! Tests of the errors.

use flow_rtt::Error;

fn text(s: &str) -> String {
    s.to_string()
}

#[test]
fn errors_have_texts() {
    let cases = vec![
        (Error::CaptureOpen(text("x")), "failed to open capture: x"),
        (Error::FilterError(text("x")), "filter error: x"),
        (Error::Capture(text("x")), "capture error: x"),
        (Error::InvalidPacket(text("x")), "invalid packet: x"),
        (Error::InterfaceNotFound(text("eth9")), "interface not found: eth9"),
        (
            Error::PermissionDenied(text("x")),
            "permission denied: x (try running with sudo or CAP_NET_RAW)",
        ),
        (Error::PcapFile(text("x")), "pcap file error: x"),
        (Error::ChannelClosed, "channel closed"),
    ];
    for (error, expected) in cases {
        assert_eq!(error.to_string(), expected);
        assert!(error.source().is_none());
    }
}

#[test]
fn io_errors_are_kept() {
    let error = Error::from(std::io::Error::new(std::io::ErrorKind::Other, "disk gone"));
    assert_eq!(error.to_string(), "io error: disk gone");
    assert_eq!(error.source().unwrap().to_string(), "disk gone");
    assert!(matches!(error, Error::Io(_)));
}

#[test]
fn capture_texts_are_sorted() {
    for denied in ["eth0: no permission to capture", "socket: Operation not permitted"] {
        match Error::from_capture_text(text(denied)) {
            Error::PermissionDenied(msg) => assert_eq!(msg, denied),
            _ => panic!("not about permissions"),
        }
    }
    for other in ["link down", "Permission", "operation not permitted", ""] {
        match Error::from_capture_text(text(other)) {
            Error::Capture(msg) => assert_eq!(msg, other),
            _ => panic!("not an error of the capture"),
        }
    }
}

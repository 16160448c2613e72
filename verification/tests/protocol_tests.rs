use rtsp::error::{ParseErrorKind, RtspError};
use rtsp::h264::H264Packetizer;
use rtsp::request::RtspRequest;
use rtsp::response::RtspResponse;
use rtsp::sdp::generate_sdp;
use rtsp::session::TransportHeader;

#[test]
fn parse_options_request() {
    let raw = "OPTIONS rtsp://localhost:8554/test RTSP/1.0\r\nCSeq: 1\r\n\r\n";
    let req = RtspRequest::parse(raw).unwrap();
    assert_eq!(req.method, "OPTIONS");
    assert_eq!(req.uri, "rtsp://localhost:8554/test");
    assert_eq!(req.version, "RTSP/1.0");
    assert_eq!(req.cseq(), Some("1"));
}

#[test]
fn parse_setup_with_transport() {
    let raw = "SETUP rtsp://localhost:8554/test/track1 RTSP/1.0\r\n\
               CSeq: 3\r\n\
               Transport: RTP/AVP;unicast;client_port=8000-8001\r\n\r\n";
    let req = RtspRequest::parse(raw).unwrap();
    assert_eq!(req.method, "SETUP");
    assert_eq!(req.cseq(), Some("3"));
    assert_eq!(
        req.get_header("Transport"),
        Some("RTP/AVP;unicast;client_port=8000-8001")
    );
}

#[test]
fn parse_empty_request() {
    assert!(RtspRequest::parse("").is_err());
}

#[test]
fn parse_invalid_request_line() {
    assert!(RtspRequest::parse("JUST_A_METHOD\r\n\r\n").is_err());
}

#[test]
fn header_lookup_case_insensitive() {
    let raw = "OPTIONS rtsp://localhost RTSP/1.0\r\ncseq: 42\r\n\r\n";
    let req = RtspRequest::parse(raw).unwrap();
    assert_eq!(req.get_header("CSeq"), Some("42"));
    assert_eq!(req.get_header("cseq"), Some("42"));
    assert_eq!(req.get_header("CSEQ"), Some("42"));
}

#[test]
fn parse_error_kinds() {
    match RtspRequest::parse("") {
        Err(RtspError::Parse { kind }) => assert_eq!(kind, ParseErrorKind::EmptyRequest),
        _ => panic!("expected EmptyRequest"),
    }
    match RtspRequest::parse("OPTIONS nowhere\r\n\r\n") {
        Err(RtspError::Parse { kind }) => assert_eq!(kind, ParseErrorKind::InvalidRequestLine),
        _ => panic!("expected InvalidRequestLine"),
    }
    match RtspRequest::parse("OPTIONS rtsp://h RTSP/1.0\r\nno colon here\r\n\r\n") {
        Err(RtspError::Parse { kind }) => assert_eq!(kind, ParseErrorKind::InvalidHeader),
        _ => panic!("expected InvalidHeader"),
    }
    assert_eq!(ParseErrorKind::EmptyRequest.message(), "empty request");
    assert_eq!(
        ParseErrorKind::InvalidRequestLine.message(),
        "invalid request line"
    );
    assert_eq!(ParseErrorKind::InvalidHeader.message(), "invalid header");
}

#[test]
fn parse_lf_only_line_endings() {
    let crlf = RtspRequest::parse("OPTIONS rtsp://h RTSP/1.0\r\nCSeq: 7\r\n\r\n").unwrap();
    let lf = RtspRequest::parse("OPTIONS rtsp://h RTSP/1.0\nCSeq: 7\n\n").unwrap();
    assert_eq!(crlf.method, lf.method);
    assert_eq!(crlf.uri, lf.uri);
    assert_eq!(crlf.version, lf.version);
    assert_eq!(crlf.headers, lf.headers);
}

#[test]
fn serialize_no_body() {
    let resp = RtspResponse::ok()
        .add_header("CSeq", "1")
        .add_header("Public", "OPTIONS");
    let s = resp.serialize();
    assert!(s.starts_with("RTSP/1.0 200 OK\r\n"));
    assert!(s.contains("CSeq: 1\r\n"));
    assert!(s.contains("Public: OPTIONS\r\n"));
    assert!(s.ends_with("\r\n"));
}

#[test]
fn serialize_with_body() {
    let resp = RtspResponse::ok()
        .add_header("CSeq", "2")
        .with_body("v=0\r\n".to_string());
    let s = resp.serialize();
    assert!(s.contains("Content-Length: 5\r\n"));
    assert!(s.ends_with("v=0\r\n"));
}

#[test]
fn not_found_response() {
    let resp = RtspResponse::not_found().add_header("CSeq", "5");
    assert_eq!(resp.status_code, 404);
    let s = resp.serialize();
    assert!(s.starts_with("RTSP/1.0 404 Not Found\r\n"));
}

#[test]
fn generates_h264_sdp() {
    let p = H264Packetizer::new(96, 0x12345678);
    let sdp = generate_sdp(&p);
    assert!(sdp.contains("v=0\r\n"));
    assert!(sdp.contains("a=rtpmap:96 H264/90000\r\n"));
    assert!(sdp.contains("a=fmtp:96 packetization-mode=1\r\n"));
    assert!(sdp.contains("a=control:track1\r\n"));
}

#[test]
fn sdp_generation_is_deterministic() {
    let p = H264Packetizer::new(96, 0x12345678);
    let q = H264Packetizer::new(96, 0x9ABCDEF0);
    // The description depends on the configuration alone, not the SSRC.
    assert_eq!(generate_sdp(&p), generate_sdp(&q));
    assert_eq!(generate_sdp(&p), generate_sdp(&p));
}

#[test]
fn parse_valid_transport() {
    let th = TransportHeader::parse("RTP/AVP;unicast;client_port=5000-5001").unwrap();
    assert_eq!(th.client_rtp_port, 5000);
    assert_eq!(th.client_rtcp_port, 5001);
}

#[test]
fn parse_no_client_port() {
    assert!(TransportHeader::parse("RTP/AVP;unicast").is_none());
}

#[test]
fn parse_transport_rejects_bad_ports() {
    assert!(TransportHeader::parse("RTP/AVP;client_port=abc-def").is_none());
    assert!(TransportHeader::parse("RTP/AVP;client_port=70000-70001").is_none());
}

#[test]
fn response_roundtrip_without_body() {
    let resp = RtspResponse::ok()
        .add_header("CSeq", "7")
        .add_header("Session", "0000000000000002");
    let parsed = RtspResponse::parse(&resp.serialize()).unwrap();
    assert_eq!(parsed.status_code, 200);
    assert_eq!(parsed.status_text, "OK");
    assert_eq!(parsed.headers, resp.headers);
    assert!(parsed.body.is_none());
}

#[test]
fn response_roundtrip_with_body() {
    let resp = RtspResponse::ok()
        .add_header("CSeq", "2")
        .add_header("Content-Type", "application/sdp")
        .with_body("v=0\r\nm=video 0 RTP/AVP 96\r\n".to_string());
    let parsed = RtspResponse::parse(&resp.serialize()).unwrap();
    assert_eq!(parsed.status_code, 200);
    assert_eq!(parsed.status_text, "OK");
    assert_eq!(parsed.headers, resp.headers);
    assert_eq!(parsed.body, resp.body);
}

#[test]
fn response_roundtrip_404() {
    let resp = RtspResponse::not_found().add_header("CSeq", "9");
    let parsed = RtspResponse::parse(&resp.serialize()).unwrap();
    assert_eq!(parsed.status_code, 404);
    assert_eq!(parsed.status_text, "Not Found");
    assert_eq!(parsed.headers, resp.headers);
    assert!(parsed.body.is_none());
}

use rtsp::fanout::broadcast_destinations;
use rtsp::handler::RequestHandler;
use rtsp::request::RtspRequest;
use rtsp::session::SessionState;

const PEER: &str = "192.168.1.50";

fn req(text: &str) -> RtspRequest {
    RtspRequest::parse(text).unwrap()
}

#[test]
fn options_exchange() {
    let mut h = RequestHandler::new();
    let r = h.handle(&req("OPTIONS rtsp://host/s RTSP/1.0\r\nCSeq: 1\r\n\r\n"), PEER);
    assert_eq!(
        r.serialize(),
        "RTSP/1.0 200 OK\r\nCSeq: 1\r\nPublic: OPTIONS, DESCRIBE, SETUP, PLAY, PAUSE, TEARDOWN\r\n\r\n"
    );
}

#[test]
fn describe_exchange() {
    let mut h = RequestHandler::new();
    let r = h.handle(&req("DESCRIBE rtsp://host/s RTSP/1.0\r\nCSeq: 2\r\n\r\n"), PEER);
    assert_eq!(r.status_code, 200);
    let s = r.serialize();
    assert!(s.contains("CSeq: 2\r\n"));
    assert!(s.contains("Content-Type: application/sdp\r\n"));
    assert!(s.contains("Content-Base: rtsp://host/s\r\n"));
    assert!(s.contains("Content-Length: "));
    assert!(s.contains("a=rtpmap:96 H264/90000\r\n"));
}

#[test]
fn setup_exchange() {
    let mut h = RequestHandler::new();
    let r = h.handle(
        &req("SETUP rtsp://host/s/track1 RTSP/1.0\r\nCSeq: 3\r\nTransport: RTP/AVP;unicast;client_port=8000-8001\r\n\r\n"),
        PEER,
    );
    let s = r.serialize();
    assert!(s.starts_with("RTSP/1.0 200 OK\r\n"));
    assert!(s.contains("Session: 0000000000000000;timeout=60\r\n"));
    assert!(s.contains(
        "Transport: RTP/AVP;unicast;client_port=8000-8001;server_port=5000-5001\r\n"
    ));
    let sess = h.session_manager.get_session("0000000000000000").unwrap();
    assert_eq!(sess.get_state(), SessionState::Ready);
    let t = sess.get_transport().unwrap();
    assert_eq!(t.client_rtp_port, 8000);
    assert_eq!(t.client_rtcp_port, 8001);
    assert_eq!(t.server_rtp_port, 5000);
    assert_eq!(t.server_rtcp_port, 5001);
    assert_eq!(t.client_addr, PEER);
}

#[test]
fn setup_without_transport_is_rejected() {
    let mut h = RequestHandler::new();
    let r = h.handle(&req("SETUP rtsp://host/s/track1 RTSP/1.0\r\nCSeq: 3\r\n\r\n"), PEER);
    assert_eq!(r.status_code, 400);
    let r2 = h.handle(
        &req("SETUP rtsp://host/s/track1 RTSP/1.0\r\nCSeq: 4\r\nTransport: RTP/AVP;unicast\r\n\r\n"),
        PEER,
    );
    assert_eq!(r2.status_code, 400);
    assert!(h.session_manager.sessions.is_empty());
}

#[test]
fn play_exchange() {
    let mut h = RequestHandler::new();
    let _ = h.handle(
        &req("SETUP rtsp://host/s/track1 RTSP/1.0\r\nCSeq: 3\r\nTransport: RTP/AVP;unicast;client_port=8000-8001\r\n\r\n"),
        PEER,
    );
    let r = h.handle(
        &req("PLAY rtsp://host/s RTSP/1.0\r\nCSeq: 4\r\nSession: 0000000000000000\r\n\r\n"),
        PEER,
    );
    let s = r.serialize();
    assert!(s.starts_with("RTSP/1.0 200 OK\r\n"));
    assert!(s.contains("Range: npt=0.000-\r\n"));
    assert!(s.contains("Session: 0000000000000000\r\n"));
    let sess = h.session_manager.get_session("0000000000000000").unwrap();
    assert_eq!(sess.get_state(), SessionState::Playing);
    assert!(sess.is_playing());
}

#[test]
fn pause_and_teardown_exchange() {
    let mut h = RequestHandler::new();
    let _ = h.handle(
        &req("SETUP rtsp://host/s/track1 RTSP/1.0\r\nCSeq: 3\r\nTransport: RTP/AVP;unicast;client_port=8000-8001\r\n\r\n"),
        PEER,
    );
    let _ = h.handle(
        &req("PLAY rtsp://host/s RTSP/1.0\r\nCSeq: 4\r\nSession: 0000000000000000\r\n\r\n"),
        PEER,
    );
    let r = h.handle(
        &req("PAUSE rtsp://host/s RTSP/1.0\r\nCSeq: 5\r\nSession: 0000000000000000\r\n\r\n"),
        PEER,
    );
    assert_eq!(r.status_code, 200);
    assert_eq!(
        h.session_manager
            .get_session("0000000000000000")
            .unwrap()
            .get_state(),
        SessionState::Paused
    );
    let r = h.handle(
        &req("TEARDOWN rtsp://host/s RTSP/1.0\r\nCSeq: 6\r\nSession: 0000000000000000\r\n\r\n"),
        PEER,
    );
    assert_eq!(r.status_code, 200);
    assert!(h.session_manager.get_session("0000000000000000").is_none());
}

#[test]
fn unknown_session_yields_454() {
    let mut h = RequestHandler::new();
    for method in ["PLAY", "PAUSE", "TEARDOWN"] {
        let text = format!(
            "{} rtsp://host/s RTSP/1.0\r\nCSeq: 9\r\nSession: 00000000DEADBEEF\r\n\r\n",
            method
        );
        let r = h.handle(&req(&text), PEER);
        assert_eq!(r.status_code, 454);
        assert_eq!(r.status_text, "Session Not Found");
    }
}

#[test]
fn unsupported_method_yields_501() {
    let mut h = RequestHandler::new();
    let r = h.handle(&req("ANNOUNCE rtsp://host/s RTSP/1.0\r\nCSeq: 8\r\n\r\n"), PEER);
    assert_eq!(r.status_code, 501);
    assert_eq!(r.status_text, "Not Implemented");
    assert!(r.serialize().contains("CSeq: 8\r\n"));
}

#[test]
fn missing_cseq_echoes_zero() {
    let mut h = RequestHandler::new();
    let r = h.handle(&req("OPTIONS rtsp://host/s RTSP/1.0\r\n\r\n"), PEER);
    assert!(r.serialize().contains("CSeq: 0\r\n"));
}

#[test]
fn one_playing_session_gets_the_broadcast() {
    let mut h = RequestHandler::new();
    let _ = h.handle(
        &req("SETUP rtsp://host/s/track1 RTSP/1.0\r\nCSeq: 3\r\nTransport: RTP/AVP;unicast;client_port=8000-8001\r\n\r\n"),
        PEER,
    );
    let _ = h.handle(
        &req("PLAY rtsp://host/s RTSP/1.0\r\nCSeq: 4\r\nSession: 0000000000000000\r\n\r\n"),
        PEER,
    );
    let dests = broadcast_destinations(&h.session_manager);
    assert_eq!(dests.len(), 1);
    assert_eq!(dests[0].client_addr, PEER);
    assert_eq!(dests[0].client_rtp_port, 8000);
    // The first packet this server's packetizer would send: a valid RTP
    // header with version 2, payload type 96, sequence 0 and timestamp 0.
    let ssrc = h.packetizer.header.ssrc;
    let frame = [&[0u8, 0, 0, 1][..], &[0x41u8; 16][..]].concat();
    let packets = h.packetizer.packetize(&frame, 0);
    assert_eq!(packets.len(), 1);
    let pkt = &packets[0];
    assert_eq!(pkt.len(), 28);
    assert_eq!(pkt[0] >> 6, 2);
    assert_eq!(pkt[1] & 0x7f, 96);
    assert_eq!(u16::from_be_bytes([pkt[2], pkt[3]]), 0);
    assert_eq!(u32::from_be_bytes([pkt[4], pkt[5], pkt[6], pkt[7]]), 0);
    assert_eq!(u32::from_be_bytes([pkt[8], pkt[9], pkt[10], pkt[11]]), ssrc);
}

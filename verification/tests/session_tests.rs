use rtsp::error::RtspError;
use rtsp::fanout::{broadcast_destinations, count_delivered, get_viewers, unicast_destination};
use rtsp::session::{Session, SessionManager, SessionState, Transport};

fn transport_for(port: u16) -> Transport {
    Transport {
        client_rtp_port: port,
        client_rtcp_port: port + 1,
        server_rtp_port: 5000,
        server_rtcp_port: 5001,
        client_addr: "10.0.0.9".to_string(),
    }
}

#[test]
fn create_and_get_session() {
    let mut mgr = SessionManager::new();
    let id = mgr.create_session("rtsp://h/s");
    assert_eq!(id, "0000000000000000");
    let s = mgr.get_session(&id).unwrap();
    assert_eq!(s.uri, "rtsp://h/s");
    assert_eq!(s.get_state(), SessionState::Ready);
    assert!(s.get_transport().is_none());
    assert_eq!(s.timeout_secs, 60);
    let id2 = mgr.create_session("rtsp://h/t");
    assert_eq!(id2, "0000000000000001");
    assert!(mgr.get_session("DEADBEEF00000000").is_none());
}

#[test]
fn session_header_value_includes_timeout() {
    let s = Session::new("rtsp://h/s", 1);
    assert_eq!(s.session_header_value(), "0000000000000001;timeout=60");
}

#[test]
fn remove_session_and_batch_removal() {
    let mut mgr = SessionManager::new();
    let a = mgr.create_session("rtsp://h/a");
    let b = mgr.create_session("rtsp://h/b");
    let c = mgr.create_session("rtsp://h/c");
    let removed = mgr.remove_session(&b).unwrap();
    assert_eq!(removed.id, b);
    assert!(mgr.remove_session(&b).is_none());
    let count = mgr.remove_sessions(&vec![a.clone(), b.clone(), c.clone()]);
    assert_eq!(count, 2);
    assert!(mgr.get_session(&a).is_none());
    assert!(mgr.get_session(&c).is_none());
}

#[test]
fn allocates_consecutive_port_pairs() {
    let mut mgr = SessionManager::new();
    assert_eq!(mgr.allocate_server_ports().unwrap(), (5000, 5001));
    assert_eq!(mgr.allocate_server_ports().unwrap(), (5002, 5003));
}

#[test]
fn port_counter_wraps() {
    let mut mgr = SessionManager::new();
    mgr.next_server_port = 65534;
    assert_eq!(mgr.allocate_server_ports().unwrap(), (65534, 65535));
    assert_eq!(mgr.allocate_server_ports().unwrap(), (5000, 5001));
}

#[test]
fn playing_sessions_snapshot() {
    let mut mgr = SessionManager::new();
    let a = mgr.create_session("rtsp://h/a");
    let b = mgr.create_session("rtsp://h/b");
    let ia = mgr.index_of(&a).unwrap();
    mgr.set_session_transport(ia, transport_for(8000));
    mgr.set_session_state(ia, SessionState::Playing);
    assert_eq!(mgr.get_playing_sessions().len(), 1);
    assert_eq!(mgr.get_playing_sessions()[0].id, a);
    let _ = b;
}

#[test]
fn unicast_destination_errors() {
    let mut mgr = SessionManager::new();
    let a = mgr.create_session("rtsp://h/a");
    match unicast_destination(&mgr, "FFFFFFFFFFFFFFFF") {
        Err(RtspError::SessionNotFound(_)) => {}
        _ => panic!("expected SessionNotFound"),
    }
    match unicast_destination(&mgr, &a) {
        Err(RtspError::SessionNotPlaying(_)) => {}
        _ => panic!("expected SessionNotPlaying"),
    }
    let ia = mgr.index_of(&a).unwrap();
    mgr.set_session_transport(ia, transport_for(8000));
    mgr.set_session_state(ia, SessionState::Playing);
    let t = unicast_destination(&mgr, &a).unwrap();
    assert_eq!(t.client_rtp_port, 8000);
    assert_eq!(t.client_addr, "10.0.0.9");
}

#[test]
fn broadcast_reaches_playing_sessions_only() {
    let mut mgr = SessionManager::new();
    let a = mgr.create_session("rtsp://h/a");
    let _b = mgr.create_session("rtsp://h/b");
    let c = mgr.create_session("rtsp://h/c");
    let ia = mgr.index_of(&a).unwrap();
    mgr.set_session_transport(ia, transport_for(8000));
    mgr.set_session_state(ia, SessionState::Playing);
    let ic = mgr.index_of(&c).unwrap();
    mgr.set_session_transport(ic, transport_for(9000));
    mgr.set_session_state(ic, SessionState::Playing);
    mgr.set_session_state(ic, SessionState::Paused);
    let dests = broadcast_destinations(&mgr);
    assert_eq!(dests.len(), 1);
    assert_eq!(dests[0].client_rtp_port, 8000);
}

#[test]
fn count_delivered_counts_successes() {
    assert_eq!(count_delivered(&vec![]), 0);
    assert_eq!(count_delivered(&vec![true, true, true]), 3);
    assert_eq!(count_delivered(&vec![true, false, true, false]), 2);
}

#[test]
fn viewers_snapshot() {
    let mut mgr = SessionManager::new();
    let a = mgr.create_session("rtsp://h/a");
    let ia = mgr.index_of(&a).unwrap();
    mgr.set_session_transport(ia, transport_for(8000));
    mgr.set_session_state(ia, SessionState::Playing);
    let viewers = get_viewers(&mgr);
    assert_eq!(viewers.len(), 1);
    assert_eq!(viewers[0].session_id, a);
    assert_eq!(viewers[0].uri, "rtsp://h/a");
    assert_eq!(viewers[0].client_addr, "10.0.0.9");
    assert_eq!(viewers[0].client_rtp_port, 8000);
}

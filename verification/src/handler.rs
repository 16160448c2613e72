//! The RTSP method handler: translates one parsed request into a response
//! and session-manager mutations (RFC 2326 server behaviour for OPTIONS,
//! DESCRIBE, SETUP, PLAY, PAUSE, TEARDOWN; anything else is 501).

use crate::h264::H264Packetizer;
use crate::num::spec_dec_digits;
use crate::request::{spec_get_header, ReqView, RtspRequest};
use crate::response::{RespView, RtspResponse};
use crate::sdp::{generate_sdp, spec_sdp, Packetizer};
use crate::num::{spec_hex16, u64_to_dec};
use crate::session::{
    spec_find_session, spec_parse_transport, SessionManager, SessionState, Transport,
    TransportHeader, DEFAULT_SESSION_TIMEOUT_SECS,
};
use vstd::prelude::*;

verus! {

/// The `CSeq` value echoed into every response: the request's, or `"0"`.
pub open spec fn spec_cseq_of(req: ReqView) -> Seq<char> {
    match spec_get_header(req.headers, "CSeq"@) {
        Some(v) => v,
        None => "0"@,
    }
}

/// Did the two managers not change between a request and its response?
pub open spec fn mgr_same(a: SessionManager, b: SessionManager) -> bool {
    a.sessions@ == b.sessions@ && a.next_session_id == b.next_session_id && a.next_server_port
        == b.next_server_port
}

/// A `454 Session Not Found` response carrying only the `CSeq` header.
pub open spec fn resp_session_not_found(cs: Seq<char>, r: RespView) -> bool {
    r.status_code == 454 && r.status_text == "Session Not Found"@ && r.headers == seq![
        ("CSeq"@, cs),
    ] && r.body is None
}

/// A `400 Bad Request` response carrying only the `CSeq` header.
pub open spec fn resp_bad_request(cs: Seq<char>, r: RespView) -> bool {
    r.status_code == 400 && r.status_text == "Bad Request"@ && r.headers == seq![("CSeq"@, cs)]
        && r.body is None
}

/// The OPTIONS response: 200 with the supported methods.
pub open spec fn spec_handle_options(cs: Seq<char>, r: RespView) -> bool {
    r.status_code == 200 && r.status_text == "OK"@ && r.headers == seq![
        ("CSeq"@, cs),
        ("Public"@, "OPTIONS, DESCRIBE, SETUP, PLAY, PAUSE, TEARDOWN"@),
    ] && r.body is None
}

/// The DESCRIBE response: 200 with the SDP description as body and
/// `Content-Base` echoing the request URI.
pub open spec fn spec_handle_describe(
    cs: Seq<char>,
    uri: Seq<char>,
    sdp: Seq<char>,
    r: RespView,
) -> bool {
    r.status_code == 200 && r.status_text == "OK"@ && r.headers == seq![
        ("CSeq"@, cs),
        ("Content-Type"@, "application/sdp"@),
        ("Content-Base"@, uri),
    ] && r.body == Some(sdp)
}

/// The SETUP outcome: a missing or malformed `Transport` header yields 400
/// and leaves the manager alone; otherwise server ports are allocated, a
/// session is created in Ready state with its transport set from the client
/// ports and the peer address, and the response carries the session id with
/// its timeout and the negotiated transport description.
pub open spec fn spec_handle_setup(
    req: ReqView,
    peer: Seq<char>,
    pre: SessionManager,
    post: SessionManager,
    r: RespView,
) -> bool {
    let cs = spec_cseq_of(req);
    match spec_get_header(req.headers, "Transport"@) {
        None => resp_bad_request(cs, r) && mgr_same(pre, post),
        Some(tv) => match spec_parse_transport(tv) {
            None => resp_bad_request(cs, r) && mgr_same(pre, post),
            Some(ports) => {
                let c = if pre.next_server_port > 65534 {
                    5000int
                } else {
                    pre.next_server_port as int
                };
                let sid = spec_hex16(pre.next_session_id);
                &&& r.status_code == 200
                &&& r.status_text == "OK"@
                &&& r.headers == seq![
                    ("CSeq"@, cs),
                    ("Session"@, sid + ";timeout="@ + spec_dec_digits(60)),
                    (
                        "Transport"@,
                        "RTP/AVP;unicast;client_port="@ + spec_dec_digits(ports.0 as int) + "-"@
                            + spec_dec_digits(ports.1 as int) + ";server_port="@ + spec_dec_digits(
                            c,
                        ) + "-"@ + spec_dec_digits(c + 1),
                    ),
                ]
                &&& r.body is None
                &&& post.sessions@.len() == pre.sessions@.len() + 1
                &&& post.sessions@ == pre.sessions@.push(post.sessions@.last())
                &&& ({
                    let s = post.sessions@.last();
                    &&& s.id@ == sid
                    &&& s.uri@ == req.uri
                    &&& s.state == SessionState::Ready
                    &&& s.timeout_secs == DEFAULT_SESSION_TIMEOUT_SECS
                    &&& s.transport matches Some(t) && t.client_rtp_port == ports.0
                        && t.client_rtcp_port == ports.1 && t.server_rtp_port == c
                        && t.server_rtcp_port == c + 1 && t.client_addr@ == peer
                })
                &&& post.next_session_id == pre.next_session_id + 1
                &&& post.next_server_port == c + 2
            },
        },
    }
}

/// The PLAY outcome: an unknown (or transport-less) session yields 454;
/// otherwise the session turns Playing and the response carries the session
/// id and the `Range` header.
pub open spec fn spec_handle_play(
    req: ReqView,
    pre: SessionManager,
    post: SessionManager,
    r: RespView,
) -> bool {
    let cs = spec_cseq_of(req);
    match spec_get_header(req.headers, "Session"@) {
        None => resp_session_not_found(cs, r) && mgr_same(pre, post),
        Some(sid) => {
            let f = spec_find_session(pre.sessions@, sid);
            if f == pre.sessions@.len() || pre.sessions@[f].transport is None {
                resp_session_not_found(cs, r) && mgr_same(pre, post)
            } else {
                &&& r.status_code == 200
                &&& r.status_text == "OK"@
                &&& r.headers == seq![("CSeq"@, cs), ("Session"@, sid), ("Range"@, "npt=0.000-"@)]
                &&& r.body is None
                &&& post.sessions@.len() == pre.sessions@.len()
                &&& post.sessions@[f].state is Playing
                &&& post.sessions@[f].id == pre.sessions@[f].id
                &&& post.sessions@[f].uri == pre.sessions@[f].uri
                &&& post.sessions@[f].transport == pre.sessions@[f].transport
                &&& post.sessions@[f].timeout_secs == pre.sessions@[f].timeout_secs
                &&& forall|k: int|
                    0 <= k < pre.sessions@.len() && k != f ==> post.sessions@[k]
                        == pre.sessions@[k]
                &&& post.next_session_id == pre.next_session_id
                &&& post.next_server_port == pre.next_server_port
            }
        },
    }
}

/// The PAUSE outcome: an unknown session yields 454; otherwise the session
/// turns Paused and the response carries the session id.
pub open spec fn spec_handle_pause(
    req: ReqView,
    pre: SessionManager,
    post: SessionManager,
    r: RespView,
) -> bool {
    let cs = spec_cseq_of(req);
    match spec_get_header(req.headers, "Session"@) {
        None => resp_session_not_found(cs, r) && mgr_same(pre, post),
        Some(sid) => {
            let f = spec_find_session(pre.sessions@, sid);
            if f == pre.sessions@.len() {
                resp_session_not_found(cs, r) && mgr_same(pre, post)
            } else {
                &&& r.status_code == 200
                &&& r.status_text == "OK"@
                &&& r.headers == seq![("CSeq"@, cs), ("Session"@, sid)]
                &&& r.body is None
                &&& post.sessions@.len() == pre.sessions@.len()
                &&& post.sessions@[f].state is Paused
                &&& post.sessions@[f].id == pre.sessions@[f].id
                &&& post.sessions@[f].uri == pre.sessions@[f].uri
                &&& post.sessions@[f].transport == pre.sessions@[f].transport
                &&& post.sessions@[f].timeout_secs == pre.sessions@[f].timeout_secs
                &&& forall|k: int|
                    0 <= k < pre.sessions@.len() && k != f ==> post.sessions@[k]
                        == pre.sessions@[k]
                &&& post.next_session_id == pre.next_session_id
                &&& post.next_server_port == pre.next_server_port
            }
        },
    }
}

/// The TEARDOWN outcome: an unknown session yields 454; otherwise the
/// session is removed and the response carries only `CSeq`.
pub open spec fn spec_handle_teardown(
    req: ReqView,
    pre: SessionManager,
    post: SessionManager,
    r: RespView,
) -> bool {
    let cs = spec_cseq_of(req);
    match spec_get_header(req.headers, "Session"@) {
        None => resp_session_not_found(cs, r) && mgr_same(pre, post),
        Some(sid) => {
            let f = spec_find_session(pre.sessions@, sid);
            if f == pre.sessions@.len() {
                resp_session_not_found(cs, r) && mgr_same(pre, post)
            } else {
                &&& r.status_code == 200
                &&& r.status_text == "OK"@
                &&& r.headers == seq![("CSeq"@, cs)]
                &&& r.body is None
                &&& post.sessions@ == pre.sessions@.remove(f)
                &&& post.next_session_id == pre.next_session_id
                &&& post.next_server_port == pre.next_server_port
            }
        },
    }
}


/// The session a SETUP response names is exactly the one a lookup under
/// that id returns, and it stays there until TEARDOWN removes it (every
/// other method's outcome leaves the stored sessions' ids in place).
pub proof fn lemma_setup_session_visible(
    req: ReqView,
    peer: Seq<char>,
    pre: SessionManager,
    post: SessionManager,
    r: RespView,
)
    requires
        spec_handle_setup(req, peer, pre, post, r),
        r.status_code == 200,
        post.wf(),
    ensures
        spec_find_session(post.sessions@, spec_hex16(pre.next_session_id)) == post.sessions@.len()
            - 1,
        post.sessions@.last().id@ == spec_hex16(pre.next_session_id),
{
    let i = post.sessions@.len() - 1;
    assert(post.sessions@[i].id@ == spec_hex16(pre.next_session_id));
    crate::session::lemma_session_lookup_by_id(post.sessions@, i);
}

/// Translates parsed requests into responses and session mutations. All
/// state lives in the session manager; the packetizer supplies the SDP for
/// DESCRIBE.
pub struct RequestHandler<P: Packetizer> {
    pub session_manager: SessionManager,
    pub packetizer: P,
}

impl RequestHandler<H264Packetizer> {
    /// A handler over a fresh manager and an H.264 packetizer with a random
    /// SSRC and payload type 96.
    pub fn new() -> (r: Self)
        ensures
            r.wf(),
            r.session_manager.sessions@.len() == 0,
            r.session_manager.next_session_id == 0,
            r.session_manager.next_server_port == 5000,
            r.packetizer.header.pt == 96,
    {
        RequestHandler {
            session_manager: SessionManager::new(),
            packetizer: H264Packetizer::with_random_ssrc(96),
        }
    }
}

impl<P: Packetizer> RequestHandler<P> {
    pub open spec fn wf(&self) -> bool {
        self.session_manager.wf()
    }

    /// A handler over a fresh manager and the given packetizer.
    pub fn with_packetizer(packetizer: P) -> (r: Self)
        ensures
            r.wf(),
            r.session_manager.sessions@.len() == 0,
            r.session_manager.next_session_id == 0,
            r.session_manager.next_server_port == 5000,
            r.packetizer == packetizer,
    {
        RequestHandler { session_manager: SessionManager::new(), packetizer }
    }

    /// Dispatches one request, as the per-method predicates describe.
    /// Unsupported methods yield `501 Not Implemented`; every response
    /// echoes the request's `CSeq` (or `0`).
    pub fn handle(&mut self, request: &RtspRequest, peer_addr: &str) -> (r: RtspResponse)
        requires
            old(self).wf(),
            old(self).session_manager.next_session_id < u64::MAX,
        ensures
            final(self).wf(),
            final(self).packetizer == old(self).packetizer,
            request@.method == "OPTIONS"@ ==> spec_handle_options(spec_cseq_of(request@), r@)
                && mgr_same(old(self).session_manager, final(self).session_manager),
            request@.method == "DESCRIBE"@ ==> spec_handle_describe(
                spec_cseq_of(request@),
                request@.uri,
                spec_sdp(
                    old(self).packetizer.spec_payload_type(),
                    old(self).packetizer.spec_codec_name(),
                    old(self).packetizer.spec_clock_rate(),
                    old(self).packetizer.spec_sdp_attributes(),
                ),
                r@,
            ) && mgr_same(old(self).session_manager, final(self).session_manager),
            request@.method == "SETUP"@ ==> spec_handle_setup(
                request@,
                peer_addr@,
                old(self).session_manager,
                final(self).session_manager,
                r@,
            ),
            request@.method == "PLAY"@ ==> spec_handle_play(
                request@,
                old(self).session_manager,
                final(self).session_manager,
                r@,
            ),
            request@.method == "PAUSE"@ ==> spec_handle_pause(
                request@,
                old(self).session_manager,
                final(self).session_manager,
                r@,
            ),
            request@.method == "TEARDOWN"@ ==> spec_handle_teardown(
                request@,
                old(self).session_manager,
                final(self).session_manager,
                r@,
            ),
            request@.method != "OPTIONS"@ && request@.method != "DESCRIBE"@ && request@.method
                != "SETUP"@ && request@.method != "PLAY"@ && request@.method != "PAUSE"@
                && request@.method != "TEARDOWN"@ ==> r@.status_code == 501 && r@.status_text
                == "Not Implemented"@ && r@.headers == seq![("CSeq"@, spec_cseq_of(request@))]
                && r@.body is None && mgr_same(
                old(self).session_manager,
                final(self).session_manager,
            ),
    {
        proof {
            reveal_strlit("OPTIONS");
            reveal_strlit("DESCRIBE");
            reveal_strlit("SETUP");
            reveal_strlit("PLAY");
            reveal_strlit("PAUSE");
            reveal_strlit("TEARDOWN");
            assert("OPTIONS"@ != "DESCRIBE"@) by {
                assert("OPTIONS"@.len() == 7);
                assert("DESCRIBE"@.len() == 8);
            }
            assert("OPTIONS"@ != "SETUP"@) by {
                assert("OPTIONS"@.len() == 7);
                assert("SETUP"@.len() == 5);
            }
            assert("OPTIONS"@ != "PLAY"@) by {
                assert("OPTIONS"@.len() == 7);
                assert("PLAY"@.len() == 4);
            }
            assert("OPTIONS"@ != "PAUSE"@) by {
                assert("OPTIONS"@.len() == 7);
                assert("PAUSE"@.len() == 5);
            }
            assert("OPTIONS"@ != "TEARDOWN"@) by {
                assert("OPTIONS"@.len() == 7);
                assert("TEARDOWN"@.len() == 8);
            }
            assert("DESCRIBE"@ != "SETUP"@) by {
                assert("DESCRIBE"@.len() == 8);
                assert("SETUP"@.len() == 5);
            }
            assert("DESCRIBE"@ != "PLAY"@) by {
                assert("DESCRIBE"@.len() == 8);
                assert("PLAY"@.len() == 4);
            }
            assert("DESCRIBE"@ != "PAUSE"@) by {
                assert("DESCRIBE"@.len() == 8);
                assert("PAUSE"@.len() == 5);
            }
            assert("DESCRIBE"@ != "TEARDOWN"@) by {
                assert("DESCRIBE"@[0] == 'D');
                assert("TEARDOWN"@[0] == 'T');
            }
            assert("SETUP"@ != "PLAY"@) by {
                assert("SETUP"@.len() == 5);
                assert("PLAY"@.len() == 4);
            }
            assert("SETUP"@ != "PAUSE"@) by {
                assert("SETUP"@[0] == 'S');
                assert("PAUSE"@[0] == 'P');
            }
            assert("SETUP"@ != "TEARDOWN"@) by {
                assert("SETUP"@.len() == 5);
                assert("TEARDOWN"@.len() == 8);
            }
            assert("PLAY"@ != "PAUSE"@) by {
                assert("PLAY"@.len() == 4);
                assert("PAUSE"@.len() == 5);
            }
            assert("PLAY"@ != "TEARDOWN"@) by {
                assert("PLAY"@.len() == 4);
                assert("TEARDOWN"@.len() == 8);
            }
            assert("PAUSE"@ != "TEARDOWN"@) by {
                assert("PAUSE"@.len() == 5);
                assert("TEARDOWN"@.len() == 8);
            }
        }
        let cseq_opt = request.cseq();
        let cseq = match cseq_opt {
            Some(v) => v,
            None => "0",
        };
        if crate::text::str_eq(request.method.as_str(), "OPTIONS") {
            self.handle_options(cseq)
        } else if crate::text::str_eq(request.method.as_str(), "DESCRIBE") {
            self.handle_describe(cseq, request.uri.as_str())
        } else if crate::text::str_eq(request.method.as_str(), "SETUP") {
            self.handle_setup(cseq, request, peer_addr)
        } else if crate::text::str_eq(request.method.as_str(), "PLAY") {
            self.handle_play(cseq, request)
        } else if crate::text::str_eq(request.method.as_str(), "PAUSE") {
            self.handle_pause(cseq, request)
        } else if crate::text::str_eq(request.method.as_str(), "TEARDOWN") {
            self.handle_teardown(cseq, request)
        } else {
            RtspResponse::new(501, "Not Implemented").add_header("CSeq", cseq)
        }
    }

    fn handle_options(&self, cseq: &str) -> (r: RtspResponse)
        ensures
            spec_handle_options(cseq@, r@),
    {
        let r = RtspResponse::ok().add_header("CSeq", cseq).add_header(
            "Public",
            "OPTIONS, DESCRIBE, SETUP, PLAY, PAUSE, TEARDOWN",
        );
        proof {
            assert(r@.headers =~= seq![
                ("CSeq"@, cseq@),
                ("Public"@, "OPTIONS, DESCRIBE, SETUP, PLAY, PAUSE, TEARDOWN"@),
            ]);
        }
        r
    }

    fn handle_describe(&self, cseq: &str, uri: &str) -> (r: RtspResponse)
        ensures
            spec_handle_describe(
                cseq@,
                uri@,
                spec_sdp(
                    self.packetizer.spec_payload_type(),
                    self.packetizer.spec_codec_name(),
                    self.packetizer.spec_clock_rate(),
                    self.packetizer.spec_sdp_attributes(),
                ),
                r@,
            ),
    {
        let sdp = generate_sdp(&self.packetizer);
        let r = RtspResponse::ok().add_header("CSeq", cseq).add_header(
            "Content-Type",
            "application/sdp",
        ).add_header("Content-Base", uri).with_body(sdp);
        proof {
            assert(r@.headers =~= seq![
                ("CSeq"@, cseq@),
                ("Content-Type"@, "application/sdp"@),
                ("Content-Base"@, uri@),
            ]);
        }
        r
    }

    fn handle_setup(&mut self, cseq: &str, request: &RtspRequest, peer_addr: &str) -> (r:
        RtspResponse)
        requires
            old(self).wf(),
            old(self).session_manager.next_session_id < u64::MAX,
            cseq@ == spec_cseq_of(request@),
        ensures
            final(self).wf(),
            final(self).packetizer == old(self).packetizer,
            spec_handle_setup(
                request@,
                peer_addr@,
                old(self).session_manager,
                final(self).session_manager,
                r@,
            ),
    {
        let transport_header = match request.get_header("Transport") {
            Some(t) => t,
            None => {
                let r = RtspResponse::bad_request().add_header("CSeq", cseq);
                proof {
                    assert(r@.headers =~= seq![("CSeq"@, cseq@)]);
                }
                return r;
            },
        };
        let client = match TransportHeader::parse(transport_header) {
            Some(t) => t,
            None => {
                let r = RtspResponse::bad_request().add_header("CSeq", cseq);
                proof {
                    assert(r@.headers =~= seq![("CSeq"@, cseq@)]);
                }
                return r;
            },
        };
        let ports = self.session_manager.allocate_server_ports();
        let (server_rtp, server_rtcp) = match ports {
            Ok(p) => p,
            Err(_) => {
                proof {
                    assert(false);
                }
                (0u16, 0u16)
            },
        };
        let ghost mid1 = self.session_manager;
        let sid = self.session_manager.create_session(request.uri.as_str());
        let ghost mid2 = self.session_manager;
        let idx = self.session_manager.sessions.len() - 1;
        let transport = Transport {
            client_rtp_port: client.client_rtp_port,
            client_rtcp_port: client.client_rtcp_port,
            server_rtp_port: server_rtp,
            server_rtcp_port: server_rtcp,
            client_addr: String::from_str(peer_addr),
        };
        self.session_manager.set_session_transport(idx, transport);
        proof {
            assert(self.session_manager.sessions@ =~= mid1.sessions@.push(
                self.session_manager.sessions@.last(),
            ));
        }
        let mut session_value = sid.clone();
        session_value.append(";timeout=");
        session_value.append(u64_to_dec(DEFAULT_SESSION_TIMEOUT_SECS).as_str());
        let mut tr = String::from_str("RTP/AVP;unicast;client_port=");
        tr.append(u64_to_dec(client.client_rtp_port as u64).as_str());
        tr.append("-");
        tr.append(u64_to_dec(client.client_rtcp_port as u64).as_str());
        tr.append(";server_port=");
        tr.append(u64_to_dec(server_rtp as u64).as_str());
        tr.append("-");
        tr.append(u64_to_dec(server_rtcp as u64).as_str());
        let r = RtspResponse::ok().add_header("CSeq", cseq).add_header(
            "Session",
            session_value.as_str(),
        ).add_header("Transport", tr.as_str());
        proof {
            assert(r@.headers =~= seq![
                ("CSeq"@, cseq@),
                ("Session"@, session_value@),
                ("Transport"@, tr@),
            ]);
        }
        r
    }

    fn handle_play(&mut self, cseq: &str, request: &RtspRequest) -> (r: RtspResponse)
        requires
            old(self).wf(),
            cseq@ == spec_cseq_of(request@),
        ensures
            final(self).wf(),
            final(self).packetizer == old(self).packetizer,
            final(self).session_manager.next_session_id == old(
                self,
            ).session_manager.next_session_id,
            spec_handle_play(request@, old(self).session_manager, final(self).session_manager, r@),
    {
        let sid = match request.get_header("Session") {
            Some(s) => s,
            None => {
                let r = RtspResponse::new(454, "Session Not Found").add_header("CSeq", cseq);
                proof {
                    assert(r@.headers =~= seq![("CSeq"@, cseq@)]);
                }
                return r;
            },
        };
        match self.session_manager.index_of(sid) {
            Some(i) => {
                let has_transport = match &self.session_manager.sessions[i].transport {
                    Some(_) => true,
                    None => false,
                };
                if has_transport {
                    self.session_manager.set_session_state(i, SessionState::Playing);
                    let r = RtspResponse::ok().add_header("CSeq", cseq).add_header(
                        "Session",
                        sid,
                    ).add_header("Range", "npt=0.000-");
                    proof {
                        assert(r@.headers =~= seq![
                            ("CSeq"@, cseq@),
                            ("Session"@, sid@),
                            ("Range"@, "npt=0.000-"@),
                        ]);
                    }
                    r
                } else {
                    let r = RtspResponse::new(454, "Session Not Found").add_header("CSeq", cseq);
                    proof {
                        assert(r@.headers =~= seq![("CSeq"@, cseq@)]);
                    }
                    r
                }
            },
            None => {
                let r = RtspResponse::new(454, "Session Not Found").add_header("CSeq", cseq);
                proof {
                    assert(r@.headers =~= seq![("CSeq"@, cseq@)]);
                }
                r
            },
        }
    }

    fn handle_pause(&mut self, cseq: &str, request: &RtspRequest) -> (r: RtspResponse)
        requires
            old(self).wf(),
            cseq@ == spec_cseq_of(request@),
        ensures
            final(self).wf(),
            final(self).packetizer == old(self).packetizer,
            final(self).session_manager.next_session_id == old(
                self,
            ).session_manager.next_session_id,
            spec_handle_pause(
                request@,
                old(self).session_manager,
                final(self).session_manager,
                r@,
            ),
    {
        let sid = match request.get_header("Session") {
            Some(s) => s,
            None => {
                let r = RtspResponse::new(454, "Session Not Found").add_header("CSeq", cseq);
                proof {
                    assert(r@.headers =~= seq![("CSeq"@, cseq@)]);
                }
                return r;
            },
        };
        match self.session_manager.index_of(sid) {
            Some(i) => {
                self.session_manager.set_session_state(i, SessionState::Paused);
                let r = RtspResponse::ok().add_header("CSeq", cseq).add_header("Session", sid);
                proof {
                    assert(r@.headers =~= seq![("CSeq"@, cseq@), ("Session"@, sid@)]);
                }
                r
            },
            None => {
                let r = RtspResponse::new(454, "Session Not Found").add_header("CSeq", cseq);
                proof {
                    assert(r@.headers =~= seq![("CSeq"@, cseq@)]);
                }
                r
            },
        }
    }

    fn handle_teardown(&mut self, cseq: &str, request: &RtspRequest) -> (r: RtspResponse)
        requires
            old(self).wf(),
            cseq@ == spec_cseq_of(request@),
        ensures
            final(self).wf(),
            final(self).packetizer == old(self).packetizer,
            final(self).session_manager.next_session_id == old(
                self,
            ).session_manager.next_session_id,
            spec_handle_teardown(
                request@,
                old(self).session_manager,
                final(self).session_manager,
                r@,
            ),
    {
        let sid = match request.get_header("Session") {
            Some(s) => s,
            None => {
                let r = RtspResponse::new(454, "Session Not Found").add_header("CSeq", cseq);
                proof {
                    assert(r@.headers =~= seq![("CSeq"@, cseq@)]);
                }
                return r;
            },
        };
        let ghost pre = old(self).session_manager;
        let ghost sidv = sid@;
        match self.session_manager.remove_session(sid) {
            Some(_removed) => {
                let r = RtspResponse::ok().add_header("CSeq", cseq);
                proof {
                    assert(r@.headers =~= seq![("CSeq"@, cseq@)]);
                }
                r
            },
            None => {
                let r = RtspResponse::new(454, "Session Not Found").add_header("CSeq", cseq);
                proof {
                    assert(r@.headers =~= seq![("CSeq"@, cseq@)]);
                    crate::session::lemma_find_session(pre.sessions@, sidv);
                }
                r
            },
        }
    }
}

} // verus!

//! Sessions and the session manager (RFC 2326 session handling).
//!
//! A session carries a 16-hex-digit server-assigned identifier, the URI it
//! was opened for, optionally the negotiated transport, a lifecycle state,
//! and a keepalive timeout. The manager owns the sessions, keyed by their
//! unique identifiers, and allocates server port pairs from
//! [5000, 65534], wrapping at the top.

use crate::error::RtspError;
use crate::num::{
    lemma_hex16_injective, parse_u16, spec_dec_digits, spec_hex16, spec_parse_u16, u64_to_dec,
    u64_to_hex16,
};
use crate::text::{spec_trim, split_char, split_on_char, str_eq, trim_str};
use vstd::prelude::*;

verus! {

pub const DEFAULT_SESSION_TIMEOUT_SECS: u64 = 60;

pub const SERVER_PORT_MIN: u32 = 5000;

pub const SERVER_PORT_MAX: u32 = 65534;

/// Session lifecycle: Ready after SETUP, Playing after PLAY, Paused after
/// PAUSE; TEARDOWN removes the session.
#[derive(Debug, Clone, Copy, PartialEq, Eq, Structural)]
pub enum SessionState {
    Ready,
    Playing,
    Paused,
}

/// The negotiated RTP/RTCP endpoint quadruple plus the client's network
/// address (its host part, as text), captured at SETUP time.
#[derive(Debug)]
pub struct Transport {
    pub client_rtp_port: u16,
    pub client_rtcp_port: u16,
    pub server_rtp_port: u16,
    pub server_rtcp_port: u16,
    pub client_addr: String,
}

/// Parsed client-side transport info from the RTSP `Transport` header.
#[derive(Debug)]
pub struct TransportHeader {
    pub client_rtp_port: u16,
    pub client_rtcp_port: u16,
}

/// The decision the `Transport` header parser takes on one `;`-separated
/// part: the first trimmed part of the form `client_port=<a>-<b>` decides
/// the outcome; a part with the prefix but not exactly two `-`-separated
/// fields is skipped.
pub open spec fn spec_parse_transport_parts(ps: Seq<Seq<char>>) -> Option<(u16, u16)>
    decreases ps.len(),
{
    if ps.len() == 0 {
        None
    } else {
        let t = spec_trim(ps[0]);
        if t.len() >= 12 && t.take(12) == "client_port="@ && split_char(t.skip(12), '-').len()
            == 2 {
            let parts = split_char(t.skip(12), '-');
            match (spec_parse_u16(parts[0]), spec_parse_u16(parts[1])) {
                (Some(a), Some(b)) => Some((a, b)),
                _ => None,
            }
        } else {
            spec_parse_transport_parts(ps.skip(1))
        }
    }
}

/// What parsing a `Transport` header value yields: the client RTP/RTCP port
/// pair, if a well-formed `client_port=` parameter is present.
pub open spec fn spec_parse_transport(s: Seq<char>) -> Option<(u16, u16)> {
    spec_parse_transport_parts(split_char(s, ';'))
}

impl TransportHeader {
    /// Parses the `Transport` header value (RFC 2326 section 12.39), as
    /// [`spec_parse_transport`] describes; e.g. the client port pair out of
    /// `RTP/AVP;unicast;client_port=8000-8001`.
    pub fn parse(header: &str) -> (r: Option<Self>)
        ensures
            (match spec_parse_transport(header@) {
                Some(p) => r matches Some(th) && th.client_rtp_port == p.0 && th.client_rtcp_port
                    == p.1,
                None => r is None,
            }),
    {
        let parts = split_on_char(header, ';');
        let ghost psv = parts@.map_values(|p: String| p@);
        let mut i: usize = 0;
        proof {
            assert(psv.skip(0) =~= psv);
        }
        while i < parts.len()
            invariant
                i <= parts@.len(),
                psv == parts@.map_values(|p: String| p@),
                psv.len() == parts@.len(),
                spec_parse_transport(header@) == spec_parse_transport_parts(psv.skip(i as int)),
            decreases parts@.len() - i,
        {
            proof {
                assert(psv.skip(i as int)[0] == psv[i as int]);
            }
            let t = trim_str(parts[i].as_str());
            let n = t.unicode_len();
            if n >= 12 {
                if str_eq(t.substring_char(0, 12), "client_port=") {
                    proof {
                        assert(t@.subrange(0, 12) =~= spec_trim(psv[i as int]).take(12));
                    }
                    let tail = t.substring_char(12, n);
                    proof {
                        assert(tail@ =~= spec_trim(psv[i as int]).skip(12));
                    }
                    let pp = split_on_char(tail, '-');
                    if pp.len() == 2 {
                        let a = parse_u16(pp[0].as_str());
                        let b = parse_u16(pp[1].as_str());
                        proof {
                            let sp = split_char(spec_trim(psv[i as int]).skip(12), '-');
                            assert(pp@.map_values(|p: String| p@)[0] == sp[0]);
                            assert(pp@.map_values(|p: String| p@)[1] == sp[1]);
                        }
                        match (a, b) {
                            (Some(rtp), Some(rtcp)) => {
                                return Some(
                                    TransportHeader {
                                        client_rtp_port: rtp,
                                        client_rtcp_port: rtcp,
                                    },
                                );
                            },
                            _ => {
                                return None;
                            },
                        }
                    }
                }
            }
            proof {
                assert(psv.skip(i as int).skip(1) =~= psv.skip(i + 1));
            }
            i += 1;
        }
        proof {
            assert(psv.skip(psv.len() as int) =~= Seq::<Seq<char>>::empty());
        }
        None
    }
}

/// One RTSP client session.
pub struct Session {
    pub id: String,
    pub uri: String,
    pub transport: Option<Transport>,
    pub state: SessionState,
    pub timeout_secs: u64,
    pub id_num: Ghost<u64>,
}

impl Session {
    /// The identifier is the hex form of the counter value it was created
    /// from, and a Playing session always has its transport set.
    pub open spec fn wf(&self) -> bool {
        &&& self.id@ == spec_hex16(self.id_num@)
        &&& self.state is Playing ==> self.transport is Some
    }

    /// A fresh session in Ready state with no transport, identified by the
    /// 16-hex-digit form of `id`.
    pub fn new(uri: &str, id: u64) -> (r: Self)
        ensures
            r.id@ == spec_hex16(id),
            r.id_num@ == id,
            r.uri@ == uri@,
            r.transport is None,
            r.state == SessionState::Ready,
            r.timeout_secs == DEFAULT_SESSION_TIMEOUT_SECS,
            r.wf(),
    {
        Session {
            id: u64_to_hex16(id),
            uri: String::from_str(uri),
            transport: None,
            state: SessionState::Ready,
            timeout_secs: DEFAULT_SESSION_TIMEOUT_SECS,
            id_num: Ghost(id),
        }
    }

    pub fn set_transport(&mut self, transport: Transport)
        ensures
            final(self).transport == Some(transport),
            final(self).id == old(self).id,
            final(self).id_num == old(self).id_num,
            final(self).uri == old(self).uri,
            final(self).state == old(self).state,
            final(self).timeout_secs == old(self).timeout_secs,
            old(self).wf() ==> final(self).wf(),
    {
        self.transport = Some(transport);
    }

    pub fn get_transport(&self) -> (r: Option<&Transport>)
        ensures
            (match self.transport {
                Some(t) => r matches Some(rt) && *rt == t,
                None => r is None,
            }),
    {
        match &self.transport {
            Some(t) => Some(t),
            None => None,
        }
    }

    /// Move the session's lifecycle state. A session may enter Playing only
    /// with its transport set.
    pub fn set_state(&mut self, state: SessionState)
        requires
            state is Playing ==> old(self).transport is Some,
        ensures
            final(self).state == state,
            final(self).id == old(self).id,
            final(self).id_num == old(self).id_num,
            final(self).uri == old(self).uri,
            final(self).transport == old(self).transport,
            final(self).timeout_secs == old(self).timeout_secs,
            old(self).wf() ==> final(self).wf(),
    {
        self.state = state;
    }

    pub fn get_state(&self) -> (r: SessionState)
        ensures
            r == self.state,
    {
        self.state
    }

    pub fn is_playing(&self) -> (r: bool)
        ensures
            r == (self.state is Playing),
    {
        self.state == SessionState::Playing
    }

    /// The `Session` response header value including the keepalive timeout,
    /// e.g. `0000000000000001;timeout=60`.
    pub fn session_header_value(&self) -> (r: String)
        ensures
            r@ == self.id@ + ";timeout="@ + spec_dec_digits(self.timeout_secs as int),
    {
        let mut s = self.id.clone();
        s.append(";timeout=");
        s.append(u64_to_dec(self.timeout_secs).as_str());
        s
    }
}

/// Index of the first session with the given id, or `ss.len()` when none.
pub open spec fn spec_find_session(ss: Seq<Session>, id: Seq<char>) -> int
    decreases ss.len(),
{
    if ss.len() == 0 {
        0
    } else if ss[0].id@ == id {
        0
    } else {
        1 + spec_find_session(ss.skip(1), id)
    }
}

pub proof fn lemma_find_session(ss: Seq<Session>, id: Seq<char>)
    ensures
        0 <= spec_find_session(ss, id) <= ss.len(),
        spec_find_session(ss, id) < ss.len() ==> ss[spec_find_session(ss, id)].id@ == id,
        forall|k: int| 0 <= k < spec_find_session(ss, id) ==> ss[k].id@ != id,
    decreases ss.len(),
{
    if ss.len() == 0 {
    } else if ss[0].id@ == id {
    } else {
        lemma_find_session(ss.skip(1), id);
        assert forall|k: int| 0 <= k < spec_find_session(ss, id) implies ss[k].id@ != id by {
            if k > 0 {
                assert(ss.skip(1)[k - 1] == ss[k]);
            }
        }
    }
}

/// Does the id occur in the list?
pub open spec fn spec_id_in(ids: Seq<Seq<char>>, id: Seq<char>) -> bool {
    exists|i: int| 0 <= i < ids.len() && ids[i] == id
}

/// The sessions that survive a batch removal: those whose id is not listed.
pub open spec fn spec_retained(ss: Seq<Session>, ids: Seq<Seq<char>>) -> Seq<Session>
    decreases ss.len(),
{
    if ss.len() == 0 {
        seq![]
    } else if spec_id_in(ids, ss[0].id@) {
        spec_retained(ss.skip(1), ids)
    } else {
        seq![ss[0]] + spec_retained(ss.skip(1), ids)
    }
}

proof fn lemma_retained_snoc(ss: Seq<Session>, ids: Seq<Seq<char>>, s: Session)
    ensures
        spec_retained(ss.push(s), ids) == if spec_id_in(ids, s.id@) {
            spec_retained(ss, ids)
        } else {
            spec_retained(ss, ids).push(s)
        },
    decreases ss.len(),
{
    if ss.len() == 0 {
        assert(ss.push(s)[0] == s);
        assert(ss.push(s).skip(1) =~= Seq::<Session>::empty());
        assert(spec_retained(Seq::<Session>::empty(), ids) =~= Seq::<Session>::empty());
        assert(spec_retained(ss, ids) =~= Seq::<Session>::empty());
        if spec_id_in(ids, s.id@) {
            assert(spec_retained(ss.push(s), ids) =~= spec_retained(ss, ids));
        } else {
            assert(spec_retained(ss.push(s), ids) =~= seq![s] + Seq::<Session>::empty());
            assert(spec_retained(ss.push(s), ids) =~= spec_retained(ss, ids).push(s));
        }
    } else {
        assert(ss.push(s)[0] == ss[0]);
        assert(ss.push(s).skip(1) =~= ss.skip(1).push(s));
        lemma_retained_snoc(ss.skip(1), ids, s);
        let l = spec_retained(ss.skip(1), ids);
        assert(spec_retained(ss, ids) == if spec_id_in(ids, ss[0].id@) {
            l
        } else {
            seq![ss[0]] + l
        });
        assert(spec_retained(ss.push(s), ids) == if spec_id_in(ids, ss[0].id@) {
            spec_retained(ss.skip(1).push(s), ids)
        } else {
            seq![ss[0]] + spec_retained(ss.skip(1).push(s), ids)
        });
        if spec_id_in(ids, s.id@) {
            assert(spec_retained(ss.push(s), ids) =~= spec_retained(ss, ids));
        } else {
            assert(spec_retained(ss.push(s), ids) =~= spec_retained(ss, ids).push(s));
        }
    }
}

/// The sessions currently in Playing state, in storage order.
pub open spec fn spec_playing(ss: Seq<Session>) -> Seq<Session>
    decreases ss.len(),
{
    if ss.len() == 0 {
        seq![]
    } else if ss[0].state is Playing {
        seq![ss[0]] + spec_playing(ss.skip(1))
    } else {
        spec_playing(ss.skip(1))
    }
}

proof fn lemma_playing_snoc(ss: Seq<Session>, s: Session)
    ensures
        spec_playing(ss.push(s)) == if s.state is Playing {
            spec_playing(ss).push(s)
        } else {
            spec_playing(ss)
        },
    decreases ss.len(),
{
    if ss.len() == 0 {
        assert(ss.push(s)[0] == s);
        assert(ss.push(s).skip(1) =~= Seq::<Session>::empty());
        assert(spec_playing(Seq::<Session>::empty()) =~= Seq::<Session>::empty());
        assert(spec_playing(ss) =~= Seq::<Session>::empty());
        if s.state is Playing {
            assert(spec_playing(ss.push(s)) =~= seq![s] + Seq::<Session>::empty());
            assert(spec_playing(ss.push(s)) =~= spec_playing(ss).push(s));
        } else {
            assert(spec_playing(ss.push(s)) =~= spec_playing(ss));
        }
    } else {
        assert(ss.push(s)[0] == ss[0]);
        assert(ss.push(s).skip(1) =~= ss.skip(1).push(s));
        lemma_playing_snoc(ss.skip(1), s);
        let l = spec_playing(ss.skip(1));
        assert(spec_playing(ss) == if ss[0].state is Playing {
            seq![ss[0]] + l
        } else {
            l
        });
        assert(spec_playing(ss.push(s)) == if ss[0].state is Playing {
            seq![ss[0]] + spec_playing(ss.skip(1).push(s))
        } else {
            spec_playing(ss.skip(1).push(s))
        });
        if s.state is Playing {
            assert(spec_playing(ss.push(s)) =~= spec_playing(ss).push(s));
        } else {
            assert(spec_playing(ss.push(s)) =~= spec_playing(ss));
        }
    }
}

/// The session store: sessions with unique identifiers, the identifier
/// counter, and the server port counter.
pub struct SessionManager {
    pub sessions: Vec<Session>,
    pub next_session_id: u64,
    pub next_server_port: u32,
}

impl SessionManager {
    /// Sessions are well formed with pairwise distinct identifiers drawn
    /// from counter values below the current one, and the port counter
    /// stays in its wrapping window.
    pub open spec fn wf(&self) -> bool {
        &&& forall|i: int|
            0 <= i < self.sessions@.len() ==> (#[trigger] self.sessions@[i]).wf()
        &&& forall|i: int|
            0 <= i < self.sessions@.len() ==> (#[trigger] self.sessions@[i]).id_num@
                < self.next_session_id
        &&& forall|i: int, j: int|
            0 <= i < j < self.sessions@.len() ==> (#[trigger] self.sessions@[i]).id@ != (
            #[trigger] self.sessions@[j]).id@
        &&& SERVER_PORT_MIN <= self.next_server_port <= SERVER_PORT_MAX + 2
    }

    pub fn new() -> (r: Self)
        ensures
            r.sessions@.len() == 0,
            r.next_session_id == 0,
            r.next_server_port == SERVER_PORT_MIN,
            r.wf(),
    {
        SessionManager { sessions: Vec::new(), next_session_id: 0, next_server_port: 5000 }
    }

    /// Inserts a new Ready session with no transport for `uri` and returns
    /// its identifier: the 16-hex-digit form of the counter value.
    pub fn create_session(&mut self, uri: &str) -> (id: String)
        requires
            old(self).wf(),
            old(self).next_session_id < u64::MAX,
        ensures
            final(self).wf(),
            id@ == spec_hex16(old(self).next_session_id),
            final(self).sessions@.len() == old(self).sessions@.len() + 1,
            final(self).sessions@ == old(self).sessions@.push(final(self).sessions@.last()),
            ({
                let s = final(self).sessions@.last();
                s.id@ == spec_hex16(old(self).next_session_id) && s.uri@ == uri@ && s.transport
                    is None && s.state == SessionState::Ready && s.timeout_secs
                    == DEFAULT_SESSION_TIMEOUT_SECS
            }),
            final(self).next_session_id == old(self).next_session_id + 1,
            final(self).next_server_port == old(self).next_server_port,
    {
        let num = self.next_session_id;
        let session = Session::new(uri, num);
        let id = session.id.clone();
        let ghost old_sessions = self.sessions@;
        self.sessions.push(session);
        self.next_session_id = num + 1;
        proof {
            assert forall|i: int, j: int|
                0 <= i < j < self.sessions@.len() implies (#[trigger] self.sessions@[i]).id@ != (
            #[trigger] self.sessions@[j]).id@ by {
                if j == self.sessions@.len() - 1 {
                    assert(self.sessions@[i] == old_sessions[i]);
                    if self.sessions@[i].id@ == self.sessions@[j].id@ {
                        lemma_hex16_injective(old_sessions[i].id_num@, num);
                    }
                } else {
                    assert(self.sessions@[i] == old_sessions[i]);
                    assert(self.sessions@[j] == old_sessions[j]);
                }
            }
        }
        id
    }

    /// Looks a session up by id, as [`spec_find_session`] describes.
    pub fn get_session(&self, id: &str) -> (r: Option<&Session>)
        ensures
            ({
                let f = spec_find_session(self.sessions@, id@);
                match r {
                    Some(s) => f < self.sessions@.len() && *s == self.sessions@[f],
                    None => f == self.sessions@.len(),
                }
            }),
    {
        let ghost ss = self.sessions@;
        let mut i: usize = 0;
        proof {
            assert(ss.skip(0) =~= ss);
        }
        while i < self.sessions.len()
            invariant
                i <= ss.len(),
                ss == self.sessions@,
                spec_find_session(ss, id@) == i + spec_find_session(ss.skip(i as int), id@),
            decreases ss.len() - i,
        {
            proof {
                assert(ss.skip(i as int)[0] == ss[i as int]);
            }
            if str_eq(self.sessions[i].id.as_str(), id) {
                proof {
                    lemma_find_session(ss, id@);
                }
                return Some(&self.sessions[i]);
            }
            proof {
                assert(ss.skip(i as int).skip(1) =~= ss.skip(i + 1));
            }
            i += 1;
        }
        proof {
            assert(ss.skip(ss.len() as int) =~= Seq::<Session>::empty());
        }
        None
    }

    /// Index of the session with this id, if present.
    pub fn index_of(&self, id: &str) -> (r: Option<usize>)
        ensures
            ({
                let f = spec_find_session(self.sessions@, id@);
                match r {
                    Some(i) => f == i && i < self.sessions@.len(),
                    None => f == self.sessions@.len(),
                }
            }),
    {
        let ghost ss = self.sessions@;
        let mut i: usize = 0;
        proof {
            assert(ss.skip(0) =~= ss);
        }
        while i < self.sessions.len()
            invariant
                i <= ss.len(),
                ss == self.sessions@,
                spec_find_session(ss, id@) == i + spec_find_session(ss.skip(i as int), id@),
            decreases ss.len() - i,
        {
            proof {
                assert(ss.skip(i as int)[0] == ss[i as int]);
            }
            if str_eq(self.sessions[i].id.as_str(), id) {
                return Some(i);
            }
            proof {
                assert(ss.skip(i as int).skip(1) =~= ss.skip(i + 1));
            }
            i += 1;
        }
        proof {
            assert(ss.skip(ss.len() as int) =~= Seq::<Session>::empty());
        }
        None
    }

    /// Sets the transport of the session at index `i`.
    pub fn set_session_transport(&mut self, i: usize, transport: Transport)
        requires
            old(self).wf(),
            i < old(self).sessions@.len(),
        ensures
            final(self).wf(),
            final(self).sessions@ == old(self).sessions@.update(
                i as int,
                final(self).sessions@[i as int],
            ),
            final(self).sessions@[i as int].transport == Some(transport),
            final(self).sessions@[i as int].id == old(self).sessions@[i as int].id,
            final(self).sessions@[i as int].uri == old(self).sessions@[i as int].uri,
            final(self).sessions@[i as int].state == old(self).sessions@[i as int].state,
            final(self).sessions@[i as int].timeout_secs == old(
                self,
            ).sessions@[i as int].timeout_secs,
            final(self).sessions@.len() == old(self).sessions@.len(),
            forall|k: int|
                0 <= k < old(self).sessions@.len() && k != i ==> final(self).sessions@[k] == old(
                    self,
                ).sessions@[k],
            final(self).next_session_id == old(self).next_session_id,
            final(self).next_server_port == old(self).next_server_port,
    {
        let mut s = self.sessions.remove(i);
        s.set_transport(transport);
        self.sessions.insert(i, s);
        proof {
            assert(self.sessions@ =~= old(self).sessions@.update(
                i as int,
                self.sessions@[i as int],
            ));
        }
    }

    /// Sets the lifecycle state of the session at index `i`; Playing demands
    /// a configured transport.
    pub fn set_session_state(&mut self, i: usize, state: SessionState)
        requires
            old(self).wf(),
            i < old(self).sessions@.len(),
            state is Playing ==> old(self).sessions@[i as int].transport is Some,
        ensures
            final(self).wf(),
            final(self).sessions@ == old(self).sessions@.update(
                i as int,
                final(self).sessions@[i as int],
            ),
            final(self).sessions@[i as int].state == state,
            final(self).sessions@[i as int].id == old(self).sessions@[i as int].id,
            final(self).sessions@[i as int].uri == old(self).sessions@[i as int].uri,
            final(self).sessions@[i as int].transport == old(self).sessions@[i as int].transport,
            final(self).sessions@[i as int].timeout_secs == old(
                self,
            ).sessions@[i as int].timeout_secs,
            final(self).sessions@.len() == old(self).sessions@.len(),
            forall|k: int|
                0 <= k < old(self).sessions@.len() && k != i ==> final(self).sessions@[k] == old(
                    self,
                ).sessions@[k],
            final(self).next_session_id == old(self).next_session_id,
            final(self).next_server_port == old(self).next_server_port,
    {
        let mut s = self.sessions.remove(i);
        s.set_state(state);
        self.sessions.insert(i, s);
        proof {
            assert(self.sessions@ =~= old(self).sessions@.update(
                i as int,
                self.sessions@[i as int],
            ));
        }
    }

    /// Removes the session with this id, returning it.
    pub fn remove_session(&mut self, id: &str) -> (r: Option<Session>)
        requires
            old(self).wf(),
        ensures
            final(self).wf(),
            final(self).next_session_id == old(self).next_session_id,
            final(self).next_server_port == old(self).next_server_port,
            ({
                let f = spec_find_session(old(self).sessions@, id@);
                if f < old(self).sessions@.len() {
                    r matches Some(s) && s == old(self).sessions@[f] && final(self).sessions@
                        == old(self).sessions@.remove(f)
                } else {
                    r is None && final(self).sessions@ == old(self).sessions@
                }
            }),
    {
        match self.index_of(id) {
            Some(i) => {
                let s = self.sessions.remove(i);
                proof {
                    assert forall|a: int, b: int|
                        0 <= a < b < self.sessions@.len() implies (
                    #[trigger] self.sessions@[a]).id@ != (#[trigger] self.sessions@[b]).id@ by {
                        let sa = if a < i {
                            a
                        } else {
                            a + 1
                        };
                        let sb = if b < i {
                            b
                        } else {
                            b + 1
                        };
                        assert(self.sessions@[a] == old(self).sessions@[sa]);
                        assert(self.sessions@[b] == old(self).sessions@[sb]);
                    }
                }
                Some(s)
            },
            None => None,
        }
    }

    /// Removes every session whose id is in the list; returns how many were
    /// removed. The sessions kept are [`spec_retained`].
    pub fn remove_sessions(&mut self, ids: &Vec<String>) -> (r: usize)
        requires
            old(self).wf(),
        ensures
            final(self).wf(),
            final(self).next_session_id == old(self).next_session_id,
            final(self).next_server_port == old(self).next_server_port,
            final(self).sessions@ == spec_retained(
                old(self).sessions@,
                ids@.map_values(|s: String| s@),
            ),
            r == old(self).sessions@.len() - final(self).sessions@.len(),
    {
        let ghost idv = ids@.map_values(|s: String| s@);
        let ghost orig = self.sessions@;
        let n0 = self.sessions.len();
        let mut i: usize = 0;
        let mut k: usize = 0;
        proof {
            assert(orig.take(0) =~= Seq::<Session>::empty());
            assert(spec_retained(Seq::<Session>::empty(), idv) =~= Seq::<Session>::empty());
            assert(orig.skip(0) =~= orig);
            assert(self.sessions@ =~= spec_retained(orig.take(0), idv) + orig.skip(0));
        }
        while k < n0
            invariant
                k <= n0,
                n0 == orig.len(),
                i == spec_retained(orig.take(k as int), idv).len(),
                i <= k,
                idv == ids@.map_values(|s: String| s@),
                self.sessions@ == spec_retained(orig.take(k as int), idv) + orig.skip(k as int),
                forall|a: int|
                    0 <= a < self.sessions@.len() ==> (#[trigger] self.sessions@[a]).wf(),
                forall|a: int|
                    0 <= a < self.sessions@.len() ==> (#[trigger] self.sessions@[a]).id_num@ < old(
                        self,
                    ).next_session_id,
                forall|a: int, b: int|
                    0 <= a < b < self.sessions@.len() ==> (#[trigger] self.sessions@[a]).id@ != (
                    #[trigger] self.sessions@[b]).id@,
                self.next_session_id == old(self).next_session_id,
                self.next_server_port == old(self).next_server_port,
                old(self).wf(),
            decreases n0 - k,
        {
            let ghost pre = self.sessions@;
            proof {
                assert(pre[i as int] == orig.skip(k as int)[0]);
                assert(orig.skip(k as int)[0] == orig[k as int]);
                assert(orig.take(k + 1) =~= orig.take(k as int).push(orig[k as int]));
                lemma_retained_snoc(orig.take(k as int), idv, orig[k as int]);
                assert(orig.skip(k as int).skip(1) =~= orig.skip(k + 1));
            }
            if id_in_list(ids, &self.sessions[i].id) {
                let removed = self.sessions.remove(i);
                proof {
                    assert(self.sessions@ =~= spec_retained(orig.take(k + 1), idv) + orig.skip(
                        k + 1,
                    ));
                    assert forall|a: int, b: int|
                        0 <= a < b < self.sessions@.len() implies (
                    #[trigger] self.sessions@[a]).id@ != (#[trigger] self.sessions@[b]).id@ by {
                        let sa = if a < i {
                            a
                        } else {
                            a + 1
                        };
                        let sb = if b < i {
                            b
                        } else {
                            b + 1
                        };
                        assert(self.sessions@[a] == pre[sa]);
                        assert(self.sessions@[b] == pre[sb]);
                    }
                }
            } else {
                proof {
                    assert(spec_retained(orig.take(k + 1), idv) =~= spec_retained(
                        orig.take(k as int),
                        idv,
                    ).push(orig[k as int]));
                    assert(self.sessions@ =~= spec_retained(orig.take(k + 1), idv) + orig.skip(
                        k + 1,
                    ));
                }
                i += 1;
            }
            k += 1;
        }
        proof {
            assert(orig.take(n0 as int) =~= orig);
            assert(orig.skip(n0 as int) =~= Seq::<Session>::empty());
            assert(self.sessions@ =~= spec_retained(orig, idv));
        }
        n0 - self.sessions.len()
    }

    /// Takes the next server RTP/RTCP port pair. The counter advances by
    /// two and wraps from above [`SERVER_PORT_MAX`] back to
    /// [`SERVER_PORT_MIN`], so the RTP port is always in [5000, 65534] and
    /// the RTCP port is RTP + 1.
    pub fn allocate_server_ports(&mut self) -> (r: Result<(u16, u16), RtspError>)
        requires
            old(self).wf(),
        ensures
            final(self).wf(),
            final(self).sessions@ == old(self).sessions@,
            final(self).next_session_id == old(self).next_session_id,
            ({
                let p = if old(self).next_server_port > SERVER_PORT_MAX {
                    SERVER_PORT_MIN as int
                } else {
                    old(self).next_server_port as int
                };
                r matches Ok(ports) && ports.0 == p && ports.1 == p + 1
                    && final(self).next_server_port == p + 2
            }),
    {
        let mut rtp = self.next_server_port;
        if rtp > SERVER_PORT_MAX {
            rtp = SERVER_PORT_MIN;
        }
        self.next_server_port = rtp + 2;
        Ok((rtp as u16, (rtp + 1) as u16))
    }

    /// A snapshot of the sessions currently in Playing state, as
    /// [`spec_playing`] describes.
    pub fn get_playing_sessions(&self) -> (r: Vec<&Session>)
        ensures
            r@.map_values(|s: &Session| *s) == spec_playing(self.sessions@),
    {
        let ghost ss = self.sessions@;
        let mut out: Vec<&Session> = Vec::new();
        let mut i: usize = 0;
        proof {
            assert(ss.take(0) =~= Seq::<Session>::empty());
            assert(spec_playing(Seq::<Session>::empty()) =~= Seq::<Session>::empty());
            assert(out@.map_values(|s: &Session| *s) =~= Seq::<Session>::empty());
        }
        while i < self.sessions.len()
            invariant
                i <= ss.len(),
                ss == self.sessions@,
                out@.map_values(|s: &Session| *s) == spec_playing(ss.take(i as int)),
            decreases ss.len() - i,
        {
            let ghost old_out = out@;
            let s = &self.sessions[i];
            if s.is_playing() {
                out.push(s);
                proof {
                    assert(out@.map_values(|x: &Session| *x) =~= old_out.map_values(
                        |x: &Session| *x,
                    ).push(ss[i as int]));
                }
            }
            proof {
                assert(ss.take(i + 1) =~= ss.take(i as int).push(ss[i as int]));
                lemma_playing_snoc(ss.take(i as int), ss[i as int]);
            }
            i += 1;
        }
        proof {
            assert(ss.take(ss.len() as int) =~= ss);
        }
        out
    }
}


/// In a store with pairwise distinct identifiers, looking an id up finds
/// exactly the session that carries it: once a SETUP response has named a
/// session id, `get_session` returns that session until it is removed.
pub proof fn lemma_session_lookup_by_id(ss: Seq<Session>, i: int)
    requires
        forall|a: int, b: int|
            0 <= a < b < ss.len() ==> (#[trigger] ss[a]).id@ != (#[trigger] ss[b]).id@,
        0 <= i < ss.len(),
    ensures
        spec_find_session(ss, ss[i].id@) == i,
{
    let sid = ss[i].id@;
    lemma_find_session(ss, sid);
    let f = spec_find_session(ss, sid);
    assert(f <= i);
    if f < i {
        assert(ss[f].id@ == sid);
        assert(ss[f].id@ != ss[i].id@);
    }
}

/// Is the id among the given id strings?
fn id_in_list(ids: &Vec<String>, id: &String) -> (r: bool)
    ensures
        r == spec_id_in(ids@.map_values(|s: String| s@), id@),
{
    let ghost idv = ids@.map_values(|s: String| s@);
    let mut i: usize = 0;
    while i < ids.len()
        invariant
            i <= ids@.len(),
            idv == ids@.map_values(|s: String| s@),
            forall|k: int| 0 <= k < i ==> idv[k] != id@,
        decreases ids@.len() - i,
    {
        if str_eq(ids[i].as_str(), id.as_str()) {
            assert(idv[i as int] == id@);
            return true;
        }
        i += 1;
    }
    false
}

} // verus!

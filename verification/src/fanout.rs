//! RTP delivery planning: which sessions a unicast or broadcast send goes
//! to. The socket work happens outside the library; these functions decide
//! the destinations and account for the outcomes.

use crate::error::RtspError;
use crate::session::{spec_find_session, Session, SessionManager, Transport};
use vstd::prelude::*;

verus! {

/// Information about a connected viewer (a client in PLAY state).
#[derive(Debug)]
pub struct Viewer {
    pub session_id: String,
    pub uri: String,
    pub client_addr: String,
    pub client_rtp_port: u16,
}

impl View for Viewer {
    type V = (Seq<char>, Seq<char>, Seq<char>, u16);

    open spec fn view(&self) -> (Seq<char>, Seq<char>, Seq<char>, u16) {
        (self.session_id@, self.uri@, self.client_addr@, self.client_rtp_port)
    }
}

/// The transports of the sessions that a broadcast reaches: exactly those
/// in Playing state with a transport configured, in storage order.
pub open spec fn spec_playing_transports(ss: Seq<Session>) -> Seq<Transport>
    decreases ss.len(),
{
    if ss.len() == 0 {
        seq![]
    } else if ss[0].state is Playing && ss[0].transport is Some {
        seq![ss[0].transport->0] + spec_playing_transports(ss.skip(1))
    } else {
        spec_playing_transports(ss.skip(1))
    }
}

proof fn lemma_playing_transports_snoc(ss: Seq<Session>, s: Session)
    ensures
        spec_playing_transports(ss.push(s)) == if s.state is Playing && s.transport is Some {
            spec_playing_transports(ss).push(s.transport->0)
        } else {
            spec_playing_transports(ss)
        },
    decreases ss.len(),
{
    if ss.len() == 0 {
        assert(ss.push(s)[0] == s);
        assert(ss.push(s).skip(1) =~= Seq::<Session>::empty());
        assert(spec_playing_transports(Seq::<Session>::empty()) =~= Seq::<Transport>::empty());
        assert(spec_playing_transports(ss) =~= Seq::<Transport>::empty());
        if s.state is Playing && s.transport is Some {
            assert(spec_playing_transports(ss.push(s)) =~= seq![s.transport->0]
                + Seq::<Transport>::empty());
            assert(spec_playing_transports(ss.push(s)) =~= spec_playing_transports(ss).push(
                s.transport->0,
            ));
        } else {
            assert(spec_playing_transports(ss.push(s)) =~= spec_playing_transports(ss));
        }
    } else {
        assert(ss.push(s)[0] == ss[0]);
        assert(ss.push(s).skip(1) =~= ss.skip(1).push(s));
        lemma_playing_transports_snoc(ss.skip(1), s);
        let l = spec_playing_transports(ss.skip(1));
        assert(spec_playing_transports(ss) == if ss[0].state is Playing && ss[0].transport
            is Some {
            seq![ss[0].transport->0] + l
        } else {
            l
        });
        assert(spec_playing_transports(ss.push(s)) == if ss[0].state is Playing && ss[0].transport
            is Some {
            seq![ss[0].transport->0] + spec_playing_transports(ss.skip(1).push(s))
        } else {
            spec_playing_transports(ss.skip(1).push(s))
        });
        if s.state is Playing && s.transport is Some {
            assert(spec_playing_transports(ss.push(s)) =~= spec_playing_transports(ss).push(
                s.transport->0,
            ));
        } else {
            assert(spec_playing_transports(ss.push(s)) =~= spec_playing_transports(ss));
        }
    }
}

/// In a well-formed manager every Playing session has a transport, so a
/// broadcast reaches one destination per Playing session.
pub proof fn lemma_broadcast_reaches_playing(ss: Seq<Session>)
    requires
        forall|i: int| 0 <= i < ss.len() ==> (#[trigger] ss[i]).wf(),
    ensures
        spec_playing_transports(ss).len() == crate::session::spec_playing(ss).len(),
    decreases ss.len(),
{
    if ss.len() > 0 {
        assert(ss[0].wf());
        assert forall|i: int| 0 <= i < ss.skip(1).len() implies (#[trigger] ss.skip(1)[i]).wf() by {
            assert(ss.skip(1)[i] == ss[i + 1]);
        }
        lemma_broadcast_reaches_playing(ss.skip(1));
    }
}

/// Decides where a unicast send for session `id` must go, or why it cannot
/// be sent: an unknown id, a session not in Playing state, or a session
/// without transport, checked in that order.
pub fn unicast_destination<'a>(mgr: &'a SessionManager, id: &str) -> (r: Result<
    &'a Transport,
    RtspError,
>)
    ensures
        ({
            let f = spec_find_session(mgr.sessions@, id@);
            if f == mgr.sessions@.len() {
                r matches Err(e) && (e matches RtspError::SessionNotFound(s) && s@ == id@)
            } else if !(mgr.sessions@[f].state is Playing) {
                r matches Err(e) && (e matches RtspError::SessionNotPlaying(s) && s@ == id@)
            } else if mgr.sessions@[f].transport is None {
                r matches Err(e) && (e matches RtspError::TransportNotConfigured(s) && s@ == id@)
            } else {
                r matches Ok(t) && *t == mgr.sessions@[f].transport->0
            }
        }),
{
    match mgr.get_session(id) {
        None => Err(RtspError::SessionNotFound(String::from_str(id))),
        Some(session) => {
            if !session.is_playing() {
                Err(RtspError::SessionNotPlaying(String::from_str(id)))
            } else {
                match session.get_transport() {
                    None => Err(RtspError::TransportNotConfigured(String::from_str(id))),
                    Some(t) => Ok(t),
                }
            }
        },
    }
}

/// The destinations a broadcast goes to, as [`spec_playing_transports`]
/// describes: exactly the Playing sessions with a configured transport.
pub fn broadcast_destinations<'a>(mgr: &'a SessionManager) -> (r: Vec<&'a Transport>)
    ensures
        r@.map_values(|t: &Transport| *t) == spec_playing_transports(mgr.sessions@),
{
    let ghost ss = mgr.sessions@;
    let mut out: Vec<&Transport> = Vec::new();
    let mut i: usize = 0;
    proof {
        assert(ss.take(0) =~= Seq::<Session>::empty());
        assert(spec_playing_transports(Seq::<Session>::empty()) =~= Seq::<Transport>::empty());
        assert(out@.map_values(|t: &Transport| *t) =~= Seq::<Transport>::empty());
    }
    while i < mgr.sessions.len()
        invariant
            i <= ss.len(),
            ss == mgr.sessions@,
            out@.map_values(|t: &Transport| *t) == spec_playing_transports(ss.take(i as int)),
        decreases ss.len() - i,
    {
        let ghost old_out = out@;
        let session = &mgr.sessions[i];
        if session.is_playing() {
            match session.get_transport() {
                Some(t) => {
                    out.push(t);
                    proof {
                        assert(out@.map_values(|x: &Transport| *x) =~= old_out.map_values(
                            |x: &Transport| *x,
                        ).push(ss[i as int].transport->0));
                    }
                },
                None => {},
            }
        }
        proof {
            assert(ss.take(i + 1) =~= ss.take(i as int).push(ss[i as int]));
            lemma_playing_transports_snoc(ss.take(i as int), ss[i as int]);
        }
        i += 1;
    }
    proof {
        assert(ss.take(ss.len() as int) =~= ss);
    }
    out
}

/// How many of a sequence of outcomes are successes.
pub open spec fn spec_count_true(os: Seq<bool>) -> int
    decreases os.len(),
{
    if os.len() == 0 {
        0
    } else {
        (if os[0] {
            1int
        } else {
            0int
        }) + spec_count_true(os.skip(1))
    }
}

proof fn lemma_count_true_snoc(os: Seq<bool>, b: bool)
    ensures
        spec_count_true(os.push(b)) == spec_count_true(os) + (if b {
            1int
        } else {
            0int
        }),
    decreases os.len(),
{
    if os.len() == 0 {
        assert(os.push(b)[0] == b);
        assert(os.push(b).skip(1) =~= Seq::<bool>::empty());
        assert(spec_count_true(Seq::<bool>::empty()) == 0);
    } else {
        assert(os.push(b)[0] == os[0]);
        assert(os.push(b).skip(1) =~= os.skip(1).push(b));
        lemma_count_true_snoc(os.skip(1), b);
    }
}

proof fn lemma_count_true_bounds(os: Seq<bool>)
    ensures
        0 <= spec_count_true(os) <= os.len(),
        (forall|i: int| 0 <= i < os.len() ==> os[i]) ==> spec_count_true(os) == os.len(),
    decreases os.len(),
{
    if os.len() > 0 {
        lemma_count_true_bounds(os.skip(1));
        if forall|i: int| 0 <= i < os.len() ==> #[trigger] os[i] {
            assert(os[0]);
            assert forall|i: int| 0 <= i < os.skip(1).len() implies #[trigger] os.skip(1)[i] by {
                assert(os.skip(1)[i] == os[i + 1]);
            }
            assert(spec_count_true(os.skip(1)) == os.skip(1).len());
        }
    }
}

/// Counts the successful sends of a broadcast: never more than the number
/// of destinations, and equal to it when every send succeeded.
pub fn count_delivered(outcomes: &Vec<bool>) -> (r: usize)
    ensures
        r == spec_count_true(outcomes@),
        r <= outcomes@.len(),
        (forall|i: int| 0 <= i < outcomes@.len() ==> outcomes@[i]) ==> r == outcomes@.len(),
{
    let mut count: usize = 0;
    let mut i: usize = 0;
    proof {
        assert(outcomes@.take(0) =~= Seq::<bool>::empty());
    }
    while i < outcomes.len()
        invariant
            i <= outcomes@.len(),
            count == spec_count_true(outcomes@.take(i as int)),
            count <= i,
        decreases outcomes@.len() - i,
    {
        proof {
            assert(outcomes@.take(i + 1) =~= outcomes@.take(i as int).push(outcomes@[i as int]));
            lemma_count_true_snoc(outcomes@.take(i as int), outcomes@[i as int]);
        }
        if outcomes[i] {
            count += 1;
        }
        i += 1;
    }
    proof {
        assert(outcomes@.take(outcomes@.len() as int) =~= outcomes@);
        lemma_count_true_bounds(outcomes@);
    }
    count
}

/// The viewers of the stream: one entry per Playing session with transport,
/// carrying its id, URI, client address and client RTP port.
pub open spec fn spec_viewers(ss: Seq<Session>) -> Seq<(Seq<char>, Seq<char>, Seq<char>, u16)>
    decreases ss.len(),
{
    if ss.len() == 0 {
        seq![]
    } else if ss[0].state is Playing && ss[0].transport is Some {
        seq![
            (
                ss[0].id@,
                ss[0].uri@,
                ss[0].transport->0.client_addr@,
                ss[0].transport->0.client_rtp_port,
            ),
        ] + spec_viewers(ss.skip(1))
    } else {
        spec_viewers(ss.skip(1))
    }
}

proof fn lemma_viewers_snoc(ss: Seq<Session>, s: Session)
    ensures
        spec_viewers(ss.push(s)) == if s.state is Playing && s.transport is Some {
            spec_viewers(ss).push(
                (s.id@, s.uri@, s.transport->0.client_addr@, s.transport->0.client_rtp_port),
            )
        } else {
            spec_viewers(ss)
        },
    decreases ss.len(),
{
    if ss.len() == 0 {
        assert(ss.push(s)[0] == s);
        assert(ss.push(s).skip(1) =~= Seq::<Session>::empty());
        assert(spec_viewers(Seq::<Session>::empty()) =~= Seq::<
            (Seq<char>, Seq<char>, Seq<char>, u16),
        >::empty());
        assert(spec_viewers(ss) =~= Seq::<(Seq<char>, Seq<char>, Seq<char>, u16)>::empty());
        if s.state is Playing && s.transport is Some {
            assert(spec_viewers(ss.push(s)) =~= spec_viewers(ss).push(
                (s.id@, s.uri@, s.transport->0.client_addr@, s.transport->0.client_rtp_port),
            ));
        } else {
            assert(spec_viewers(ss.push(s)) =~= spec_viewers(ss));
        }
    } else {
        assert(ss.push(s)[0] == ss[0]);
        assert(ss.push(s).skip(1) =~= ss.skip(1).push(s));
        lemma_viewers_snoc(ss.skip(1), s);
        let l = spec_viewers(ss.skip(1));
        assert(spec_viewers(ss) == if ss[0].state is Playing && ss[0].transport is Some {
            seq![
                (
                    ss[0].id@,
                    ss[0].uri@,
                    ss[0].transport->0.client_addr@,
                    ss[0].transport->0.client_rtp_port,
                ),
            ] + l
        } else {
            l
        });
        assert(spec_viewers(ss.push(s)) == if ss[0].state is Playing && ss[0].transport is Some {
            seq![
                (
                    ss[0].id@,
                    ss[0].uri@,
                    ss[0].transport->0.client_addr@,
                    ss[0].transport->0.client_rtp_port,
                ),
            ] + spec_viewers(ss.skip(1).push(s))
        } else {
            spec_viewers(ss.skip(1).push(s))
        });
        if s.state is Playing && s.transport is Some {
            assert(spec_viewers(ss.push(s)) =~= spec_viewers(ss).push(
                (s.id@, s.uri@, s.transport->0.client_addr@, s.transport->0.client_rtp_port),
            ));
        } else {
            assert(spec_viewers(ss.push(s)) =~= spec_viewers(ss));
        }
    }
}

/// A snapshot of the connected viewers, as [`spec_viewers`] describes.
pub fn get_viewers(mgr: &SessionManager) -> (r: Vec<Viewer>)
    ensures
        r@.map_values(|v: Viewer| v@) == spec_viewers(mgr.sessions@),
{
    let ghost ss = mgr.sessions@;
    let mut out: Vec<Viewer> = Vec::new();
    let mut i: usize = 0;
    proof {
        assert(ss.take(0) =~= Seq::<Session>::empty());
        assert(spec_viewers(Seq::<Session>::empty()) =~= Seq::<
            (Seq<char>, Seq<char>, Seq<char>, u16),
        >::empty());
        assert(out@.map_values(|v: Viewer| v@) =~= Seq::<
            (Seq<char>, Seq<char>, Seq<char>, u16),
        >::empty());
    }
    while i < mgr.sessions.len()
        invariant
            i <= ss.len(),
            ss == mgr.sessions@,
            out@.map_values(|v: Viewer| v@) == spec_viewers(ss.take(i as int)),
        decreases ss.len() - i,
    {
        let ghost old_out = out@;
        let session = &mgr.sessions[i];
        if session.is_playing() {
            match session.get_transport() {
                Some(t) => {
                    let v = Viewer {
                        session_id: session.id.clone(),
                        uri: session.uri.clone(),
                        client_addr: t.client_addr.clone(),
                        client_rtp_port: t.client_rtp_port,
                    };
                    out.push(v);
                    proof {
                        assert(out@.map_values(|x: Viewer| x@) =~= old_out.map_values(
                            |x: Viewer| x@,
                        ).push(
                            (
                                ss[i as int].id@,
                                ss[i as int].uri@,
                                ss[i as int].transport->0.client_addr@,
                                ss[i as int].transport->0.client_rtp_port,
                            ),
                        ));
                    }
                },
                None => {},
            }
        }
        proof {
            assert(ss.take(i + 1) =~= ss.take(i as int).push(ss[i as int]));
            lemma_viewers_snoc(ss.take(i as int), ss[i as int]);
        }
        i += 1;
    }
    proof {
        assert(ss.take(ss.len() as int) =~= ss);
    }
    out
}

} // verus!

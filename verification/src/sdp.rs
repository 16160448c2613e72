//! SDP session descriptions (RFC 4566) for the DESCRIBE response.

use crate::num::{spec_dec_digits, u64_to_dec};
use vstd::prelude::*;

verus! {

/// The capability set a codec packetizer offers to SDP generation: payload
/// type, clock rate, codec name, and extra attribute lines.
pub trait Packetizer: Sized {
    spec fn spec_payload_type(&self) -> u8;

    spec fn spec_clock_rate(&self) -> u32;

    spec fn spec_codec_name(&self) -> Seq<char>;

    spec fn spec_sdp_attributes(&self) -> Seq<Seq<char>>;

    fn payload_type(&self) -> (r: u8)
        ensures
            r == self.spec_payload_type(),
    ;

    fn clock_rate(&self) -> (r: u32)
        ensures
            r == self.spec_clock_rate(),
    ;

    fn codec_name(&self) -> (r: String)
        ensures
            r@ == self.spec_codec_name(),
    ;

    fn sdp_attributes(&self) -> (r: Vec<String>)
        ensures
            r@.map_values(|a: String| a@) == self.spec_sdp_attributes(),
    ;
}

/// One `a=<attribute>` line per entry.
pub open spec fn spec_sdp_attr_lines(attrs: Seq<Seq<char>>) -> Seq<char>
    decreases attrs.len(),
{
    if attrs.len() == 0 {
        Seq::<char>::empty()
    } else {
        "a="@ + attrs[0] + "\r\n"@ + spec_sdp_attr_lines(attrs.skip(1))
    }
}

proof fn lemma_sdp_attr_lines_snoc(attrs: Seq<Seq<char>>, a: Seq<char>)
    ensures
        spec_sdp_attr_lines(attrs.push(a)) == spec_sdp_attr_lines(attrs) + "a="@ + a + "\r\n"@,
    decreases attrs.len(),
{
    if attrs.len() == 0 {
        assert(attrs.push(a)[0] == a);
        assert(attrs.push(a).skip(1) =~= Seq::<Seq<char>>::empty());
        assert(spec_sdp_attr_lines(Seq::<Seq<char>>::empty()) == Seq::<char>::empty());
        assert(spec_sdp_attr_lines(attrs.push(a)) =~= Seq::<char>::empty() + "a="@ + a + "\r\n"@);
    } else {
        assert(attrs.push(a).skip(1) =~= attrs.skip(1).push(a));
        lemma_sdp_attr_lines_snoc(attrs.skip(1), a);
        assert(spec_sdp_attr_lines(attrs.push(a)) =~= spec_sdp_attr_lines(attrs) + "a="@ + a
            + "\r\n"@);
    }
}

/// The fixed session-level head of every description this server produces.
pub open spec fn spec_sdp_session_head() -> Seq<char> {
    "v=0\r\no=- 0 0 IN IP4 127.0.0.1\r\ns=RTSP Server\r\nc=IN IP4 0.0.0.0\r\nt=0 0\r\nm=video 0 RTP/AVP "@
}

/// The media attribute line `a=rtpmap:<pt> <codec>/<clock>`.
pub open spec fn spec_sdp_rtpmap(pt: u8, codec: Seq<char>, clock: u32) -> Seq<char> {
    "a=rtpmap:"@ + spec_dec_digits(pt as int) + " "@ + codec + "/"@ + spec_dec_digits(clock as int)
        + "\r\n"@
}

/// A whole SDP description: a function of the packetizer configuration
/// alone, so generation is deterministic.
pub open spec fn spec_sdp(pt: u8, codec: Seq<char>, clock: u32, attrs: Seq<Seq<char>>) -> Seq<
    char,
> {
    spec_sdp_session_head() + spec_dec_digits(pt as int) + "\r\n"@ + spec_sdp_rtpmap(
        pt,
        codec,
        clock,
    ) + spec_sdp_attr_lines(attrs) + "a=control:track1\r\n"@
}

/// Generate an SDP session description for the given packetizer, as
/// [`spec_sdp`] describes: fixed session fields, one `m=video` line, the
/// `rtpmap` line, the codec's attribute lines, and a trailing
/// `a=control:track1`.
pub fn generate_sdp<P: Packetizer>(packetizer: &P) -> (r: String)
    ensures
        r@ == spec_sdp(
            packetizer.spec_payload_type(),
            packetizer.spec_codec_name(),
            packetizer.spec_clock_rate(),
            packetizer.spec_sdp_attributes(),
        ),
{
    let pt = packetizer.payload_type();
    let clock = packetizer.clock_rate();
    let codec = packetizer.codec_name();
    let attrs = packetizer.sdp_attributes();
    let ghost av = attrs@.map_values(|a: String| a@);

    let mut out = String::from_str(
        "v=0\r\no=- 0 0 IN IP4 127.0.0.1\r\ns=RTSP Server\r\nc=IN IP4 0.0.0.0\r\nt=0 0\r\nm=video 0 RTP/AVP ",
    );
    out.append(u64_to_dec(pt as u64).as_str());
    out.append("\r\n");
    out.append("a=rtpmap:");
    out.append(u64_to_dec(pt as u64).as_str());
    out.append(" ");
    out.append(codec.as_str());
    out.append("/");
    out.append(u64_to_dec(clock as u64).as_str());
    out.append("\r\n");
    let ghost head = out@;
    proof {
        assert(head =~= spec_sdp_session_head() + spec_dec_digits(pt as int) + "\r\n"@
            + spec_sdp_rtpmap(pt, codec@, clock));
        assert(av.take(0) =~= Seq::<Seq<char>>::empty());
        assert(spec_sdp_attr_lines(Seq::<Seq<char>>::empty()) == Seq::<char>::empty());
        assert(out@ + spec_sdp_attr_lines(av.take(0)) =~= out@);
    }
    let mut i: usize = 0;
    while i < attrs.len()
        invariant
            i <= attrs@.len(),
            av == attrs@.map_values(|a: String| a@),
            av.len() == attrs@.len(),
            out@ == head + spec_sdp_attr_lines(av.take(i as int)),
        decreases attrs@.len() - i,
    {
        out.append("a=");
        out.append(attrs[i].as_str());
        out.append("\r\n");
        proof {
            lemma_sdp_attr_lines_snoc(av.take(i as int), av[i as int]);
            assert(av.take(i + 1) =~= av.take(i as int).push(av[i as int]));
            assert(out@ =~= head + spec_sdp_attr_lines(av.take(i + 1)));
        }
        i += 1;
    }
    out.append("a=control:track1\r\n");
    proof {
        assert(av.take(av.len() as int) =~= av);
        assert(out@ =~= spec_sdp(pt, codec@, clock, av));
    }
    out
}

/// What every generated description contains: it begins with `v=0`, holds an
/// `m=video` line and the `rtpmap` line for the configuration, and ends with
/// `a=control:track1`. Generation is deterministic because [`spec_sdp`] is a
/// function of the configuration alone.
pub proof fn lemma_sdp_contents(pt: u8, codec: Seq<char>, clock: u32, attrs: Seq<Seq<char>>)
    ensures
        spec_sdp(pt, codec, clock, attrs).take(5) == "v=0\r\n"@,
        exists|i: int|
            0 <= i && i + "m=video 0 RTP/AVP "@.len() <= spec_sdp(pt, codec, clock, attrs).len()
                && #[trigger] spec_sdp(pt, codec, clock, attrs).subrange(
                i,
                i + "m=video 0 RTP/AVP "@.len(),
            ) == "m=video 0 RTP/AVP "@,
        exists|i: int|
            0 <= i && i + spec_sdp_rtpmap(pt, codec, clock).len() <= spec_sdp(
                pt,
                codec,
                clock,
                attrs,
            ).len() && #[trigger] spec_sdp(pt, codec, clock, attrs).subrange(
                i,
                i + spec_sdp_rtpmap(pt, codec, clock).len(),
            ) == spec_sdp_rtpmap(pt, codec, clock),
        spec_sdp(pt, codec, clock, attrs).skip(
            spec_sdp(pt, codec, clock, attrs).len() - "a=control:track1\r\n"@.len(),
        ) == "a=control:track1\r\n"@,
{
    let s = spec_sdp(pt, codec, clock, attrs);
    let head = spec_sdp_session_head();
    let rtpmap = spec_sdp_rtpmap(pt, codec, clock);
    let tail = "a=control:track1\r\n"@;
    reveal_strlit(
        "v=0\r\no=- 0 0 IN IP4 127.0.0.1\r\ns=RTSP Server\r\nc=IN IP4 0.0.0.0\r\nt=0 0\r\nm=video 0 RTP/AVP ",
    );
    reveal_strlit("v=0\r\n");
    reveal_strlit("m=video 0 RTP/AVP ");
    reveal_strlit("\r\n");
    assert(s.take(5) =~= "v=0\r\n"@);
    let lm = "m=video 0 RTP/AVP "@.len() as int;
    let m0 = head.len() as int - lm;
    assert(s.subrange(m0, m0 + lm) =~= "m=video 0 RTP/AVP "@);
    assert(0 <= m0 && m0 + "m=video 0 RTP/AVP "@.len() <= s.len() && s.subrange(
        m0,
        m0 + "m=video 0 RTP/AVP "@.len(),
    ) == "m=video 0 RTP/AVP "@);
    let r0 = head.len() as int + spec_dec_digits(pt as int).len() as int + 2;
    assert(s.subrange(r0, r0 + rtpmap.len() as int) =~= rtpmap);
    assert(0 <= r0 && r0 + rtpmap.len() <= s.len() && s.subrange(r0, r0 + rtpmap.len()) == rtpmap);
    assert(s.skip(s.len() as int - tail.len() as int) =~= tail);
}

} // verus!

//! H.264 RTP packetization (RFC 6184).
//!
//! A frame arrives as an Annex-B byte stream: NAL units prefixed by
//! `00 00 00 01` or `00 00 01` start codes. Each NAL unit becomes either one
//! Single-NAL packet (when it fits in the MTU minus the RTP header) or a run
//! of FU-A fragments. All packets of one frame share one timestamp; the last
//! carries the marker bit.

use crate::num::{spec_dec_digits, u64_to_dec};
use crate::rtp::{
    lemma_rtp_header_fields, rtp_marker_of, rtp_seq_of, rtp_ssrc_of, rtp_ts_of,
    spec_rtp_header_bytes, RtpHeader,
};
use crate::sdp::Packetizer;
use vstd::prelude::*;
use vstd::slice::{slice_subrange, slice_to_vec};

verus! {

/// A three-byte start code `00 00 01` begins at `i`.
pub open spec fn sc3_at(s: Seq<u8>, i: int) -> bool {
    0 <= i && i + 3 <= s.len() && s[i] == 0 && s[i + 1] == 0 && s[i + 2] == 1
}

/// A four-byte start code `00 00 00 01` begins at `i`.
pub open spec fn sc4_at(s: Seq<u8>, i: int) -> bool {
    0 <= i && i + 4 <= s.len() && s[i] == 0 && s[i + 1] == 0 && s[i + 2] == 0 && s[i + 3] == 1
}

/// Either start code begins at `i`; four-byte codes take precedence.
pub open spec fn sc_at(s: Seq<u8>, i: int) -> bool {
    sc4_at(s, i) || sc3_at(s, i)
}

pub open spec fn sc_len(s: Seq<u8>, i: int) -> int {
    if sc4_at(s, i) {
        4
    } else {
        3
    }
}

/// The first start-code position at or after `i`, or `s.len()` when none.
pub open spec fn find_sc(s: Seq<u8>, i: int) -> int
    recommends
        0 <= i <= s.len(),
    decreases s.len() - i,
{
    if i + 3 > s.len() {
        s.len() as int
    } else if sc_at(s, i) {
        i
    } else {
        find_sc(s, i + 1)
    }
}

pub proof fn lemma_find_sc(s: Seq<u8>, i: int)
    requires
        0 <= i <= s.len(),
    ensures
        i <= find_sc(s, i) <= s.len(),
        find_sc(s, i) < s.len() ==> sc_at(s, find_sc(s, i)),
        forall|k: int| i <= k < find_sc(s, i) ==> !sc_at(s, k),
    decreases s.len() - i,
{
    if i + 3 > s.len() {
        assert forall|k: int| i <= k < s.len() implies !sc_at(s, k) by {
            assert(k + 3 > s.len());
        }
    } else if sc_at(s, i) {
    } else {
        lemma_find_sc(s, i + 1);
    }
}

/// The NAL units found scanning from `i`: the bytes between one start code
/// and the next (or the end of input); empty stretches are dropped.
pub open spec fn spec_nals_from(s: Seq<u8>, i: int) -> Seq<Seq<u8>>
    recommends
        0 <= i <= s.len(),
    decreases s.len() - i,
    via spec_nals_from_decreases
{
    let j = find_sc(s, i);
    if i < 0 || j >= s.len() {
        seq![]
    } else {
        let d = j + sc_len(s, j);
        let k = find_sc(s, d);
        let nal = s.subrange(d, k);
        if nal.len() > 0 {
            seq![nal] + spec_nals_from(s, k)
        } else {
            spec_nals_from(s, k)
        }
    }
}

#[via_fn]
proof fn spec_nals_from_decreases(s: Seq<u8>, i: int) {
    if 0 <= i <= s.len() {
        lemma_find_sc(s, i);
        let j = find_sc(s, i);
        if j < s.len() {
            assert(sc_at(s, j));
            assert(j + sc_len(s, j) <= s.len());
            lemma_find_sc(s, j + sc_len(s, j));
        }
    }
}

/// The ordered NAL units of an Annex-B stream, start codes stripped.
pub open spec fn spec_nal_units(s: Seq<u8>) -> Seq<Seq<u8>> {
    spec_nals_from(s, 0)
}

/// The FU indicator byte: forbidden bit and NRI from the NAL header, type 28.
pub open spec fn fu_indicator(h: u8) -> u8 {
    (h & 0x80) | (h & 0x60) | 28
}

/// The FU header byte: start and end flags plus the original NAL type.
pub open spec fn fu_header(h: u8, start: bool, end: bool) -> u8 {
    (if start {
        0x80u8
    } else {
        0u8
    }) | (if end {
        0x40u8
    } else {
        0u8
    }) | (h & 0x1f)
}

/// The FU-A payloads for the body of a NAL unit with header byte `h`,
/// sliced into chunks of at most `chunk` bytes, each prefixed by the FU
/// indicator and FU header.
pub open spec fn spec_fua_payloads(h: u8, body: Seq<u8>, chunk: int, first: bool) -> Seq<Seq<u8>>
    decreases body.len(),
{
    if body.len() <= chunk || chunk < 1 {
        seq![seq![fu_indicator(h), fu_header(h, first, true)] + body]
    } else {
        seq![seq![fu_indicator(h), fu_header(h, first, false)] + body.take(chunk)]
            + spec_fua_payloads(h, body.skip(chunk), chunk, false)
    }
}

/// The RTP payloads for one NAL unit: the unit itself when it fits in
/// `mtu - 12`, else its FU-A fragments with chunks of `mtu - 14`.
pub open spec fn spec_nal_payloads(nal: Seq<u8>, mtu: int) -> Seq<Seq<u8>>
    recommends
        nal.len() >= 1,
{
    if nal.len() <= mtu - 12 {
        seq![nal]
    } else {
        spec_fua_payloads(nal[0], nal.skip(1), mtu - 14, true)
    }
}

/// The RTP payloads for a whole frame, NAL by NAL, in order.
pub open spec fn spec_frame_payloads(nals: Seq<Seq<u8>>, mtu: int) -> Seq<Seq<u8>>
    decreases nals.len(),
{
    if nals.len() == 0 {
        seq![]
    } else {
        spec_nal_payloads(nals[0], mtu) + spec_frame_payloads(nals.skip(1), mtu)
    }
}

pub proof fn lemma_fua_payloads_len_pos(h: u8, body: Seq<u8>, chunk: int, first: bool)
    ensures
        spec_fua_payloads(h, body, chunk, first).len() >= 1,
    decreases body.len(),
{
    if body.len() <= chunk || chunk < 1 {
    } else {
        lemma_fua_payloads_len_pos(h, body.skip(chunk), chunk, false);
    }
}

pub proof fn lemma_nal_payloads_len_pos(nal: Seq<u8>, mtu: int)
    ensures
        spec_nal_payloads(nal, mtu).len() >= 1,
{
    if nal.len() <= mtu - 12 {
    } else {
        lemma_fua_payloads_len_pos(nal[0], nal.skip(1), mtu - 14, true);
    }
}

/// Tests whether a start code begins at `j`, as [`sc_at`] describes.
fn sc_at_exec(frame: &[u8], j: usize) -> (r: bool)
    ensures
        r == sc_at(frame@, j as int),
{
    let n = frame.len();
    if j < n && n - j >= 3 && *slice_index_get_ref(frame, j) == 0 && *slice_index_get_ref(
        frame,
        j + 1,
    ) == 0 {
        if *slice_index_get_ref(frame, j + 2) == 1 {
            true
        } else if n - j >= 4 && *slice_index_get_ref(frame, j + 2) == 0 && *slice_index_get_ref(
            frame,
            j + 3,
        ) == 1 {
            true
        } else {
            false
        }
    } else {
        false
    }
}

fn slice_index_get_ref<'a>(s: &'a [u8], i: usize) -> (out: &'a u8)
    requires
        0 <= i < s@.len(),
    ensures
        *out == s@[i as int],
{
    vstd::slice::slice_index_get(s, i)
}

/// Finds the next start code at or after `i`, as [`find_sc`] describes.
fn find_sc_exec(frame: &[u8], i: usize) -> (r: usize)
    requires
        i <= frame@.len(),
    ensures
        r == find_sc(frame@, i as int),
        i <= r <= frame@.len(),
    {
    let n = frame.len();
    let mut j: usize = i;
    while n - j >= 3 && !sc_at_exec(frame, j)
        invariant
            i <= j <= n,
            n == frame@.len(),
            forall|k: int| i <= k < j ==> !sc_at(frame@, k),
        decreases n - j,
    {
        j += 1;
    }
    proof {
        lemma_find_sc_is(frame@, i as int, j as int);
    }
    if n - j < 3 {
        n
    } else {
        j
    }
}

proof fn lemma_find_sc_is(s: Seq<u8>, i: int, m: int)
    requires
        0 <= i <= m,
        m + 3 > s.len() || sc_at(s, m),
        m <= s.len() + 1,
        forall|k: int| i <= k < m ==> !sc_at(s, k),
    ensures
        find_sc(s, i) == if m + 3 > s.len() {
            s.len() as int
        } else {
            m
        },
    decreases m - i,
{
    if i + 3 > s.len() {
    } else if sc_at(s, i) {
        assert(i == m);
    } else {
        lemma_find_sc_is(s, i + 1, m);
    }
}

/// Extracts the NAL units of an Annex-B stream, as [`spec_nal_units`]
/// describes.
pub fn extract_nals(frame: &[u8]) -> (r: Vec<Vec<u8>>)
    ensures
        r@.map_values(|n: Vec<u8>| n@) == spec_nal_units(frame@),
{
    let ghost fv = frame@;
    let n = frame.len();
    let mut nals: Vec<Vec<u8>> = Vec::new();
    let mut p: usize = find_sc_exec(frame, 0);
    proof {
        lemma_find_sc(fv, 0);
        lemma_nals_from_at_sc(fv, 0);
        if (p as int) < fv.len() {
            lemma_find_sc_is(fv, p as int, p as int);
        }
        assert(nals@.map_values(|x: Vec<u8>| x@) =~= Seq::<Seq<u8>>::empty());
        assert(Seq::<Seq<u8>>::empty() + spec_nals_from(fv, p as int) =~= spec_nals_from(
            fv,
            p as int,
        ));
    }
    while p < n
        invariant
            p <= n,
            n == fv.len(),
            fv == frame@,
            find_sc(fv, p as int) == p,
            spec_nal_units(fv) == nals@.map_values(|x: Vec<u8>| x@) + spec_nals_from(fv, p as int),
        decreases n - p,
    {
        proof {
            lemma_find_sc(fv, p as int);
            assert(sc_at(fv, p as int));
        }
        let sl: usize = if sc_at4_exec(frame, p) {
            4
        } else {
            3
        };
        let d = p + sl;
        let k = find_sc_exec(frame, d);
        proof {
            lemma_find_sc(fv, d as int);
            if (k as int) < fv.len() {
                lemma_find_sc_is(fv, k as int, k as int);
            }
            assert(sl == sc_len(fv, p as int));
        }
        if k > d {
            let nal = slice_to_vec(slice_subrange(frame, d, k));
            let ghost old_nals = nals@;
            nals.push(nal);
            proof {
                let nal_s = fv.subrange(d as int, k as int);
                assert(spec_nals_from(fv, p as int) =~= seq![nal_s] + spec_nals_from(fv, k as int));
                assert(nals@.map_values(|x: Vec<u8>| x@) =~= old_nals.map_values(|x: Vec<u8>| x@)
                    + seq![nal_s]);
                let a = old_nals.map_values(|x: Vec<u8>| x@);
                assert((a + seq![nal_s]) + spec_nals_from(fv, k as int) =~= a + (seq![nal_s]
                    + spec_nals_from(fv, k as int)));
            }
        } else {
            proof {
                assert(fv.subrange(d as int, k as int).len() == 0);
                assert(spec_nals_from(fv, p as int) =~= spec_nals_from(fv, k as int));
            }
        }
        p = k;
    }
    proof {
        assert(spec_nals_from(fv, p as int) =~= Seq::<Seq<u8>>::empty());
        assert(spec_nal_units(fv) =~= nals@.map_values(|x: Vec<u8>| x@));
    }
    nals
}

/// After scanning to position `k` (itself a start-code position or the
/// end), the remaining NAL units are those from `find_sc(s, k)`.
proof fn lemma_nals_from_at_sc(s: Seq<u8>, k: int)
    requires
        0 <= k <= s.len(),
    ensures
        spec_nals_from(s, k) == spec_nals_from(s, find_sc(s, k)),
{
    lemma_find_sc(s, k);
    let j = find_sc(s, k);
    if j >= s.len() {
        assert(spec_nals_from(s, k) =~= Seq::<Seq<u8>>::empty());
        assert(spec_nals_from(s, j) =~= Seq::<Seq<u8>>::empty());
    } else {
        assert(find_sc(s, j) == j) by {
            lemma_find_sc_is(s, j, j);
        }
    }
}

/// Tests whether a four-byte start code begins at `j`.
fn sc_at4_exec(frame: &[u8], j: usize) -> (r: bool)
    ensures
        r == sc4_at(frame@, j as int),
{
    let n = frame.len();
    j < n && n - j >= 4 && *slice_index_get_ref(frame, j) == 0 && *slice_index_get_ref(frame, j + 1)
        == 0 && *slice_index_get_ref(frame, j + 2) == 0 && *slice_index_get_ref(frame, j + 3) == 1
}


pub proof fn lemma_frame_payloads_len_pos(nals: Seq<Seq<u8>>, mtu: int)
    requires
        nals.len() > 0,
    ensures
        spec_frame_payloads(nals, mtu).len() > 0,
{
    lemma_nal_payloads_len_pos(nals[0], mtu);
}

/// What `packetize` does when the frame holds at least one NAL unit: the
/// timestamp advances once by the increment, the sequence number advances by
/// the packet count (wrapping), and packet `i` is the 12-byte RTP header for
/// sequence `seq + i` (marker on the last packet only) followed by payload
/// `i` of the frame.
pub open spec fn packetize_post(
    pre: H264Packetizer,
    post: H264Packetizer,
    frame: Seq<u8>,
    inc: u32,
    pkts: Seq<Seq<u8>>,
) -> bool {
    let pls = spec_frame_payloads(spec_nal_units(frame), pre.mtu as int);
    let ts = ((pre.header.timestamp + inc) % 0x10000000000000000int) as u64;
    &&& post.header.timestamp == ts
    &&& post.header.sequence == ((pre.header.sequence + pls.len()) % 0x10000) as u16
    &&& pkts.len() == pls.len()
    &&& forall|i: int|
        0 <= i < pls.len() ==> #[trigger] pkts[i] == spec_rtp_header_bytes(
            pre.header.pt,
            i == pls.len() - 1,
            ((pre.header.sequence + i) % 0x10000) as u16,
            ts as u32,
            pre.header.ssrc,
        ) + pls[i]
}

/// H.264 packetizer: an RTP header state plus the MTU that decides between
/// Single-NAL and FU-A packetization.
pub struct H264Packetizer {
    pub header: RtpHeader,
    pub mtu: usize,
}

impl H264Packetizer {
    /// The payload type fits seven bits and the MTU leaves room for the RTP
    /// header and the FU prefix.
    pub open spec fn wf(&self) -> bool {
        self.header.wf() && self.mtu >= 32
    }

    pub fn new(pt: u8, ssrc: u32) -> (r: Self)
        requires
            pt < 128,
        ensures
            r.header.pt == pt,
            r.header.ssrc == ssrc,
            r.header.sequence == 0,
            r.header.timestamp == 0,
            r.mtu == 1400,
            r.wf(),
    {
        H264Packetizer { header: RtpHeader::new(pt, ssrc), mtu: 1400 }
    }

    /// Create with a random SSRC (RFC 3550 section 8.1).
    pub fn with_random_ssrc(pt: u8) -> (r: Self)
        requires
            pt < 128,
        ensures
            r.header.pt == pt,
            r.header.sequence == 0,
            r.header.timestamp == 0,
            r.mtu == 1400,
            r.wf(),
    {
        H264Packetizer { header: RtpHeader::with_random_ssrc(pt), mtu: 1400 }
    }

    /// Packetizes one Annex-B frame into complete RTP datagrams.
    ///
    /// A frame with no NAL units yields no packets and leaves the header
    /// state untouched; otherwise [`packetize_post`] pins every byte of the
    /// result.
    pub fn packetize(&mut self, frame: &[u8], timestamp_increment: u32) -> (r: Vec<Vec<u8>>)
        requires
            old(self).wf(),
        ensures
            final(self).wf(),
            final(self).header.pt == old(self).header.pt,
            final(self).header.ssrc == old(self).header.ssrc,
            final(self).mtu == old(self).mtu,
            spec_nal_units(frame@).len() == 0 ==> r@.len() == 0 && *final(self) == *old(self),
            spec_nal_units(frame@).len() > 0 ==> packetize_post(
                *old(self),
                *final(self),
                frame@,
                timestamp_increment,
                r@.map_values(|p: Vec<u8>| p@),
            ),
    {
        let nals = extract_nals(frame);
        if nals.len() == 0 {
            let r: Vec<Vec<u8>> = Vec::new();
            return r;
        }
        let ghost pre = *old(self);
        self.header.advance_timestamp(timestamp_increment);
        let ghost ts = self.header.timestamp;
        let ghost nv = nals@.map_values(|x: Vec<u8>| x@);
        let ghost pls = spec_frame_payloads(nv, pre.mtu as int);
        let ghost seq0 = pre.header.sequence;
        let mut out: Vec<Vec<u8>> = Vec::new();
        let mut ni: usize = 0;
        proof {
            assert(nv.skip(0) =~= nv);
            assert(pls.skip(0) =~= pls);
        }
        while ni < nals.len()
            invariant
                ni <= nals@.len(),
                nv == nals@.map_values(|x: Vec<u8>| x@),
                nv.len() == nals@.len(),
                nv.len() > 0,
                pre.wf(),
                pls == spec_frame_payloads(nv, pre.mtu as int),
                self.mtu == pre.mtu,
                self.header.pt == pre.header.pt,
                self.header.ssrc == pre.header.ssrc,
                self.header.timestamp == ts,
                ts == ((pre.header.timestamp + timestamp_increment) % 0x10000000000000000int) as u64,
                seq0 == pre.header.sequence,
                out@.len() <= pls.len(),
                pls.skip(out@.len() as int) == spec_frame_payloads(nv.skip(ni as int), pre.mtu as int),
                self.header.sequence == ((seq0 + out@.len()) % 0x10000) as u16,
                forall|i: int|
                    0 <= i < out@.len() ==> (#[trigger] out@[i])@ == spec_rtp_header_bytes(
                        pre.header.pt,
                        i == pls.len() - 1,
                        ((seq0 + i) % 0x10000) as u16,
                        ts as u32,
                        pre.header.ssrc,
                    ) + pls[i],
            decreases nals@.len() - ni,
        {
            let nal = &nals[ni];
            let ghost c = out@.len() as int;
            let ghost rest_nals = spec_frame_payloads(nv.skip(ni + 1), pre.mtu as int);
            proof {
                assert(nal@ == nv[ni as int]);
                assert(nv.skip(ni as int)[0] == nv[ni as int]);
                assert(nv.skip(ni as int).skip(1) =~= nv.skip(ni + 1));
                assert(spec_frame_payloads(nv.skip(ni as int), pre.mtu as int)
                    =~= spec_nal_payloads(nv[ni as int], pre.mtu as int) + rest_nals);
                if ni + 1 < nv.len() {
                    lemma_frame_payloads_len_pos(nv.skip(ni + 1), pre.mtu as int);
                } else {
                    assert(nv.skip(ni + 1) =~= Seq::<Seq<u8>>::empty());
                    assert(rest_nals =~= Seq::<Seq<u8>>::empty());
                }
            }
            if nal.len() <= self.mtu - 12 {
                let marker = ni == nals.len() - 1;
                proof {
                    assert(spec_nal_payloads(nv[ni as int], pre.mtu as int) =~= seq![nv[ni as int]]);
                    assert(pls.skip(c) =~= seq![nv[ni as int]] + rest_nals);
                    assert(pls.skip(c).len() == pls.len() - c);
                    assert(pls.len() - c == 1 + rest_nals.len());
                    assert(pls.skip(c)[0] == pls[c]);
                    assert((seq![nv[ni as int]] + rest_nals)[0] == nv[ni as int]);
                    assert(pls[c] == nv[ni as int]);
                    assert(marker == (c == pls.len() - 1));
                }
                let mut pkt = self.header.write(marker);
                let ghost hdr = pkt@;
                let mut b: usize = 0;
                while b < nal.len()
                    invariant
                        b <= nal@.len(),
                        pkt@ == hdr + nal@.take(b as int),
                    decreases nal@.len() - b,
                {
                    pkt.push(nal[b]);
                    proof {
                        assert(hdr + nal@.take(b as int) + seq![nal@[b as int]] =~= hdr + nal@.take(
                            b + 1,
                        ));
                    }
                    b += 1;
                }
                proof {
                    assert(nal@.take(nal@.len() as int) =~= nal@);
                }
                let ghost old_out = out@;
                out.push(pkt);
                proof {
                    vstd::arithmetic::div_mod::lemma_add_mod_noop(seq0 + c, 1, 0x10000);
                    assert(pkt@ =~= spec_rtp_header_bytes(
                        pre.header.pt,
                        c == pls.len() - 1,
                        ((seq0 + c) % 0x10000) as u16,
                        ts as u32,
                        pre.header.ssrc,
                    ) + pls[c]);
                    assert((pls.skip(c)).skip(1) =~= pls.skip(c + 1));
                    assert((seq![nv[ni as int]] + rest_nals).skip(1) =~= rest_nals);
                    assert(pls.skip(c + 1) =~= rest_nals);
                }
            } else {
                let h = *slice_vec_first(nal);
                let indicator = (h & 0x80) | (h & 0x60) | 28;
                let chunk = self.mtu - 14;
                let mut off: usize = 1;
                let mut first = true;
                proof {
                    assert(nv[ni as int].len() > pre.mtu - 12);
                    assert(spec_nal_payloads(nv[ni as int], pre.mtu as int) == spec_fua_payloads(
                        h,
                        nv[ni as int].skip(1),
                        pre.mtu - 14,
                        true,
                    ));
                }
                loop
                    invariant_except_break
                        1 <= off < nal@.len(),
                        pls.skip(out@.len() as int) == spec_fua_payloads(
                            h,
                            nal@.skip(off as int),
                            chunk as int,
                            first,
                        ) + rest_nals,
                    invariant
                        nal@ == nv[ni as int],
                        nv.len() == nals@.len(),
                        ni < nv.len(),
                        pre.wf(),
                        chunk == pre.mtu - 14,
                        chunk >= 18,
                        nal@.len() > pre.mtu - 12,
                        self.mtu == pre.mtu,
                        self.header.pt == pre.header.pt,
                        self.header.ssrc == pre.header.ssrc,
                        self.header.timestamp == ts,
                        seq0 == pre.header.sequence,
                        h == nal@[0],
                        indicator == fu_indicator(h),
                        rest_nals == spec_frame_payloads(nv.skip(ni + 1), pre.mtu as int),
                        rest_nals.len() > 0 <==> ni + 1 < nv.len(),
                        out@.len() <= pls.len(),
                        off <= nal@.len(),
                        self.header.sequence == ((seq0 + out@.len()) % 0x10000) as u16,
                        forall|i: int|
                            0 <= i < out@.len() ==> (#[trigger] out@[i])@ == spec_rtp_header_bytes(
                                pre.header.pt,
                                i == pls.len() - 1,
                                ((seq0 + i) % 0x10000) as u16,
                                ts as u32,
                                pre.header.ssrc,
                            ) + pls[i],
                    ensures
                        pls.skip(out@.len() as int) == rest_nals,
                        out@.len() <= pls.len(),
                        self.mtu == pre.mtu,
                        self.header.pt == pre.header.pt,
                        self.header.ssrc == pre.header.ssrc,
                        self.header.timestamp == ts,
                        self.header.sequence == ((seq0 + out@.len()) % 0x10000) as u16,
                        forall|i: int|
                            0 <= i < out@.len() ==> (#[trigger] out@[i])@ == spec_rtp_header_bytes(
                                pre.header.pt,
                                i == pls.len() - 1,
                                ((seq0 + i) % 0x10000) as u16,
                                ts as u32,
                                pre.header.ssrc,
                            ) + pls[i],
                    decreases nal@.len() - off,
                {
                    let ghost cc = out@.len() as int;
                    let rem = nal.len() - off;
                    let is_end = rem <= chunk;
                    let take_n = if is_end {
                        rem
                    } else {
                        chunk
                    };
                    let marker = is_end && ni == nals.len() - 1;
                    let ghost fua_rest = spec_fua_payloads(h, nal@.skip(off as int), chunk as int, first);
                    proof {
                        lemma_fua_payloads_len_pos(h, nal@.skip(off as int), chunk as int, first);
                        if is_end {
                            assert(nal@.skip(off as int).len() <= chunk);
                            assert(fua_rest =~= seq![
                                seq![fu_indicator(h), fu_header(h, first, true)] + nal@.skip(
                                    off as int,
                                ),
                            ]);
                        } else {
                            assert(fua_rest =~= seq![
                                seq![fu_indicator(h), fu_header(h, first, false)] + nal@.skip(
                                    off as int,
                                ).take(chunk as int),
                            ] + spec_fua_payloads(
                                h,
                                nal@.skip(off as int).skip(chunk as int),
                                chunk as int,
                                false,
                            ));
                        }
                        assert(pls.skip(cc).len() == pls.len() - cc);
                        assert(pls.len() - cc == fua_rest.len() + rest_nals.len());
                        assert(pls.skip(cc)[0] == pls[cc]);
                        assert((fua_rest + rest_nals)[0] == fua_rest[0]);
                        assert(marker == (cc == pls.len() - 1));
                    }
                    let mut pkt = self.header.write(marker);
                    pkt.push(indicator);
                    let fh = (if first {
                        0x80u8
                    } else {
                        0u8
                    }) | (if is_end {
                        0x40u8
                    } else {
                        0u8
                    }) | (h & 0x1f);
                    pkt.push(fh);
                    let ghost hdr2 = pkt@;
                    assert(off + take_n <= nal@.len());
                    let hi = off + take_n;
                    let mut b: usize = off;
                    while b < hi
                        invariant
                            off <= b <= hi,
                            hi == off + take_n,
                            hi <= nal@.len(),
                            pkt@ == hdr2 + nal@.subrange(off as int, b as int),
                        decreases hi - b,
                    {
                        pkt.push(*slice_vec_get(nal, b));
                        proof {
                            assert(hdr2 + nal@.subrange(off as int, b as int) + seq![
                                nal@[b as int],
                            ] =~= hdr2 + nal@.subrange(off as int, b + 1));
                        }
                        b += 1;
                    }
                    let ghost old_out = out@;
                    out.push(pkt);
                    proof {
                        vstd::arithmetic::div_mod::lemma_add_mod_noop(seq0 + cc, 1, 0x10000);
                        let cur = if is_end {
                            seq![fu_indicator(h), fu_header(h, first, true)] + nal@.skip(off as int)
                        } else {
                            seq![fu_indicator(h), fu_header(h, first, false)] + nal@.skip(
                                off as int,
                            ).take(chunk as int)
                        };
                        assert(fh == fu_header(h, first, is_end));
                        if is_end {
                            assert(nal@.subrange(off as int, off + take_n) =~= nal@.skip(
                                off as int,
                            ));
                        } else {
                            assert(nal@.subrange(off as int, off + take_n) =~= nal@.skip(
                                off as int,
                            ).take(chunk as int));
                        }
                        assert(seq![indicator, fh] + nal@.subrange(off as int, (off + take_n) as int)
                            =~= cur);
                        assert(pkt@ =~= spec_rtp_header_bytes(
                            pre.header.pt,
                            cc == pls.len() - 1,
                            ((seq0 + cc) % 0x10000) as u16,
                            ts as u32,
                            pre.header.ssrc,
                        ) + cur);
                        assert(pls[cc] == cur);
                        assert(pls.skip(cc).skip(1) =~= pls.skip(cc + 1));
                        if is_end {
                            assert((fua_rest + rest_nals).skip(1) =~= rest_nals);
                        } else {
                            assert(nal@.skip(off as int).skip(chunk as int) =~= nal@.skip(
                                off + chunk,
                            ));
                            assert((fua_rest + rest_nals).skip(1) =~= spec_fua_payloads(
                                h,
                                nal@.skip(off + chunk),
                                chunk as int,
                                false,
                            ) + rest_nals);
                        }
                    }
                    if is_end {
                        break ;
                    }
                    off += chunk;
                    first = false;
                }
            }
            proof {
                assert(pls.skip(out@.len() as int) =~= spec_frame_payloads(
                    nv.skip(ni + 1),
                    pre.mtu as int,
                ));
            }
            ni += 1;
        }
        proof {
            assert(nv.skip(nv.len() as int) =~= Seq::<Seq<u8>>::empty());
            assert(spec_frame_payloads(Seq::<Seq<u8>>::empty(), pre.mtu as int)
                =~= Seq::<Seq<u8>>::empty());
            assert(pls.skip(out@.len() as int).len() == 0);
            assert(out@.len() == pls.len());
            assert forall|i: int| 0 <= i < pls.len() implies #[trigger] packet_bytes_at(out@, i)
                == spec_rtp_header_bytes(
                pre.header.pt,
                i == pls.len() - 1,
                ((seq0 + i) % 0x10000) as u16,
                ts as u32,
                pre.header.ssrc,
            ) + pls[i] by {
                assert((out@[i])@ == packet_bytes_at(out@, i));
            }
            assert(out@.map_values(|p: Vec<u8>| p@).len() == pls.len());
            assert forall|i: int| 0 <= i < pls.len() implies out@.map_values(|p: Vec<u8>| p@)[i]
                == packet_bytes_at(out@, i) by {}
        }
        out
    }
}


impl Packetizer for H264Packetizer {
    open spec fn spec_payload_type(&self) -> u8 {
        self.header.pt
    }

    open spec fn spec_clock_rate(&self) -> u32 {
        90000
    }

    open spec fn spec_codec_name(&self) -> Seq<char> {
        "H264"@
    }

    open spec fn spec_sdp_attributes(&self) -> Seq<Seq<char>> {
        seq!["fmtp:"@ + spec_dec_digits(self.header.pt as int) + " packetization-mode=1"@]
    }

    fn payload_type(&self) -> (r: u8) {
        self.header.pt
    }

    fn clock_rate(&self) -> (r: u32) {
        90000
    }

    fn codec_name(&self) -> (r: String) {
        String::from_str("H264")
    }

    fn sdp_attributes(&self) -> (r: Vec<String>) {
        let mut a = String::from_str("fmtp:");
        a.append(u64_to_dec(self.header.pt as u64).as_str());
        a.append(" packetization-mode=1");
        let ghost av = a@;
        let mut v: Vec<String> = Vec::new();
        v.push(a);
        proof {
            assert(av =~= "fmtp:"@ + spec_dec_digits(self.header.pt as int)
                + " packetization-mode=1"@);
            assert(v@.map_values(|x: String| x@) =~= seq![av]);
        }
        v
    }
}


/// Concatenation of a packet list's payloads.
pub open spec fn concat_seqs(pls: Seq<Seq<u8>>) -> Seq<u8>
    decreases pls.len(),
{
    if pls.len() == 0 {
        Seq::<u8>::empty()
    } else {
        pls[0] + concat_seqs(pls.skip(1))
    }
}

/// Concatenation of FU-A fragment bodies: each payload with its two-byte
/// FU prefix removed.
pub open spec fn concat_fragment_bodies(pls: Seq<Seq<u8>>) -> Seq<u8>
    decreases pls.len(),
{
    if pls.len() == 0 {
        Seq::<u8>::empty()
    } else {
        pls[0].skip(2) + concat_fragment_bodies(pls.skip(1))
    }
}

/// A Single-NAL unit that fits below the MTU travels as exactly one packet
/// whose payload is the NAL unit verbatim, so the concatenation of the RTP
/// payloads equals the NAL unit.
pub proof fn lemma_single_nal_payload(nal: Seq<u8>, mtu: int)
    requires
        nal.len() <= mtu - 12,
    ensures
        spec_nal_payloads(nal, mtu) == seq![nal],
        concat_seqs(spec_nal_payloads(nal, mtu)) == nal,
{
    assert(spec_nal_payloads(nal, mtu) =~= seq![nal]);
    assert(seq![nal].skip(1) =~= Seq::<Seq<u8>>::empty());
    assert(concat_seqs(Seq::<Seq<u8>>::empty()) == Seq::<u8>::empty());
    assert(seq![nal][0] == nal);
    assert(concat_seqs(seq![nal]) =~= nal + Seq::<u8>::empty());
    assert(concat_seqs(spec_nal_payloads(nal, mtu)) =~= nal);
}

proof fn lemma_fua_reassembly_gen(h: u8, body: Seq<u8>, chunk: int, first: bool)
    requires
        chunk >= 1,
    ensures
        ({
            let pls = spec_fua_payloads(h, body, chunk, first);
            &&& concat_fragment_bodies(pls) == body
            &&& forall|i: int| 0 <= i < pls.len() ==> (#[trigger] pls[i]).len() >= 2
            &&& forall|i: int| 0 <= i < pls.len() ==> (#[trigger] pls[i])[0] == fu_indicator(h)
            &&& forall|i: int|
                0 <= i < pls.len() ==> (((#[trigger] pls[i])[1] & 0x80 == 0x80) <==> (first && i
                    == 0))
            &&& forall|i: int|
                0 <= i < pls.len() ==> (((#[trigger] pls[i])[1] & 0x40 == 0x40) <==> i == pls.len()
                    - 1)
            &&& forall|i: int|
                0 <= i < pls.len() ==> ((#[trigger] pls[i])[0] & 0xe0) | (pls[i][1] & 0x1f) == h
        }),
    decreases body.len(),
{
    let pls = spec_fua_payloads(h, body, chunk, first);
    assert forall|s: bool, e: bool| (fu_header(h, s, e) & 0x80 == 0x80) == s && (fu_header(h, s, e)
        & 0x40 == 0x40) == e && (fu_indicator(h) & 0xe0) | (fu_header(h, s, e) & 0x1f) == h by {
        let fh = (if s {
            0x80u8
        } else {
            0u8
        }) | (if e {
            0x40u8
        } else {
            0u8
        }) | (h & 0x1f);
        let ind = (h & 0x80) | (h & 0x60) | 28;
        if s {
            if e {
                assert((0x80u8 | 0x40u8 | (h & 0x1f)) & 0x80 == 0x80 && (0x80u8 | 0x40u8 | (h
                    & 0x1f)) & 0x40 == 0x40 && (((h & 0x80) | (h & 0x60) | 28) & 0xe0) | ((0x80u8
                    | 0x40u8 | (h & 0x1f)) & 0x1f) == h) by (bit_vector);
            } else {
                assert((0x80u8 | 0u8 | (h & 0x1f)) & 0x80 == 0x80 && (0x80u8 | 0u8 | (h & 0x1f))
                    & 0x40 == 0 && (((h & 0x80) | (h & 0x60) | 28) & 0xe0) | ((0x80u8 | 0u8 | (h
                    & 0x1f)) & 0x1f) == h) by (bit_vector);
            }
        } else {
            if e {
                assert((0u8 | 0x40u8 | (h & 0x1f)) & 0x80 == 0 && (0u8 | 0x40u8 | (h & 0x1f))
                    & 0x40 == 0x40 && (((h & 0x80) | (h & 0x60) | 28) & 0xe0) | ((0u8 | 0x40u8 | (h
                    & 0x1f)) & 0x1f) == h) by (bit_vector);
            } else {
                assert((0u8 | 0u8 | (h & 0x1f)) & 0x80 == 0 && (0u8 | 0u8 | (h & 0x1f)) & 0x40 == 0
                    && (((h & 0x80) | (h & 0x60) | 28) & 0xe0) | ((0u8 | 0u8 | (h & 0x1f)) & 0x1f)
                    == h) by (bit_vector);
            }
        }
    }
    if body.len() <= chunk {
        let head = seq![fu_indicator(h), fu_header(h, first, true)] + body;
        assert(pls =~= seq![head]);
        assert(pls.skip(1) =~= Seq::<Seq<u8>>::empty());
        assert(concat_fragment_bodies(Seq::<Seq<u8>>::empty()) == Seq::<u8>::empty());
        assert(head.skip(2) =~= body);
        assert(concat_fragment_bodies(pls) =~= body);
        assert(head[0] == fu_indicator(h));
        assert(head[1] == fu_header(h, first, true));
    } else {
        lemma_fua_reassembly_gen(h, body.skip(chunk), chunk, false);
        let head = seq![fu_indicator(h), fu_header(h, first, false)] + body.take(chunk);
        let rest = spec_fua_payloads(h, body.skip(chunk), chunk, false);
        assert(pls =~= seq![head] + rest);
        assert(pls.skip(1) =~= rest);
        assert(pls[0] == head);
        assert(head.skip(2) =~= body.take(chunk));
        assert(concat_fragment_bodies(pls) == head.skip(2) + concat_fragment_bodies(rest));
        assert(concat_fragment_bodies(pls) =~= body.take(chunk) + body.skip(chunk));
        assert(body.take(chunk) + body.skip(chunk) =~= body);
        lemma_fua_payloads_len_pos(h, body.skip(chunk), chunk, false);
        assert forall|i: int| 0 <= i < pls.len() implies (#[trigger] pls[i]).len() >= 2 && pls[i][0]
            == fu_indicator(h) && ((pls[i][1] & 0x80 == 0x80) <==> (first && i == 0)) && ((
        pls[i][1] & 0x40 == 0x40) <==> i == pls.len() - 1) && ((pls[i][0] & 0xe0) | (pls[i][1]
            & 0x1f)) == h by {
            if i == 0 {
                assert(pls[0] == head);
                assert(head[0] == fu_indicator(h));
                assert(head[1] == fu_header(h, first, false));
            } else {
                assert(pls[i] == rest[i - 1]);
            }
        }
    }
}

/// FU-A fragmentation reassembles: the fragment bodies concatenate back to
/// the NAL body, the start bit is set on the first fragment only, the end
/// bit on the last only, and the indicator and FU header of any fragment
/// reconstruct the original NAL header byte.
pub proof fn lemma_fua_reassembly(h: u8, body: Seq<u8>, chunk: int)
    requires
        chunk >= 1,
    ensures
        ({
            let pls = spec_fua_payloads(h, body, chunk, true);
            &&& seq![h] + concat_fragment_bodies(pls) == seq![h] + body
            &&& forall|i: int| 0 <= i < pls.len() ==> (#[trigger] pls[i]).len() >= 2
            &&& forall|i: int| 0 <= i < pls.len() ==> (#[trigger] pls[i])[0] == fu_indicator(h)
            &&& forall|i: int|
                0 <= i < pls.len() ==> (((#[trigger] pls[i])[1] & 0x80 == 0x80) <==> i == 0)
            &&& forall|i: int|
                0 <= i < pls.len() ==> (((#[trigger] pls[i])[1] & 0x40 == 0x40) <==> i == pls.len()
                    - 1)
            &&& forall|i: int|
                0 <= i < pls.len() ==> ((#[trigger] pls[i])[0] & 0xe0) | (pls[i][1] & 0x1f) == h
        }),
{
    lemma_fua_reassembly_gen(h, body, chunk, true);
}

/// Within one frame's packet run, the sequence numbers on the wire are
/// consecutive modulo 2^16 starting at the stream's sequence number, the
/// SSRC and the timestamp are constant, and the marker bit is set on the
/// last packet alone.
pub proof fn lemma_packet_stream_invariants(
    pre: H264Packetizer,
    post: H264Packetizer,
    frame: Seq<u8>,
    inc: u32,
    pkts: Seq<Seq<u8>>,
)
    requires
        pre.wf(),
        packetize_post(pre, post, frame, inc, pkts),
    ensures
        ({
            let ts32 = (((pre.header.timestamp + inc) % 0x10000000000000000int) as u64) as u32;
            &&& forall|i: int|
                0 <= i < pkts.len() ==> rtp_seq_of(#[trigger] pkts[i]) == (pre.header.sequence + i)
                    % 0x10000
            &&& forall|i: int|
                0 <= i < pkts.len() - 1 ==> rtp_seq_of(#[trigger] pkts[i + 1]) == (rtp_seq_of(
                    pkts[i],
                ) + 1) % 0x10000
            &&& forall|i: int|
                0 <= i < pkts.len() ==> rtp_ssrc_of(#[trigger] pkts[i]) == pre.header.ssrc
            &&& forall|i: int| 0 <= i < pkts.len() ==> rtp_ts_of(#[trigger] pkts[i]) == ts32
            &&& forall|i: int|
                0 <= i < pkts.len() ==> (rtp_marker_of(#[trigger] pkts[i]) <==> i == pkts.len()
                    - 1)
        }),
{
    let pls = spec_frame_payloads(spec_nal_units(frame), pre.mtu as int);
    let ts32 = (((pre.header.timestamp + inc) % 0x10000000000000000int) as u64) as u32;
    assert forall|i: int| 0 <= i < pkts.len() implies rtp_seq_of(#[trigger] pkts[i]) == (
    pre.header.sequence + i) % 0x10000 && rtp_ssrc_of(pkts[i]) == pre.header.ssrc && rtp_ts_of(
        pkts[i],
    ) == ts32 && (rtp_marker_of(pkts[i]) <==> i == pkts.len() - 1) by {
        let sq = ((pre.header.sequence + i) % 0x10000) as u16;
        let hd = spec_rtp_header_bytes(pre.header.pt, i == pls.len() - 1, sq, ts32, pre.header.ssrc);
        lemma_rtp_header_fields(pre.header.pt, i == pls.len() - 1, sq, ts32, pre.header.ssrc);
        assert(pkts[i] == hd + pls[i]);
        assert(pkts[i][1] == hd[1]);
        assert(pkts[i][2] == hd[2]);
        assert(pkts[i][3] == hd[3]);
        assert(pkts[i][4] == hd[4]);
        assert(pkts[i][5] == hd[5]);
        assert(pkts[i][6] == hd[6]);
        assert(pkts[i][7] == hd[7]);
        assert(pkts[i][8] == hd[8]);
        assert(pkts[i][9] == hd[9]);
        assert(pkts[i][10] == hd[10]);
        assert(pkts[i][11] == hd[11]);
    }
    assert forall|i: int| 0 <= i < pkts.len() - 1 implies rtp_seq_of(#[trigger] pkts[i + 1]) == (
    rtp_seq_of(pkts[i]) + 1) % 0x10000 by {
        assert(rtp_seq_of(pkts[i]) == (pre.header.sequence + i) % 0x10000);
        assert(rtp_seq_of(pkts[i + 1]) == (pre.header.sequence + i + 1) % 0x10000);
        vstd::arithmetic::div_mod::lemma_add_mod_noop(pre.header.sequence + i, 1, 0x10000);
    }
}

/// The bytes of packet `i` in a packet list.
spec fn packet_bytes_at(pkts: Seq<Vec<u8>>, i: int) -> Seq<u8> {
    pkts[i]@
}

fn slice_vec_first(v: &Vec<u8>) -> (out: &u8)
    requires
        v@.len() > 0,
    ensures
        *out == v@[0],
{
    &v[0]
}

fn slice_vec_get(v: &Vec<u8>, i: usize) -> (out: &u8)
    requires
        i < v@.len(),
    ensures
        *out == v@[i as int],
{
    &v[i]
}


} // verus!

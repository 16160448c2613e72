//! RTP header construction (RFC 3550 section 5.1).
//!
//! One `RtpHeader` per packetizer instance carries the payload type, the
//! SSRC, the sequence number (16 bits, wrapping) and the timestamp (held as
//! 64 bits, emitted as its lower 32 bits).

use vstd::prelude::*;

verus! {

/// The twelve header bytes that `RtpHeader::write` emits for the given
/// payload type, marker bit, sequence number, (truncated) timestamp and SSRC.
pub open spec fn spec_rtp_header_bytes(pt: u8, marker: bool, seq: u16, ts: u32, ssrc: u32) -> Seq<
    u8,
> {
    seq![
        0x80u8,
        (if marker {
            (0x80u8 | pt)
        } else {
            pt
        }),
        (seq >> 8) as u8,
        (seq & 0xff) as u8,
        (ts >> 24) as u8,
        ((ts >> 16) & 0xff) as u8,
        ((ts >> 8) & 0xff) as u8,
        (ts & 0xff) as u8,
        (ssrc >> 24) as u8,
        ((ssrc >> 16) & 0xff) as u8,
        ((ssrc >> 8) & 0xff) as u8,
        (ssrc & 0xff) as u8,
    ]
}

/// Generic RTP header builder, shared by all codec packetizers.
pub struct RtpHeader {
    pub pt: u8,
    pub ssrc: u32,
    pub sequence: u16,
    pub timestamp: u64,
}

impl RtpHeader {
    /// The payload type occupies seven bits of the second header byte.
    pub open spec fn wf(&self) -> bool {
        self.pt < 128
    }

    pub fn new(pt: u8, ssrc: u32) -> (r: Self)
        requires
            pt < 128,
        ensures
            r.pt == pt,
            r.ssrc == ssrc,
            r.sequence == 0,
            r.timestamp == 0,
            r.wf(),
    {
        RtpHeader { pt, ssrc, sequence: 0, timestamp: 0 }
    }

    /// Create with a random SSRC (RFC 3550 section 8.1).
    pub fn with_random_ssrc(pt: u8) -> (r: Self)
        requires
            pt < 128,
        ensures
            r.pt == pt,
            r.sequence == 0,
            r.timestamp == 0,
            r.wf(),
    {
        let ssrc = random_u32();
        RtpHeader::new(pt, ssrc)
    }

    pub fn sequence(&self) -> (r: u16)
        ensures
            r == self.sequence,
    {
        self.sequence
    }

    pub fn timestamp(&self) -> (r: u64)
        ensures
            r == self.timestamp,
    {
        self.timestamp
    }

    /// Write a 12-byte RTP header and advance the sequence number, wrapping
    /// at 2^16. The timestamp is not advanced.
    pub fn write(&mut self, marker: bool) -> (r: Vec<u8>)
        requires
            old(self).wf(),
        ensures
            r@ == spec_rtp_header_bytes(
                old(self).pt,
                marker,
                old(self).sequence,
                old(self).timestamp as u32,
                old(self).ssrc,
            ),
            r@.len() == 12,
            final(self).sequence == (old(self).sequence + 1) % 0x10000,
            final(self).timestamp == old(self).timestamp,
            final(self).pt == old(self).pt,
            final(self).ssrc == old(self).ssrc,
    {
        let pt = self.pt;
        let seq = self.sequence;
        let ts = #[verifier::truncate] (self.timestamp as u32);
        let ssrc = self.ssrc;

        let mut header: Vec<u8> = Vec::new();
        header.push(0x80u8);
        header.push(if marker { 0x80u8 | pt } else { pt });
        assert(seq >> 8 < 256 && ts >> 24 < 256 && ssrc >> 24 < 256) by (bit_vector);
        header.push((seq >> 8) as u8);
        header.push((seq & 0xff) as u8);
        header.push((ts >> 24) as u8);
        header.push(((ts >> 16) & 0xff) as u8);
        header.push(((ts >> 8) & 0xff) as u8);
        header.push((ts & 0xff) as u8);
        header.push((ssrc >> 24) as u8);
        header.push(((ssrc >> 16) & 0xff) as u8);
        header.push(((ssrc >> 8) & 0xff) as u8);
        header.push((ssrc & 0xff) as u8);

        self.sequence = self.sequence.wrapping_add(1);
        assert(header@ =~= spec_rtp_header_bytes(pt, marker, seq, ts, ssrc));
        header
    }

    /// Advance the timestamp by the given increment (typically clock rate
    /// divided by the frame rate), wrapping at 2^64.
    pub fn advance_timestamp(&mut self, increment: u32)
        ensures
            final(self).timestamp == (old(self).timestamp + increment) % (0x10000000000000000int),
            final(self).sequence == old(self).sequence,
            final(self).pt == old(self).pt,
            final(self).ssrc == old(self).ssrc,
    {
        self.timestamp = self.timestamp.wrapping_add(increment as u64);
    }
}


/// The sequence number carried in an RTP packet's header bytes.
pub open spec fn rtp_seq_of(p: Seq<u8>) -> int {
    (p[2] as int) * 256 + (p[3] as int)
}

/// The timestamp carried in an RTP packet's header bytes.
pub open spec fn rtp_ts_of(p: Seq<u8>) -> int {
    (p[4] as int) * 0x1000000 + (p[5] as int) * 0x10000 + (p[6] as int) * 256 + (p[7] as int)
}

/// The SSRC carried in an RTP packet's header bytes.
pub open spec fn rtp_ssrc_of(p: Seq<u8>) -> int {
    (p[8] as int) * 0x1000000 + (p[9] as int) * 0x10000 + (p[10] as int) * 256 + (p[11] as int)
}

/// The marker bit of an RTP packet.
pub open spec fn rtp_marker_of(p: Seq<u8>) -> bool {
    p[1] & 0x80 == 0x80
}

/// Reading the emitted header bytes back gives the fields they were built
/// from: version 2, the payload type, marker, sequence number, timestamp
/// and SSRC.
pub proof fn lemma_rtp_header_fields(pt: u8, marker: bool, seq: u16, ts: u32, ssrc: u32)
    requires
        pt < 128,
    ensures
        ({
            let h = spec_rtp_header_bytes(pt, marker, seq, ts, ssrc);
            &&& rtp_seq_of(h) == seq
            &&& rtp_ts_of(h) == ts
            &&& rtp_ssrc_of(h) == ssrc
            &&& rtp_marker_of(h) == marker
            &&& h[1] & 0x7f == pt
            &&& h[0] >> 6 == 2
            &&& h.len() == 12
        }),
{
    let h = spec_rtp_header_bytes(pt, marker, seq, ts, ssrc);
    assert(seq >> 8 < 256 && seq & 0xff < 256) by (bit_vector);
    assert(seq == (seq >> 8) * 256 + (seq & 0xff)) by (bit_vector);
    assert(ts >> 24 < 256 && (ts >> 16) & 0xff < 256 && (ts >> 8) & 0xff < 256 && ts & 0xff < 256)
        by (bit_vector);
    assert(ts == (ts >> 24) * 0x1000000 + ((ts >> 16) & 0xff) * 0x10000 + ((ts >> 8) & 0xff) * 256
        + (ts & 0xff)) by (bit_vector);
    assert(ssrc >> 24 < 256 && (ssrc >> 16) & 0xff < 256 && (ssrc >> 8) & 0xff < 256 && ssrc & 0xff
        < 256) by (bit_vector);
    assert(ssrc == (ssrc >> 24) * 0x1000000 + ((ssrc >> 16) & 0xff) * 0x10000 + ((ssrc >> 8)
        & 0xff) * 256 + (ssrc & 0xff)) by (bit_vector);
    assert((0x80u8 | pt) & 0x80 == 0x80 && (0x80u8 | pt) & 0x7f == pt && pt & 0x80 == 0 && pt
        & 0x7f == pt) by (bit_vector)
        requires
            pt < 128,
    ;
    assert(0x80u8 >> 6 == 2) by (bit_vector);
}

/// Relies on `rand::random`: draws a `u32` from the thread-local generator.
/// Nothing is promised of the value.
#[verifier::external_body]
fn random_u32() -> u32 {
    rand::random::<u32>()
}

} // verus!

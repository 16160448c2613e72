use rtsp::h264::H264Packetizer;
use rtsp::rtp::RtpHeader;

fn make_header() -> RtpHeader {
    RtpHeader::new(96, 0xAABBCCDD)
}

#[test]
fn version_is_2() {
    let mut h = make_header();
    let buf = h.write(false);
    assert_eq!(buf[0] >> 6, 2);
}

#[test]
fn marker_bit() {
    let mut h = make_header();
    let no_marker = h.write(false);
    assert_eq!(no_marker[1] & 0x80, 0);

    let with_marker = h.write(true);
    assert_eq!(with_marker[1] & 0x80, 0x80);
}

#[test]
fn payload_type() {
    let mut h = make_header();
    let buf = h.write(false);
    assert_eq!(buf[1] & 0x7f, 96);
}

#[test]
fn sequence_increments() {
    let mut h = make_header();
    let b1 = h.write(false);
    let seq1 = u16::from_be_bytes([b1[2], b1[3]]);
    let b2 = h.write(false);
    let seq2 = u16::from_be_bytes([b2[2], b2[3]]);
    assert_eq!(seq2, seq1 + 1);
}

#[test]
fn sequence_wraps() {
    let mut h = make_header();
    h.sequence = u16::MAX;
    let buf = h.write(false);
    let seq = u16::from_be_bytes([buf[2], buf[3]]);
    assert_eq!(seq, u16::MAX);
    assert_eq!(h.sequence(), 0);
}

#[test]
fn ssrc_written() {
    let mut h = make_header();
    let buf = h.write(false);
    let ssrc = u32::from_be_bytes([buf[8], buf[9], buf[10], buf[11]]);
    assert_eq!(ssrc, 0xAABBCCDD);
}

#[test]
fn timestamp_advance() {
    let mut h = make_header();
    h.advance_timestamp(3000);
    assert_eq!(h.timestamp(), 3000);
    h.advance_timestamp(3000);
    assert_eq!(h.timestamp(), 6000);
}

#[test]
fn random_ssrc_differs() {
    let h1 = RtpHeader::with_random_ssrc(96);
    let h2 = RtpHeader::with_random_ssrc(96);
    assert_ne!(h1.ssrc, h2.ssrc);
}

#[test]
fn single_nal_payload_roundtrip() {
    // A Single-NAL frame below the MTU: one packet whose payload is the
    // NAL unit verbatim.
    let mut p = H264Packetizer::new(96, 0x11223344);
    let nal: Vec<u8> = (0..64u8).map(|i| i | 0x40).collect();
    let mut frame = vec![0u8, 0, 0, 1];
    frame.extend_from_slice(&nal);
    let packets = p.packetize(&frame, 3000);
    assert_eq!(packets.len(), 1);
    assert_eq!(&packets[0][12..], &nal[..]);
    assert_eq!(packets[0][1] & 0x80, 0x80);
}

#[test]
fn fua_fragmentation_reassembles() {
    // A 3500-byte NAL unit (type 5, NRI 3) with MTU 1400 yields three FU-A
    // packets of total sizes 1400, 1400 and 741; start bit on the first
    // fragment only, end bit on the last only, marker on the last packet.
    let mut p = H264Packetizer::new(96, 0x11223344);
    let mut nal = vec![0x65u8];
    for i in 1..3500usize {
        nal.push((i % 251) as u8);
    }
    assert_eq!(nal.len(), 3500);
    let mut frame = vec![0u8, 0, 0, 1];
    frame.extend_from_slice(&nal);
    let packets = p.packetize(&frame, 3000);
    assert_eq!(packets.len(), 3);
    assert_eq!(packets[0].len(), 1400);
    assert_eq!(packets[1].len(), 1400);
    assert_eq!(packets[2].len(), 741);
    // FU indicator: F and NRI of the NAL header with type 28.
    for pkt in &packets {
        assert_eq!(pkt[12], (0x65 & 0x80) | (0x65 & 0x60) | 28);
    }
    // Start/end flags and the embedded NAL type.
    assert_eq!(packets[0][13], 0x80 | 0x05);
    assert_eq!(packets[1][13], 0x05);
    assert_eq!(packets[2][13], 0x40 | 0x05);
    // Marker only on the last packet.
    assert_eq!(packets[0][1] & 0x80, 0);
    assert_eq!(packets[1][1] & 0x80, 0);
    assert_eq!(packets[2][1] & 0x80, 0x80);
    // Reassembly: the reconstructed header plus the fragment bodies equals
    // the original NAL unit.
    let mut rebuilt = vec![(packets[0][12] & 0xe0) | (packets[0][13] & 0x1f)];
    for pkt in &packets {
        rebuilt.extend_from_slice(&pkt[14..]);
    }
    assert_eq!(rebuilt, nal);
}

#[test]
fn frame_packets_share_timestamp_and_count_sequence() {
    // Two NAL units in one frame: consecutive sequence numbers, one shared
    // timestamp, marker only on the very last packet.
    let mut p = H264Packetizer::new(96, 0x11223344);
    let frame = [
        &[0u8, 0, 0, 1][..],
        &[0x67, 1, 2, 3][..],
        &[0u8, 0, 1][..],
        &[0x65, 9, 8, 7, 6][..],
    ]
    .concat();
    let packets = p.packetize(&frame, 9000);
    assert_eq!(packets.len(), 2);
    let seq0 = u16::from_be_bytes([packets[0][2], packets[0][3]]);
    let seq1 = u16::from_be_bytes([packets[1][2], packets[1][3]]);
    assert_eq!(seq1, seq0.wrapping_add(1));
    assert_eq!(&packets[0][4..8], &packets[1][4..8]);
    assert_eq!(packets[0][1] & 0x80, 0);
    assert_eq!(packets[1][1] & 0x80, 0x80);
    assert_eq!(&packets[0][12..], &[0x67, 1, 2, 3]);
    assert_eq!(&packets[1][12..], &[0x65, 9, 8, 7, 6]);
}

#[test]
fn empty_annex_b_input_yields_nothing() {
    let mut p = H264Packetizer::new(96, 0x11223344);
    assert_eq!(p.packetize(&[], 3000).len(), 0);
    assert_eq!(p.packetize(&[0, 0, 0, 1], 3000).len(), 0);
    assert_eq!(p.packetize(&[0, 0, 1, 0, 0, 1], 3000).len(), 0);
    assert_eq!(p.header.sequence(), 0);
    assert_eq!(p.header.timestamp(), 0);
}

use livekit_analyzer::capture::{capture_facts, CaptureError};

fn ethernet_udp(src_port: u16, dst_port: u16, payload: &[u8]) -> Vec<u8> {
    let mut d = vec![0xaa; 14];
    let mut ip = vec![0u8; 20];
    ip[0] = 0x45;
    ip[9] = 17;
    ip[12..16].copy_from_slice(&[10, 0, 0, 1]);
    ip[16..20].copy_from_slice(&[10, 0, 0, 2]);
    d.extend_from_slice(&ip);
    let len = (8 + payload.len()) as u16;
    d.extend_from_slice(&src_port.to_be_bytes());
    d.extend_from_slice(&dst_port.to_be_bytes());
    d.extend_from_slice(&len.to_be_bytes());
    d.extend_from_slice(&[0, 0]);
    d.extend_from_slice(payload);
    d
}

fn ethernet_tcp(payload: &[u8]) -> Vec<u8> {
    let mut d = vec![0xaa; 14];
    let mut ip = vec![0u8; 20];
    ip[0] = 0x45;
    ip[9] = 6;
    ip[12..16].copy_from_slice(&[192, 168, 1, 1]);
    ip[16..20].copy_from_slice(&[192, 168, 1, 2]);
    d.extend_from_slice(&ip);
    let mut tcp = vec![0u8; 20];
    tcp[12] = 0x50;
    d.extend_from_slice(&tcp);
    d.extend_from_slice(payload);
    d
}

fn rtp(seq: u16) -> Vec<u8> {
    let s = seq.to_be_bytes();
    vec![0x80, 0x00, s[0], s[1], 0, 0, 0, 0, 1, 2, 3, 4]
}

/// A little-endian capture with microsecond times.
fn capture(frames: &[(u32, u32, Vec<u8>)]) -> Vec<u8> {
    let mut b: Vec<u8> = Vec::new();
    b.extend_from_slice(&0xa1b2c3d4u32.to_le_bytes());
    b.extend_from_slice(&2u16.to_le_bytes());
    b.extend_from_slice(&4u16.to_le_bytes());
    b.extend_from_slice(&0i32.to_le_bytes());
    b.extend_from_slice(&0u32.to_le_bytes());
    b.extend_from_slice(&65535u32.to_le_bytes());
    b.extend_from_slice(&1u32.to_le_bytes());
    for (sec, usec, data) in frames {
        b.extend_from_slice(&sec.to_le_bytes());
        b.extend_from_slice(&usec.to_le_bytes());
        b.extend_from_slice(&(data.len() as u32).to_le_bytes());
        b.extend_from_slice(&(data.len() as u32).to_le_bytes());
        b.extend_from_slice(data);
    }
    b
}

#[test]
fn capture_bytes_give_sip_setup_and_streams() {
    let mut frames: Vec<(u32, u32, Vec<u8>)> = Vec::new();
    frames.push((100, 0, ethernet_tcp(b"INVITE sip:+15551234567@example.com SIP/2.0\r\nCall-ID: abc\r\n")));
    frames.push((100, 500_000, ethernet_tcp(b"SIP/2.0 200 OK\r\nCall-ID: abc\r\n")));
    // One stream of twelve datagrams after the answer, one sequence number missing.
    let mut seq: u16 = 1;
    for k in 0..12u32 {
        if k == 5 {
            seq += 1;
        }
        frames.push((101, k * 20_000, ethernet_udp(20000, 5060, &rtp(seq))));
        seq += 1;
    }
    // A small flow that is no stream.
    frames.push((101, 300_000, ethernet_udp(7000, 7001, &[1, 2, 3])));
    let facts = capture_facts(&capture(&frames)).expect("readable capture");
    assert_eq!(facts.total_packets, 15);
    assert_eq!(facts.duration_ns, 1_300_000_000);
    assert_eq!(facts.sip_messages.len(), 2);
    assert_eq!(facts.sip_messages[0].fields.method, "INVITE");
    assert_eq!(facts.sip_messages[1].time_ns, 500_000_000);
    assert_eq!(facts.sip_messages[1].fields.method, "200 OK");
    assert_eq!(facts.call_setup_ns, Some(500_000_000));
    assert_eq!(facts.media_setup_ns, Some(500_000_000));
    assert_eq!(facts.streams.len(), 1);
    let s = &facts.streams[0];
    assert_eq!(s.facts.packet_count, 12);
    assert!(s.facts.outgoing);
    assert_eq!(s.facts.avg_payload, 12);
    assert_eq!(s.facts.first_ns, 1_000_000_000);
    assert_eq!(s.facts.last_ns, 1_220_000_000);
    assert_eq!(s.sequence.lost, 1);
    assert_eq!(s.sequence.total_expected, 13);
    assert_eq!(s.times_ns.len(), 12);
    assert_eq!(s.times_ns[1], 1_020_000_000);
}

#[test]
fn unreadable_capture_is_refused() {
    assert!(matches!(capture_facts(b"not a capture"), Err(CaptureError::Unreadable)));
    let mut b = capture(&[(1, 0, ethernet_udp(1, 2, &[0]))]);
    b.truncate(b.len() - 3);
    assert!(matches!(capture_facts(&b), Err(CaptureError::Unreadable)));
}

#[test]
fn empty_capture_has_no_facts() {
    let facts = capture_facts(&capture(&[])).expect("readable capture");
    assert_eq!(facts.total_packets, 0);
    assert_eq!(facts.duration_ns, 0);
    assert!(facts.streams.is_empty());
    assert_eq!(facts.call_setup_ns, None);
}

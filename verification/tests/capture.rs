use livekit_analyzer::pcap::{
    analyze_rtp_sequence, decode_packet, extract_phone_number, extract_sip_header, flow_key, ip_to_string,
    note_sip_method, sip_method, try_parse_sip, CallSetup, DecodedPacket,
};

fn ethernet_udp(payload: &[u8]) -> Vec<u8> {
    let mut d = vec![0xaa; 14];
    let mut ip = vec![0u8; 20];
    ip[0] = 0x45;
    ip[9] = 17;
    ip[12..16].copy_from_slice(&[10, 0, 0, 1]);
    ip[16..20].copy_from_slice(&[10, 0, 0, 2]);
    d.extend_from_slice(&ip);
    let len = (8 + payload.len()) as u16;
    d.extend_from_slice(&[0x13, 0x88, 0x27, 0x10]);
    d.extend_from_slice(&len.to_be_bytes());
    d.extend_from_slice(&[0, 0]);
    d.extend_from_slice(payload);
    d
}

fn ethernet_tcp(payload: &[u8]) -> Vec<u8> {
    let mut d = vec![0xaa; 14];
    let mut ip = vec![0u8; 20];
    ip[0] = 0x45;
    ip[9] = 6;
    ip[12..16].copy_from_slice(&[192, 168, 1, 1]);
    ip[16..20].copy_from_slice(&[192, 168, 1, 2]);
    d.extend_from_slice(&ip);
    let mut tcp = vec![0u8; 20];
    tcp[12] = 0x50;
    d.extend_from_slice(&tcp);
    d.extend_from_slice(payload);
    d
}

fn rtp(seq: u16) -> Vec<u8> {
    let s = seq.to_be_bytes();
    vec![0x80, 0x00, s[0], s[1], 0, 0, 0, 0]
}

#[test]
fn udp_frames_are_decoded() {
    match decode_packet(&ethernet_udp(&[1, 2, 3])) {
        DecodedPacket::Udp { src_ip, src_port, dst_ip, dst_port, payload } => {
            assert_eq!(src_ip, [10, 0, 0, 1]);
            assert_eq!(dst_ip, [10, 0, 0, 2]);
            assert_eq!(src_port, 5000);
            assert_eq!(dst_port, 10000);
            assert_eq!(payload, vec![1, 2, 3]);
        },
        _ => panic!("expected UDP"),
    }
}

#[test]
fn tcp_frames_are_decoded() {
    match decode_packet(&ethernet_tcp(b"hello")) {
        DecodedPacket::Tcp { src_ip, payload, .. } => {
            assert_eq!(src_ip, [192, 168, 1, 1]);
            assert_eq!(payload, b"hello".to_vec());
        },
        _ => panic!("expected TCP"),
    }
}

#[test]
fn short_or_foreign_frames_are_skipped() {
    assert!(matches!(decode_packet(&[0u8; 10]), DecodedPacket::Skipped));
    let mut v6 = ethernet_udp(&[1]);
    v6[14] = 0x60;
    assert!(matches!(decode_packet(&v6), DecodedPacket::Skipped));
    assert!(matches!(decode_packet(&ethernet_tcp(b"")), DecodedPacket::Skipped));
}

#[test]
fn addresses_and_flows_are_named() {
    assert_eq!(ip_to_string(&[192, 168, 0, 10]), "192.168.0.10");
    assert_eq!(flow_key(&[10, 0, 0, 1], 5000, &[10, 0, 0, 2], 6000), "10.0.0.1:5000 -> 10.0.0.2:6000");
}

#[test]
fn rtp_losses_and_reordering() {
    let ps = vec![rtp(1), rtp(2), rtp(5), rtp(4), rtp(6)];
    let s = analyze_rtp_sequence(&ps);
    assert_eq!(s.lost, 3);
    assert_eq!(s.out_of_order, 1);
    assert_eq!(s.total_expected, 8);
    let one = analyze_rtp_sequence(&vec![rtp(1)]);
    assert_eq!((one.lost, one.out_of_order, one.total_expected), (0, 0, 0));
}

#[test]
fn phone_numbers_from_sip_uris() {
    assert_eq!(extract_phone_number("<sip:+16462826210@sip.example.com>"), "+16462826210");
    assert_eq!(extract_phone_number("tel +1 (646) 282-6210"), "+16462826210");
    assert_eq!(extract_phone_number("anonymous"), "anonymous");
}

#[test]
fn sip_start_lines() {
    let resp: Vec<char> = "SIP/2.0 200 OK\r".chars().collect();
    assert_eq!(sip_method(&resp), Some("200 OK".to_string()));
    let req: Vec<char> = "INVITE sip:bob@example.com SIP/2.0".chars().collect();
    assert_eq!(sip_method(&req), Some("INVITE".to_string()));
    let other: Vec<char> = "HTTP/1.1 200 OK".chars().collect();
    assert_eq!(sip_method(&other), None);
}

#[test]
fn sip_headers_ignore_case() {
    let text = "INVITE sip:x SIP/2.0\r\nfrom: <sip:+15551234567@a>;tag=1\r\nCall-ID: abc123\r\n";
    assert_eq!(extract_sip_header(text, "From:"), Some("<sip:+15551234567@a>".to_string()));
    assert_eq!(extract_sip_header(text, "Call-ID:"), Some("abc123".to_string()));
    assert_eq!(extract_sip_header(text, "To:"), None);
}

#[test]
fn sip_messages_from_payloads() {
    let text = b"INVITE sip:x SIP/2.0\r\nFrom: <sip:+15551234567@a>;tag=1\r\nTo: <sip:+15557654321@b>\r\nCall-ID: abc\r\n\r\n";
    let m = try_parse_sip(text).unwrap();
    assert_eq!(m.method, "INVITE");
    assert_eq!(m.from, Some("+15551234567".to_string()));
    assert_eq!(m.to, Some("+15557654321".to_string()));
    assert_eq!(m.call_id, Some("abc".to_string()));
    assert!(try_parse_sip(&[0xff, 0xfe]).is_none());
    assert!(try_parse_sip(b"GET / HTTP/1.1\r\n").is_none());
}

#[test]
fn call_setup_marks_invite_then_answer() {
    let mut s = CallSetup { invite: None, answered: None };
    note_sip_method(&mut s, "200 OK", 1);
    assert_eq!(s.answered, None);
    note_sip_method(&mut s, "INVITE", 2);
    note_sip_method(&mut s, "INVITE", 3);
    assert_eq!(s.invite, Some(2));
    note_sip_method(&mut s, "200 OK", 4);
    note_sip_method(&mut s, "200 OK", 5);
    assert_eq!(s.answered, Some(4));
}

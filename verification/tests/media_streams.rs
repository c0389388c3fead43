use livekit_analyzer::rtp::{group_udp_flows, media_setup_ns, order_rtp_streams, stream_facts, UdpRecord};

fn record(src_port: u16, dst_port: u16, time_ns: i64, payload_len: usize) -> UdpRecord {
    UdpRecord {
        src_ip: [10, 0, 0, 1],
        src_port,
        dst_ip: [10, 0, 0, 2],
        dst_port,
        time_ns,
        payload_len,
    }
}

fn capture() -> Vec<UdpRecord> {
    let mut v = Vec::new();
    // A short flow before the call is answered, then two media flows.
    v.push(record(5000, 6000, 10, 50));
    for i in 0..12i64 {
        v.push(record(40000, 5004, 1_000 + i * 20, 172));
        if i < 10 {
            v.push(record(5004, 40000, 1_010 + i * 20, 160));
        }
    }
    v.push(record(7000, 7001, 2_000, 30));
    v
}

#[test]
fn flows_group_by_endpoints_after_answer() {
    let recs = capture();
    let groups = group_udp_flows(&recs, Some(500));
    assert_eq!(groups.len(), 3);
    assert_eq!(groups[0].src_port, 40000);
    assert_eq!(groups[0].packets.len(), 12);
    assert_eq!(groups[0].packets[0], 1);
    assert_eq!(groups[1].src_port, 5004);
    assert_eq!(groups[1].packets.len(), 10);
    assert_eq!(groups[2].packets, vec![recs.len() - 1]);
}

#[test]
fn flows_without_answer_time_keep_everything() {
    let recs = capture();
    let groups = group_udp_flows(&recs, None);
    assert_eq!(groups.len(), 4);
    assert_eq!(groups[0].src_port, 5000);
    let total: usize = groups.iter().map(|g| g.packets.len()).sum();
    assert_eq!(total, recs.len());
}

#[test]
fn streams_need_ten_packets_and_come_largest_first() {
    let mut recs = capture();
    // Make the reverse flow the larger one.
    for i in 0..5i64 {
        recs.push(record(5004, 40000, 3_000 + i, 160));
    }
    let groups = group_udp_flows(&recs, Some(500));
    let streams = order_rtp_streams(&groups);
    assert_eq!(streams.len(), 2);
    assert_eq!(streams[0].src_port, 5004);
    assert_eq!(streams[0].packets.len(), 15);
    assert_eq!(streams[1].src_port, 40000);
}

#[test]
fn equal_streams_keep_first_appearance_order() {
    let recs = capture();
    let mut more = recs.clone();
    more.push(record(5004, 40000, 5_000, 160));
    more.push(record(5004, 40000, 5_001, 160));
    let groups = group_udp_flows(&more, Some(500));
    let streams = order_rtp_streams(&groups);
    assert_eq!(streams.len(), 2);
    assert_eq!(streams[0].src_port, 40000);
    assert_eq!(streams[1].src_port, 5004);
}

#[test]
fn stream_facts_of_a_flow() {
    let recs = capture();
    let groups = group_udp_flows(&recs, Some(500));
    let f = stream_facts(&recs, &groups[0]);
    assert!(f.outgoing);
    assert_eq!(f.packet_count, 12);
    assert_eq!(f.first_ns, 1_000);
    assert_eq!(f.last_ns, 1_220);
    assert_eq!(f.avg_payload, 172);
    let g = stream_facts(&recs, &groups[1]);
    assert!(!g.outgoing);
}

#[test]
fn average_payload_rounds_down() {
    let recs = vec![record(1, 2, 0, 3), record(1, 2, 1, 4)];
    let groups = group_udp_flows(&recs, None);
    let f = stream_facts(&recs, &groups[0]);
    assert_eq!(f.avg_payload, 3);
    assert!(!f.outgoing);
}

#[test]
fn media_setup_from_first_stream_packet() {
    let recs = capture();
    let groups = group_udp_flows(&recs, Some(500));
    let streams = order_rtp_streams(&groups);
    assert_eq!(media_setup_ns(&recs, &streams, Some(500)), Some(500));
    assert_eq!(media_setup_ns(&recs, &streams, None), None);
    assert_eq!(media_setup_ns(&recs, &Vec::new(), Some(500)), None);
}

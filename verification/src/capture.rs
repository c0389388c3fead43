//! A packet capture from its bytes to the facts of its SIP signalling and RTP
//! media: the frames are read by `pcap_file`, then decoded, scanned for SIP
//! messages and grouped into media flows here.

use vstd::prelude::*;
use vstd::view::View as _;
use crate::pcap::{
    analyze_rtp_sequence, bytes_views, decode_packet, note_sip_method, opt_string_view, sip_headers_cut_ok,
    spec_decode_packet, spec_note_sip, spec_rtp_sequence, spec_try_parse_sip, try_parse_sip, CallSetup,
    DecodedPacket, PacketModel, RtpSequenceStats, SipFields, SipModel,
};
use crate::rtp::{
    big_flows, copy_flow, earliest_start, flow_models, flow_scan, group_udp_flows, lemma_flow_scan,
    lemma_order_streams, media_setup_ns, order_rtp_streams, order_streams, payload_total, stream_facts,
    FlowGroup, FlowModel, StreamFacts, UdpRecord, MIN_STREAM_PACKETS,
};

verus! {

/// Packet times are below this many nanoseconds: a capture stores the
/// seconds of a time in 32 bits and its fraction below one second.
pub const TIME_LIMIT_NS: u128 = 4_294_967_296_000_000_000;

/// The frames of a capture file, each as its time in nanoseconds and its
/// captured bytes, or none where the bytes are not a readable capture
/// (`pcap_file::pcap::PcapReader` over the bytes).
pub uninterp spec fn pcap_records(bytes: Seq<u8>) -> Option<Seq<(int, Seq<u8>)>>;

pub open spec fn record_models(v: Seq<(u128, Vec<u8>)>) -> Seq<(int, Seq<u8>)> {
    v.map_values(|p: (u128, Vec<u8>)| (p.0 as int, p.1@))
}

pub open spec fn records_view(r: Option<Vec<(u128, Vec<u8>)>>) -> Option<Seq<(int, Seq<u8>)>> {
    match r {
        Some(v) => Some(record_models(v@)),
        None => None,
    }
}

/// `pcap_file::pcap::PcapReader::new` and `PcapReader::next_packet` over the
/// bytes of a capture, each packet taken as its timestamp in nanoseconds
/// (`Duration::as_nanos`) and its data; none when the header or a packet
/// cannot be read. The result is named `pcap_records`. A packet's timestamp
/// is built from 32-bit seconds and nanoseconds below one second
/// (`PcapPacket::try_from_raw_packet`), so it is below `TIME_LIMIT_NS`.
#[verifier::external_body]
fn read_pcap_records(bytes: &[u8]) -> (r: Option<Vec<(u128, Vec<u8>)>>)
    ensures
        records_view(r) == pcap_records(bytes@),
        r matches Some(v) ==> forall|i: int| 0 <= i < v@.len() ==> (#[trigger] v@[i]).0 < TIME_LIMIT_NS,
{
    let mut reader = match pcap_file::pcap::PcapReader::new(bytes) {
        Ok(reader) => reader,
        Err(_) => return None,
    };
    let mut out: Vec<(u128, Vec<u8>)> = Vec::new();
    while let Some(packet) = reader.next_packet() {
        match packet {
            Ok(p) => out.push((p.timestamp.as_nanos(), p.data.into_owned())),
            Err(_) => return None,
        }
    }
    Some(out)
}

/// A SIP message of the capture, with its time since the first frame.
pub struct SipEvent {
    pub time_ns: i64,
    pub fields: SipFields,
}

/// A reported RTP stream: its flow, its integer facts, its loss figures and
/// the times of its datagrams since the first frame.
pub struct StreamReport {
    pub flow: FlowGroup,
    pub facts: StreamFacts,
    pub sequence: RtpSequenceStats,
    pub times_ns: Vec<i64>,
}

/// What the capture analysis computes without floating point.
pub struct CaptureFacts {
    pub total_packets: usize,
    /// Time from the first to the last frame.
    pub duration_ns: i64,
    pub sip_messages: Vec<SipEvent>,
    /// Time from the first INVITE to the first "200" response after it.
    pub call_setup_ns: Option<i128>,
    /// Time from that response to the first datagram of any stream.
    pub media_setup_ns: Option<i128>,
    pub streams: Vec<StreamReport>,
}

/// Why a capture gives no facts.
#[derive(Debug, Clone, Copy, PartialEq, Eq, Structural)]
pub enum CaptureError {
    /// The bytes are not a readable capture.
    Unreadable,
    /// The capture has more frames than the loss counters can count.
    TooLarge,
}

pub struct StreamModel {
    pub flow: FlowModel,
    pub outgoing: bool,
    pub packet_count: int,
    pub first_ns: int,
    pub last_ns: int,
    pub avg_payload: int,
    pub sequence: (int, int, int),
    pub times: Seq<int>,
}

pub struct CaptureModel {
    pub total_packets: int,
    pub duration_ns: int,
    pub sip_messages: Seq<(int, SipModel)>,
    pub call_setup_ns: Option<int>,
    pub media_setup_ns: Option<int>,
    pub streams: Seq<StreamModel>,
}

pub open spec fn sip_fields_model(f: SipFields) -> SipModel {
    SipModel {
        method: f.method@,
        from: opt_string_view(f.from),
        to: opt_string_view(f.to),
        call_id: opt_string_view(f.call_id),
    }
}

pub open spec fn sip_event_models(s: Seq<SipEvent>) -> Seq<(int, SipModel)> {
    s.map_values(|e: SipEvent| (e.time_ns as int, sip_fields_model(e.fields)))
}

pub open spec fn i64_views(s: Seq<i64>) -> Seq<int> {
    s.map_values(|x: i64| x as int)
}

impl StreamReport {
    pub open spec fn model(self) -> StreamModel {
        StreamModel {
            flow: self.flow.model(),
            outgoing: self.facts.outgoing,
            packet_count: self.facts.packet_count as int,
            first_ns: self.facts.first_ns as int,
            last_ns: self.facts.last_ns as int,
            avg_payload: self.facts.avg_payload as int,
            sequence: (self.sequence.lost as int, self.sequence.out_of_order as int, self.sequence.total_expected as int),
            times: i64_views(self.times_ns@),
        }
    }
}

pub open spec fn stream_report_models(s: Seq<StreamReport>) -> Seq<StreamModel> {
    s.map_values(|r: StreamReport| r.model())
}

impl CaptureFacts {
    pub open spec fn model(self) -> CaptureModel {
        CaptureModel {
            total_packets: self.total_packets as int,
            duration_ns: self.duration_ns as int,
            sip_messages: sip_event_models(self.sip_messages@),
            call_setup_ns: match self.call_setup_ns {
                Some(x) => Some(x as int),
                None => None,
            },
            media_setup_ns: match self.media_setup_ns {
                Some(x) => Some(x as int),
                None => None,
            },
            streams: stream_report_models(self.streams@),
        }
    }
}

/// Time of frame `i` since the first frame.
pub open spec fn rel_time(rs: Seq<(int, Seq<u8>)>, i: int) -> int {
    rs[i].0 - rs[0].0
}

/// The SIP message the analysis takes from a TCP payload: none where the
/// payload is no SIP message or its headers cannot be cut on a character
/// boundary.
pub open spec fn sip_seen(p: Seq<u8>) -> Option<SipModel> {
    if sip_headers_cut_ok(p) {
        spec_try_parse_sip(p)
    } else {
        None
    }
}

pub open spec fn is_udp_record(r: UdpRecord, src_ip: Seq<u8>, src_port: int, dst_ip: Seq<u8>, dst_port: int, time: int, len: int) -> bool {
    &&& r.src_ip@ == src_ip
    &&& r.src_port == src_port
    &&& r.dst_ip@ == dst_ip
    &&& r.dst_port == dst_port
    &&& r.time_ns == time
    &&& r.payload_len == len
}

/// The datagram record with these endpoints, time and payload length.
pub open spec fn udp_record(src_ip: Seq<u8>, src_port: int, dst_ip: Seq<u8>, dst_port: int, time: int, len: int) -> UdpRecord {
    choose|r: UdpRecord| is_udp_record(r, src_ip, src_port, dst_ip, dst_port, time, len)
}

/// What the scan of the frames has gathered.
pub struct ScanModel {
    pub sips: Seq<(int, SipModel)>,
    pub setup: CallSetup,
    pub udp: Seq<UdpRecord>,
    pub payloads: Seq<Seq<u8>>,
}

/// The scan of the first `n` frames: a TCP payload that holds a SIP message
/// adds the message and notes its method for the call setup; a UDP
/// datagram adds its record and payload; other frames add nothing.
pub open spec fn scan(rs: Seq<(int, Seq<u8>)>, n: int) -> ScanModel
    decreases n,
{
    if n <= 0 {
        ScanModel { sips: Seq::empty(), setup: CallSetup { invite: None, answered: None }, udp: Seq::empty(), payloads: Seq::empty() }
    } else {
        let st = scan(rs, n - 1);
        let i = n - 1;
        let t = rel_time(rs, i);
        match spec_decode_packet(rs[i].1) {
            PacketModel::Tcp { payload, .. } => match sip_seen(payload) {
                Some(m) => ScanModel {
                    sips: st.sips.push((t, m)),
                    setup: spec_note_sip(st.setup, m.method, i as usize),
                    ..st
                },
                None => st,
            },
            PacketModel::Udp { src_ip, src_port, dst_ip, dst_port, payload } => ScanModel {
                udp: st.udp.push(udp_record(src_ip, src_port, dst_ip, dst_port, t, payload.len() as int)),
                payloads: st.payloads.push(payload),
                ..st
            },
            PacketModel::Skipped => st,
        }
    }
}

/// The model of a reported stream: its flow, its direction, size, first and
/// last time and average payload, its loss figures over its payloads in
/// order, and its datagram times.
pub open spec fn stream_model(st: ScanModel, g: FlowModel) -> StreamModel {
    StreamModel {
        flow: g,
        outgoing: g.key.1 > g.key.3,
        packet_count: g.members.len() as int,
        first_ns: st.udp[g.members[0]].time_ns as int,
        last_ns: st.udp[g.members.last()].time_ns as int,
        avg_payload: payload_total(st.udp, g.members) / (g.members.len() as int),
        sequence: spec_rtp_sequence(g.members.map_values(|m: int| st.payloads[m])),
        times: g.members.map_values(|m: int| st.udp[m].time_ns as int),
    }
}

/// When the call was answered, relative to the first frame.
pub open spec fn answered_time(rs: Seq<(int, Seq<u8>)>, s: CallSetup) -> Option<i64> {
    match s.answered {
        Some(a) => Some(rel_time(rs, a as int) as i64),
        None => None,
    }
}

/// The reported streams of a scan: the flows of the datagrams admitted
/// after the answer, ordered as RTP streams.
pub open spec fn scan_streams(rs: Seq<(int, Seq<u8>)>, st: ScanModel) -> Seq<FlowModel> {
    order_streams(flow_scan(st.udp, answered_time(rs, st.setup), st.udp.len() as int))
}

/// The facts of a capture's frames.
pub open spec fn spec_capture(rs: Seq<(int, Seq<u8>)>) -> CaptureModel {
    let st = scan(rs, rs.len() as int);
    let flows = scan_streams(rs, st);
    CaptureModel {
        total_packets: rs.len() as int,
        duration_ns: if rs.len() == 0 { 0 } else { rs.last().0 - rs[0].0 },
        sip_messages: st.sips,
        call_setup_ns: match (st.setup.invite, st.setup.answered) {
            (Some(i), Some(a)) => Some(rs[a as int].0 - rs[i as int].0),
            _ => None,
        },
        media_setup_ns: match answered_time(rs, st.setup) {
            None => None,
            Some(a) => match earliest_start(st.udp, flows) {
                Some(t) => Some(t - a),
                None => None,
            },
        },
        streams: flows.map_values(|g: FlowModel| stream_model(st, g)),
    }
}

proof fn lemma_udp_record(r: UdpRecord)
    ensures
        udp_record(r.src_ip@, r.src_port as int, r.dst_ip@, r.dst_port as int, r.time_ns as int, r.payload_len as int) == r,
{
    let c = udp_record(r.src_ip@, r.src_port as int, r.dst_ip@, r.dst_port as int, r.time_ns as int, r.payload_len as int);
    assert(is_udp_record(r, r.src_ip@, r.src_port as int, r.dst_ip@, r.dst_port as int, r.time_ns as int, r.payload_len as int));
    assert(c.src_ip =~= r.src_ip) by {
        assert forall|i: int| 0 <= i < 4 implies c.src_ip[i] == r.src_ip[i] by {
            assert(c.src_ip@[i] == r.src_ip@[i]);
        }
    }
    assert(c.dst_ip =~= r.dst_ip) by {
        assert forall|i: int| 0 <= i < 4 implies c.dst_ip[i] == r.dst_ip[i] by {
            assert(c.dst_ip@[i] == r.dst_ip@[i]);
        }
    }
}

proof fn lemma_earliest_in_range(ps: Seq<UdpRecord>, gs: Seq<FlowModel>)
    ensures
        earliest_start(ps, gs) matches Some(t) ==> i64::MIN <= t <= i64::MAX,
    decreases gs.len(),
{
    if gs.len() > 0 {
        lemma_earliest_in_range(ps, gs.drop_last());
    }
}

/// A strictly increasing sequence of positions below `m` has at most `m`
/// entries.
proof fn lemma_increasing_len(s: Seq<int>, m: int)
    requires
        0 <= m,
        forall|t: int| 0 <= t < s.len() ==> 0 <= #[trigger] s[t] < m,
        forall|t: int, u: int| 0 <= t < u < s.len() ==> #[trigger] s[t] < #[trigger] s[u],
    ensures
        s.len() <= m,
    decreases s.len(),
{
    if s.len() > 0 {
        let d = s.drop_last();
        assert forall|t: int| 0 <= t < d.len() implies 0 <= #[trigger] d[t] < s.last() by {
            assert(s[t] < s[s.len() - 1]);
        }
        lemma_increasing_len(d, s.last());
    }
}

proof fn lemma_big_flows_in(gs: Seq<FlowModel>)
    ensures
        forall|x: FlowModel| #[trigger] big_flows(gs).contains(x) ==> gs.contains(x),
    decreases gs.len(),
{
    if gs.len() > 0 {
        let d = gs.drop_last();
        lemma_big_flows_in(d);
        let bd = big_flows(d);
        let b = big_flows(gs);
        if gs.last().members.len() >= MIN_STREAM_PACKETS {
            assert(b == bd.push(gs.last()));
        } else {
            assert(b == bd);
        }
        assert forall|x: FlowModel| b.contains(x) implies gs.contains(x) by {
            let i = choose|i: int| 0 <= i < b.len() && b[i] == x;
            if i < bd.len() {
                assert(bd[i] == x);
                assert(bd.contains(x));
                let j = choose|j: int| 0 <= j < d.len() && d[j] == x;
                assert(gs[j] == x);
            } else {
                assert(gs[gs.len() - 1] == x);
            }
        }
    }
}

/// A reported stream has datagrams, at positions of the capture in
/// increasing order, and no more of them than the capture has.
proof fn lemma_stream_members(ps: Seq<UdpRecord>, ans: Option<i64>)
    ensures
        forall|k: int| 0 <= k < order_streams(flow_scan(ps, ans, ps.len() as int)).len() ==> {
            let g = #[trigger] order_streams(flow_scan(ps, ans, ps.len() as int))[k];
            &&& g.members.len() >= MIN_STREAM_PACKETS
            &&& g.members.len() <= ps.len()
            &&& forall|t: int| 0 <= t < g.members.len() ==> 0 <= #[trigger] g.members[t] < ps.len()
            &&& forall|t: int, u: int| 0 <= t < u < g.members.len() ==> #[trigger] g.members[t] < #[trigger] g.members[u]
        },
{
    broadcast use vstd::seq_lib::to_multiset_contains;

    let gs = flow_scan(ps, ans, ps.len() as int);
    let ord = order_streams(gs);
    lemma_flow_scan(ps, ans, ps.len() as int);
    lemma_order_streams(gs);
    lemma_big_flows_in(gs);
    assert forall|k: int| 0 <= k < ord.len() implies {
        let g = #[trigger] ord[k];
        &&& g.members.len() >= MIN_STREAM_PACKETS
        &&& g.members.len() <= ps.len()
        &&& forall|t: int| 0 <= t < g.members.len() ==> 0 <= #[trigger] g.members[t] < ps.len()
        &&& forall|t: int, u: int| 0 <= t < u < g.members.len() ==> #[trigger] g.members[t] < #[trigger] g.members[u]
    } by {
        let g = ord[k];
        assert(ord.contains(g));
        assert(ord.to_multiset().count(g) > 0);
        assert(big_flows(gs).to_multiset().count(g) > 0);
        assert(big_flows(gs).contains(g));
        assert(gs.contains(g));
        let j = choose|j: int| 0 <= j < gs.len() && gs[j] == g;
        assert forall|t: int| 0 <= t < g.members.len() implies 0 <= #[trigger] g.members[t] < ps.len() by {
            assert(gs[j].members[t] == g.members[t]);
        }
        assert forall|t: int, u: int| 0 <= t < u < g.members.len() implies #[trigger] g.members[t] < #[trigger] g.members[u] by {
            assert(gs[j].members[t] == g.members[t]);
            assert(gs[j].members[u] == g.members[u]);
        }
        lemma_increasing_len(g.members, ps.len() as int);
    }
}

/// The facts of a capture's frames, each given as its time in nanoseconds
/// and its bytes: the SIP messages in TCP payloads with the call setup they
/// show, and the RTP streams among the UDP datagrams after the answer.
#[verifier::rlimit(80)]
pub fn capture_facts_of(records: &Vec<(u128, Vec<u8>)>) -> (r: CaptureFacts)
    requires
        records@.len() * 99 <= usize::MAX,
        forall|i: int| 0 <= i < records@.len() ==> (#[trigger] records@[i]).0 < TIME_LIMIT_NS,
    ensures
        r.model() == spec_capture(record_models(records@)),
{
    let ghost rs = record_models(records@);
    let n = records.len();
    let first: u128 = if n > 0 { records[0].0 } else { 0 };
    let mut sips: Vec<SipEvent> = Vec::new();
    let mut setup = CallSetup { invite: None, answered: None };
    let mut udp: Vec<UdpRecord> = Vec::new();
    let mut payloads: Vec<Vec<u8>> = Vec::new();
    let mut i: usize = 0;
    while i < n
        invariant
            0 <= i <= n,
            n == records@.len(),
            n * 99 <= usize::MAX,
            rs == record_models(records@),
            forall|j: int| 0 <= j < records@.len() ==> (#[trigger] records@[j]).0 < TIME_LIMIT_NS,
            n > 0 ==> first == records@[0].0,
            sip_event_models(sips@) == scan(rs, i as int).sips,
            setup == scan(rs, i as int).setup,
            setup.invite matches Some(x) ==> x < i,
            setup.answered matches Some(x) ==> x < i,
            udp@ == scan(rs, i as int).udp,
            bytes_views(payloads@) == scan(rs, i as int).payloads,
            udp@.len() <= i,
            udp@.len() == payloads@.len(),
        decreases n - i,
    {
        let ts = records[i].0;
        let rel: i64 = (ts as i128 - first as i128) as i64;
        assert(rel == rel_time(rs, i as int));
        let ghost st = scan(rs, i as int);
        let ghost sips0 = sips@;
        let ghost pay0 = payloads@;
        let data = records[i].1.as_slice();
        assert(data@ == rs[i as int].1);
        match decode_packet(data) {
            DecodedPacket::Tcp { payload, .. } => {
                match try_parse_sip(payload.as_slice()) {
                    Some(f) => {
                        note_sip_method(&mut setup, f.method.as_str(), i);
                        sips.push(SipEvent { time_ns: rel, fields: f });
                        assert(sip_event_models(sips@) =~= st.sips.push((rel as int, sip_fields_model(f))));
                    },
                    None => {},
                }
            },
            DecodedPacket::Udp { src_ip, src_port, dst_ip, dst_port, payload } => {
                let len = payload.len();
                let rec = UdpRecord { src_ip, src_port, dst_ip, dst_port, time_ns: rel, payload_len: len };
                proof {
                    lemma_udp_record(rec);
                }
                udp.push(rec);
                payloads.push(payload);
                assert(bytes_views(payloads@) =~= bytes_views(pay0).push(payload@));
            },
            DecodedPacket::Skipped => {},
        }
        i = i + 1;
    }
    let answered_ns: Option<i64> = match setup.answered {
        Some(a) => Some((records[a].0 as i128 - first as i128) as i64),
        None => None,
    };
    let call_setup_ns: Option<i128> = match (setup.invite, setup.answered) {
        (Some(x), Some(a)) => Some(records[a].0 as i128 - records[x].0 as i128),
        _ => None,
    };
    let duration_ns: i64 = if n > 0 { (records[n - 1].0 as i128 - first as i128) as i64 } else { 0 };
    let ghost st = scan(rs, n as int);
    assert(answered_ns == answered_time(rs, st.setup));
    let groups = group_udp_flows(&udp, answered_ns);
    let streams = order_rtp_streams(&groups);
    let media = media_setup_ns(&udp, &streams, answered_ns);
    let ghost ord = scan_streams(rs, st);
    assert(flow_models(streams@) == ord);
    proof {
        lemma_stream_members(udp@, answered_ns);
    }
    let mut reports: Vec<StreamReport> = Vec::new();
    let mut k: usize = 0;
    while k < streams.len()
        invariant
            0 <= k <= streams@.len(),
            flow_models(streams@) == ord,
            ord == order_streams(flow_scan(udp@, answered_ns, udp@.len() as int)),
            udp@ == st.udp,
            bytes_views(payloads@) == st.payloads,
            udp@.len() == payloads@.len(),
            udp@.len() * 99 <= usize::MAX,
            forall|q: int| 0 <= q < ord.len() ==> {
                let g = #[trigger] ord[q];
                &&& g.members.len() >= MIN_STREAM_PACKETS
                &&& g.members.len() <= udp@.len()
                &&& forall|t: int| 0 <= t < g.members.len() ==> 0 <= #[trigger] g.members[t] < udp@.len()
            },
            stream_report_models(reports@) == ord.take(k as int).map_values(|g: FlowModel| stream_model(st, g)),
        decreases streams@.len() - k,
    {
        let g = &streams[k];
        let ghost gm = ord[k as int];
        assert(g.model() == gm);
        assert(gm.members.len() == g.packets@.len());
        assert forall|t: int| 0 <= t < g.packets@.len() implies (#[trigger] g.packets@[t]) < udp@.len() by {
            assert(gm.members[t] == g.packets@[t] as int);
        }
        let facts = stream_facts(&udp, g);
        let mut ps: Vec<Vec<u8>> = Vec::new();
        let mut times: Vec<i64> = Vec::new();
        let mut t: usize = 0;
        while t < g.packets.len()
            invariant
                0 <= t <= g.packets@.len(),
                gm == g.model(),
                gm.members.len() == g.packets@.len(),
                forall|q: int| 0 <= q < g.packets@.len() ==> (#[trigger] g.packets@[q]) < udp@.len(),
                udp@.len() == payloads@.len(),
                bytes_views(ps@) == gm.members.take(t as int).map_values(|m: int| st.payloads[m]),
                i64_views(times@) == gm.members.take(t as int).map_values(|m: int| st.udp[m].time_ns as int),
                udp@ == st.udp,
                bytes_views(payloads@) == st.payloads,
            decreases g.packets@.len() - t,
        {
            let idx = g.packets[t];
            assert(gm.members[t as int] == idx as int);
            let p = payloads[idx].clone();
            assert(p@ =~= payloads@[idx as int]@);
            assert(bytes_views(payloads@)[idx as int] == payloads@[idx as int]@);
            let ghost ps0 = ps@;
            let ghost times0 = times@;
            ps.push(p);
            times.push(udp[idx].time_ns);
            assert(gm.members.take(t + 1) =~= gm.members.take(t as int).push(idx as int));
            assert(bytes_views(ps@) =~= bytes_views(ps0).push(p@));
            assert(i64_views(times@) =~= i64_views(times0).push(udp@[idx as int].time_ns as int));
            t = t + 1;
        }
        assert(gm.members.take(t as int) =~= gm.members);
        let sequence = analyze_rtp_sequence(&ps);
        let flow = copy_flow(g);
        let ghost reps0 = reports@;
        reports.push(StreamReport { flow, facts, sequence, times_ns: times });
        assert(ord.take(k + 1) =~= ord.take(k as int).push(gm));
        assert(stream_report_models(reports@) =~= stream_report_models(reps0).push(stream_model(st, gm)));
        k = k + 1;
    }
    assert(ord.take(k as int) =~= ord);
    let r = CaptureFacts {
        total_packets: n,
        duration_ns,
        sip_messages: sips,
        call_setup_ns,
        media_setup_ns: media,
        streams: reports,
    };
    let ghost spec = spec_capture(rs);
    proof {
        lemma_earliest_in_range(udp@, ord);
    }
    assert(r.model().total_packets == spec.total_packets);
    assert(r.model().duration_ns == spec.duration_ns);
    assert(r.model().sip_messages == spec.sip_messages);
    assert(r.model().call_setup_ns == spec.call_setup_ns);
    assert(r.model().media_setup_ns == spec.media_setup_ns);
    assert(r.model().streams == spec.streams);
    r
}

/// The facts of a capture from its bytes; an error where the bytes are not
/// a readable capture, or where it has more frames than the loss counters
/// can count.
pub fn capture_facts(bytes: &[u8]) -> (r: Result<CaptureFacts, CaptureError>)
    ensures
        match pcap_records(bytes@) {
            None => r matches Err(CaptureError::Unreadable),
            Some(rs) => if rs.len() * 99 > usize::MAX {
                r matches Err(CaptureError::TooLarge)
            } else {
                r matches Ok(f) && f.model() == spec_capture(rs)
            },
        },
{
    match read_pcap_records(bytes) {
        None => Err(CaptureError::Unreadable),
        Some(records) => {
            if records.len() > usize::MAX / 99 {
                Err(CaptureError::TooLarge)
            } else {
                Ok(capture_facts_of(&records))
            }
        },
    }
}

} // verus!

//! Grouping of captured UDP datagrams into media flows, and the order in
//! which the flows that look like RTP streams are reported.

use vstd::prelude::*;

verus! {

/// A UDP datagram as the stream analysis sees it: its endpoints, its time in
/// nanoseconds since the first captured frame, and its payload length.
#[derive(Debug, Clone, Copy)]
pub struct UdpRecord {
    pub src_ip: [u8; 4],
    pub src_port: u16,
    pub dst_ip: [u8; 4],
    pub dst_port: u16,
    pub time_ns: i64,
    pub payload_len: usize,
}

/// The endpoints that name a flow.
pub type FlowId = (Seq<u8>, u16, Seq<u8>, u16);

pub open spec fn flow_of(p: UdpRecord) -> FlowId {
    (p.src_ip@, p.src_port, p.dst_ip@, p.dst_port)
}

/// A datagram takes part in the analysis unless it came before the call was
/// answered (when that time is known).
pub open spec fn admitted(p: UdpRecord, answered_ns: Option<i64>) -> bool {
    match answered_ns {
        Some(a) => p.time_ns >= a,
        None => true,
    }
}

/// Mathematical form of a flow: its endpoints and the positions of its
/// datagrams in the capture, in capture order.
pub struct FlowModel {
    pub key: FlowId,
    pub members: Seq<int>,
}

/// First flow at or after `i` with endpoints `k`.
pub open spec fn find_flow(gs: Seq<FlowModel>, k: FlowId, i: int) -> Option<int>
    decreases gs.len() - i,
{
    if i < 0 || i >= gs.len() {
        None
    } else if gs[i].key == k {
        Some(i)
    } else {
        find_flow(gs, k, i + 1)
    }
}

/// The datagram at position `i` added to the flows: appended to the flow of
/// its endpoints, or starting a new flow at the end; one that is not
/// admitted changes nothing.
pub open spec fn flow_step(gs: Seq<FlowModel>, ps: Seq<UdpRecord>, i: int, answered_ns: Option<i64>) -> Seq<FlowModel> {
    let p = ps[i];
    if !admitted(p, answered_ns) {
        gs
    } else {
        match find_flow(gs, flow_of(p), 0) {
            Some(j) => gs.update(j, FlowModel { key: gs[j].key, members: gs[j].members.push(i) }),
            None => gs.push(FlowModel { key: flow_of(p), members: seq![i] }),
        }
    }
}

/// The flows of the first `n` datagrams, in the order their endpoints first
/// appear.
pub open spec fn flow_scan(ps: Seq<UdpRecord>, answered_ns: Option<i64>, n: int) -> Seq<FlowModel>
    decreases n,
{
    if n <= 0 {
        Seq::empty()
    } else {
        flow_step(flow_scan(ps, answered_ns, n - 1), ps, n - 1, answered_ns)
    }
}

/// A flow of the analysis, with the positions of its datagrams in the
/// capture.
#[derive(Debug, Clone)]
pub struct FlowGroup {
    pub src_ip: [u8; 4],
    pub src_port: u16,
    pub dst_ip: [u8; 4],
    pub dst_port: u16,
    pub packets: Vec<usize>,
}

impl FlowGroup {
    pub open spec fn model(self) -> FlowModel {
        FlowModel {
            key: (self.src_ip@, self.src_port, self.dst_ip@, self.dst_port),
            members: self.packets@.map_values(|x: usize| x as int),
        }
    }
}

pub open spec fn flow_models(gs: Seq<FlowGroup>) -> Seq<FlowModel> {
    gs.map_values(|g: FlowGroup| g.model())
}

proof fn lemma_find_flow(gs: Seq<FlowModel>, k: FlowId, i: int)
    requires
        0 <= i,
    ensures
        match find_flow(gs, k, i) {
            Some(x) => i <= x < gs.len() && gs[x].key == k && forall|j: int| i <= j < x ==> gs[j].key != k,
            None => forall|j: int| i <= j < gs.len() ==> gs[j].key != k,
        },
    decreases gs.len() - i,
{
    if i < gs.len() && gs[i].key != k {
        lemma_find_flow(gs, k, i + 1);
    }
}

/// Whether a datagram belongs to a flow's endpoints.
fn same_endpoints(g: &FlowGroup, p: &UdpRecord) -> (r: bool)
    ensures
        r == (g.model().key == flow_of(*p)),
{
    let r = g.src_port == p.src_port && g.dst_port == p.dst_port && g.src_ip[0] == p.src_ip[0]
        && g.src_ip[1] == p.src_ip[1] && g.src_ip[2] == p.src_ip[2] && g.src_ip[3] == p.src_ip[3]
        && g.dst_ip[0] == p.dst_ip[0] && g.dst_ip[1] == p.dst_ip[1] && g.dst_ip[2] == p.dst_ip[2]
        && g.dst_ip[3] == p.dst_ip[3];
    proof {
        if r {
            assert(g.src_ip@ =~= p.src_ip@);
            assert(g.dst_ip@ =~= p.dst_ip@);
        } else {
            if g.model().key == flow_of(*p) {
                assert(g.src_ip@[0] == p.src_ip@[0] && g.src_ip@[1] == p.src_ip@[1]);
                assert(g.src_ip@[2] == p.src_ip@[2] && g.src_ip@[3] == p.src_ip@[3]);
                assert(g.dst_ip@[0] == p.dst_ip@[0] && g.dst_ip@[1] == p.dst_ip@[1]);
                assert(g.dst_ip@[2] == p.dst_ip@[2] && g.dst_ip@[3] == p.dst_ip@[3]);
            }
        }
    }
    r
}

fn find_flow_exec(groups: &Vec<FlowGroup>, p: &UdpRecord) -> (res: Option<usize>)
    ensures
        match res {
            Some(x) => find_flow(flow_models(groups@), flow_of(*p), 0) == Some(x as int),
            None => find_flow(flow_models(groups@), flow_of(*p), 0) is None,
        },
{
    let ghost gm = flow_models(groups@);
    let mut idx: usize = 0;
    while idx < groups.len()
        invariant
            0 <= idx <= groups.len(),
            gm == flow_models(groups@),
            find_flow(gm, flow_of(*p), 0) == find_flow(gm, flow_of(*p), idx as int),
        decreases groups.len() - idx,
    {
        assert(gm[idx as int] == groups@[idx as int].model());
        if same_endpoints(&groups[idx], p) {
            return Some(idx);
        }
        idx = idx + 1;
    }
    None
}

/// Group the datagrams into flows by their endpoints, leaving out those that
/// came before the call was answered; the flows come in the order their
/// endpoints first appear, each with the positions of its datagrams in
/// capture order.
pub fn group_udp_flows(records: &Vec<UdpRecord>, answered_ns: Option<i64>) -> (groups: Vec<FlowGroup>)
    ensures
        flow_models(groups@) == flow_scan(records@, answered_ns, records@.len() as int),
{
    let ghost ps = records@;
    let mut groups: Vec<FlowGroup> = Vec::new();
    let mut i: usize = 0;
    assert(flow_models(groups@) =~= Seq::<FlowModel>::empty());
    while i < records.len()
        invariant
            0 <= i <= records.len(),
            ps == records@,
            flow_models(groups@) == flow_scan(ps, answered_ns, i as int),
        decreases records.len() - i,
    {
        let ghost gm = flow_models(groups@);
        let p = records[i];
        let keep = match answered_ns {
            Some(a) => p.time_ns >= a,
            None => true,
        };
        if keep {
            let found = find_flow_exec(&groups, &p);
            proof {
                lemma_find_flow(gm, flow_of(p), 0);
            }
            match found {
                Some(x) => {
                    let ghost old_groups = groups@;
                    let g = &groups[x];
                    let mut members = g.packets.clone();
                    members.push(i);
                    let ng = FlowGroup {
                        src_ip: g.src_ip,
                        src_port: g.src_port,
                        dst_ip: g.dst_ip,
                        dst_port: g.dst_port,
                        packets: members,
                    };
                    proof {
                        assert(ng.model().members =~= gm[x as int].members.push(i as int));
                        assert(ng.model().key == gm[x as int].key);
                    }
                    groups.set(x, ng);
                    proof {
                        assert(flow_models(groups@) =~= gm.update(
                            x as int,
                            FlowModel { key: gm[x as int].key, members: gm[x as int].members.push(i as int) },
                        ));
                    }
                },
                None => {
                    let mut members: Vec<usize> = Vec::new();
                    members.push(i);
                    let ng = FlowGroup {
                        src_ip: p.src_ip,
                        src_port: p.src_port,
                        dst_ip: p.dst_ip,
                        dst_port: p.dst_port,
                        packets: members,
                    };
                    proof {
                        assert(ng.model().members =~= seq![i as int]);
                    }
                    groups.push(ng);
                    proof {
                        assert(flow_models(groups@) =~= gm.push(FlowModel { key: flow_of(p), members: seq![i as int] }));
                    }
                },
            }
        }
        i = i + 1;
    }
    groups
}

/// Least number of datagrams of a flow reported as an RTP stream.
pub const MIN_STREAM_PACKETS: usize = 10;

/// Position at which a flow with `c` datagrams goes in a list ordered by
/// size, largest first: after every flow with at least as many.
pub open spec fn stream_pos(s: Seq<FlowModel>, c: nat) -> int
    decreases s.len(),
{
    if s.len() == 0 {
        0
    } else if s[0].members.len() >= c {
        1 + stream_pos(s.drop_first(), c)
    } else {
        0
    }
}

/// The flows with at least the least number of datagrams, ordered by their
/// number of datagrams, largest first; flows of equal size keep their order.
pub open spec fn order_streams(gs: Seq<FlowModel>) -> Seq<FlowModel>
    decreases gs.len(),
{
    if gs.len() == 0 {
        Seq::empty()
    } else {
        let s = order_streams(gs.drop_last());
        let g = gs.last();
        if g.members.len() >= MIN_STREAM_PACKETS {
            s.insert(stream_pos(s, g.members.len()), g)
        } else {
            s
        }
    }
}

pub(crate) fn copy_flow(g: &FlowGroup) -> (r: FlowGroup)
    ensures
        r.model() == g.model(),
        r.packets@ == g.packets@,
{
    let r = FlowGroup {
        src_ip: g.src_ip,
        src_port: g.src_port,
        dst_ip: g.dst_ip,
        dst_port: g.dst_port,
        packets: g.packets.clone(),
    };
    assert(r.model().members =~= g.model().members);
    r
}

/// The flows reported as RTP streams: those with at least ten datagrams,
/// largest first, flows of equal size in the order they were given.
pub fn order_rtp_streams(groups: &Vec<FlowGroup>) -> (streams: Vec<FlowGroup>)
    ensures
        flow_models(streams@) == order_streams(flow_models(groups@)),
{
    let ghost gm = flow_models(groups@);
    let mut sorted: Vec<FlowGroup> = Vec::new();
    let ghost mut sm: Seq<FlowModel> = Seq::empty();
    let mut k: usize = 0;
    assert(gm.take(0) =~= Seq::<FlowModel>::empty());
    assert(flow_models(sorted@) =~= sm);
    while k < groups.len()
        invariant
            0 <= k <= groups@.len(),
            gm == flow_models(groups@),
            sm == order_streams(gm.take(k as int)),
            flow_models(sorted@) == sm,
        decreases groups@.len() - k,
    {
        let g = copy_flow(&groups[k]);
        let c = g.packets.len();
        assert(gm.take(k + 1).drop_last() =~= gm.take(k as int));
        assert(gm.take(k + 1).last() == gm[k as int]);
        assert(gm[k as int] == g.model());
        assert(g.model().members.len() == c);
        if c >= MIN_STREAM_PACKETS {
            let mut p: usize = 0;
            assert(sm.skip(0) =~= sm);
            while p < sorted.len() && sorted[p].packets.len() >= c
                invariant
                    0 <= p <= sorted@.len(),
                    flow_models(sorted@) == sm,
                    stream_pos(sm, c as nat) == p + stream_pos(sm.skip(p as int), c as nat),
                decreases sorted@.len() - p,
            {
                assert(sm[p as int] == sorted@[p as int].model());
                assert(sm.skip(p as int)[0] == sm[p as int]);
                assert(sm.skip(p as int).drop_first() =~= sm.skip(p + 1));
                p = p + 1;
            }
            proof {
                if p < sorted@.len() {
                    assert(sm[p as int] == sorted@[p as int].model());
                    assert(sm.skip(p as int)[0] == sm[p as int]);
                }
                assert(stream_pos(sm.skip(p as int), c as nat) == 0);
            }
            let ghost old_sorted = sorted@;
            let ghost item = g.model();
            sorted.insert(p, g);
            proof {
                sm = sm.insert(p as int, item);
                assert(flow_models(sorted@) =~= sm);
            }
        }
        k = k + 1;
    }
    assert(gm.take(k as int) =~= gm);
    sorted
}

/// The flows with at least the least number of datagrams, in their order.
pub open spec fn big_flows(gs: Seq<FlowModel>) -> Seq<FlowModel>
    decreases gs.len(),
{
    if gs.len() == 0 {
        Seq::empty()
    } else if gs.last().members.len() >= MIN_STREAM_PACKETS {
        big_flows(gs.drop_last()).push(gs.last())
    } else {
        big_flows(gs.drop_last())
    }
}

/// The flows are ordered by their number of datagrams, largest first.
pub open spec fn streams_sorted(s: Seq<FlowModel>) -> bool {
    forall|i: int, j: int| 0 <= i < j < s.len() ==> s[i].members.len() >= s[j].members.len()
}

proof fn lemma_stream_pos(s: Seq<FlowModel>, c: nat)
    requires
        streams_sorted(s),
    ensures
        0 <= stream_pos(s, c) <= s.len(),
        forall|i: int| 0 <= i < stream_pos(s, c) ==> s[i].members.len() >= c,
        forall|i: int| stream_pos(s, c) <= i < s.len() ==> s[i].members.len() < c,
    decreases s.len(),
{
    if s.len() > 0 {
        if s[0].members.len() >= c {
            let r = s.drop_first();
            assert(streams_sorted(r)) by {
                assert forall|i: int, j: int| 0 <= i < j < r.len() implies r[i].members.len() >= r[j].members.len() by {
                    assert(r[i] == s[i + 1] && r[j] == s[j + 1]);
                }
            }
            lemma_stream_pos(r, c);
            assert forall|i: int| 0 <= i < stream_pos(s, c) implies s[i].members.len() >= c by {
                if i > 0 {
                    assert(s[i] == r[i - 1]);
                }
            }
            assert forall|i: int| stream_pos(s, c) <= i < s.len() implies s[i].members.len() < c by {
                assert(s[i] == r[i - 1]);
            }
        } else {
            assert forall|i: int| 0 <= i < s.len() implies s[i].members.len() < c by {
                if i > 0 {
                    assert(s[0].members.len() >= s[i].members.len());
                }
            }
        }
    }
}

/// The reported streams are ordered by their number of datagrams, largest
/// first; each has at least ten datagrams; and they are exactly the flows
/// with at least ten datagrams.
pub proof fn lemma_order_streams(gs: Seq<FlowModel>)
    ensures
        streams_sorted(order_streams(gs)),
        forall|i: int| 0 <= i < order_streams(gs).len() ==> (#[trigger] order_streams(gs)[i]).members.len() >= MIN_STREAM_PACKETS,
        order_streams(gs).to_multiset() == big_flows(gs).to_multiset(),
    decreases gs.len(),
{
    broadcast use vstd::seq_lib::to_multiset_insert, vstd::seq_lib::to_multiset_build;

    if gs.len() > 0 {
        let x = gs.last();
        lemma_order_streams(gs.drop_last());
        let s = order_streams(gs.drop_last());
        if x.members.len() >= MIN_STREAM_PACKETS {
            let p = stream_pos(s, x.members.len());
            lemma_stream_pos(s, x.members.len());
            let r = s.insert(p, x);
            assert(r == order_streams(gs));
            assert forall|i: int, j: int| 0 <= i < j < r.len() implies r[i].members.len() >= r[j].members.len() by {
                if j < p {
                    assert(r[i] == s[i] && r[j] == s[j]);
                } else if j == p {
                    assert(r[i] == s[i]);
                } else if i < p {
                    assert(r[i] == s[i] && r[j] == s[j - 1]);
                } else if i == p {
                    assert(r[j] == s[j - 1]);
                } else {
                    assert(r[i] == s[i - 1] && r[j] == s[j - 1]);
                }
            }
            assert forall|i: int| 0 <= i < r.len() implies (#[trigger] r[i]).members.len() >= MIN_STREAM_PACKETS by {
                if i < p {
                    assert(r[i] == s[i]);
                } else if i > p {
                    assert(r[i] == s[i - 1]);
                }
            }
        }
    }
}

/// Flow `j` has the datagram at position `m`.
pub open spec fn in_flow(gs: Seq<FlowModel>, j: int, m: int) -> bool {
    0 <= j < gs.len() && gs[j].members.contains(m)
}

/// The flows of the first `n` datagrams partition the admitted ones: the
/// flows have distinct endpoints; each lists, in increasing order, datagrams
/// among the first `n` that were admitted and have its endpoints; and every
/// admitted datagram among the first `n` is in the flow of its endpoints.
pub proof fn lemma_flow_scan(ps: Seq<UdpRecord>, answered_ns: Option<i64>, n: int)
    requires
        0 <= n <= ps.len(),
    ensures
        forall|a: int, b: int|
            0 <= a < b < flow_scan(ps, answered_ns, n).len() ==> (#[trigger] flow_scan(ps, answered_ns, n)[a]).key
                != (#[trigger] flow_scan(ps, answered_ns, n)[b]).key,
        forall|j: int, t: int|
            0 <= j < flow_scan(ps, answered_ns, n).len() && 0 <= t < flow_scan(ps, answered_ns, n)[j].members.len() ==> {
                let m = #[trigger] flow_scan(ps, answered_ns, n)[j].members[t];
                &&& 0 <= m < n
                &&& admitted(ps[m], answered_ns)
                &&& flow_of(ps[m]) == flow_scan(ps, answered_ns, n)[j].key
            },
        forall|j: int, t: int, u: int|
            0 <= j < flow_scan(ps, answered_ns, n).len() && 0 <= t < u < flow_scan(ps, answered_ns, n)[j].members.len()
                ==> #[trigger] flow_scan(ps, answered_ns, n)[j].members[t] < #[trigger] flow_scan(
                ps,
                answered_ns,
                n,
            )[j].members[u],
        forall|m: int|
            0 <= m < n && admitted(#[trigger] ps[m], answered_ns) ==> exists|j: int|
                0 <= j < flow_scan(ps, answered_ns, n).len() && flow_scan(ps, answered_ns, n)[j].key == flow_of(ps[m])
                    && #[trigger] flow_scan(ps, answered_ns, n)[j].members.contains(m),
    decreases n,
{
    if n > 0 {
        lemma_flow_scan(ps, answered_ns, n - 1);
        let gs = flow_scan(ps, answered_ns, n - 1);
        let r = flow_scan(ps, answered_ns, n);
        let i = n - 1;
        let p = ps[i];
        if admitted(p, answered_ns) {
            lemma_find_flow(gs, flow_of(p), 0);
            match find_flow(gs, flow_of(p), 0) {
                Some(x) => {
                    assert(r == gs.update(x, FlowModel { key: gs[x].key, members: gs[x].members.push(i) }));
                    assert forall|j: int, t: int|
                        0 <= j < r.len() && 0 <= t < r[j].members.len() implies {
                        let m = #[trigger] r[j].members[t];
                        &&& 0 <= m < n
                        &&& admitted(ps[m], answered_ns)
                        &&& flow_of(ps[m]) == r[j].key
                    } by {
                        if j == x && t == gs[x].members.len() {
                        } else {
                            assert(r[j].members[t] == gs[j].members[t]);
                        }
                    }
                    assert forall|j: int, t: int, u: int|
                        0 <= j < r.len() && 0 <= t < u < r[j].members.len() implies #[trigger] r[j].members[t]
                            < #[trigger] r[j].members[u] by {
                        if j == x && u == gs[x].members.len() {
                            assert(r[j].members[t] == gs[j].members[t]);
                        } else {
                            assert(r[j].members[t] == gs[j].members[t]);
                            assert(r[j].members[u] == gs[j].members[u]);
                        }
                    }
                    assert forall|m: int| 0 <= m < n && admitted(#[trigger] ps[m], answered_ns) implies exists|j: int|
                        0 <= j < r.len() && r[j].key == flow_of(ps[m]) && #[trigger] r[j].members.contains(m) by {
                        if m == i {
                            assert(r[x].members[gs[x].members.len() as int] == m);
                            assert(r[x].members.contains(m));
                        } else {
                            let j = choose|j: int|
                                0 <= j < gs.len() && gs[j].key == flow_of(ps[m]) && #[trigger] gs[j].members.contains(m);
                            let t = choose|t: int| 0 <= t < gs[j].members.len() && gs[j].members[t] == m;
                            assert(r[j].members[t] == m);
                            assert(r[j].members.contains(m));
                        }
                    }
                },
                None => {
                    assert(r == gs.push(FlowModel { key: flow_of(p), members: seq![i] }));
                    assert forall|a: int, b: int| 0 <= a < b < r.len() implies (#[trigger] r[a]).key != (#[trigger] r[b]).key by {
                        if b == gs.len() {
                            assert(r[a] == gs[a]);
                        } else {
                            assert(r[a] == gs[a] && r[b] == gs[b]);
                        }
                    }
                    assert forall|j: int, t: int|
                        0 <= j < r.len() && 0 <= t < r[j].members.len() implies {
                        let m = #[trigger] r[j].members[t];
                        &&& 0 <= m < n
                        &&& admitted(ps[m], answered_ns)
                        &&& flow_of(ps[m]) == r[j].key
                    } by {
                        if j < gs.len() {
                            assert(r[j] == gs[j]);
                        }
                    }
                    assert forall|j: int, t: int, u: int|
                        0 <= j < r.len() && 0 <= t < u < r[j].members.len() implies #[trigger] r[j].members[t]
                            < #[trigger] r[j].members[u] by {
                        assert(r[j] == gs[j]);
                    }
                    assert forall|m: int| 0 <= m < n && admitted(#[trigger] ps[m], answered_ns) implies exists|j: int|
                        0 <= j < r.len() && r[j].key == flow_of(ps[m]) && #[trigger] r[j].members.contains(m) by {
                        if m == i {
                            assert(r[gs.len() as int].members[0] == m);
                            assert(r[gs.len() as int].members.contains(m));
                        } else {
                            let j = choose|j: int|
                                0 <= j < gs.len() && gs[j].key == flow_of(ps[m]) && #[trigger] gs[j].members.contains(m);
                            assert(r[j] == gs[j]);
                        }
                    }
                },
            }
        } else {
            assert(r == gs);
            assert forall|m: int| 0 <= m < n && admitted(#[trigger] ps[m], answered_ns) implies exists|j: int|
                0 <= j < r.len() && r[j].key == flow_of(ps[m]) && #[trigger] r[j].members.contains(m) by {
                assert(m != i);
            }
        }
    }
}

/// Sum of the payload lengths of the datagrams at the given positions.
pub open spec fn payload_total(ps: Seq<UdpRecord>, members: Seq<int>) -> int
    decreases members.len(),
{
    if members.len() == 0 {
        0
    } else {
        payload_total(ps, members.drop_last()) + ps[members.last()].payload_len
    }
}

/// The integer facts of a reported stream.
#[derive(Debug, Clone, Copy, PartialEq, Eq, Structural)]
pub struct StreamFacts {
    /// The source port is above the destination port (the higher port is
    /// taken to be the client's).
    pub outgoing: bool,
    pub packet_count: usize,
    /// Time of the stream's first and last datagram.
    pub first_ns: i64,
    pub last_ns: i64,
    /// Average payload length, rounded down.
    pub avg_payload: usize,
}

/// Direction, size, time span and average payload length of a flow.
pub fn stream_facts(records: &Vec<UdpRecord>, group: &FlowGroup) -> (f: StreamFacts)
    requires
        group.packets@.len() > 0,
        forall|t: int| 0 <= t < group.packets@.len() ==> (#[trigger] group.packets@[t]) < records@.len(),
    ensures
        f.outgoing == (group.src_port > group.dst_port),
        f.packet_count == group.packets@.len(),
        f.first_ns == records@[group.packets@[0] as int].time_ns,
        f.last_ns == records@[group.packets@.last() as int].time_ns,
        f.avg_payload == payload_total(records@, group.model().members) / (group.packets@.len() as int),
{
    let ghost ms = group.model().members;
    let n = group.packets.len();
    let mut total: u128 = 0;
    let mut k: usize = 0;
    while k < n
        invariant
            0 <= k <= n,
            n == group.packets@.len(),
            ms == group.model().members,
            ms.len() == n,
            forall|t: int| 0 <= t < group.packets@.len() ==> (#[trigger] group.packets@[t]) < records@.len(),
            total == payload_total(records@, ms.take(k as int)),
            total <= k * (usize::MAX as int),
        decreases n - k,
    {
        let idx = group.packets[k];
        let len = records[idx].payload_len;
        assert(ms.take(k + 1).drop_last() =~= ms.take(k as int));
        assert(ms.take(k + 1).last() == idx as int);
        assert(k * (usize::MAX as int) + (usize::MAX as int) == (k + 1) * (usize::MAX as int)) by (nonlinear_arith);
        assert((k + 1) * (usize::MAX as int) <= (usize::MAX as int) * (usize::MAX as int)) by (nonlinear_arith)
            requires
                k + 1 <= usize::MAX,
        ;
        assert((usize::MAX as int) * (usize::MAX as int) < 0x1_0000_0000_0000_0000_0000_0000_0000_0000) by (nonlinear_arith)
            requires
                usize::MAX <= 0xffff_ffff_ffff_ffff,
        ;
        total = total + len as u128;
        k = k + 1;
    }
    assert(ms.take(n as int) =~= ms);
    let avg = total / (n as u128);
    assert(avg <= usize::MAX) by (nonlinear_arith)
        requires
            total <= n * (usize::MAX as int),
            n > 0,
            avg as int == (total as int) / (n as int),
    ;
    let first = group.packets[0];
    let last = group.packets[n - 1];
    StreamFacts {
        outgoing: group.src_port > group.dst_port,
        packet_count: n,
        first_ns: records[first].time_ns,
        last_ns: records[last].time_ns,
        avg_payload: avg as usize,
    }
}

/// Position of the first datagram at or after `i` with endpoints `k`.
pub open spec fn first_index(ps: Seq<UdpRecord>, k: FlowId, i: int) -> Option<int>
    decreases ps.len() - i,
{
    if i < 0 || i >= ps.len() {
        None
    } else if flow_of(ps[i]) == k {
        Some(i)
    } else {
        first_index(ps, k, i + 1)
    }
}

/// Time of the first captured datagram with endpoints `k`, whether or not it
/// was admitted.
pub open spec fn stream_start(ps: Seq<UdpRecord>, k: FlowId) -> Option<int> {
    match first_index(ps, k, 0) {
        Some(j) => Some(ps[j].time_ns as int),
        None => None,
    }
}

pub open spec fn min_opt(a: Option<int>, b: Option<int>) -> Option<int> {
    match (a, b) {
        (Some(x), Some(y)) => Some(if y < x { y } else { x }),
        (Some(x), None) => Some(x),
        (None, y) => y,
    }
}

/// The earliest start among the flows.
pub open spec fn earliest_start(ps: Seq<UdpRecord>, gs: Seq<FlowModel>) -> Option<int>
    decreases gs.len(),
{
    if gs.len() == 0 {
        None
    } else {
        min_opt(earliest_start(ps, gs.drop_last()), stream_start(ps, gs.last().key))
    }
}

fn flow_start(records: &Vec<UdpRecord>, group: &FlowGroup) -> (r: Option<i64>)
    ensures
        match r {
            Some(t) => stream_start(records@, group.model().key) == Some(t as int),
            None => stream_start(records@, group.model().key) is None,
        },
{
    let ghost k = group.model().key;
    let mut i: usize = 0;
    while i < records.len()
        invariant
            0 <= i <= records.len(),
            k == group.model().key,
            first_index(records@, k, 0) == first_index(records@, k, i as int),
        decreases records.len() - i,
    {
        let p = records[i];
        if same_endpoints(group, &p) {
            return Some(p.time_ns);
        }
        i = i + 1;
    }
    None
}

/// Time from the call being answered to the first media datagram of any of
/// the streams, in nanoseconds; none when the answer time is unknown or no
/// stream has a datagram.
pub fn media_setup_ns(records: &Vec<UdpRecord>, streams: &Vec<FlowGroup>, answered_ns: Option<i64>) -> (r: Option<i128>)
    ensures
        match answered_ns {
            None => r is None,
            Some(a) => match earliest_start(records@, flow_models(streams@)) {
                Some(t) => r == Some((t - a) as i128),
                None => r is None,
            },
        },
{
    let ghost gm = flow_models(streams@);
    let mut best: Option<i64> = None;
    let mut k: usize = 0;
    assert(gm.take(0) =~= Seq::<FlowModel>::empty());
    while k < streams.len()
        invariant
            0 <= k <= streams@.len(),
            gm == flow_models(streams@),
            match best {
                Some(t) => earliest_start(records@, gm.take(k as int)) == Some(t as int),
                None => earliest_start(records@, gm.take(k as int)) is None,
            },
        decreases streams@.len() - k,
    {
        let s = flow_start(records, &streams[k]);
        assert(gm.take(k + 1).drop_last() =~= gm.take(k as int));
        assert(gm.take(k + 1).last() == streams@[k as int].model());
        best = match (best, s) {
            (Some(x), Some(y)) => Some(if y < x { y } else { x }),
            (Some(x), None) => Some(x),
            (None, y) => y,
        };
        k = k + 1;
    }
    assert(gm.take(k as int) =~= gm);
    match (answered_ns, best) {
        (Some(a), Some(t)) => Some(t as i128 - a as i128),
        _ => None,
    }
}

} // verus!

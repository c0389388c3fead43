//! Packet capture decoding: link, IPv4, TCP and UDP headers of captured
//! frames, RTP sequence-number analysis, and the text fields of SIP
//! messages.

use vstd::prelude::*;
use vstd::view::View as _;
use crate::strings::{concat_str, decimal, u64_to_decimal};

verus! {

/// What the capture analysis takes from one captured frame.
pub enum DecodedPacket {
    /// Not an IPv4 TCP segment with payload nor an IPv4 UDP datagram.
    Skipped,
    /// TCP payload (where SIP signalling is looked for).
    Tcp { src_ip: [u8; 4], dst_ip: [u8; 4], payload: Vec<u8> },
    /// UDP payload (where RTP media is looked for).
    Udp { src_ip: [u8; 4], src_port: u16, dst_ip: [u8; 4], dst_port: u16, payload: Vec<u8> },
}

/// Mathematical form of a decoded frame.
pub enum PacketModel {
    Skipped,
    Tcp { src_ip: Seq<u8>, dst_ip: Seq<u8>, payload: Seq<u8> },
    Udp { src_ip: Seq<u8>, src_port: int, dst_ip: Seq<u8>, dst_port: int, payload: Seq<u8> },
}

impl DecodedPacket {
    pub open spec fn model(self) -> PacketModel {
        match self {
            DecodedPacket::Skipped => PacketModel::Skipped,
            DecodedPacket::Tcp { src_ip, dst_ip, payload } => PacketModel::Tcp {
                src_ip: src_ip@,
                dst_ip: dst_ip@,
                payload: payload@,
            },
            DecodedPacket::Udp { src_ip, src_port, dst_ip, dst_port, payload } => PacketModel::Udp {
                src_ip: src_ip@,
                src_port: src_port as int,
                dst_ip: dst_ip@,
                dst_port: dst_port as int,
                payload: payload@,
            },
        }
    }
}

/// Offset of the IPv4 header: 16 bytes after a Linux cooked-capture header
/// (first byte 0, second 0 or 4, and more than 16 bytes), otherwise 14
/// bytes after an Ethernet header; frames under 16 bytes are not decoded.
pub open spec fn link_offset(d: Seq<u8>) -> Option<int> {
    if d.len() < 16 {
        None
    } else if d.len() > 16 && d[0] == 0 && (d[1] == 0 || d[1] == 4) {
        Some(16)
    } else {
        Some(14)
    }
}

/// Big-endian 16-bit value of two bytes.
pub open spec fn be16(hi: u8, lo: u8) -> int {
    hi as int * 256 + lo as int
}

/// Decoding of a captured frame: an IPv4 header at the link offset (version
/// 4, header length from its low nibble), then a TCP segment (protocol 6,
/// at least 20 bytes, with payload after its data offset) or a UDP datagram
/// (protocol 17, at least 8 bytes, length field above 8; the payload runs to
/// the length field or to the end of the frame, whichever comes first).
pub open spec fn spec_decode_packet(d: Seq<u8>) -> PacketModel {
    match link_offset(d) {
        None => PacketModel::Skipped,
        Some(off) => {
            if d.len() < off + 20 {
                PacketModel::Skipped
            } else {
                let ip = d.subrange(off, d.len() as int);
                let ihl = (ip[0] % 16) as int * 4;
                if ip[0] / 16 != 4 || ip.len() < ihl {
                    PacketModel::Skipped
                } else {
                    let src = ip.subrange(12, 16);
                    let dst = ip.subrange(16, 20);
                    if ip[9] == 6 && ip.len() >= ihl + 20 {
                        let tcp = ip.subrange(ihl, ip.len() as int);
                        let thl = (tcp[12] / 16) as int * 4;
                        if tcp.len() > thl {
                            PacketModel::Tcp { src_ip: src, dst_ip: dst, payload: tcp.subrange(thl, tcp.len() as int) }
                        } else {
                            PacketModel::Skipped
                        }
                    } else if ip[9] == 17 && ip.len() >= ihl + 8 {
                        let udp = ip.subrange(ihl, ip.len() as int);
                        let ulen = be16(udp[4], udp[5]);
                        if ulen > 8 {
                            PacketModel::Udp {
                                src_ip: src,
                                src_port: be16(udp[0], udp[1]),
                                dst_ip: dst,
                                dst_port: be16(udp[2], udp[3]),
                                payload: if udp.len() >= ulen {
                                    udp.subrange(8, ulen)
                                } else {
                                    udp.subrange(8, udp.len() as int)
                                },
                            }
                        } else {
                            PacketModel::Skipped
                        }
                    } else {
                        PacketModel::Skipped
                    }
                }
            }
        },
    }
}

fn copy_range(d: &[u8], lo: usize, hi: usize) -> (v: Vec<u8>)
    requires
        lo <= hi <= d@.len(),
    ensures
        v@ == d@.subrange(lo as int, hi as int),
{
    let mut v: Vec<u8> = Vec::new();
    let mut i = lo;
    while i < hi
        invariant
            lo <= i <= hi <= d@.len(),
            v@ == d@.subrange(lo as int, i as int),
        decreases hi - i,
    {
        v.push(d[i]);
        proof {
            assert(d@.subrange(lo as int, i + 1) =~= d@.subrange(lo as int, i as int).push(d@[i as int]));
        }
        i = i + 1;
    }
    v
}

/// Decode the link, IPv4 and transport headers of a captured frame.
#[verifier::rlimit(50)]
pub fn decode_packet(data: &[u8]) -> (res: DecodedPacket)
    ensures
        res.model() == spec_decode_packet(data@),
{
    let ghost d = data@;
    if data.len() < 16 {
        return DecodedPacket::Skipped;
    }
    let off: usize = if data.len() > 16 && data[0] == 0 && (data[1] == 0 || data[1] == 4) {
        16
    } else {
        14
    };
    if data.len() < off + 20 {
        return DecodedPacket::Skipped;
    }
    let ghost ip = d.subrange(off as int, d.len() as int);
    let b0 = data[off];
    assert(ip[0] == b0);
    if b0 / 16 != 4 {
        return DecodedPacket::Skipped;
    }
    let ihl: usize = ((b0 % 16) as usize) * 4;
    let ip_len = data.len() - off;
    if ip_len < ihl {
        return DecodedPacket::Skipped;
    }
    let protocol = data[off + 9];
    assert(ip[9] == protocol);
    let src_ip: [u8; 4] = [data[off + 12], data[off + 13], data[off + 14], data[off + 15]];
    let dst_ip: [u8; 4] = [data[off + 16], data[off + 17], data[off + 18], data[off + 19]];
    assert(src_ip@ =~= ip.subrange(12, 16));
    assert(dst_ip@ =~= ip.subrange(16, 20));
    if protocol == 6 && ip_len >= ihl + 20 {
        let t = off + ihl;
        let ghost tcp = ip.subrange(ihl as int, ip.len() as int);
        assert(tcp[12] == data@[t + 12]);
        let thl: usize = ((data[t + 12] / 16) as usize) * 4;
        if data.len() - t > thl {
            let payload = copy_range(data, t + thl, data.len());
            assert(payload@ =~= tcp.subrange(thl as int, tcp.len() as int));
            return DecodedPacket::Tcp { src_ip, dst_ip, payload };
        }
        return DecodedPacket::Skipped;
    }
    if protocol == 17 && ip_len >= ihl + 8 {
        let u = off + ihl;
        let ghost udp = ip.subrange(ihl as int, ip.len() as int);
        assert(udp[0] == data@[u as int] && udp[1] == data@[u + 1] && udp[2] == data@[u + 2]);
        assert(udp[3] == data@[u + 3] && udp[4] == data@[u + 4] && udp[5] == data@[u + 5]);
        let src_port: u16 = (data[u] as u16) * 256 + (data[u + 1] as u16);
        let dst_port: u16 = (data[u + 2] as u16) * 256 + (data[u + 3] as u16);
        let udp_len: usize = (data[u + 4] as usize) * 256 + (data[u + 5] as usize);
        if udp_len > 8 {
            let avail = data.len() - u;
            let payload = if avail >= udp_len {
                copy_range(data, u + 8, u + udp_len)
            } else {
                copy_range(data, u + 8, data.len())
            };
            assert(avail >= udp_len ==> payload@ =~= udp.subrange(8, udp_len as int));
            assert(avail < udp_len ==> payload@ =~= udp.subrange(8, udp.len() as int));
            return DecodedPacket::Udp { src_ip, src_port, dst_ip, dst_port, payload };
        }
        return DecodedPacket::Skipped;
    }
    DecodedPacket::Skipped
}

/// Dotted-quad form of an IPv4 address.
pub open spec fn ip_text(ip: Seq<u8>) -> Seq<char> {
    decimal(ip[0] as nat) + "."@ + decimal(ip[1] as nat) + "."@ + decimal(ip[2] as nat) + "."@ + decimal(
        ip[3] as nat,
    )
}

/// Dotted-quad form of an IPv4 address ("a.b.c.d").
pub fn ip_to_string(ip: &[u8; 4]) -> (s: String)
    ensures
        s@ == ip_text(ip@),
{
    let mut s = u64_to_decimal(ip[0] as u64);
    s.append(".");
    let p = u64_to_decimal(ip[1] as u64);
    s.append(p.as_str());
    s.append(".");
    let p = u64_to_decimal(ip[2] as u64);
    s.append(p.as_str());
    s.append(".");
    let p = u64_to_decimal(ip[3] as u64);
    s.append(p.as_str());
    s
}

/// Name of a UDP flow: "src:port -> dst:port".
pub open spec fn flow_text(src_ip: Seq<u8>, src_port: int, dst_ip: Seq<u8>, dst_port: int) -> Seq<char> {
    ip_text(src_ip) + ":"@ + decimal(src_port as nat) + " -> "@ + ip_text(dst_ip) + ":"@ + decimal(dst_port as nat)
}

/// Name of a UDP flow: "src:port -> dst:port".
pub fn flow_key(src_ip: &[u8; 4], src_port: u16, dst_ip: &[u8; 4], dst_port: u16) -> (s: String)
    ensures
        s@ == flow_text(src_ip@, src_port as int, dst_ip@, dst_port as int),
{
    let mut s = ip_to_string(src_ip);
    s.append(":");
    let p = u64_to_decimal(src_port as u64);
    s.append(p.as_str());
    s.append(" -> ");
    let d = ip_to_string(dst_ip);
    s.append(d.as_str());
    s.append(":");
    let p = u64_to_decimal(dst_port as u64);
    s.append(p.as_str());
    s
}

} // verus!

verus! {

/// Packet-loss figures of an RTP stream.
#[derive(Debug, Clone, Copy, PartialEq, Eq, Structural)]
pub struct RtpSequenceStats {
    /// Packets missing from small forward gaps in the sequence numbers.
    pub lost: usize,
    /// Sequence numbers that went backwards.
    pub out_of_order: usize,
    /// Packets received plus packets lost.
    pub total_expected: usize,
}

/// Running state of the sequence analysis.
pub struct SeqState {
    pub lost: int,
    pub out_of_order: int,
    pub prev: Option<int>,
}

/// An RTP header: at least four bytes with version 2 in the top two bits.
pub open spec fn is_rtp(p: Seq<u8>) -> bool {
    p.len() >= 4 && p[0] / 64 == 2
}

/// One packet of the sequence analysis: for an RTP packet, a jump of the
/// sequence number (modulo 2^16) by 2 to 99 counts the skipped numbers as
/// lost, a jump above 65000 counts as out of order, and the number becomes
/// the previous one; other packets change nothing.
pub open spec fn seq_step(st: SeqState, p: Seq<u8>) -> SeqState {
    if is_rtp(p) {
        let seq = be16(p[2], p[3]);
        match st.prev {
            Some(prev) => {
                let gap = (seq - prev + 65536) % 65536;
                if seq != (prev + 1) % 65536 && 1 < gap < 100 {
                    SeqState { lost: st.lost + gap - 1, prev: Some(seq), ..st }
                } else if seq != (prev + 1) % 65536 && gap > 65000 {
                    SeqState { out_of_order: st.out_of_order + 1, prev: Some(seq), ..st }
                } else {
                    SeqState { prev: Some(seq), ..st }
                }
            },
            None => SeqState { prev: Some(seq), ..st },
        }
    } else {
        st
    }
}

pub open spec fn seq_fold(ps: Seq<Seq<u8>>) -> SeqState
    decreases ps.len(),
{
    if ps.len() == 0 {
        SeqState { lost: 0, out_of_order: 0, prev: None }
    } else {
        seq_step(seq_fold(ps.drop_last()), ps.last())
    }
}

pub open spec fn bytes_views(ps: Seq<Vec<u8>>) -> Seq<Seq<u8>> {
    ps.map_values(|p: Vec<u8>| p@)
}

/// Loss figures of a stream: none for fewer than two packets, otherwise the
/// result of the sequence analysis over all packets in order.
pub open spec fn spec_rtp_sequence(ps: Seq<Seq<u8>>) -> (int, int, int) {
    if ps.len() < 2 {
        (0, 0, 0)
    } else {
        let st = seq_fold(ps);
        (st.lost, st.out_of_order, ps.len() + st.lost)
    }
}

/// Count lost and out-of-order packets of an RTP stream from its payloads
/// in arrival order.
#[verifier::rlimit(60)]
#[verifier::spinoff_prover]
pub fn analyze_rtp_sequence(payloads: &Vec<Vec<u8>>) -> (res: RtpSequenceStats)
    requires
        payloads@.len() * 99 <= usize::MAX,
    ensures
        (res.lost as int, res.out_of_order as int, res.total_expected as int) == spec_rtp_sequence(bytes_views(payloads@)),
{
    let ghost pv = bytes_views(payloads@);
    if payloads.len() < 2 {
        return RtpSequenceStats { lost: 0, out_of_order: 0, total_expected: 0 };
    }
    let mut lost: usize = 0;
    let mut out_of_order: usize = 0;
    let mut prev: Option<u16> = None;
    let mut i: usize = 0;
    while i < payloads.len()
        invariant
            0 <= i <= payloads.len(),
            pv == bytes_views(payloads@),
            payloads@.len() * 99 <= usize::MAX,
            ({
                let st = seq_fold(pv.take(i as int));
                &&& st.lost == lost
                &&& st.out_of_order == out_of_order
                &&& st.prev == match prev { Some(v) => Some(v as int), None => None }
            }),
            lost <= 98 * i,
            out_of_order <= i,
        decreases payloads.len() - i,
    {
        let p = &payloads[i];
        proof {
            assert(pv.take(i + 1).drop_last() =~= pv.take(i as int));
            assert(pv.take(i + 1).last() == p@);
        }
        if p.len() >= 4 {
            let b0 = p[0];
            let version = (b0 >> 6) & 0x03;
            assert(version == b0 / 64) by (bit_vector)
                requires version == (b0 >> 6) & 0x03;
            if version == 2 {
                let seq: u16 = (p[2] as u16) * 256 + (p[3] as u16);
                match prev {
                    Some(pr) => {
                        let expected = pr.wrapping_add(1);
                        if seq != expected {
                            let gap = seq.wrapping_sub(pr);
                            if gap > 1 && gap < 100 {
                                lost = lost + (gap - 1) as usize;
                            } else if gap > 65000 {
                                out_of_order = out_of_order + 1;
                            }
                        }
                    },
                    None => {},
                }
                prev = Some(seq);
            }
        }
        i = i + 1;
    }
    assert(pv.take(i as int) =~= pv);
    RtpSequenceStats { lost, out_of_order, total_expected: payloads.len() + lost }
}

} // verus!

verus! {

use crate::strings::{
    before_char, byte_len, chars_before, chars_contains, chars_of, chars_range, chars_starts_with,
    chars_views, contains_seq, find_char, first_index_of, is_ascii_digit, lines_of, split_lines,
    split_words, starts_with, str_byte_len, string_from_chars, suffix_bytes_str, trim, trim_chars,
    words_of, lowercase, to_lowercase,
};
use vstd::utf8::{decode_utf8, encode_utf8, is_char_boundary, valid_utf8};

/// The phone number in a SIP address: the user part between the first ':'
/// and the following '@' (as in "<sip:+15551234567@host>"), otherwise its
/// digits and '+' signs when there are at least ten of them, otherwise the
/// address itself.
pub open spec fn spec_phone_number(uri: Seq<char>) -> Seq<char> {
    let colon = first_index_of(uri, ':');
    let at = match colon {
        Some(s) => first_index_of(uri.subrange(s + 1, uri.len() as int), '@'),
        None => None,
    };
    if colon is Some && at is Some {
        uri.subrange(colon->0 + 1, uri.len() as int).take(at->0)
    } else {
        let digits = uri.filter(|c: char| is_ascii_digit(c) || c == '+');
        if digits.len() >= 10 { digits } else { uri }
    }
}

/// Extract phone number from SIP URI.
pub fn extract_phone_number(uri: &str) -> (res: String)
    ensures
        res@ == spec_phone_number(uri@),
{
    let v = chars_of(uri);
    let colon = find_char(&v, ':');
    if let Some(start) = colon {
        assert(start < v.len());
        let rest = chars_range(&v, start + 1, v.len());
        if let Some(end) = find_char(&rest, '@') {
            let r = chars_range(&rest, 0, end);
            assert(r@ =~= rest@.take(end as int));
            return string_from_chars(r.as_slice());
        }
    }
    let mut digits: Vec<char> = Vec::new();
    let mut i: usize = 0;
    while i < v.len()
        invariant
            0 <= i <= v.len(),
            v@ == uri@,
            digits@ == v@.take(i as int).filter(|c: char| is_ascii_digit(c) || c == '+'),
        decreases v.len() - i,
    {
        let c = v[i];
        proof {
            assert(v@.take(i + 1).drop_last() =~= v@.take(i as int));
            reveal_with_fuel(Seq::filter, 1);
        }
        if ('0' <= c && c <= '9') || c == '+' {
            digits.push(c);
        }
        i = i + 1;
    }
    assert(v@.take(i as int) =~= v@);
    if digits.len() >= 10 {
        string_from_chars(digits.as_slice())
    } else {
        String::from_str(uri)
    }
}

/// The method or status of a SIP start line: for a response
/// ("SIP/2.0 200 OK") the code, and after a space the reason up to any
/// carriage return; for a request ("INVITE sip:... SIP/2.0") its first word.
pub open spec fn spec_sip_method(first: Seq<char>) -> Option<Seq<char>> {
    if starts_with(first, "SIP/2.0"@) {
        match first_index_of(first, ' ') {
            None => None,
            Some(a) => {
                let r1 = first.subrange(a + 1, first.len() as int);
                match first_index_of(r1, ' ') {
                    None => Some(r1),
                    Some(b) => Some(r1.take(b) + " "@ + before_char(r1.subrange(b + 1, r1.len() as int), '\r')),
                }
            },
        }
    } else if contains_seq(first, "SIP/2.0"@) {
        if words_of(first).len() > 0 { Some(words_of(first)[0]) } else { None }
    } else {
        None
    }
}

/// Parse the method or status code from a SIP start line.
pub fn sip_method(first: &Vec<char>) -> (res: Option<String>)
    ensures
        match res {
            Some(m) => spec_sip_method(first@) == Some(m@),
            None => spec_sip_method(first@) is None,
        },
{
    let marker = chars_of("SIP/2.0");
    if chars_starts_with(first, &marker) {
        let space = find_char(first, ' ');
        match space {
            None => None,
            Some(a) => {
                assert(a < first.len());
                let r1 = chars_range(first, a + 1, first.len());
                match find_char(&r1, ' ') {
                    None => Some(string_from_chars(r1.as_slice())),
                    Some(b) => {
                        let code = chars_range(&r1, 0, b);
                        assert(code@ =~= r1@.take(b as int));
                        let rest = chars_range(&r1, b + 1, r1.len());
                        let reason = chars_before(&rest, '\r');
                        let mut m = string_from_chars(code.as_slice());
                        m.push(' ');
                        let rs = string_from_chars(reason.as_slice());
                        m.append(rs.as_str());
                        assert(m@ =~= code@ + " "@ + reason@) by {
                            reveal_strlit(" ");
                        }
                        Some(m)
                    },
                }
            },
        }
    } else if chars_contains(first, &marker) {
        let words = split_words(first);
        if words.len() > 0 {
            assert(chars_views(words@)[0] == words@[0]@);
            Some(string_from_chars(words[0].as_slice()))
        } else {
            None
        }
    } else {
        None
    }
}


/// `std::str::from_utf8`: the text of the bytes when they are valid UTF-8.
#[verifier::external_body]
fn utf8_text(bytes: &[u8]) -> (r: Option<&str>)
    ensures
        r is Some <==> valid_utf8(bytes@),
        r matches Some(t) ==> t@ == decode_utf8(bytes@),
{
    std::str::from_utf8(bytes).ok()
}

/// Index of the first line that begins, ignoring case, with `header`.
pub open spec fn header_line(lines: Seq<Seq<char>>, header: Seq<char>) -> Option<int> {
    if exists|i: int| 0 <= i < lines.len() && starts_with(lowercase(lines[i]), lowercase(header)) {
        Some(choose|i: int| 0 <= i < lines.len() && starts_with(lowercase(lines[i]), lowercase(header))
            && forall|j: int| 0 <= j < i ==> !starts_with(lowercase(lines[j]), lowercase(header)))
    } else {
        None
    }
}

/// The value of a header line: what follows as many bytes as the header
/// name has, trimmed, up to the first ';', trimmed again.
pub open spec fn header_value(line: Seq<char>, header: Seq<char>) -> Seq<char> {
    let tail = decode_utf8(encode_utf8(line).subrange(byte_len(header) as int, byte_len(line) as int));
    trim(before_char(trim(tail), ';'))
}

/// The header's name can be cut off the matching line: the line has at
/// least as many bytes, and the cut falls on a character boundary.
pub open spec fn header_cut_ok(text: Seq<char>, header: Seq<char>) -> bool {
    match header_line(lines_of(text), header) {
        Some(i) => byte_len(header) <= byte_len(lines_of(text)[i])
            && is_char_boundary(encode_utf8(lines_of(text)[i]), byte_len(header) as int),
        None => true,
    }
}

/// Value of the first header line of a SIP message that begins, ignoring
/// case, with `header`.
pub open spec fn spec_sip_header(text: Seq<char>, header: Seq<char>) -> Option<Seq<char>> {
    match header_line(lines_of(text), header) {
        Some(i) => Some(header_value(lines_of(text)[i], header)),
        None => None,
    }
}

/// Find the first line matching `header` (ignoring case), if any.
fn find_header_line(lines: &Vec<Vec<char>>, header: &str) -> (res: Option<usize>)
    ensures
        match res {
            Some(i) => header_line(chars_views(lines@), header@) == Some(i as int) && i < lines@.len(),
            None => header_line(chars_views(lines@), header@) is None,
        },
{
    let ghost lv = chars_views(lines@);
    let hl = chars_of(to_lowercase(header).as_str());
    let mut i: usize = 0;
    while i < lines.len()
        invariant
            0 <= i <= lines.len(),
            lv == chars_views(lines@),
            hl@ == lowercase(header@),
            forall|j: int| 0 <= j < i ==> !starts_with(lowercase(#[trigger] lv[j]), lowercase(header@)),
        decreases lines.len() - i,
    {
        let line = string_from_chars(lines[i].as_slice());
        assert(lv[i as int] == line@);
        let ll = chars_of(to_lowercase(line.as_str()).as_str());
        if chars_starts_with(&ll, &hl) {
            proof {
                let k = choose|k: int| 0 <= k < lv.len() && starts_with(lowercase(lv[k]), lowercase(header@))
                    && forall|j: int| 0 <= j < k ==> !starts_with(lowercase(lv[j]), lowercase(header@));
                assert(k == i) by {
                    if k > i {
                        assert(!starts_with(lowercase(lv[i as int]), lowercase(header@)));
                    }
                }
            }
            return Some(i);
        }
        i = i + 1;
    }
    None
}

/// Extract a SIP header value.
pub fn extract_sip_header(text: &str, header: &str) -> (res: Option<String>)
    requires
        header_cut_ok(text@, header@),
    ensures
        match res {
            Some(v) => spec_sip_header(text@, header@) == Some(v@),
            None => spec_sip_header(text@, header@) is None,
        },
{
    let tv = chars_of(text);
    let lines = split_lines(&tv);
    match find_header_line(&lines, header) {
        None => None,
        Some(i) => {
            let line = string_from_chars(lines[i].as_slice());
            assert(chars_views(lines@)[i as int] == line@);
            let hb = str_byte_len(header);
            let tail = suffix_bytes_str(line.as_str(), hb);
            let t1 = trim_chars(&chars_of(tail));
            let t2 = chars_before(&t1, ';');
            let t3 = trim_chars(&t2);
            Some(string_from_chars(t3.as_slice()))
        },
    }
}

/// Whether the header's name can be cut off the line that matches it.
fn header_cut_ok_exec(text: &str, header: &str) -> (res: bool)
    ensures
        res == header_cut_ok(text@, header@),
{
    let tv = chars_of(text);
    let lines = split_lines(&tv);
    match find_header_line(&lines, header) {
        None => true,
        Some(i) => {
            let line = string_from_chars(lines[i].as_slice());
            assert(chars_views(lines@)[i as int] == line@);
            let hb = str_byte_len(header);
            let lb = str_byte_len(line.as_str());
            hb <= lb && line.as_str().is_char_boundary(hb)
        },
    }
}

/// Text fields of a SIP message.
pub struct SipFields {
    /// SIP method or response code
    pub method: String,
    /// From header (phone number)
    pub from: Option<String>,
    /// To header (phone number)
    pub to: Option<String>,
    /// Call-ID header
    pub call_id: Option<String>,
}

/// Mathematical form of the text fields of a SIP message.
pub struct SipModel {
    pub method: Seq<char>,
    pub from: Option<Seq<char>>,
    pub to: Option<Seq<char>>,
    pub call_id: Option<Seq<char>>,
}

pub open spec fn map_phone(o: Option<Seq<char>>) -> Option<Seq<char>> {
    match o {
        Some(v) => Some(spec_phone_number(v)),
        None => None,
    }
}

/// The SIP message in a TCP payload: valid UTF-8 whose first line is a SIP
/// start line, with the From and To phone numbers and the Call-ID.
pub open spec fn spec_try_parse_sip(payload: Seq<u8>) -> Option<SipModel> {
    if !valid_utf8(payload) {
        None
    } else {
        let text = decode_utf8(payload);
        let lines = lines_of(text);
        if lines.len() == 0 {
            None
        } else {
            match spec_sip_method(lines[0]) {
                None => None,
                Some(method) => Some(SipModel {
                    method,
                    from: map_phone(spec_sip_header(text, "From:"@)),
                    to: map_phone(spec_sip_header(text, "To:"@)),
                    call_id: spec_sip_header(text, "Call-ID:"@),
                }),
            }
        }
    }
}

/// The headers of this message can be cut as the parser cuts them.
pub open spec fn sip_headers_cut_ok(payload: Seq<u8>) -> bool {
    let text = decode_utf8(payload);
    header_cut_ok(text, "From:"@) && header_cut_ok(text, "To:"@) && header_cut_ok(text, "Call-ID:"@)
}

pub open spec fn opt_string_view(o: Option<String>) -> Option<Seq<char>> {
    match o {
        Some(s) => Some(s@),
        None => None,
    }
}

/// Try to parse a SIP message from a TCP payload. A message whose header
/// names cannot be cut on a character boundary of their lines gives `None`.
pub fn try_parse_sip(payload: &[u8]) -> (res: Option<SipFields>)
    ensures
        match res {
            Some(f) => spec_try_parse_sip(payload@) == Some(SipModel {
                method: f.method@,
                from: opt_string_view(f.from),
                to: opt_string_view(f.to),
                call_id: opt_string_view(f.call_id),
            }) && sip_headers_cut_ok(payload@),
            None => spec_try_parse_sip(payload@) is None || !sip_headers_cut_ok(payload@),
        },
{
    let text = match utf8_text(payload) {
        Some(t) => t,
        None => return None,
    };
    let tv = chars_of(text);
    let lines = split_lines(&tv);
    if lines.len() == 0 {
        return None;
    }
    assert(chars_views(lines@)[0] == lines@[0]@);
    let method = match sip_method(&lines[0]) {
        Some(m) => m,
        None => return None,
    };
    if !(header_cut_ok_exec(text, "From:") && header_cut_ok_exec(text, "To:") && header_cut_ok_exec(text, "Call-ID:")) {
        return None;
    }
    let from = match extract_sip_header(text, "From:") {
        Some(v) => Some(extract_phone_number(v.as_str())),
        None => None,
    };
    let to = match extract_sip_header(text, "To:") {
        Some(v) => Some(extract_phone_number(v.as_str())),
        None => None,
    };
    let call_id = extract_sip_header(text, "Call-ID:");
    Some(SipFields { method, from, to, call_id })
}

} // verus!

verus! {

use crate::strings::str_eq;

/// Which captured packets set up the call: the first INVITE, and the first
/// "200" response after it, by packet number.
pub struct CallSetup {
    pub invite: Option<usize>,
    pub answered: Option<usize>,
}

/// The setup after one more SIP message: the first INVITE is noted, then
/// the first "200" response once an INVITE was seen.
pub open spec fn spec_note_sip(s: CallSetup, method: Seq<char>, packet: usize) -> CallSetup {
    let invite = if method == "INVITE"@ && s.invite is None { Some(packet) } else { s.invite };
    let answered = if starts_with(method, "200"@) && s.answered is None && invite is Some {
        Some(packet)
    } else {
        s.answered
    };
    CallSetup { invite, answered }
}

/// Note a SIP message of the capture.
pub fn note_sip_method(setup: &mut CallSetup, method: &str, packet: usize)
    ensures
        *final(setup) == spec_note_sip(*old(setup), method@, packet),
{
    if str_eq(method, "INVITE") && setup.invite.is_none() {
        setup.invite = Some(packet);
    }
    let mv = chars_of(method);
    let ok = chars_of("200");
    if chars_starts_with(&mv, &ok) && setup.answered.is_none() && setup.invite.is_some() {
        setup.answered = Some(packet);
    }
}

/// A call setup state that can arise: an answer is only noted after an
/// INVITE, at a later or the same packet.
pub open spec fn setup_consistent(s: CallSetup) -> bool {
    s.answered matches Some(a) ==> (s.invite matches Some(i) && i <= a)
}

/// Noting SIP messages in packet order keeps the setup consistent: an
/// answer never comes without, or before, the INVITE.
pub proof fn lemma_note_sip_consistent(s: CallSetup, method: Seq<char>, packet: usize)
    requires
        setup_consistent(s),
        s.invite matches Some(i) ==> i <= packet,
        s.answered matches Some(a) ==> a <= packet,
    ensures
        setup_consistent(spec_note_sip(s, method, packet)),
        spec_note_sip(s, method, packet).invite matches Some(i) ==> i <= packet,
{
}

} // verus!

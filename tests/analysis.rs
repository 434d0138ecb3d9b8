use netdiag::conversation::Carrier;
use netdiag::decode::{decode, Address, TransportHeader};
use netdiag::rules::{evaluate, RuleCounters};
use netdiag::{AnalysisReport, Analyzer, IssueKind, Severity};

const SYN: u8 = 0x02;
const RST: u8 = 0x04;
const PSH: u8 = 0x08;
const ACK: u8 = 0x10;

const A: [u8; 4] = [10, 0, 0, 1];
const B: [u8; 4] = [10, 0, 0, 2];

fn eth(ethertype: u16, payload: &[u8]) -> Vec<u8> {
    let mut f = vec![0x00, 0x11, 0x22, 0x33, 0x44, 0x55, 0x66, 0x77, 0x88, 0x99, 0xaa, 0xbb];
    f.extend_from_slice(&ethertype.to_be_bytes());
    f.extend_from_slice(payload);
    f
}

fn ipv4(proto: u8, src: [u8; 4], dst: [u8; 4], flags_frag: u16, payload: &[u8]) -> Vec<u8> {
    let total = (20 + payload.len()) as u16;
    let mut p = vec![0x45, 0];
    p.extend_from_slice(&total.to_be_bytes());
    p.extend_from_slice(&[0, 1]);
    p.extend_from_slice(&flags_frag.to_be_bytes());
    p.extend_from_slice(&[64, proto, 0, 0]);
    p.extend_from_slice(&src);
    p.extend_from_slice(&dst);
    p.extend_from_slice(payload);
    p
}

fn tcp(sport: u16, dport: u16, seq: u32, flags: u8, window: u16, payload: &[u8]) -> Vec<u8> {
    let mut t = Vec::new();
    t.extend_from_slice(&sport.to_be_bytes());
    t.extend_from_slice(&dport.to_be_bytes());
    t.extend_from_slice(&seq.to_be_bytes());
    t.extend_from_slice(&0u32.to_be_bytes());
    t.push(0x50);
    t.push(flags);
    t.extend_from_slice(&window.to_be_bytes());
    t.extend_from_slice(&[0, 0, 0, 0]);
    t.extend_from_slice(payload);
    t
}

fn udp(sport: u16, dport: u16, payload: &[u8]) -> Vec<u8> {
    let mut u = Vec::new();
    u.extend_from_slice(&sport.to_be_bytes());
    u.extend_from_slice(&dport.to_be_bytes());
    u.extend_from_slice(&((8 + payload.len()) as u16).to_be_bytes());
    u.extend_from_slice(&[0, 0]);
    u.extend_from_slice(payload);
    u
}

fn tcp_frame(src: [u8; 4], sport: u16, dst: [u8; 4], dport: u16, seq: u32, flags: u8, window: u16, payload: &[u8]) -> Vec<u8> {
    eth(0x0800, &ipv4(6, src, dst, 0, &tcp(sport, dport, seq, flags, window, payload)))
}

fn udp_frame(src: [u8; 4], sport: u16, dst: [u8; 4], dport: u16, payload: &[u8]) -> Vec<u8> {
    eth(0x0800, &ipv4(17, src, dst, 0, &udp(sport, dport, payload)))
}

fn analyze(frames: &[(u64, Vec<u8>)]) -> AnalysisReport {
    let mut a = Analyzer::new();
    for (ts, d) in frames {
        a.observe_frame(*ts, d);
    }
    a.finish()
}

fn v4(a: [u8; 4]) -> Address {
    Address { v6: false, bits: u32::from_be_bytes(a) as u128 }
}

#[test]
fn packet_count_is_number_of_frames() {
    let frames = vec![
        (1, tcp_frame(A, 1000, B, 80, 1, ACK, 100, b"")),
        (2, vec![1, 2, 3]),
        (3, udp_frame(A, 5000, B, 53, b"q")),
        (4, eth(0x0806, &[0; 28])),
    ];
    let r = analyze(&frames);
    assert_eq!(r.packet_count, 4);
    assert_eq!(r.duration_us, 3);
}

#[test]
fn retransmission_counts_once_per_repeat() {
    let seg = tcp_frame(A, 1000, B, 80, 5000, ACK | PSH, 100, b"hello world, a longer payload");
    let r = analyze(&[(1, seg.clone()), (2, seg.clone()), (3, seg)]);
    assert_eq!(r.tcp.retransmissions, 2);
}

#[test]
fn syn_and_rst_are_not_retransmissions() {
    let syn = tcp_frame(A, 1000, B, 80, 7, SYN, 100, b"");
    let rst = tcp_frame(A, 1000, B, 80, 7, RST, 100, b"");
    let r = analyze(&[(1, syn.clone()), (2, syn), (3, rst)]);
    assert_eq!(r.tcp.retransmissions, 0);
    assert_eq!(r.tcp.resets, 1);
}

#[test]
fn other_direction_is_not_a_retransmission() {
    let r = analyze(&[
        (1, tcp_frame(A, 1000, B, 80, 9, ACK, 100, b"")),
        (2, tcp_frame(B, 80, A, 1000, 9, ACK, 100, b"")),
    ]);
    assert_eq!(r.tcp.retransmissions, 0);
}

#[test]
fn handshake_yields_one_rtt_sample() {
    let r = analyze(&[
        (1_000_000, tcp_frame(A, 40000, B, 443, 100, SYN, 64240, b"")),
        (1_050_000, tcp_frame(B, 443, A, 40000, 900, SYN | ACK, 65535, b"")),
    ]);
    assert_eq!(r.tcp.rtt_samples, 1);
    assert_eq!(r.tcp.avg_rtt_us, Some(50_000));
}

#[test]
fn synack_without_syn_yields_no_sample() {
    let r = analyze(&[(1_050_000, tcp_frame(B, 443, A, 40000, 900, SYN | ACK, 65535, b""))]);
    assert_eq!(r.tcp.rtt_samples, 0);
    assert_eq!(r.tcp.avg_rtt_us, None);
}

#[test]
fn slow_handshake_is_discarded() {
    let r = analyze(&[
        (0, tcp_frame(A, 40000, B, 443, 100, SYN, 64240, b"")),
        (10_000_001, tcp_frame(B, 443, A, 40000, 900, SYN | ACK, 65535, b"")),
    ]);
    assert_eq!(r.tcp.rtt_samples, 0);
    let r = analyze(&[
        (0, tcp_frame(A, 40000, B, 443, 100, SYN, 64240, b"")),
        (10_000_000, tcp_frame(B, 443, A, 40000, 900, SYN | ACK, 65535, b"")),
    ]);
    assert_eq!(r.tcp.avg_rtt_us, Some(10_000_000));
}

#[test]
fn conversation_totals_ignore_direction() {
    let ab = udp_frame(A, 5000, B, 6000, b"0123456789");
    let ba = udp_frame(B, 6000, A, 5000, b"0123456789");
    let alternating = analyze(&[(1, ab.clone()), (2, ba.clone()), (3, ab.clone()), (4, ba)]);
    let burst = analyze(&[(1, ab.clone()), (2, ab.clone()), (3, ab.clone()), (4, ab.clone())]);
    assert_eq!(alternating.top_conversations.len(), 1);
    assert_eq!(burst.top_conversations.len(), 1);
    let x = alternating.top_conversations[0];
    let y = burst.top_conversations[0];
    assert_eq!(x.bytes, y.bytes);
    assert_eq!(x.packets, 4);
    assert_eq!(y.packets, 4);
    assert_eq!(x.bytes, 4 * ab.len() as u64);
    assert_eq!(x.src, v4(A));
    assert_eq!(x.dst, v4(B));
}

#[test]
fn suspicious_port_is_critical() {
    let r = analyze(&[(1, tcp_frame(A, 50000, B, 23, 1, SYN, 100, b""))]);
    assert_eq!(r.issues.len(), 1);
    assert_eq!(r.issues[0].kind, IssueKind::SuspiciousPorts);
    assert_eq!(r.issues[0].severity, Severity::Critical);
    assert_eq!(r.issues[0].count, 1);
    let r = analyze(&[(1, udp_frame(A, 50000, B, 4444, b"x"))]);
    assert_eq!(r.issues[0].kind, IssueKind::SuspiciousPorts);
    let r = analyze(&[(1, tcp_frame(A, 23, B, 50000, 1, SYN, 100, b""))]);
    assert!(r.issues.is_empty());
}

#[test]
fn retransmission_thresholds() {
    let mut c = RuleCounters { suspicious_ports: 0, cleartext_auth: 0, retransmissions: 10, zero_window: 0, deprecated_tls: 0, fragments: 0 };
    assert!(evaluate(&c).is_empty());
    c.retransmissions = 11;
    let v = evaluate(&c);
    assert_eq!(v.len(), 1);
    assert_eq!(v[0].kind, IssueKind::TcpRetransmissions);
    assert_eq!(v[0].severity, Severity::Warn);
    assert_eq!(v[0].count, 11);
    c.retransmissions = 100;
    assert_eq!(evaluate(&c)[0].severity, Severity::Warn);
    c.retransmissions = 101;
    assert_eq!(evaluate(&c)[0].severity, Severity::Critical);
}

#[test]
fn rules_keep_their_order() {
    let c = RuleCounters { suspicious_ports: 1, cleartext_auth: 2, retransmissions: 50, zero_window: 3, deprecated_tls: 4, fragments: 5 };
    let kinds: Vec<IssueKind> = evaluate(&c).iter().map(|i| i.kind).collect();
    assert_eq!(kinds, vec![
        IssueKind::SuspiciousPorts,
        IssueKind::CleartextCredentials,
        IssueKind::TcpRetransmissions,
        IssueKind::TcpZeroWindow,
        IssueKind::DeprecatedTls,
        IssueKind::IpFragmentation,
    ]);
    let sev: Vec<Severity> = evaluate(&c).iter().map(|i| i.severity).collect();
    assert_eq!(sev, vec![Severity::Critical, Severity::Critical, Severity::Warn, Severity::Critical, Severity::Warn, Severity::Warn]);
}

#[test]
fn top_talkers_at_most_five_sorted() {
    let mut frames = Vec::new();
    let mut ts = 0;
    for host in 1..=7u8 {
        let n = [3usize, 1, 4, 1, 5, 9, 2][host as usize - 1];
        for _ in 0..n {
            ts += 1;
            frames.push((ts, udp_frame(A, 1, [10, 0, 1, host], 2, b"data")));
        }
    }
    let r = analyze(&frames);
    assert_eq!(r.top_conversations.len(), 5);
    let packets: Vec<u64> = r.top_conversations.iter().map(|c| c.packets).collect();
    assert_eq!(packets, vec![9, 5, 4, 3, 2]);
    for w in r.top_conversations.windows(2) {
        assert!(w[0].bytes >= w[1].bytes);
    }
}

#[test]
fn equal_bytes_keep_first_seen_order() {
    let r = analyze(&[
        (1, udp_frame(A, 1, [10, 0, 1, 1], 2, b"x")),
        (2, udp_frame(A, 1, [10, 0, 1, 2], 2, b"x")),
        (3, udp_frame(A, 1, [10, 0, 1, 3], 2, b"x")),
    ]);
    let dsts: Vec<Address> = r.top_conversations.iter().map(|c| c.dst).collect();
    assert_eq!(dsts, vec![v4([10, 0, 1, 1]), v4([10, 0, 1, 2]), v4([10, 0, 1, 3])]);
}

#[test]
fn empty_capture_report() {
    let r = Analyzer::new().finish();
    assert_eq!(r.packet_count, 0);
    assert_eq!(r.duration_us, 0);
    assert!(r.issues.is_empty());
    assert!(r.top_conversations.is_empty());
    assert_eq!(r.tcp.avg_rtt_us, None);
}

#[test]
fn malformed_frame_is_counted() {
    let r = analyze(&[(5, vec![0xde, 0xad, 0xbe, 0xef, 0x00])]);
    assert_eq!(r.packet_count, 1);
    assert_eq!(r.protocols.malformed, 1);
    assert_eq!(r.duration_us, 0);
    assert!(r.issues.is_empty());
    assert!(r.top_conversations.is_empty());
}

#[test]
fn truncated_tcp_header_keeps_ip_layer() {
    let mut f = tcp_frame(A, 1000, B, 80, 1, ACK, 100, b"");
    f.truncate(14 + 20 + 10);
    let d = decode(&f);
    assert!(d.network.is_some());
    assert!(d.transport.is_none());
    let r = analyze(&[(1, f)]);
    assert_eq!(r.protocols.ipv4, 1);
    assert_eq!(r.protocols.tcp, 0);
    assert_eq!(r.protocols.malformed, 1);
}

#[test]
fn protocol_distribution_counts_labels() {
    let mut v6 = vec![0x60, 0, 0, 0, 0, 8, 17, 64];
    v6.extend_from_slice(&[0xfe, 0x80, 0, 0, 0, 0, 0, 0, 0, 0, 0, 0, 0, 0, 0, 1]);
    v6.extend_from_slice(&[0xfe, 0x80, 0, 0, 0, 0, 0, 0, 0, 0, 0, 0, 0, 0, 0, 2]);
    v6.extend_from_slice(&udp(5353, 53, b""));
    let icmp = eth(0x0800, &ipv4(1, A, B, 0, &[8, 0, 0, 0, 0, 1, 0, 1]));
    let r = analyze(&[
        (1, eth(0x86dd, &v6)),
        (2, icmp),
        (3, eth(0x0806, &[0; 28])),
        (4, tcp_frame(A, 1, B, 2, 3, ACK, 9, b"")),
        (5, eth(0x88cc, &[0; 30])),
    ]);
    let p = r.protocols;
    assert_eq!((p.ipv4, p.ipv6, p.arp, p.tcp, p.udp, p.icmp, p.icmpv6, p.dns, p.malformed), (2, 1, 1, 1, 1, 1, 0, 1, 1));
}

#[test]
fn zero_window_raises_critical() {
    let r = analyze(&[(1, tcp_frame(A, 1000, B, 80, 1, ACK, 0, b""))]);
    assert_eq!(r.tcp.zero_window, 1);
    assert_eq!(r.issues.len(), 1);
    assert_eq!(r.issues[0].kind, IssueKind::TcpZeroWindow);
    assert_eq!(r.issues[0].severity, Severity::Critical);
    let r = analyze(&[(1, tcp_frame(A, 1000, B, 80, 1, SYN, 0, b""))]);
    assert_eq!(r.tcp.zero_window, 0);
}

#[test]
fn basic_auth_is_cleartext_credentials() {
    let body = b"GET / HTTP/1.1\r\nAuthorization: Basic dXNlcjpwYXNz\r\n\r\n";
    let r = analyze(&[(1, tcp_frame(A, 50000, B, 8080, 1, ACK | PSH, 100, body))]);
    assert_eq!(r.issues.len(), 1);
    assert_eq!(r.issues[0].kind, IssueKind::CleartextCredentials);
    assert_eq!(r.issues[0].severity, Severity::Critical);
    let r = analyze(&[(1, tcp_frame(A, 50000, B, 8080, 1, ACK | PSH, 100, b"Authorization: Bearer x"))]);
    assert!(r.issues.is_empty());
}

#[test]
fn old_tls_handshake_is_deprecated() {
    let hello = [22u8, 3, 1, 0, 40, 1, 0, 0, 36];
    let r = analyze(&[(1, tcp_frame(A, 50000, B, 443, 1, ACK | PSH, 100, &hello))]);
    assert_eq!(r.issues.len(), 1);
    assert_eq!(r.issues[0].kind, IssueKind::DeprecatedTls);
    assert_eq!(r.issues[0].severity, Severity::Warn);
    let modern = [22u8, 3, 3, 0, 40, 1, 0, 0, 36];
    let r = analyze(&[(1, tcp_frame(A, 50000, B, 443, 1, ACK | PSH, 100, &modern))]);
    assert!(r.issues.is_empty());
}

#[test]
fn fragments_raise_warning() {
    let more_fragments = eth(0x0800, &ipv4(17, A, B, 0x2000, &udp(1, 2, b"abc")));
    let offset = eth(0x0800, &ipv4(17, A, B, 0x0010, &[1, 2, 3, 4, 5, 6, 7, 8]));
    let r = analyze(&[(1, more_fragments), (2, offset)]);
    assert_eq!(r.issues.len(), 1);
    assert_eq!(r.issues[0].kind, IssueKind::IpFragmentation);
    assert_eq!(r.issues[0].severity, Severity::Warn);
    assert_eq!(r.issues[0].count, 2);
}

#[test]
fn decode_reads_tcp_fields() {
    let f = tcp_frame(A, 1234, B, 80, 0x01020304, SYN | ACK, 512, b"xy");
    let d = decode(&f);
    assert_eq!(d.ethertype, Some(0x0800));
    let n = d.network.unwrap();
    assert_eq!(n.src, v4(A));
    assert_eq!(n.dst, v4(B));
    assert_eq!(n.protocol, 6);
    assert!(!n.fragmented);
    match d.transport {
        Some(TransportHeader::Tcp(t)) => {
            assert_eq!((t.src_port, t.dst_port, t.seq, t.flags, t.window), (1234, 80, 0x01020304, SYN | ACK, 512));
            assert_eq!(t.payload_offset, 54);
        }
        _ => panic!("expected TCP"),
    }
}

#[test]
fn decode_short_frame_is_empty() {
    let d = decode(&[0u8; 13]);
    assert_eq!(d.ethertype, None);
    assert!(d.network.is_none());
    assert!(d.transport.is_none());
}

#[test]
fn conversation_protocol_is_the_dominant_one() {
    let r = analyze(&[
        (1, udp_frame(A, 1, B, 2, b"x")),
        (2, tcp_frame(B, 80, A, 3000, 1, ACK, 10, b"")),
        (3, tcp_frame(A, 3000, B, 80, 2, ACK, 10, b"")),
    ]);
    assert_eq!(r.top_conversations.len(), 1);
    assert_eq!(r.top_conversations[0].protocol(), Carrier::Tcp);
    let r = analyze(&[(1, udp_frame(A, 1, B, 2, b"x"))]);
    assert_eq!(r.top_conversations[0].protocol(), Carrier::Udp);
}

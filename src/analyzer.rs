//! The single forward pass over a capture's frames, and the report built
//! once the pass is over.
use vstd::prelude::*;
use crate::conversation::{
    canonical_all, has_pair, lemma_direction_independent, lemma_same_packets_same_totals, lemma_order_independent, lemma_table_totals, pair_bytes,
    pair_index, pair_packets, record_spec, reversed, room_for, same_pair, table_of, total_bytes,
    Carrier, Conversation, ConversationTable, PairEvent,
};
use crate::decode::{decode, decode_spec, Address, DecodedPacket, NetworkHeader, TcpHeader, TransportHeader};
use crate::flow::{
    flow_index, flows_after, forward_key, is_ack, is_rst, is_syn, keys_unique, lemma_flows_after,
    observe_spec, reverse_key, rtt_sum, FlowKey, FlowState, FlowTracker, FlowView, RttSample, MAX_RTT_US,
};
use crate::report::{top_conversations, top_spec};
use crate::rules::{evaluate, issues_spec, Issue, RuleCounters};
use crate::stats::{findings, findings_spec, one_if, ProtocolCounts};

verus! {

/// One captured frame: its capture time in microseconds and its bytes.
pub struct Frame {
    pub ts_us: u64,
    pub data: Vec<u8>,
}

/// A frame as a mathematical value.
pub struct FrameView {
    pub ts_us: u64,
    pub data: Seq<u8>,
}

impl View for Frame {
    type V = FrameView;

    open spec fn view(&self) -> FrameView {
        FrameView { ts_us: self.ts_us, data: self.data@ }
    }
}

/// The mathematical content of an [`Analyzer`].
pub struct AnalyzerView {
    pub packets: nat,
    pub bytes: nat,
    pub first_ts: u64,
    pub last_ts: u64,
    pub protocols: ProtocolCounts,
    pub suspicious_ports: nat,
    pub cleartext_auth: nat,
    pub deprecated_tls: nat,
    pub fragments: nat,
    pub conversations: Seq<Conversation>,
    pub tcp: FlowView,
}

/// The state of one analysis, owned by that analysis alone.
pub struct Analyzer {
    pub packets: u64,
    pub bytes: u64,
    pub first_ts: u64,
    pub last_ts: u64,
    pub protocols: ProtocolCounts,
    pub suspicious_ports: u64,
    pub cleartext_auth: u64,
    pub deprecated_tls: u64,
    pub fragments: u64,
    pub conversations: ConversationTable,
    pub tcp: FlowTracker,
}

impl View for Analyzer {
    type V = AnalyzerView;

    open spec fn view(&self) -> AnalyzerView {
        AnalyzerView {
            packets: self.packets as nat,
            bytes: self.bytes as nat,
            first_ts: self.first_ts,
            last_ts: self.last_ts,
            protocols: self.protocols,
            suspicious_ports: self.suspicious_ports as nat,
            cleartext_auth: self.cleartext_auth as nat,
            deprecated_tls: self.deprecated_tls as nat,
            fragments: self.fragments as nat,
            conversations: self.conversations.entries@,
            tcp: self.tcp@,
        }
    }
}

/// TCP summary of the report.
#[derive(Clone, Copy, Debug, PartialEq, Eq, Structural)]
pub struct TcpStats {
    pub retransmissions: u64,
    pub resets: u64,
    pub zero_window: u64,
    pub rtt_samples: u64,
    /// Mean handshake round trip in microseconds; `None` without samples.
    pub avg_rtt_us: Option<u64>,
}

/// The result of one analysis.
pub struct AnalysisReport {
    pub packet_count: u64,
    /// Last capture time minus first, in microseconds; zero for fewer than
    /// two packets, and never negative.
    pub duration_us: u64,
    pub issues: Vec<Issue>,
    pub top_conversations: Vec<Conversation>,
    pub protocols: ProtocolCounts,
    pub tcp: TcpStats,
}

/// The conversation-table event of frame `d`, decoded as `p`: only packets
/// with TCP or UDP ports count.
pub open spec fn pair_event(d: Seq<u8>, p: DecodedPacket) -> Option<PairEvent> {
    match p.network {
        Some(n) => match p.transport {
            Some(TransportHeader::Tcp(_)) => Some(PairEvent { src: n.src, dst: n.dst, len: d.len() as u64, carrier: Carrier::Tcp }),
            Some(TransportHeader::Udp(_)) => Some(PairEvent { src: n.src, dst: n.dst, len: d.len() as u64, carrier: Carrier::Udp }),
            _ => None,
        },
        None => None,
    }
}

/// The TCP segment of a decoded packet.
pub open spec fn tcp_segment(p: DecodedPacket) -> Option<(NetworkHeader, TcpHeader)> {
    match p.network {
        Some(n) => match p.transport {
            Some(TransportHeader::Tcp(h)) => Some((n, h)),
            _ => None,
        },
        None => None,
    }
}

/// The state before any frame.
pub open spec fn initial_view() -> AnalyzerView {
    AnalyzerView {
        packets: 0,
        bytes: 0,
        first_ts: 0,
        last_ts: 0,
        protocols: ProtocolCounts { ipv4: 0, ipv6: 0, arp: 0, tcp: 0, udp: 0, icmp: 0, icmpv6: 0, dns: 0, malformed: 0 },
        suspicious_ports: 0,
        cleartext_auth: 0,
        deprecated_tls: 0,
        fragments: 0,
        conversations: Seq::empty(),
        tcp: FlowView { flows: Seq::empty(), samples: Seq::empty(), retransmissions: 0, resets: 0, zero_window: 0 },
    }
}

/// The state after one more frame `d` captured at `ts`.
pub open spec fn frame_step(v: AnalyzerView, ts: u64, d: Seq<u8>) -> AnalyzerView {
    let p = decode_spec(d);
    let f = findings_spec(d, p);
    AnalyzerView {
        packets: v.packets + 1,
        bytes: v.bytes + d.len(),
        first_ts: if v.packets == 0 { ts } else { v.first_ts },
        last_ts: ts,
        protocols: v.protocols.counted(p),
        suspicious_ports: v.suspicious_ports + one_if(f.suspicious_port),
        cleartext_auth: v.cleartext_auth + one_if(f.cleartext_auth),
        deprecated_tls: v.deprecated_tls + one_if(f.deprecated_tls),
        fragments: v.fragments + one_if(f.fragmented),
        conversations: match pair_event(d, p) {
            Some(e) => record_spec(v.conversations, e),
            None => v.conversations,
        },
        tcp: match tcp_segment(p) {
            Some((n, h)) => observe_spec(v.tcp, n, h, ts),
            None => v.tcp,
        },
    }
}

/// The state after the frames `fs`, in order.
pub open spec fn run(fs: Seq<FrameView>) -> AnalyzerView
    decreases fs.len(),
{
    if fs.len() == 0 {
        initial_view()
    } else {
        frame_step(run(fs.drop_last()), fs.last().ts_us, fs.last().data)
    }
}

/// Capture duration: last time minus first, floored at zero.
pub open spec fn duration_spec(v: AnalyzerView) -> nat {
    if v.packets >= 2 && v.last_ts >= v.first_ts { (v.last_ts - v.first_ts) as nat } else { 0 }
}

/// The counters that the rules read.
pub open spec fn rule_counters(v: AnalyzerView) -> RuleCounters {
    RuleCounters {
        suspicious_ports: v.suspicious_ports as u64,
        cleartext_auth: v.cleartext_auth as u64,
        retransmissions: v.tcp.retransmissions as u64,
        zero_window: v.tcp.zero_window as u64,
        deprecated_tls: v.deprecated_tls as u64,
        fragments: v.fragments as u64,
    }
}

/// The mean of the round-trip samples, if any.
pub open spec fn avg_rtt_spec(s: Seq<RttSample>) -> Option<u64> {
    if s.len() == 0 { None } else { Some((rtt_sum(s) / s.len()) as u64) }
}

pub open spec fn tcp_stats_spec(t: FlowView) -> TcpStats {
    TcpStats {
        retransmissions: t.retransmissions as u64,
        resets: t.resets as u64,
        zero_window: t.zero_window as u64,
        rtt_samples: t.samples.len() as u64,
        avg_rtt_us: avg_rtt_spec(t.samples),
    }
}

/// `r` is the report of state `v`.
pub open spec fn is_report_of(r: AnalysisReport, v: AnalyzerView) -> bool {
    &&& r.packet_count == v.packets
    &&& r.duration_us == duration_spec(v)
    &&& r.issues@ == issues_spec(rule_counters(v))
    &&& r.top_conversations@ == top_spec(v.conversations)
    &&& r.protocols == v.protocols
    &&& r.tcp == tcp_stats_spec(v.tcp)
}

/// No entry of `s` counts more than `bytes` bytes or `packets` packets.
pub open spec fn table_bounded(s: Seq<Conversation>, bytes: nat, packets: nat) -> bool {
    forall|i: int| 0 <= i < s.len() ==> {
        &&& #[trigger] s[i].bytes <= bytes
        &&& s[i].packets <= packets
        &&& s[i].tcp_packets <= packets
        &&& s[i].udp_packets <= packets
    }
}

fn record_event(t: &mut ConversationTable, ev: Option<PairEvent>, Ghost(bytes): Ghost<nat>, Ghost(packets): Ghost<nat>)
    requires
        old(t).wf(),
        table_bounded(old(t).entries@, bytes, packets),
        packets < u64::MAX,
        ev matches Some(e) ==> bytes + e.len <= u64::MAX,
    ensures
        final(t).wf(),
        final(t).entries@ == match ev {
            Some(e) => record_spec(old(t).entries@, e),
            None => old(t).entries@,
        },
        table_bounded(final(t).entries@, bytes + match ev {
            Some(e) => e.len as nat,
            None => 0nat,
        }, packets + 1),
{
    let ghost s0 = t.entries@;
    if let Some(e) = ev {
        assert(room_for(s0, e)) by {
            assert forall|i: int| 0 <= i < s0.len() implies {
                &&& s0[i].bytes + e.len <= u64::MAX
                &&& s0[i].packets < u64::MAX
                &&& s0[i].tcp_packets < u64::MAX
                &&& s0[i].udp_packets < u64::MAX
            } by {
                assert(s0[i].bytes <= bytes);
            }
        }
        t.record(e);
        let ghost s1 = t.entries@;
        assert forall|i: int| 0 <= i < s1.len() implies {
            &&& #[trigger] s1[i].bytes <= bytes + e.len
            &&& s1[i].packets <= packets + 1
            &&& s1[i].tcp_packets <= packets + 1
            &&& s1[i].udp_packets <= packets + 1
        } by {
            if i < s0.len() {
                assert(s0[i].bytes <= bytes);
            }
        }
    } else {
        assert forall|i: int| 0 <= i < s0.len() implies {
            &&& #[trigger] s0[i].bytes <= bytes + 0
            &&& s0[i].packets <= packets + 1
            &&& s0[i].tcp_packets <= packets + 1
            &&& s0[i].udp_packets <= packets + 1
        } by {
            assert(s0[i].bytes <= bytes);
        }
    }
}

/// The conversation-table events of the frames `fs`, in order.
pub open spec fn events_of(fs: Seq<FrameView>) -> Seq<PairEvent>
    decreases fs.len(),
{
    if fs.len() == 0 {
        Seq::empty()
    } else {
        let d = fs.last().data;
        match pair_event(d, decode_spec(d)) {
            Some(e) => events_of(fs.drop_last()).push(e),
            None => events_of(fs.drop_last()),
        }
    }
}

/// The packet count is the number of frames, whatever they hold.
pub proof fn lemma_packet_count(fs: Seq<FrameView>)
    ensures
        run(fs).packets == fs.len(),
    decreases fs.len(),
{
    if fs.len() > 0 {
        lemma_packet_count(fs.drop_last());
    }
}

/// The conversation table after a pass is the table of the pass's TCP and
/// UDP packets, so its totals are the per-pair sums of
/// [`crate::conversation::lemma_table_totals`].
pub proof fn lemma_run_conversations(fs: Seq<FrameView>)
    ensures
        run(fs).conversations == table_of(events_of(fs)),
    decreases fs.len(),
{
    if fs.len() > 0 {
        lemma_run_conversations(fs.drop_last());
        let es = events_of(fs.drop_last());
        let d = fs.last().data;
        if let Some(e) = pair_event(d, decode_spec(d)) {
            assert(es.push(e).drop_last() =~= es);
        }
    }
}

/// An empty capture has no packets, no duration, no issues and no
/// conversations.
pub proof fn lemma_empty_capture()
    ensures
        run(Seq::empty()).packets == 0,
        duration_spec(run(Seq::empty())) == 0,
        issues_spec(rule_counters(run(Seq::empty()))) == Seq::<Issue>::empty(),
        top_spec(run(Seq::empty()).conversations) == Seq::<Conversation>::empty(),
        avg_rtt_spec(run(Seq::empty()).tcp.samples) == None::<u64>,
{
    let v = run(Seq::<FrameView>::empty());
    assert(issues_spec(rule_counters(v)) =~= Seq::<Issue>::empty());
}

/// A capture of one truncated or malformed frame still completes: one
/// packet, counted as malformed, with no conversation, and no issue unless
/// its IPv4 header marks it as a fragment.
pub proof fn lemma_malformed_frame(ts: u64, d: Seq<u8>)
    requires
        crate::stats::is_malformed(decode_spec(d)),
    ensures
        run(seq![FrameView { ts_us: ts, data: d }]).packets == 1,
        run(seq![FrameView { ts_us: ts, data: d }]).protocols.malformed == 1,
        run(seq![FrameView { ts_us: ts, data: d }]).conversations == Seq::<Conversation>::empty(),
        !(decode_spec(d).network matches Some(n) && n.fragmented)
            ==> issues_spec(rule_counters(run(seq![FrameView { ts_us: ts, data: d }]))) == Seq::<Issue>::empty(),
{
    let fs = seq![FrameView { ts_us: ts, data: d }];
    assert(fs.drop_last() =~= Seq::<FrameView>::empty());
    assert(fs.last() == FrameView { ts_us: ts, data: d });
    assert(fs.len() == 1);
    assert(run(Seq::<FrameView>::empty()) == initial_view());
    assert(run(fs.drop_last()) == initial_view());
    assert(run(fs) == frame_step(initial_view(), ts, d));
    let v = run(fs);
    assert(v.tcp == initial_view().tcp);
    if !(decode_spec(d).network matches Some(n) && n.fragmented) {
        assert(issues_spec(rule_counters(v)) =~= Seq::<Issue>::empty());
    }
}

/// The byte and packet totals that table `t` holds for the pair `{a, b}`.
pub open spec fn pair_totals(t: Seq<Conversation>, a: Address, b: Address) -> Option<(u64, u64)> {
    if has_pair(t, a, b) {
        let i = pair_index(t, a, b);
        Some((t[i].bytes, t[i].packets))
    } else {
        None
    }
}

/// Over a whole capture, the pair `{a, b}` has an entry exactly when some
/// TCP or UDP packet went between them, and the entry holds the summed frame
/// lengths and the number of those packets, whichever way each went.
pub proof fn lemma_capture_pair_totals(fs: Seq<FrameView>, a: Address, b: Address)
    requires
        total_bytes(events_of(fs)) <= u64::MAX,
        events_of(fs).len() <= u64::MAX,
    ensures
        pair_totals(run(fs).conversations, a, b) == if pair_packets(events_of(fs), a, b) > 0 {
            Some((pair_bytes(events_of(fs), a, b) as u64, pair_packets(events_of(fs), a, b) as u64))
        } else {
            None::<(u64, u64)>
        },
{
    let es = events_of(fs);
    lemma_run_conversations(fs);
    lemma_table_totals(es);
    let t = table_of(es);
    if has_pair(t, a, b) {
        let i = pair_index(t, a, b);
        assert(t[i] == t[i]);
        lemma_pair_symmetric(es, t[i].src, t[i].dst, a, b);
    }
}

proof fn lemma_pair_symmetric(es: Seq<PairEvent>, a: Address, b: Address, c: Address, d: Address)
    requires
        same_pair(a, b, c, d),
    ensures
        pair_bytes(es, a, b) == pair_bytes(es, c, d),
        pair_packets(es, a, b) == pair_packets(es, c, d),
    decreases es.len(),
{
    if es.len() > 0 {
        lemma_pair_symmetric(es.drop_last(), a, b, c, d);
    }
}

/// Two captures whose TCP and UDP packets match one for one, each the same
/// or turned around, give every address pair the same totals.
pub proof fn lemma_capture_direction_independent(fs1: Seq<FrameView>, fs2: Seq<FrameView>, a: Address, b: Address)
    requires
        total_bytes(events_of(fs1)) <= u64::MAX,
        events_of(fs1).len() <= u64::MAX,
        events_of(fs1).len() == events_of(fs2).len(),
        forall|i: int| 0 <= i < events_of(fs1).len() ==>
            events_of(fs2)[i] == events_of(fs1)[i] || events_of(fs2)[i] == reversed(events_of(fs1)[i]),
    ensures
        pair_totals(run(fs1).conversations, a, b) == pair_totals(run(fs2).conversations, a, b),
{
    lemma_direction_independent(events_of(fs1), events_of(fs2), a, b);
    lemma_total_bytes_same(events_of(fs1), events_of(fs2));
    lemma_capture_pair_totals(fs1, a, b);
    lemma_capture_pair_totals(fs2, a, b);
}

/// Over whole captures: two captures whose TCP and UDP packets are the same
/// packets, in any order and each either way round, give every address pair
/// the same byte and packet totals.
pub proof fn lemma_capture_same_packets(fs1: Seq<FrameView>, fs2: Seq<FrameView>, a: Address, b: Address)
    requires
        canonical_all(events_of(fs1)) == canonical_all(events_of(fs2)),
        total_bytes(events_of(fs1)) <= u64::MAX,
        total_bytes(events_of(fs2)) <= u64::MAX,
        events_of(fs1).len() <= u64::MAX,
        events_of(fs2).len() <= u64::MAX,
    ensures
        pair_totals(run(fs1).conversations, a, b) == pair_totals(run(fs2).conversations, a, b),
{
    lemma_same_packets_same_totals(events_of(fs1), events_of(fs2), a, b);
    lemma_capture_pair_totals(fs1, a, b);
    lemma_capture_pair_totals(fs2, a, b);
}

proof fn lemma_total_bytes_same(es1: Seq<PairEvent>, es2: Seq<PairEvent>)
    requires
        es1.len() == es2.len(),
        forall|i: int| 0 <= i < es1.len() ==> es2[i].len == es1[i].len,
    ensures
        total_bytes(es1) == total_bytes(es2),
    decreases es1.len(),
{
    if es1.len() > 0 {
        let n = es1.len() - 1;
        assert(es2[n].len == es1[n].len);
        lemma_total_bytes_same(es1.drop_last(), es2.drop_last());
    }
}

/// Two captures whose TCP and UDP packets are the same but for two
/// neighbours exchanged give every address pair the same totals.
pub proof fn lemma_capture_order_independent(fs1: Seq<FrameView>, fs2: Seq<FrameView>, i: int, a: Address, b: Address)
    requires
        total_bytes(events_of(fs1)) <= u64::MAX,
        events_of(fs1).len() <= u64::MAX,
        total_bytes(events_of(fs2)) <= u64::MAX,
        0 <= i,
        i + 1 < events_of(fs1).len(),
        events_of(fs2) == events_of(fs1).update(i, events_of(fs1)[i + 1]).update(i + 1, events_of(fs1)[i]),
    ensures
        pair_totals(run(fs1).conversations, a, b) == pair_totals(run(fs2).conversations, a, b),
{
    let e1 = events_of(fs1);
    lemma_order_independent(e1, i, a, b);
    lemma_capture_pair_totals(fs1, a, b);
    lemma_capture_pair_totals(fs2, a, b);
}

/// The TCP segment of frame `f`, if it has one.
pub open spec fn segment_of(f: FrameView) -> Option<(NetworkHeader, TcpHeader)> {
    tcp_segment(decode_spec(f.data))
}

/// The latest TCP segment of `fs` on forward key `k`.
pub open spec fn last_on_key(fs: Seq<FrameView>, k: FlowKey) -> Option<TcpHeader>
    decreases fs.len(),
{
    if fs.len() == 0 {
        None
    } else {
        match segment_of(fs.last()) {
            Some((n, h)) => if forward_key(n, h) == k { Some(h) } else { last_on_key(fs.drop_last(), k) },
            None => last_on_key(fs.drop_last(), k),
        }
    }
}

/// The last frame of `fs` is a segment, neither SYN nor RST, whose sequence
/// number equals that of the segment before it on the same key.
pub open spec fn repeats_last(fs: Seq<FrameView>) -> bool {
    fs.len() > 0 && match segment_of(fs.last()) {
        Some((n, h)) => !is_syn(h) && !is_rst(h) && match last_on_key(fs.drop_last(), forward_key(n, h)) {
            Some(p) => p.seq == h.seq,
            None => false,
        },
        None => false,
    }
}

/// How many frames of `fs` repeat the sequence number of the previous
/// segment on their key, being neither SYN nor RST.
pub open spec fn repeat_count(fs: Seq<FrameView>) -> nat
    decreases fs.len(),
{
    if fs.len() == 0 {
        0
    } else {
        repeat_count(fs.drop_last()) + if repeats_last(fs) { 1nat } else { 0nat }
    }
}

proof fn lemma_run_flows(fs: Seq<FrameView>)
    ensures
        keys_unique(run(fs).tcp.flows),
        forall|k: FlowKey| #![trigger flow_index(run(fs).tcp.flows, k)]
            (flow_index(run(fs).tcp.flows, k) >= 0) == last_on_key(fs, k).is_some(),
        forall|k: FlowKey| #![trigger flow_index(run(fs).tcp.flows, k)]
            flow_index(run(fs).tcp.flows, k) >= 0 ==>
                run(fs).tcp.flows[flow_index(run(fs).tcp.flows, k)].last_seq == last_on_key(fs, k).unwrap().seq,
    decreases fs.len(),
{
    if fs.len() > 0 {
        let pre = fs.drop_last();
        lemma_run_flows(pre);
        let v = run(pre);
        let f = fs.last();
        match segment_of(f) {
            Some((n, h)) => {
                lemma_flows_after(v.tcp.flows, n, h, f.ts_us);
                let fl = run(fs).tcp.flows;
                assert(fl == flows_after(v.tcp.flows, n, h, f.ts_us));
                assert forall|k: FlowKey| #![trigger flow_index(fl, k)]
                    (flow_index(fl, k) >= 0) == last_on_key(fs, k).is_some()
                    && (flow_index(fl, k) >= 0 ==> fl[flow_index(fl, k)].last_seq == last_on_key(fs, k).unwrap().seq) by {
                    if k != forward_key(n, h) {
                        assert(flow_index(fl, k) == flow_index(v.tcp.flows, k));
                    }
                }
            },
            None => {
                assert(run(fs).tcp == v.tcp);
            },
        }
    }
}

/// Over a whole capture, the retransmission counter is the number of TCP
/// segments, neither SYN nor RST, whose sequence number repeats that of the
/// segment just before them on the same flow key: one per repeat.
pub proof fn lemma_capture_retransmissions(fs: Seq<FrameView>)
    ensures
        run(fs).tcp.retransmissions == repeat_count(fs),
    decreases fs.len(),
{
    if fs.len() > 0 {
        let pre = fs.drop_last();
        lemma_capture_retransmissions(pre);
        lemma_run_flows(pre);
        let v = run(pre);
        let f = fs.last();
        match segment_of(f) {
            Some((n, h)) => {
                let k = forward_key(n, h);
                assert((flow_index(v.tcp.flows, k) >= 0) == last_on_key(pre, k).is_some());
            },
            None => {},
        }
    }
}

/// The state after the frames `fs`, starting from `v`.
pub open spec fn run_from(v: AnalyzerView, fs: Seq<FrameView>) -> AnalyzerView
    decreases fs.len(),
{
    if fs.len() == 0 {
        v
    } else {
        frame_step(run_from(v, fs.drop_last()), fs.last().ts_us, fs.last().data)
    }
}

proof fn lemma_run_concat(p: Seq<FrameView>, q: Seq<FrameView>)
    ensures
        run(p + q) == run_from(run(p), q),
    decreases q.len(),
{
    if q.len() == 0 {
        assert(p + q =~= p);
    } else {
        lemma_run_concat(p, q.drop_last());
        assert((p + q).drop_last() =~= p + q.drop_last());
        assert((p + q).last() == q.last());
    }
}

/// Frame `f` is a TCP segment with SYN set.
pub open spec fn is_syn_frame(f: FrameView) -> bool {
    match segment_of(f) {
        Some((n, h)) => is_syn(h),
        None => false,
    }
}

/// Frame `f` is a TCP segment with SYN set and ACK clear.
pub open spec fn opens_handshake(f: FrameView) -> bool {
    match segment_of(f) {
        Some((n, h)) => is_syn(h) && !is_ack(h),
        None => false,
    }
}

/// Key `k` holds a SYN seen at `t0`.
pub open spec fn syn_state(flows: Seq<FlowState>, k: FlowKey, t0: u64) -> bool {
    let i = flow_index(flows, k);
    i >= 0 && flows[i].syn_seen && flows[i].syn_ts == t0
}

proof fn lemma_run_from_no_syn(v: AnalyzerView, q: Seq<FrameView>, k: FlowKey, t0: u64)
    requires
        keys_unique(v.tcp.flows),
        forall|i: int| 0 <= i < q.len() ==> !is_syn_frame(#[trigger] q[i]),
    ensures
        keys_unique(run_from(v, q).tcp.flows),
        run_from(v, q).tcp.samples == v.tcp.samples,
        syn_state(v.tcp.flows, k, t0) ==> syn_state(run_from(v, q).tcp.flows, k, t0),
    decreases q.len(),
{
    if q.len() > 0 {
        let pre = q.drop_last();
        assert forall|i: int| 0 <= i < pre.len() implies !is_syn_frame(#[trigger] pre[i]) by {
            assert(pre[i] == q[i]);
        }
        lemma_run_from_no_syn(v, pre, k, t0);
        let w = run_from(v, pre);
        let f = q.last();
        assert(!is_syn_frame(q[q.len() - 1]));
        if let Some((n, h)) = segment_of(f) {
            lemma_flows_after(w.tcp.flows, n, h, f.ts_us);
            if k == forward_key(n, h) {
                let after = flows_after(w.tcp.flows, n, h, f.ts_us);
                let j = flow_index(w.tcp.flows, k);
                if j >= 0 {
                    assert(w.tcp.flows[j].key == k);
                }
            }
        }
    }
}

proof fn lemma_run_no_opening(fs: Seq<FrameView>)
    requires
        forall|i: int| 0 <= i < fs.len() ==> !opens_handshake(#[trigger] fs[i]),
    ensures
        keys_unique(run(fs).tcp.flows),
        run(fs).tcp.samples.len() == 0,
        forall|k: FlowKey| #![trigger flow_index(run(fs).tcp.flows, k)]
            flow_index(run(fs).tcp.flows, k) >= 0 ==> !run(fs).tcp.flows[flow_index(run(fs).tcp.flows, k)].syn_seen,
    decreases fs.len(),
{
    if fs.len() > 0 {
        let pre = fs.drop_last();
        assert forall|i: int| 0 <= i < pre.len() implies !opens_handshake(#[trigger] pre[i]) by {
            assert(pre[i] == fs[i]);
        }
        lemma_run_no_opening(pre);
        let v = run(pre);
        let f = fs.last();
        assert(!opens_handshake(fs[fs.len() - 1]));
        if let Some((n, h)) = segment_of(f) {
            lemma_flows_after(v.tcp.flows, n, h, f.ts_us);
            let fl = run(fs).tcp.flows;
            let fwd = forward_key(n, h);
            let j0 = flow_index(v.tcp.flows, fwd);
            if j0 >= 0 {
                assert(v.tcp.flows[j0].key == fwd);
            }
            assert forall|k: FlowKey| #![trigger flow_index(fl, k)]
                flow_index(fl, k) >= 0 implies !fl[flow_index(fl, k)].syn_seen by {
                if k != fwd {
                    assert(flow_index(fl, k) == flow_index(v.tcp.flows, k));
                }
            }
            let rev = crate::flow::reverse_key(n, h);
            let after = flows_after(v.tcp.flows, n, h, f.ts_us);
            assert(after == fl);
            let jr = flow_index(after, rev);
            if jr >= 0 {
                assert(!after[jr].syn_seen);
            }
        }
    }
}

/// Over a whole capture, a capture with no SYN-without-ACK segment yields
/// no round-trip sample, and its mean round trip is left unset.
pub proof fn lemma_capture_no_handshake(fs: Seq<FrameView>)
    requires
        forall|i: int| 0 <= i < fs.len() ==> !opens_handshake(#[trigger] fs[i]),
    ensures
        run(fs).tcp.samples.len() == 0,
        avg_rtt_spec(run(fs).tcp.samples) == None::<u64>,
{
    lemma_run_no_opening(fs);
}

/// Over a whole capture: a SYN on key `K` at `t0`, later the matching
/// SYN+ACK on the reverse key at `t1` with `0 < t1 - t0 <= 10 s`, and no
/// other SYN segment before, between or after, yield exactly one round-trip
/// sample, of `t1 - t0`, which is then the mean.
pub proof fn lemma_capture_handshake(
    pre: Seq<FrameView>,
    f1: FrameView,
    mid: Seq<FrameView>,
    f2: FrameView,
    post: Seq<FrameView>,
    n1: NetworkHeader,
    h1: TcpHeader,
    n2: NetworkHeader,
    h2: TcpHeader,
)
    requires
        segment_of(f1) == Some((n1, h1)),
        is_syn(h1),
        !is_ack(h1),
        segment_of(f2) == Some((n2, h2)),
        is_syn(h2),
        is_ack(h2),
        reverse_key(n2, h2) == forward_key(n1, h1),
        f1.ts_us < f2.ts_us,
        f2.ts_us - f1.ts_us <= MAX_RTT_US,
        forall|i: int| 0 <= i < pre.len() ==> !is_syn_frame(#[trigger] pre[i]),
        forall|i: int| 0 <= i < mid.len() ==> !is_syn_frame(#[trigger] mid[i]),
        forall|i: int| 0 <= i < post.len() ==> !is_syn_frame(#[trigger] post[i]),
    ensures
        run(pre + seq![f1] + mid + seq![f2] + post).tcp.samples
            == seq![RttSample { flow: forward_key(n1, h1), rtt_us: (f2.ts_us - f1.ts_us) as u64 }],
        avg_rtt_spec(run(pre + seq![f1] + mid + seq![f2] + post).tcp.samples) == Some((f2.ts_us - f1.ts_us) as u64),
{
    let k = forward_key(n1, h1);
    let t0 = f1.ts_us;
    let t1 = f2.ts_us;
    let sample = RttSample { flow: k, rtt_us: (t1 - t0) as u64 };
    let e = Seq::<FrameView>::empty();
    // before the SYN
    lemma_run_concat(e, pre);
    assert(e + pre =~= pre);
    assert(run(e).tcp.flows =~= Seq::<FlowState>::empty());
    lemma_run_from_no_syn(run(e), pre, k, t0);
    let a = run(pre);
    assert(a.tcp.samples.len() == 0);
    // the SYN
    let p1 = pre + seq![f1];
    assert(p1.drop_last() =~= pre);
    assert(run(p1) == frame_step(a, t0, f1.data));
    lemma_flows_after(a.tcp.flows, n1, h1, t0);
    let b = run(p1);
    assert(b.tcp.samples == a.tcp.samples);
    assert(syn_state(b.tcp.flows, k, t0));
    // between
    lemma_run_concat(p1, mid);
    lemma_run_from_no_syn(b, mid, k, t0);
    let p2 = p1 + mid;
    let c = run(p2);
    // the SYN+ACK
    let p3 = p2 + seq![f2];
    assert(p3.drop_last() =~= p2);
    assert(run(p3) == frame_step(c, t1, f2.data));
    lemma_flows_after(c.tcp.flows, n2, h2, t1);
    let after = flows_after(c.tcp.flows, n2, h2, t1);
    let j = flow_index(after, k);
    if k == forward_key(n2, h2) {
        let jc = flow_index(c.tcp.flows, k);
        assert(c.tcp.flows[jc].key == k);
        assert(after[j] == crate::flow::updated_forward(c.tcp.flows, n2, h2, t1));
    }
    assert(crate::flow::rtt_sample(c.tcp.flows, n2, h2, t1) == Some(sample));
    let d = run(p3);
    assert(d.tcp.samples == seq![sample]);
    // after
    lemma_run_concat(p3, post);
    lemma_run_from_no_syn(d, post, k, t0);
    let s1 = seq![sample];
    assert(s1.drop_last() =~= Seq::<RttSample>::empty());
    assert(rtt_sum(Seq::<RttSample>::empty()) == 0);
    assert(s1.last() == sample);
    assert(rtt_sum(s1) == rtt_sum(s1.drop_last()) + s1.last().rtt_us);
}

fn pair_event_exec(len: u64, p: &DecodedPacket) -> (r: Option<PairEvent>)
    ensures
        forall|d: Seq<u8>| d.len() == len ==> r == pair_event(d, *p),
{
    match p.network {
        Some(n) => match p.transport {
            Some(TransportHeader::Tcp(_)) => Some(PairEvent { src: n.src, dst: n.dst, len, carrier: Carrier::Tcp }),
            Some(TransportHeader::Udp(_)) => Some(PairEvent { src: n.src, dst: n.dst, len, carrier: Carrier::Udp }),
            _ => None,
        },
        None => None,
    }
}

fn average_rtt(s: &Vec<RttSample>) -> (r: Option<u64>)
    requires
        forall|i: int| 0 <= i < s@.len() ==> s@[i].rtt_us <= MAX_RTT_US,
        s@.len() <= u64::MAX,
    ensures
        r == avg_rtt_spec(s@),
{
    if s.len() == 0 {
        return None;
    }
    let mut acc: u128 = 0;
    let mut i: usize = 0;
    while i < s.len()
        invariant
            forall|k: int| 0 <= k < s@.len() ==> s@[k].rtt_us <= MAX_RTT_US,
            s@.len() <= u64::MAX,
            i <= s@.len(),
            acc == rtt_sum(s@.subrange(0, i as int)),
            acc <= MAX_RTT_US * i,
        decreases s@.len() - i,
    {
        proof {
            assert(s@.subrange(0, i as int + 1).drop_last() =~= s@.subrange(0, i as int));
        }
        acc = acc + s[i].rtt_us as u128;
        i = i + 1;
    }
    assert(s@.subrange(0, s@.len() as int) =~= s@);
    let n = s.len() as u128;
    assert(acc / n <= acc) by (nonlinear_arith)
        requires
            n >= 1,
    ;
    assert(acc / n <= MAX_RTT_US) by (nonlinear_arith)
        requires
            n >= 1,
            acc <= MAX_RTT_US * n,
    ;
    Some((acc / n) as u64)
}

impl Analyzer {
    /// The invariant of the pass: every counter is bounded by the packets or
    /// bytes seen so far, and the tables are well formed.
    pub open spec fn wf(&self) -> bool {
        let v = self@;
        &&& v.protocols.bounded_by(v.packets)
        &&& v.suspicious_ports <= v.packets
        &&& v.cleartext_auth <= v.packets
        &&& v.deprecated_tls <= v.packets
        &&& v.fragments <= v.packets
        &&& self.tcp.wf()
        &&& v.tcp.retransmissions <= v.packets
        &&& v.tcp.resets <= v.packets
        &&& v.tcp.zero_window <= v.packets
        &&& v.tcp.samples.len() <= v.packets
        &&& self.conversations.wf()
        &&& table_bounded(v.conversations, v.bytes, v.packets)
    }

    /// A fresh analysis.
    pub fn new() -> (r: Analyzer)
        ensures
            r.wf(),
            r@ == initial_view(),
    {
        let r = Analyzer {
            packets: 0,
            bytes: 0,
            first_ts: 0,
            last_ts: 0,
            protocols: ProtocolCounts::new(),
            suspicious_ports: 0,
            cleartext_auth: 0,
            deprecated_tls: 0,
            fragments: 0,
            conversations: ConversationTable::new(),
            tcp: FlowTracker::new(),
        };
        assert(r.tcp@.flows =~= Seq::<crate::flow::FlowState>::empty());
        assert(r.tcp@.samples =~= Seq::<RttSample>::empty());
        r
    }

    /// Processes one frame, captured at `ts` microseconds. Frames that cannot
    /// be decoded are counted and tallied as malformed; nothing here fails.
    pub fn observe_frame(&mut self, ts: u64, data: &[u8])
        requires
            old(self).wf(),
            old(self).packets < u64::MAX,
            old(self).bytes + data@.len() <= u64::MAX,
        ensures
            final(self).wf(),
            final(self)@ == frame_step(old(self)@, ts, data@),
    {
        let ghost v0 = self@;
        let p = decode(data);
        let len = data.len() as u64;
        if self.packets == 0 {
            self.first_ts = ts;
        }
        self.last_ts = ts;
        self.packets = self.packets + 1;
        self.bytes = self.bytes + len;
        self.protocols.record(&p);
        let f = findings(data, &p);
        if f.suspicious_port {
            self.suspicious_ports = self.suspicious_ports + 1;
        }
        if f.cleartext_auth {
            self.cleartext_auth = self.cleartext_auth + 1;
        }
        if f.deprecated_tls {
            self.deprecated_tls = self.deprecated_tls + 1;
        }
        if f.fragmented {
            self.fragments = self.fragments + 1;
        }
        let ev = pair_event_exec(len, &p);
        record_event(&mut self.conversations, ev, Ghost(v0.bytes), Ghost(v0.packets));
        match p.network {
            Some(n) => match p.transport {
                Some(TransportHeader::Tcp(h)) => {
                    self.tcp.observe(n, h, ts);
                },
                _ => {},
            },
            None => {},
        }
        assert(self@.protocols.bounded_by(self@.packets));
        assert(self@.suspicious_ports <= self@.packets);
        assert(self@.fragments <= self@.packets);
        assert(self.tcp.wf());
        assert(self@.tcp.retransmissions <= self@.packets);
        assert(self@.tcp.samples.len() <= self@.packets);
        assert(self.conversations.wf());
        assert(table_bounded(self@.conversations, self@.bytes, self@.packets));
    }

    /// Builds the report of the frames observed so far.
    pub fn finish(&self) -> (r: AnalysisReport)
        requires
            self.wf(),
        ensures
            is_report_of(r, self@),
    {
        let duration_us = if self.packets >= 2 && self.last_ts >= self.first_ts {
            self.last_ts - self.first_ts
        } else {
            0
        };
        let counters = RuleCounters {
            suspicious_ports: self.suspicious_ports,
            cleartext_auth: self.cleartext_auth,
            retransmissions: self.tcp.retransmissions,
            zero_window: self.tcp.zero_window,
            deprecated_tls: self.deprecated_tls,
            fragments: self.fragments,
        };
        let issues = evaluate(&counters);
        let top = top_conversations(&self.conversations.entries);
        let avg = average_rtt(&self.tcp.samples);
        AnalysisReport {
            packet_count: self.packets,
            duration_us,
            issues,
            top_conversations: top,
            protocols: self.protocols,
            tcp: TcpStats {
                retransmissions: self.tcp.retransmissions,
                resets: self.tcp.resets,
                zero_window: self.tcp.zero_window,
                rtt_samples: self.tcp.samples.len() as u64,
                avg_rtt_us: avg,
            },
        }
    }
}

} // verus!

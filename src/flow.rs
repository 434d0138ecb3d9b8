//! Per-flow TCP state carried across the pass: retransmission detection by
//! sequence-number repetition, handshake round-trip samples, and the global
//! reset and zero-window counters.
//!
//! Retransmission detection is a deliberate approximation: a segment is
//! counted when its sequence number equals that of the segment just before it
//! on the same flow key, without comparing payloads, so it can both under-
//! and over-count.
use vstd::prelude::*;
use crate::decode::{Address, NetworkHeader, TcpHeader, TCP_ACK, TCP_RST, TCP_SYN};

verus! {

/// The longest handshake round trip, in microseconds, that is kept as a sample.
pub const MAX_RTT_US: u64 = 10_000_000;

/// One direction of a TCP connection.
#[derive(Clone, Copy, Debug, PartialEq, Eq, Structural)]
pub struct FlowKey {
    pub src: Address,
    pub src_port: u16,
    pub dst: Address,
    pub dst_port: u16,
}

/// What is remembered of one flow direction.
#[derive(Clone, Copy, Debug, PartialEq, Eq, Structural)]
pub struct FlowState {
    pub key: FlowKey,
    /// Sequence number of the latest segment seen on this key.
    pub last_seq: u32,
    /// A SYN without ACK has been seen on this key.
    pub syn_seen: bool,
    /// Capture time of the latest such SYN, in microseconds.
    pub syn_ts: u64,
}

/// One handshake round trip, attributed to the flow that sent the SYN.
#[derive(Clone, Copy, Debug, PartialEq, Eq, Structural)]
pub struct RttSample {
    pub flow: FlowKey,
    pub rtt_us: u64,
}

/// The flow table and the TCP counters.
pub struct FlowTracker {
    pub flows: Vec<FlowState>,
    pub samples: Vec<RttSample>,
    pub retransmissions: u64,
    pub resets: u64,
    pub zero_window: u64,
}

/// The mathematical content of a [`FlowTracker`].
pub struct FlowView {
    pub flows: Seq<FlowState>,
    pub samples: Seq<RttSample>,
    pub retransmissions: nat,
    pub resets: nat,
    pub zero_window: nat,
}

impl View for FlowTracker {
    type V = FlowView;

    open spec fn view(&self) -> FlowView {
        FlowView {
            flows: self.flows@,
            samples: self.samples@,
            retransmissions: self.retransmissions as nat,
            resets: self.resets as nat,
            zero_window: self.zero_window as nat,
        }
    }
}

pub open spec fn has_flow(flows: Seq<FlowState>, k: FlowKey) -> bool {
    exists|i: int| 0 <= i < flows.len() && flows[i].key == k
}

/// Index of the state for key `k`, or -1 when there is none.
pub open spec fn flow_index(flows: Seq<FlowState>, k: FlowKey) -> int {
    if has_flow(flows, k) {
        choose|i: int| 0 <= i < flows.len() && flows[i].key == k
    } else {
        -1
    }
}

/// No two states share a key.
pub open spec fn keys_unique(flows: Seq<FlowState>) -> bool {
    forall|i: int, j: int|
        0 <= i < flows.len() && 0 <= j < flows.len() && flows[i].key == flows[j].key ==> i == j
}

pub open spec fn forward_key(n: NetworkHeader, h: TcpHeader) -> FlowKey {
    FlowKey { src: n.src, src_port: h.src_port, dst: n.dst, dst_port: h.dst_port }
}

pub open spec fn reverse_key(n: NetworkHeader, h: TcpHeader) -> FlowKey {
    FlowKey { src: n.dst, src_port: h.dst_port, dst: n.src, dst_port: h.src_port }
}

pub open spec fn is_syn(h: TcpHeader) -> bool {
    h.flags & TCP_SYN != 0
}

pub open spec fn is_rst(h: TcpHeader) -> bool {
    h.flags & TCP_RST != 0
}

pub open spec fn is_ack(h: TcpHeader) -> bool {
    h.flags & TCP_ACK != 0
}

/// The segment repeats the sequence number of the previous segment on its key.
pub open spec fn is_retransmission(flows: Seq<FlowState>, n: NetworkHeader, h: TcpHeader) -> bool {
    let i = flow_index(flows, forward_key(n, h));
    !is_syn(h) && !is_rst(h) && i >= 0 && flows[i].last_seq == h.seq
}

/// The forward state after the segment.
pub open spec fn updated_forward(flows: Seq<FlowState>, n: NetworkHeader, h: TcpHeader, ts: u64) -> FlowState {
    let i = flow_index(flows, forward_key(n, h));
    let prev = if i >= 0 {
        flows[i]
    } else {
        FlowState { key: forward_key(n, h), last_seq: h.seq, syn_seen: false, syn_ts: 0 }
    };
    let opens = is_syn(h) && !is_ack(h);
    FlowState {
        key: prev.key,
        last_seq: h.seq,
        syn_seen: if opens { true } else { prev.syn_seen },
        syn_ts: if opens { ts } else { prev.syn_ts },
    }
}

/// The flow table after the forward state is written.
pub open spec fn flows_after(flows: Seq<FlowState>, n: NetworkHeader, h: TcpHeader, ts: u64) -> Seq<FlowState> {
    let i = flow_index(flows, forward_key(n, h));
    if i >= 0 {
        flows.update(i, updated_forward(flows, n, h, ts))
    } else {
        flows.push(updated_forward(flows, n, h, ts))
    }
}

/// The round-trip sample that a SYN+ACK at `ts` completes, if any: the
/// reverse key must hold an earlier SYN at most [`MAX_RTT_US`] before.
pub open spec fn rtt_sample(flows: Seq<FlowState>, n: NetworkHeader, h: TcpHeader, ts: u64) -> Option<RttSample> {
    let after = flows_after(flows, n, h, ts);
    let j = flow_index(after, reverse_key(n, h));
    if is_syn(h) && is_ack(h) && j >= 0 && after[j].syn_seen && after[j].syn_ts < ts
        && ts - after[j].syn_ts <= MAX_RTT_US {
        Some(RttSample { flow: reverse_key(n, h), rtt_us: (ts - after[j].syn_ts) as u64 })
    } else {
        None
    }
}

/// The tracker after observing TCP segment `h` of packet `n` at time `ts`.
pub open spec fn observe_spec(v: FlowView, n: NetworkHeader, h: TcpHeader, ts: u64) -> FlowView {
    FlowView {
        flows: flows_after(v.flows, n, h, ts),
        samples: match rtt_sample(v.flows, n, h, ts) {
            Some(s) => v.samples.push(s),
            None => v.samples,
        },
        retransmissions: v.retransmissions + if is_retransmission(v.flows, n, h) { 1nat } else { 0nat },
        resets: v.resets + if is_rst(h) { 1nat } else { 0nat },
        zero_window: v.zero_window + if h.window == 0 && !is_syn(h) && !is_rst(h) { 1nat } else { 0nat },
    }
}

/// Sum of the round-trip samples.
pub open spec fn rtt_sum(s: Seq<RttSample>) -> nat
    decreases s.len(),
{
    if s.len() == 0 {
        0
    } else {
        (rtt_sum(s.drop_last()) + s.last().rtt_us) as nat
    }
}

pub proof fn lemma_flows_after(flows: Seq<FlowState>, n: NetworkHeader, h: TcpHeader, ts: u64)
    requires
        keys_unique(flows),
    ensures
        keys_unique(flows_after(flows, n, h, ts)),
        ({
            let after = flows_after(flows, n, h, ts);
            let k = flow_index(after, forward_key(n, h));
            &&& 0 <= k < after.len()
            &&& after[k] == updated_forward(flows, n, h, ts)
            &&& forall|key: FlowKey| key != forward_key(n, h) ==> flow_index(after, key) == flow_index(flows, key)
                && (flow_index(flows, key) >= 0 ==> after[flow_index(after, key)] == flows[flow_index(flows, key)])
        }),
{
    let fwd = forward_key(n, h);
    let i = flow_index(flows, fwd);
    let after = flows_after(flows, n, h, ts);
    let up = updated_forward(flows, n, h, ts);
    if i >= 0 {
        assert(0 <= i < flows.len() && flows[i].key == fwd);
    }
    let p = if i >= 0 { i } else { flows.len() as int };
    assert(after[p] == up);
    assert(up.key == fwd);
    assert forall|x: int, y: int| 0 <= x < after.len() && 0 <= y < after.len() && after[x].key == after[y].key implies x == y by {
        if i < 0 {
            if x < flows.len() && y == flows.len() {
                assert(has_flow(flows, fwd));
            }
            if y < flows.len() && x == flows.len() {
                assert(has_flow(flows, fwd));
            }
        }
    }
    assert(has_flow(after, fwd));
    let k = flow_index(after, fwd);
    assert(after[k].key == after[p].key);
    assert forall|key: FlowKey| key != fwd implies flow_index(after, key) == flow_index(flows, key)
        && (flow_index(flows, key) >= 0 ==> after[flow_index(after, key)] == flows[flow_index(flows, key)]) by {
        if has_flow(flows, key) {
            let j = flow_index(flows, key);
            assert(after[j].key == key);
            assert(has_flow(after, key));
            let j2 = flow_index(after, key);
            assert(after[j2].key == after[j].key);
        }
        if has_flow(after, key) {
            let j2 = flow_index(after, key);
            assert(j2 != p);
            assert(flows[j2].key == key);
            assert(has_flow(flows, key));
        }
    }
}

/// A segment that is neither SYN nor RST and repeats the sequence number of
/// the previous segment on its flow key counts as exactly one retransmission.
pub proof fn lemma_retransmission_repeat(
    v: FlowView,
    n1: NetworkHeader,
    h1: TcpHeader,
    t1: u64,
    n2: NetworkHeader,
    h2: TcpHeader,
    t2: u64,
)
    requires
        keys_unique(v.flows),
        forward_key(n1, h1) == forward_key(n2, h2),
        h1.seq == h2.seq,
        !is_syn(h2),
        !is_rst(h2),
    ensures
        observe_spec(observe_spec(v, n1, h1, t1), n2, h2, t2).retransmissions
            == observe_spec(v, n1, h1, t1).retransmissions + 1,
{
    lemma_flows_after(v.flows, n1, h1, t1);
}

/// A SYN at `t0` followed by the matching SYN+ACK on the reverse key at `t1`,
/// with `0 < t1 - t0 <= 10 s`, adds one round-trip sample of `t1 - t0`.
pub proof fn lemma_handshake_sample(
    v: FlowView,
    n1: NetworkHeader,
    h1: TcpHeader,
    t0: u64,
    n2: NetworkHeader,
    h2: TcpHeader,
    t1: u64,
)
    requires
        keys_unique(v.flows),
        is_syn(h1),
        !is_ack(h1),
        is_syn(h2),
        is_ack(h2),
        reverse_key(n2, h2) == forward_key(n1, h1),
        t0 < t1,
        t1 - t0 <= MAX_RTT_US,
    ensures
        observe_spec(observe_spec(v, n1, h1, t0), n2, h2, t1).samples
            == observe_spec(v, n1, h1, t0).samples.push(RttSample { flow: forward_key(n1, h1), rtt_us: (t1 - t0) as u64 }),
{
    let v1 = observe_spec(v, n1, h1, t0);
    lemma_flows_after(v.flows, n1, h1, t0);
    lemma_flows_after(v1.flows, n2, h2, t1);
    let after = flows_after(v1.flows, n2, h2, t1);
    let rev = reverse_key(n2, h2);
    if rev == forward_key(n2, h2) {
        let k = flow_index(after, forward_key(n2, h2));
        assert(after[k] == updated_forward(v1.flows, n2, h2, t1));
    }
}

/// A SYN+ACK whose reverse key has seen no SYN adds no round-trip sample.
pub proof fn lemma_no_sample_without_syn(v: FlowView, n: NetworkHeader, h: TcpHeader, ts: u64)
    requires
        keys_unique(v.flows),
        flow_index(v.flows, reverse_key(n, h)) >= 0 ==> !v.flows[flow_index(v.flows, reverse_key(n, h))].syn_seen,
    ensures
        observe_spec(v, n, h, ts).samples == v.samples,
{
    lemma_flows_after(v.flows, n, h, ts);
    let after = flows_after(v.flows, n, h, ts);
    let rev = reverse_key(n, h);
    if rev == forward_key(n, h) && is_syn(h) && is_ack(h) {
        let k = flow_index(after, forward_key(n, h));
        assert(after[k] == updated_forward(v.flows, n, h, ts));
        let i = flow_index(v.flows, forward_key(n, h));
        if i >= 0 {
            assert(!v.flows[i].syn_seen);
        }
    }
}

fn find_flow(flows: &Vec<FlowState>, k: FlowKey) -> (r: Option<usize>)
    requires
        keys_unique(flows@),
    ensures
        match r {
            Some(i) => i < flows@.len() && flow_index(flows@, k) == i,
            None => flow_index(flows@, k) == -1,
        },
{
    let mut i: usize = 0;
    while i < flows.len()
        invariant
            keys_unique(flows@),
            i <= flows@.len(),
            forall|j: int| 0 <= j < i ==> flows@[j].key != k,
        decreases flows@.len() - i,
    {
        if flows[i].key == k {
            assert(has_flow(flows@, k));
            let ghost c = flow_index(flows@, k);
            assert(flows@[c].key == flows@[i as int].key);
            return Some(i);
        }
        i = i + 1;
    }
    None
}

impl FlowTracker {
    /// The tracker's invariant: unique keys and samples within range.
    pub open spec fn wf(&self) -> bool {
        &&& keys_unique(self.flows@)
        &&& forall|i: int| 0 <= i < self.samples@.len() ==> self.samples@[i].rtt_us <= MAX_RTT_US
    }

    /// An empty tracker.
    pub fn new() -> (r: FlowTracker)
        ensures
            r.wf(),
            r@.flows.len() == 0,
            r@.samples.len() == 0,
            r@.retransmissions == 0,
            r@.resets == 0,
            r@.zero_window == 0,
    {
        FlowTracker { flows: Vec::new(), samples: Vec::new(), retransmissions: 0, resets: 0, zero_window: 0 }
    }

    /// Observes one TCP segment of packet `n`, captured at `ts` microseconds.
    pub fn observe(&mut self, n: NetworkHeader, h: TcpHeader, ts: u64)
        requires
            old(self).wf(),
            old(self).retransmissions < u64::MAX,
            old(self).resets < u64::MAX,
            old(self).zero_window < u64::MAX,
        ensures
            final(self).wf(),
            final(self)@ == observe_spec(old(self)@, n, h, ts),
    {
        let fwd = FlowKey { src: n.src, src_port: h.src_port, dst: n.dst, dst_port: h.dst_port };
        let rev = FlowKey { src: n.dst, src_port: h.dst_port, dst: n.src, dst_port: h.src_port };
        let syn = h.flags & TCP_SYN != 0;
        let rst = h.flags & TCP_RST != 0;
        let ack = h.flags & TCP_ACK != 0;
        let ghost flows0 = self.flows@;
        let found = find_flow(&self.flows, fwd);
        let prev = match found {
            Some(i) => self.flows[i],
            None => FlowState { key: fwd, last_seq: h.seq, syn_seen: false, syn_ts: 0 },
        };
        if !syn && !rst {
            if let Some(_) = found {
                if prev.last_seq == h.seq {
                    self.retransmissions = self.retransmissions + 1;
                }
            }
        }
        let opens = syn && !ack;
        let next = FlowState {
            key: prev.key,
            last_seq: h.seq,
            syn_seen: if opens { true } else { prev.syn_seen },
            syn_ts: if opens { ts } else { prev.syn_ts },
        };
        assert(next == updated_forward(flows0, n, h, ts));
        match found {
            Some(i) => {
                self.flows.set(i, next);
            },
            None => {
                self.flows.push(next);
            },
        }
        assert(self.flows@ == flows_after(flows0, n, h, ts));
        assert(keys_unique(self.flows@)) by {
            if found.is_none() {
                assert(!has_flow(flows0, fwd));
            }
        }
        if syn && ack {
            let back = find_flow(&self.flows, rev);
            if let Some(j) = back {
                let st = self.flows[j];
                if st.syn_seen && st.syn_ts < ts && ts - st.syn_ts <= MAX_RTT_US {
                    self.samples.push(RttSample { flow: rev, rtt_us: ts - st.syn_ts });
                }
            }
        }
        if rst {
            self.resets = self.resets + 1;
        }
        if h.window == 0 && !syn && !rst {
            self.zero_window = self.zero_window + 1;
        }
    }
}

} // verus!

//! Per-conversation byte and packet totals, keyed by the unordered pair of
//! IP addresses, so that both directions of an exchange add to one entry.
use vstd::prelude::*;
use crate::decode::Address;
use vstd::multiset::Multiset;

verus! {

/// Which transport a packet of a conversation used.
#[derive(Clone, Copy, Debug, PartialEq, Eq, Structural)]
pub enum Carrier {
    Tcp,
    Udp,
}

/// One conversation between two addresses.
#[derive(Clone, Copy, Debug, PartialEq, Eq, Structural)]
pub struct Conversation {
    /// Source of the first packet seen between the pair.
    pub src: Address,
    /// Destination of the first packet seen between the pair.
    pub dst: Address,
    pub bytes: u64,
    pub packets: u64,
    pub tcp_packets: u64,
    pub udp_packets: u64,
}

/// The transport that most of a conversation's packets used; TCP on a tie.
pub open spec fn dominant_spec(c: Conversation) -> Carrier {
    if c.tcp_packets >= c.udp_packets { Carrier::Tcp } else { Carrier::Udp }
}

impl Conversation {
    /// The conversation's dominant transport.
    pub fn protocol(&self) -> (r: Carrier)
        ensures
            r == dominant_spec(*self),
    {
        if self.tcp_packets >= self.udp_packets { Carrier::Tcp } else { Carrier::Udp }
    }
}

/// One packet as the conversation table sees it.
#[derive(Clone, Copy, Debug, PartialEq, Eq, Structural)]
pub struct PairEvent {
    pub src: Address,
    pub dst: Address,
    pub len: u64,
    pub carrier: Carrier,
}

/// `{a, b}` and `{c, d}` are the same unordered pair.
pub open spec fn same_pair(a: Address, b: Address, c: Address, d: Address) -> bool {
    (a == c && b == d) || (a == d && b == c)
}

pub open spec fn has_pair(s: Seq<Conversation>, a: Address, b: Address) -> bool {
    exists|i: int| 0 <= i < s.len() && same_pair(s[i].src, s[i].dst, a, b)
}

/// Index of the entry for `{a, b}`, or -1.
pub open spec fn pair_index(s: Seq<Conversation>, a: Address, b: Address) -> int {
    if has_pair(s, a, b) {
        choose|i: int| 0 <= i < s.len() && same_pair(s[i].src, s[i].dst, a, b)
    } else {
        -1
    }
}

/// No two entries are for the same pair.
pub open spec fn pairs_unique(s: Seq<Conversation>) -> bool {
    forall|i: int, j: int|
        0 <= i < s.len() && 0 <= j < s.len() && same_pair(s[i].src, s[i].dst, s[j].src, s[j].dst) ==> i == j
}

pub open spec fn add_event(c: Conversation, e: PairEvent) -> Conversation {
    Conversation {
        src: c.src,
        dst: c.dst,
        bytes: (c.bytes + e.len) as u64,
        packets: (c.packets + 1) as u64,
        tcp_packets: (c.tcp_packets + if e.carrier == Carrier::Tcp { 1int } else { 0 }) as u64,
        udp_packets: (c.udp_packets + if e.carrier == Carrier::Udp { 1int } else { 0 }) as u64,
    }
}

pub open spec fn fresh(e: PairEvent) -> Conversation {
    Conversation {
        src: e.src,
        dst: e.dst,
        bytes: e.len,
        packets: 1,
        tcp_packets: if e.carrier == Carrier::Tcp { 1 } else { 0 },
        udp_packets: if e.carrier == Carrier::Udp { 1 } else { 0 },
    }
}

/// The table after one more packet.
pub open spec fn record_spec(s: Seq<Conversation>, e: PairEvent) -> Seq<Conversation> {
    let i = pair_index(s, e.src, e.dst);
    if i >= 0 {
        s.update(i, add_event(s[i], e))
    } else {
        s.push(fresh(e))
    }
}

/// The table built from the packets `es`, in order.
pub open spec fn table_of(es: Seq<PairEvent>) -> Seq<Conversation>
    decreases es.len(),
{
    if es.len() == 0 {
        Seq::empty()
    } else {
        record_spec(table_of(es.drop_last()), es.last())
    }
}

/// Total length of the packets of `es` between `a` and `b`, either way.
pub open spec fn pair_bytes(es: Seq<PairEvent>, a: Address, b: Address) -> nat
    decreases es.len(),
{
    if es.len() == 0 {
        0
    } else {
        pair_bytes(es.drop_last(), a, b) + if same_pair(es.last().src, es.last().dst, a, b) {
            es.last().len as nat
        } else {
            0
        }
    }
}

/// Number of the packets of `es` between `a` and `b`, either way.
pub open spec fn pair_packets(es: Seq<PairEvent>, a: Address, b: Address) -> nat
    decreases es.len(),
{
    if es.len() == 0 {
        0
    } else {
        pair_packets(es.drop_last(), a, b) + if same_pair(es.last().src, es.last().dst, a, b) {
            1nat
        } else {
            0
        }
    }
}

/// Total length of all packets of `es`.
pub open spec fn total_bytes(es: Seq<PairEvent>) -> nat
    decreases es.len(),
{
    if es.len() == 0 {
        0
    } else {
        total_bytes(es.drop_last()) + es.last().len as nat
    }
}

/// Every entry can take packet `e` without overflow.
pub open spec fn room_for(s: Seq<Conversation>, e: PairEvent) -> bool {
    forall|i: int| 0 <= i < s.len() ==> {
        &&& s[i].bytes + e.len <= u64::MAX
        &&& s[i].packets < u64::MAX
        &&& s[i].tcp_packets < u64::MAX
        &&& s[i].udp_packets < u64::MAX
    }
}

/// `e` with its source and destination swapped.
pub open spec fn reversed(e: PairEvent) -> PairEvent {
    PairEvent { src: e.dst, dst: e.src, len: e.len, carrier: e.carrier }
}

proof fn lemma_pair_bounds(es: Seq<PairEvent>, a: Address, b: Address)
    ensures
        pair_bytes(es, a, b) <= total_bytes(es),
        pair_packets(es, a, b) <= es.len(),
    decreases es.len(),
{
    if es.len() > 0 {
        lemma_pair_bounds(es.drop_last(), a, b);
    }
}

proof fn lemma_pair_zero(es: Seq<PairEvent>, a: Address, b: Address)
    requires
        pair_packets(es, a, b) == 0,
    ensures
        pair_bytes(es, a, b) == 0,
    decreases es.len(),
{
    if es.len() > 0 {
        lemma_pair_zero(es.drop_last(), a, b);
    }
}

/// Every entry of the table built from `es` holds exactly the bytes and
/// packets of the packets of `es` between its two addresses, in either
/// direction; and an entry exists for a pair exactly when some packet of `es`
/// was between them.
pub proof fn lemma_table_totals(es: Seq<PairEvent>)
    requires
        total_bytes(es) <= u64::MAX,
        es.len() <= u64::MAX,
    ensures
        pairs_unique(table_of(es)),
        forall|i: int| #![trigger table_of(es)[i]] 0 <= i < table_of(es).len() ==> {
            &&& table_of(es)[i].bytes == pair_bytes(es, table_of(es)[i].src, table_of(es)[i].dst)
            &&& table_of(es)[i].packets == pair_packets(es, table_of(es)[i].src, table_of(es)[i].dst)
        },
        forall|a: Address, b: Address| has_pair(table_of(es), a, b) <==> pair_packets(es, a, b) > 0,
    decreases es.len(),
{
    if es.len() > 0 {
        let pre = es.drop_last();
        let e = es.last();
        assert(total_bytes(pre) <= total_bytes(es));
        lemma_table_totals(pre);
        let t = table_of(pre);
        let t1 = table_of(es);
        assert(t1 == record_spec(t, e));
        let k = pair_index(t, e.src, e.dst);
        if k >= 0 {
            assert(0 <= k < t.len() && same_pair(t[k].src, t[k].dst, e.src, e.dst));
        } else {
            assert(pair_packets(pre, e.src, e.dst) == 0);
            lemma_pair_zero(pre, e.src, e.dst);
        }
        assert forall|i: int| #![trigger t1[i]] 0 <= i < t1.len() implies {
            &&& t1[i].bytes == pair_bytes(es, t1[i].src, t1[i].dst)
            &&& t1[i].packets == pair_packets(es, t1[i].src, t1[i].dst)
        } by {
            lemma_pair_bounds(es, t1[i].src, t1[i].dst);
            if i < t.len() {
                assert(t[i] == t[i]);
                if i != k && same_pair(e.src, e.dst, t[i].src, t[i].dst) {
                    assert(has_pair(t, e.src, e.dst));
                    assert(same_pair(t[k].src, t[k].dst, t[i].src, t[i].dst));
                }
            }
        }
        assert forall|a: Address, b: Address| has_pair(t1, a, b) <==> pair_packets(es, a, b) > 0 by {
            if has_pair(t1, a, b) {
                let i = choose|i: int| 0 <= i < t1.len() && same_pair(t1[i].src, t1[i].dst, a, b);
                if i < t.len() {
                    assert(same_pair(t[i].src, t[i].dst, a, b) || i == k);
                    if i != k {
                        assert(has_pair(t, a, b));
                    }
                }
            }
            if pair_packets(es, a, b) > 0 {
                if pair_packets(pre, a, b) > 0 {
                    assert(has_pair(t, a, b));
                    let i = choose|i: int| 0 <= i < t.len() && same_pair(t[i].src, t[i].dst, a, b);
                    assert(same_pair(t1[i].src, t1[i].dst, a, b));
                } else {
                    if k >= 0 {
                        assert(same_pair(t1[k].src, t1[k].dst, a, b));
                    } else {
                        assert(same_pair(t1[t.len() as int].src, t1[t.len() as int].dst, a, b));
                    }
                }
            }
        }
        assert forall|x: int, y: int|
            0 <= x < t1.len() && 0 <= y < t1.len() && same_pair(t1[x].src, t1[x].dst, t1[y].src, t1[y].dst)
            implies x == y by {
            if k < 0 && (x == t.len() || y == t.len()) {
                if x < t.len() {
                    assert(same_pair(t[x].src, t[x].dst, e.src, e.dst));
                }
                if y < t.len() {
                    assert(same_pair(t[y].src, t[y].dst, e.src, e.dst));
                }
            } else {
                assert(same_pair(t[x].src, t[x].dst, t[y].src, t[y].dst));
            }
        }
    }
}

proof fn lemma_pair_concat(s1: Seq<PairEvent>, s2: Seq<PairEvent>, a: Address, b: Address)
    ensures
        pair_bytes(s1 + s2, a, b) == pair_bytes(s1, a, b) + pair_bytes(s2, a, b),
        pair_packets(s1 + s2, a, b) == pair_packets(s1, a, b) + pair_packets(s2, a, b),
    decreases s2.len(),
{
    if s2.len() > 0 {
        lemma_pair_concat(s1, s2.drop_last(), a, b);
        assert((s1 + s2).drop_last() =~= s1 + s2.drop_last());
    }
}

/// Direction does not matter: turning any of the packets around leaves the
/// byte and packet totals of every address pair unchanged.
pub proof fn lemma_direction_independent(es1: Seq<PairEvent>, es2: Seq<PairEvent>, a: Address, b: Address)
    requires
        es1.len() == es2.len(),
        forall|i: int| 0 <= i < es1.len() ==> es2[i] == es1[i] || es2[i] == reversed(es1[i]),
    ensures
        pair_bytes(es1, a, b) == pair_bytes(es2, a, b),
        pair_packets(es1, a, b) == pair_packets(es2, a, b),
    decreases es1.len(),
{
    if es1.len() > 0 {
        let n = es1.len() - 1;
        assert(es2[n] == es1[n] || es2[n] == reversed(es1[n]));
        lemma_direction_independent(es1.drop_last(), es2.drop_last(), a, b);
    }
}

/// Order does not matter: exchanging two neighbouring packets leaves the byte
/// and packet totals of every address pair unchanged (and so does any
/// reordering, which is a series of such exchanges).
pub proof fn lemma_order_independent(es: Seq<PairEvent>, i: int, a: Address, b: Address)
    requires
        0 <= i,
        i + 1 < es.len(),
    ensures
        pair_bytes(es, a, b) == pair_bytes(es.update(i, es[i + 1]).update(i + 1, es[i]), a, b),
        pair_packets(es, a, b) == pair_packets(es.update(i, es[i + 1]).update(i + 1, es[i]), a, b),
{
    let x = es[i];
    let y = es[i + 1];
    let sw = es.update(i, y).update(i + 1, x);
    let pre = es.subrange(0, i);
    let post = es.subrange(i + 2, es.len() as int);
    let mid1 = seq![x, y];
    let mid2 = seq![y, x];
    assert(es =~= pre + mid1 + post);
    assert(sw =~= pre + mid2 + post);
    lemma_pair_concat(pre + mid1, post, a, b);
    lemma_pair_concat(pre, mid1, a, b);
    lemma_pair_concat(pre + mid2, post, a, b);
    lemma_pair_concat(pre, mid2, a, b);
    lemma_pair_concat(seq![x], seq![y], a, b);
    lemma_pair_concat(seq![y], seq![x], a, b);
    assert(seq![x] + seq![y] =~= mid1);
    assert(seq![y] + seq![x] =~= mid2);
    assert(seq![x].drop_last() =~= Seq::<PairEvent>::empty());
    assert(seq![y].drop_last() =~= Seq::<PairEvent>::empty());
}

/// A fixed order on addresses: IPv4 before IPv6, then by value.
pub open spec fn addr_le(x: Address, y: Address) -> bool {
    (!x.v6 && y.v6) || (x.v6 == y.v6 && x.bits <= y.bits)
}

/// What a packet contributes to the totals: its address pair in the fixed
/// order, and its length.
pub open spec fn canonical(e: PairEvent) -> (Address, Address, u64) {
    if addr_le(e.src, e.dst) { (e.src, e.dst, e.len) } else { (e.dst, e.src, e.len) }
}

pub open spec fn canonical_all(es: Seq<PairEvent>) -> Multiset<(Address, Address, u64)> {
    es.map_values(|e: PairEvent| canonical(e)).to_multiset()
}

/// Order and direction do not matter: two packet sequences that hold the same
/// packets, each possibly turned around, in any order, give every address
/// pair the same byte and packet totals.
pub proof fn lemma_same_packets_same_totals(es1: Seq<PairEvent>, es2: Seq<PairEvent>, a: Address, b: Address)
    requires
        canonical_all(es1) == canonical_all(es2),
    ensures
        pair_bytes(es1, a, b) == pair_bytes(es2, a, b),
        pair_packets(es1, a, b) == pair_packets(es2, a, b),
    decreases es1.len(),
{
    broadcast use vstd::multiset::group_multiset_axioms;
    let m1 = es1.map_values(|e: PairEvent| canonical(e));
    let m2 = es2.map_values(|e: PairEvent| canonical(e));
    vstd::seq_lib::to_multiset_len(m1);
    vstd::seq_lib::to_multiset_len(m2);
    if es1.len() == 0 {
        assert(es2.len() == 0);
    } else {
        let pre = es1.drop_last();
        let x = es1.last();
        let mp = pre.map_values(|e: PairEvent| canonical(e));
        assert(m1 =~= mp.push(canonical(x)));
        vstd::seq_lib::to_multiset_build(mp, canonical(x));
        assert(canonical_all(es1).count(canonical(x)) > 0);
        vstd::seq_lib::to_multiset_contains(m2, canonical(x));
        let j = choose|j: int| 0 <= j < m2.len() && m2[j] == canonical(x);
        let rest = es2.remove(j);
        let mr = rest.map_values(|e: PairEvent| canonical(e));
        assert(mr =~= m2.remove(j));
        vstd::seq_lib::to_multiset_remove(m2, j);
        assert(canonical_all(rest) =~= canonical_all(pre));
        lemma_same_packets_same_totals(pre, rest, a, b);
        let left = es2.subrange(0, j);
        let right = es2.subrange(j + 1, es2.len() as int);
        assert(es2 =~= left + seq![es2[j]] + right);
        assert(rest =~= left + right);
        lemma_pair_concat(left + seq![es2[j]], right, a, b);
        lemma_pair_concat(left, seq![es2[j]], a, b);
        lemma_pair_concat(left, right, a, b);
        let y = es2[j];
        assert(seq![y].drop_last() =~= Seq::<PairEvent>::empty());
        assert(seq![y].last() == y);
        assert(canonical(y) == canonical(x));
        assert(y.len == x.len);
        assert(same_pair(y.src, y.dst, a, b) == same_pair(x.src, x.dst, a, b)) by {
            if addr_le(y.src, y.dst) {
                if addr_le(x.src, x.dst) {
                } else {
                }
            } else {
                if addr_le(x.src, x.dst) {
                } else {
                }
            }
        }
        assert(pair_bytes(seq![y], a, b) == pair_bytes(Seq::<PairEvent>::empty(), a, b)
            + if same_pair(y.src, y.dst, a, b) { y.len as nat } else { 0 });
        assert(pair_packets(seq![y], a, b) == pair_packets(Seq::<PairEvent>::empty(), a, b)
            + if same_pair(y.src, y.dst, a, b) { 1nat } else { 0 });
        assert(pair_bytes(es1, a, b) == pair_bytes(pre, a, b) + if same_pair(x.src, x.dst, a, b) { x.len as nat } else { 0 });
        assert(pair_packets(es1, a, b) == pair_packets(pre, a, b) + if same_pair(x.src, x.dst, a, b) { 1nat } else { 0 });
    }
}

/// The conversation table.
pub struct ConversationTable {
    pub entries: Vec<Conversation>,
}

impl ConversationTable {
    /// No two entries are for the same pair.
    pub open spec fn wf(&self) -> bool {
        pairs_unique(self.entries@)
    }

    pub open spec fn has_room(&self, e: PairEvent) -> bool {
        room_for(self.entries@, e)
    }

    /// An empty table.
    pub fn new() -> (r: ConversationTable)
        ensures
            r.wf(),
            r.entries@ == Seq::<Conversation>::empty(),
    {
        ConversationTable { entries: Vec::new() }
    }

    /// Adds packet `e` to the entry of its address pair, creating the entry
    /// (with `e`'s direction as first observed) when the pair is new.
    pub fn record(&mut self, e: PairEvent)
        requires
            old(self).wf(),
            old(self).has_room(e),
        ensures
            final(self).wf(),
            final(self).entries@ == record_spec(old(self).entries@, e),
    {
        let ghost s0 = self.entries@;
        match find_pair(&self.entries, e.src, e.dst) {
            Some(i) => {
                let c = self.entries[i];
                let next = Conversation {
                    src: c.src,
                    dst: c.dst,
                    bytes: c.bytes + e.len,
                    packets: c.packets + 1,
                    tcp_packets: if e.carrier == Carrier::Tcp { c.tcp_packets + 1 } else { c.tcp_packets },
                    udp_packets: if e.carrier == Carrier::Udp { c.udp_packets + 1 } else { c.udp_packets },
                };
                assert(next == add_event(s0[i as int], e));
                self.entries.set(i, next);
                proof {
                    let s1 = self.entries@;
                    assert forall|a: int, b: int|
                        0 <= a < s1.len() && 0 <= b < s1.len() && same_pair(s1[a].src, s1[a].dst, s1[b].src, s1[b].dst)
                        implies a == b by {
                        assert(same_pair(s0[a].src, s0[a].dst, s0[b].src, s0[b].dst));
                    }
                }
            },
            None => {
                self.entries.push(fresh_exec(e));
                proof {
                    let s1 = self.entries@;
                    assert forall|a: int, b: int|
                        0 <= a < s1.len() && 0 <= b < s1.len() && same_pair(s1[a].src, s1[a].dst, s1[b].src, s1[b].dst)
                        implies a == b by {
                        if a < s0.len() && b < s0.len() {
                            assert(same_pair(s0[a].src, s0[a].dst, s0[b].src, s0[b].dst));
                        }
                    }
                }
            },
        }
    }
}

fn find_pair(s: &Vec<Conversation>, a: Address, b: Address) -> (r: Option<usize>)
    requires
        pairs_unique(s@),
    ensures
        match r {
            Some(i) => i < s@.len() && pair_index(s@, a, b) == i,
            None => pair_index(s@, a, b) == -1,
        },
{
    let mut i: usize = 0;
    while i < s.len()
        invariant
            pairs_unique(s@),
            i <= s@.len(),
            forall|j: int| 0 <= j < i ==> !same_pair(s@[j].src, s@[j].dst, a, b),
        decreases s@.len() - i,
    {
        let c = s[i];
        if (c.src == a && c.dst == b) || (c.src == b && c.dst == a) {
            proof {
                assert(has_pair(s@, a, b));
                let k = pair_index(s@, a, b);
                assert(same_pair(s@[k].src, s@[k].dst, s@[i as int].src, s@[i as int].dst));
            }
            return Some(i);
        }
        i = i + 1;
    }
    None
}

fn fresh_exec(e: PairEvent) -> (r: Conversation)
    ensures
        r == fresh(e),
{
    Conversation {
        src: e.src,
        dst: e.dst,
        bytes: e.len,
        packets: 1,
        tcp_packets: if e.carrier == Carrier::Tcp { 1 } else { 0 },
        udp_packets: if e.carrier == Carrier::Udp { 1 } else { 0 },
    }
}

} // verus!

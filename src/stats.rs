//! Per-packet tallies: the protocol distribution and the findings that the
//! heuristic rules count (suspicious ports, cleartext credentials, deprecated
//! TLS, fragmentation).
use vstd::prelude::*;
use crate::bytes::{contains_bytes, occurs_in};
use crate::decode::{
    DecodedPacket, NetworkHeader, TransportHeader, ETHERTYPE_ARP, PROTO_ICMP, PROTO_ICMPV6, PROTO_TCP,
    PROTO_UDP,
};

verus! {

/// Packets per coarse protocol label. One packet may count under several
/// labels (`ipv4` and `tcp`, say). A frame with no readable network layer
/// that is not ARP, or with a truncated TCP, UDP or ICMP header, counts as
/// malformed or unknown.
#[derive(Clone, Copy, Debug, PartialEq, Eq, Structural)]
pub struct ProtocolCounts {
    pub ipv4: u64,
    pub ipv6: u64,
    pub arp: u64,
    pub tcp: u64,
    pub udp: u64,
    pub icmp: u64,
    pub icmpv6: u64,
    pub dns: u64,
    pub malformed: u64,
}

pub open spec fn one_if(b: bool) -> nat {
    if b { 1 } else { 0 }
}

pub open spec fn is_arp(p: DecodedPacket) -> bool {
    p.ethertype == Some(ETHERTYPE_ARP)
}

/// The network header names a transport that is decoded (TCP, UDP, ICMP in
/// IPv4, ICMPv6 in IPv6).
pub open spec fn names_known_transport(n: NetworkHeader) -> bool {
    n.protocol == PROTO_TCP || n.protocol == PROTO_UDP
        || (n.protocol == PROTO_ICMP && !n.src.v6) || (n.protocol == PROTO_ICMPV6 && n.src.v6)
}

/// Malformed or unknown: no readable network layer (and not ARP), or a
/// network layer naming a decoded transport whose header is truncated.
pub open spec fn is_malformed(p: DecodedPacket) -> bool {
    match p.network {
        None => !is_arp(p),
        Some(n) => names_known_transport(n) && p.transport.is_none(),
    }
}

pub open spec fn is_ipv4(p: DecodedPacket) -> bool {
    p.network.is_some() && !p.network.unwrap().src.v6
}

pub open spec fn is_ipv6(p: DecodedPacket) -> bool {
    p.network.is_some() && p.network.unwrap().src.v6
}

pub open spec fn is_tcp(p: DecodedPacket) -> bool {
    p.transport matches Some(TransportHeader::Tcp(_))
}

pub open spec fn is_udp(p: DecodedPacket) -> bool {
    p.transport matches Some(TransportHeader::Udp(_))
}

/// DNS is recognised by port 53 on either side of a UDP datagram.
pub open spec fn is_dns(p: DecodedPacket) -> bool {
    match p.transport {
        Some(TransportHeader::Udp(u)) => u.src_port == 53 || u.dst_port == 53,
        _ => false,
    }
}

impl ProtocolCounts {
    /// Every count is at most `n`.
    pub open spec fn bounded_by(self, n: nat) -> bool {
        &&& self.ipv4 <= n
        &&& self.ipv6 <= n
        &&& self.arp <= n
        &&& self.tcp <= n
        &&& self.udp <= n
        &&& self.icmp <= n
        &&& self.icmpv6 <= n
        &&& self.dns <= n
        &&& self.malformed <= n
    }

    /// The counts after one more packet `p`.
    pub open spec fn counted(self, p: DecodedPacket) -> ProtocolCounts {
        ProtocolCounts {
            ipv4: (self.ipv4 + one_if(is_ipv4(p))) as u64,
            ipv6: (self.ipv6 + one_if(is_ipv6(p))) as u64,
            arp: (self.arp + one_if(is_arp(p))) as u64,
            tcp: (self.tcp + one_if(is_tcp(p))) as u64,
            udp: (self.udp + one_if(is_udp(p))) as u64,
            icmp: (self.icmp + one_if(p.transport == Some(TransportHeader::Icmp))) as u64,
            icmpv6: (self.icmpv6 + one_if(p.transport == Some(TransportHeader::Icmpv6))) as u64,
            dns: (self.dns + one_if(is_dns(p))) as u64,
            malformed: (self.malformed + one_if(is_malformed(p))) as u64,
        }
    }

    /// All counts zero.
    pub fn new() -> (r: ProtocolCounts)
        ensures
            r.bounded_by(0),
    {
        ProtocolCounts { ipv4: 0, ipv6: 0, arp: 0, tcp: 0, udp: 0, icmp: 0, icmpv6: 0, dns: 0, malformed: 0 }
    }

    /// Counts packet `p` under each label that applies to it.
    pub fn record(&mut self, p: &DecodedPacket)
        requires
            old(self).bounded_by((u64::MAX - 1) as nat),
        ensures
            *final(self) == old(self).counted(*p),
    {
        let arp = p.ethertype == Some(ETHERTYPE_ARP);
        match p.network {
            Some(n) => {
                if n.src.v6 {
                    self.ipv6 = self.ipv6 + 1;
                } else {
                    self.ipv4 = self.ipv4 + 1;
                }
                let known = n.protocol == PROTO_TCP || n.protocol == PROTO_UDP
                    || (n.protocol == PROTO_ICMP && !n.src.v6) || (n.protocol == PROTO_ICMPV6 && n.src.v6);
                if known && p.transport.is_none() {
                    self.malformed = self.malformed + 1;
                }
            },
            None => {
                if !arp {
                    self.malformed = self.malformed + 1;
                }
            },
        }
        if arp {
            self.arp = self.arp + 1;
        }
        match p.transport {
            Some(TransportHeader::Tcp(_)) => {
                self.tcp = self.tcp + 1;
            },
            Some(TransportHeader::Udp(u)) => {
                self.udp = self.udp + 1;
                if u.src_port == 53 || u.dst_port == 53 {
                    self.dns = self.dns + 1;
                }
            },
            Some(TransportHeader::Icmp) => {
                self.icmp = self.icmp + 1;
            },
            Some(TransportHeader::Icmpv6) => {
                self.icmpv6 = self.icmpv6 + 1;
            },
            None => {},
        }
    }
}

/// Destination ports tied to malware or insecure services.
pub open spec fn is_suspicious_port(port: u16) -> bool {
    port == 21 || port == 23 || port == 4444 || port == 6667 || port == 1337 || port == 31337
}

/// The destination port of a TCP or UDP packet.
pub open spec fn dst_port_of(p: DecodedPacket) -> Option<u16> {
    match p.transport {
        Some(TransportHeader::Tcp(t)) => Some(t.dst_port),
        Some(TransportHeader::Udp(u)) => Some(u.dst_port),
        _ => None,
    }
}

/// The bytes of an HTTP Basic-Auth header, `Authorization: Basic`.
pub open spec fn basic_auth_marker() -> Seq<u8> {
    seq![65u8, 117, 116, 104, 111, 114, 105, 122, 97, 116, 105, 111, 110, 58, 32, 66, 97, 115, 105, 99]
}

/// The TCP payload of frame `d`, empty when `p` is not TCP.
pub open spec fn tcp_payload(d: Seq<u8>, p: DecodedPacket) -> Seq<u8> {
    match p.transport {
        Some(TransportHeader::Tcp(t)) if t.payload_offset <= d.len() => d.subrange(t.payload_offset as int, d.len() as int),
        _ => Seq::empty(),
    }
}

/// The TCP payload begins with a TLS handshake record (content type 22) that
/// declares SSL 3.0 or TLS 1.0, on port 443 at either end.
pub open spec fn is_deprecated_tls(d: Seq<u8>, p: DecodedPacket) -> bool {
    let pl = tcp_payload(d, p);
    match p.transport {
        Some(TransportHeader::Tcp(t)) => (t.src_port == 443 || t.dst_port == 443) && pl.len() >= 5
            && pl[0] == 22 && pl[1] == 3 && (pl[2] == 0 || pl[2] == 1),
        _ => false,
    }
}

/// What one packet contributes to the heuristic counters.
#[derive(Clone, Copy, Debug, PartialEq, Eq, Structural)]
pub struct Findings {
    pub suspicious_port: bool,
    pub cleartext_auth: bool,
    pub deprecated_tls: bool,
    pub fragmented: bool,
}

pub open spec fn findings_spec(d: Seq<u8>, p: DecodedPacket) -> Findings {
    Findings {
        suspicious_port: match dst_port_of(p) {
            Some(port) => is_suspicious_port(port),
            None => false,
        },
        cleartext_auth: is_tcp(p) && occurs_in(tcp_payload(d, p), basic_auth_marker()),
        deprecated_tls: is_deprecated_tls(d, p),
        fragmented: p.network.is_some() && p.network.unwrap().fragmented,
    }
}

fn auth_marker() -> (r: Vec<u8>)
    ensures
        r@ == basic_auth_marker(),
{
    let r = vec![65u8, 117, 116, 104, 111, 114, 105, 122, 97, 116, 105, 111, 110, 58, 32, 66, 97, 115, 105, 99];
    assert(r@ =~= basic_auth_marker());
    r
}

fn suspicious_port(port: u16) -> (r: bool)
    ensures
        r == is_suspicious_port(port),
{
    port == 21 || port == 23 || port == 4444 || port == 6667 || port == 1337 || port == 31337
}

/// The heuristic findings of frame `d`, whose decode is `p`.
pub fn findings(d: &[u8], p: &DecodedPacket) -> (r: Findings)
    requires
        *p == crate::decode::decode_spec(d@),
    ensures
        r == findings_spec(d@, *p),
{
    let mut r = Findings { suspicious_port: false, cleartext_auth: false, deprecated_tls: false, fragmented: false };
    if let Some(n) = p.network {
        r.fragmented = n.fragmented;
    }
    match p.transport {
        Some(TransportHeader::Tcp(t)) => {
            r.suspicious_port = suspicious_port(t.dst_port);
            let off = t.payload_offset;
            let payload = slice_from(d, off);
            let marker = auth_marker();
            r.cleartext_auth = contains_bytes(payload, marker.as_slice());
            if (t.src_port == 443 || t.dst_port == 443) && payload.len() >= 5 {
                r.deprecated_tls = payload[0] == 22 && payload[1] == 3 && (payload[2] == 0 || payload[2] == 1);
            }
        },
        Some(TransportHeader::Udp(u)) => {
            r.suspicious_port = suspicious_port(u.dst_port);
        },
        _ => {},
    }
    r
}

fn slice_from(d: &[u8], off: usize) -> (r: &[u8])
    requires
        off <= d@.len(),
    ensures
        r@ == d@.subrange(off as int, d@.len() as int),
{
    let n = d.len();
    vstd::slice::slice_subrange(d, off, n)
}

} // verus!

//! Layered decoding of one Ethernet frame: link, network and transport
//! headers, each present only when its bytes are all there.
use vstd::prelude::*;
use crate::bytes::{be_at, be_int, pow256};

verus! {

/// The ethertype of IPv4.
pub const ETHERTYPE_IPV4: u16 = 0x0800;
/// The ethertype of IPv6.
pub const ETHERTYPE_IPV6: u16 = 0x86DD;
/// The ethertype of ARP.
pub const ETHERTYPE_ARP: u16 = 0x0806;
/// IP protocol number of ICMP.
pub const PROTO_ICMP: u8 = 1;
/// IP protocol number of TCP.
pub const PROTO_TCP: u8 = 6;
/// IP protocol number of UDP.
pub const PROTO_UDP: u8 = 17;
/// IPv6 next-header number of ICMPv6.
pub const PROTO_ICMPV6: u8 = 58;
/// Length of an Ethernet II header.
pub const ETH_HEADER_LEN: usize = 14;

/// TCP flag bits.
pub const TCP_SYN: u8 = 0x02;
pub const TCP_RST: u8 = 0x04;
pub const TCP_ACK: u8 = 0x10;

/// An IP address: a 32-bit IPv4 or a 128-bit IPv6 address as an integer
/// in network byte order.
#[derive(Clone, Copy, Debug, PartialEq, Eq, Structural)]
pub struct Address {
    pub v6: bool,
    pub bits: u128,
}

/// The decoded IPv4 or IPv6 header.
#[derive(Clone, Copy, Debug, PartialEq, Eq, Structural)]
pub struct NetworkHeader {
    pub src: Address,
    pub dst: Address,
    /// IPv4 protocol number, or IPv6 next header.
    pub protocol: u8,
    /// IPv4 "more fragments" set or a nonzero fragment offset.
    pub fragmented: bool,
    /// Where the transport header starts in the frame.
    pub transport_offset: usize,
}

/// The decoded TCP header.
#[derive(Clone, Copy, Debug, PartialEq, Eq, Structural)]
pub struct TcpHeader {
    pub src_port: u16,
    pub dst_port: u16,
    pub seq: u32,
    pub ack: u32,
    pub flags: u8,
    pub window: u16,
    /// Where the TCP payload starts in the frame.
    pub payload_offset: usize,
}

/// The decoded UDP header.
#[derive(Clone, Copy, Debug, PartialEq, Eq, Structural)]
pub struct UdpHeader {
    pub src_port: u16,
    pub dst_port: u16,
    pub length: u16,
}

/// The transport layer of a frame.
#[derive(Clone, Copy, Debug, PartialEq, Eq, Structural)]
pub enum TransportHeader {
    Tcp(TcpHeader),
    Udp(UdpHeader),
    Icmp,
    Icmpv6,
}

/// What could be read of one frame; a layer is `None` when its header is
/// missing, truncated or of a kind that is not decoded.
#[derive(Clone, Copy, Debug, PartialEq, Eq, Structural)]
pub struct DecodedPacket {
    pub ethertype: Option<u16>,
    pub network: Option<NetworkHeader>,
    pub transport: Option<TransportHeader>,
}

pub open spec fn ethertype_spec(d: Seq<u8>) -> Option<u16> {
    if d.len() >= 14 {
        Some(be_at(d, 12, 2) as u16)
    } else {
        None
    }
}

pub open spec fn ipv4_header_len(d: Seq<u8>) -> int {
    ((d[14] & 0x0f) as int) * 4
}

pub open spec fn ipv4_spec(d: Seq<u8>) -> Option<NetworkHeader> {
    let ihl = ipv4_header_len(d);
    if d.len() >= 34 && ihl >= 20 && d.len() >= 14 + ihl {
        let flags = be_at(d, 20, 2) as u16;
        Some(NetworkHeader {
            src: Address { v6: false, bits: be_at(d, 26, 4) as u128 },
            dst: Address { v6: false, bits: be_at(d, 30, 4) as u128 },
            protocol: d[23],
            fragmented: (flags & 0x2000) != 0 || (flags & 0x1fff) != 0,
            transport_offset: (14 + ihl) as usize,
        })
    } else {
        None
    }
}

pub open spec fn ipv6_spec(d: Seq<u8>) -> Option<NetworkHeader> {
    if d.len() >= 54 {
        Some(NetworkHeader {
            src: Address { v6: true, bits: be_at(d, 22, 16) as u128 },
            dst: Address { v6: true, bits: be_at(d, 38, 16) as u128 },
            protocol: d[20],
            fragmented: false,
            transport_offset: 54,
        })
    } else {
        None
    }
}

/// The network layer of frame `d`.
pub open spec fn network_spec(d: Seq<u8>) -> Option<NetworkHeader> {
    match ethertype_spec(d) {
        Some(t) => if t == ETHERTYPE_IPV4 {
            ipv4_spec(d)
        } else if t == ETHERTYPE_IPV6 {
            ipv6_spec(d)
        } else {
            None
        },
        None => None,
    }
}

pub open spec fn tcp_data_offset(d: Seq<u8>, t: int) -> int {
    ((d[t + 12] >> 4u8) as int) * 4
}

/// The transport layer of frame `d`, whose network header is `n`.
pub open spec fn transport_spec(d: Seq<u8>, n: NetworkHeader) -> Option<TransportHeader> {
    let t = n.transport_offset as int;
    if n.protocol == PROTO_TCP {
        if d.len() >= t + 20 && tcp_data_offset(d, t) >= 20 && d.len() >= t + tcp_data_offset(d, t) {
            Some(TransportHeader::Tcp(TcpHeader {
                src_port: be_at(d, t, 2) as u16,
                dst_port: be_at(d, t + 2, 2) as u16,
                seq: be_at(d, t + 4, 4) as u32,
                ack: be_at(d, t + 8, 4) as u32,
                flags: d[t + 13],
                window: be_at(d, t + 14, 2) as u16,
                payload_offset: (t + tcp_data_offset(d, t)) as usize,
            }))
        } else {
            None
        }
    } else if n.protocol == PROTO_UDP {
        if d.len() >= t + 8 {
            Some(TransportHeader::Udp(UdpHeader {
                src_port: be_at(d, t, 2) as u16,
                dst_port: be_at(d, t + 2, 2) as u16,
                length: be_at(d, t + 4, 2) as u16,
            }))
        } else {
            None
        }
    } else if n.protocol == PROTO_ICMP && !n.src.v6 && d.len() >= t + 4 {
        Some(TransportHeader::Icmp)
    } else if n.protocol == PROTO_ICMPV6 && n.src.v6 && d.len() >= t + 4 {
        Some(TransportHeader::Icmpv6)
    } else {
        None
    }
}

/// The full decode of frame `d`.
pub open spec fn decode_spec(d: Seq<u8>) -> DecodedPacket {
    let network = network_spec(d);
    DecodedPacket {
        ethertype: ethertype_spec(d),
        network,
        transport: match network {
            Some(n) => transport_spec(d, n),
            None => None,
        },
    }
}

fn be16(d: &[u8], at: usize) -> (r: u16)
    requires
        at + 2 <= d@.len(),
    ensures
        r == be_at(d@, at as int, 2) as u16,
{
    be_int(d, at, 2) as u16
}

fn be32(d: &[u8], at: usize) -> (r: u32)
    requires
        at + 4 <= d@.len(),
    ensures
        r == be_at(d@, at as int, 4) as u32,
{
    be_int(d, at, 4) as u32
}

fn decode_network(d: &[u8], ethertype: u16) -> (r: Option<NetworkHeader>)
    requires
        d@.len() >= 14,
        ethertype_spec(d@) == Some(ethertype),
    ensures
        r == network_spec(d@),
{
    let len = d.len();
    if ethertype == ETHERTYPE_IPV4 {
        if len < 34 {
            return None;
        }
        let ihl = ((d[14] & 0x0f) as usize) * 4;
        if ihl < 20 || len < 14 + ihl {
            return None;
        }
        let flags = be16(d, 20);
        Some(NetworkHeader {
            src: Address { v6: false, bits: be_int(d, 26, 4) },
            dst: Address { v6: false, bits: be_int(d, 30, 4) },
            protocol: d[23],
            fragmented: (flags & 0x2000) != 0 || (flags & 0x1fff) != 0,
            transport_offset: 14 + ihl,
        })
    } else if ethertype == ETHERTYPE_IPV6 {
        if len < 54 {
            return None;
        }
        Some(NetworkHeader {
            src: Address { v6: true, bits: be_int(d, 22, 16) },
            dst: Address { v6: true, bits: be_int(d, 38, 16) },
            protocol: d[20],
            fragmented: false,
            transport_offset: 54,
        })
    } else {
        None
    }
}

fn decode_transport(d: &[u8], n: NetworkHeader) -> (r: Option<TransportHeader>)
    requires
        network_spec(d@) == Some(n),
    ensures
        r == transport_spec(d@, n),
{
    let len = d.len();
    let t = n.transport_offset;
    if n.protocol == PROTO_TCP {
        if len < 20 || t > len - 20 {
            return None;
        }
        let doff = ((d[t + 12] >> 4u8) as usize) * 4;
        if doff < 20 || doff > len - t {
            return None;
        }
        Some(TransportHeader::Tcp(TcpHeader {
            src_port: be16(d, t),
            dst_port: be16(d, t + 2),
            seq: be32(d, t + 4),
            ack: be32(d, t + 8),
            flags: d[t + 13],
            window: be16(d, t + 14),
            payload_offset: t + doff,
        }))
    } else if n.protocol == PROTO_UDP {
        if len < 8 || t > len - 8 {
            return None;
        }
        Some(TransportHeader::Udp(UdpHeader {
            src_port: be16(d, t),
            dst_port: be16(d, t + 2),
            length: be16(d, t + 4),
        }))
    } else if len < 4 || t > len - 4 {
        None
    } else if n.protocol == PROTO_ICMP && !n.src.v6 {
        Some(TransportHeader::Icmp)
    } else if n.protocol == PROTO_ICMPV6 && n.src.v6 {
        Some(TransportHeader::Icmpv6)
    } else {
        None
    }
}

/// Decodes the headers of one raw Ethernet frame. Never fails: a layer that
/// cannot be read is left `None`, and so are the layers above it.
pub fn decode(d: &[u8]) -> (r: DecodedPacket)
    ensures
        r == decode_spec(d@),
{
    if d.len() < ETH_HEADER_LEN {
        return DecodedPacket { ethertype: None, network: None, transport: None };
    }
    let ethertype = be16(d, 12);
    let network = decode_network(d, ethertype);
    let transport = match network {
        Some(n) => decode_transport(d, n),
        None => None,
    };
    DecodedPacket { ethertype: Some(ethertype), network, transport }
}

} // verus!

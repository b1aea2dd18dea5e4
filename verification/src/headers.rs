//! Ethernet, IPv4, TCP and UDP headers, and the layer-by-layer parse of a
//! packet into them.

use vstd::prelude::*;
use crate::packet::{
    be16, be32, header_at, read_be16, read_be32, BoundsError, Header, PacketView,
};
use crate::stats::Direction;
use crate::wire::{
    ether_type_arp, ether_type_ipv4, ether_type_ipv6, ether_type_loop, ethernet_header_len,
    ip_proto_tcp, ip_proto_udp, ipv4_header_len, tcp_header_len, udp_header_len,
};

verus! {

/// Protocol carried in the payload of an Ethernet frame.
#[derive(Clone, Copy, Debug, PartialEq, Eq, Structural)]
pub enum EtherType {
    Ipv4,
    Ipv6,
    Arp,
    Loop,
    /// Any other type, with its number in host byte order.
    Other(u16),
}

impl EtherType {
    /// The type that a number stands for.
    pub open spec fn of_code(code: u16) -> EtherType {
        if code == 0x0800 {
            EtherType::Ipv4
        } else if code == 0x86DD {
            EtherType::Ipv6
        } else if code == 0x0806 {
            EtherType::Arp
        } else if code == 0x0060 {
            EtherType::Loop
        } else {
            EtherType::Other(code)
        }
    }

    /// The type that a number stands for. `code` is in host byte order.
    pub fn from_code(code: u16) -> (t: EtherType)
        ensures
            t == EtherType::of_code(code),
    {
        if code == ether_type_ipv4() {
            EtherType::Ipv4
        } else if code == ether_type_ipv6() {
            EtherType::Ipv6
        } else if code == ether_type_arp() {
            EtherType::Arp
        } else if code == ether_type_loop() {
            EtherType::Loop
        } else {
            EtherType::Other(code)
        }
    }
}

/// Protocol carried in the payload of an IPv4 packet.
#[derive(Clone, Copy, Debug, PartialEq, Eq, Structural)]
pub enum TransportProtocol {
    Tcp,
    Udp,
    /// Any other protocol, with its number.
    Other(u8),
}

impl TransportProtocol {
    /// The protocol that a number stands for.
    pub open spec fn of_number(number: u8) -> TransportProtocol {
        if number == 6 {
            TransportProtocol::Tcp
        } else if number == 17 {
            TransportProtocol::Udp
        } else {
            TransportProtocol::Other(number)
        }
    }

    /// The protocol that a number stands for.
    pub fn from_number(number: u8) -> (p: TransportProtocol)
        ensures
            p == TransportProtocol::of_number(number),
    {
        if number == ip_proto_tcp() {
            TransportProtocol::Tcp
        } else if number == ip_proto_udp() {
            TransportProtocol::Udp
        } else {
            TransportProtocol::Other(number)
        }
    }
}

/// Ethernet header: the first 14 bytes of a frame.
#[derive(Clone, Copy, Debug, PartialEq, Eq)]
pub struct EthernetHeader {
    pub dst_addr: [u8; 6],
    pub src_addr: [u8; 6],
    pub ether_type: EtherType,
}

impl Header for EthernetHeader {
    open spec fn wire_len() -> nat {
        14
    }

    open spec fn decode(bytes: Seq<u8>) -> EthernetHeader {
        EthernetHeader {
            dst_addr: [bytes[0], bytes[1], bytes[2], bytes[3], bytes[4], bytes[5]],
            src_addr: [bytes[6], bytes[7], bytes[8], bytes[9], bytes[10], bytes[11]],
            ether_type: EtherType::of_code(be16(bytes, 12)),
        }
    }

    fn len() -> (n: usize) {
        ethernet_header_len()
    }

    fn parse(bytes: &[u8]) -> (header: EthernetHeader) {
        EthernetHeader {
            dst_addr: [bytes[0], bytes[1], bytes[2], bytes[3], bytes[4], bytes[5]],
            src_addr: [bytes[6], bytes[7], bytes[8], bytes[9], bytes[10], bytes[11]],
            ether_type: EtherType::from_code(read_be16(bytes, 12)),
        }
    }
}

/// IPv4 header without its options: 20 bytes.
#[derive(Clone, Copy, Debug, PartialEq, Eq, Structural)]
pub struct Ipv4Header {
    pub version: u8,
    /// Length of the header with its options, in 32-bit words.
    pub ihl: u8,
    pub tos: u8,
    pub total_len: u16,
    pub id: u16,
    pub frag_off: u16,
    pub ttl: u8,
    pub protocol: TransportProtocol,
    pub checksum: u16,
    /// Source address in host byte order.
    pub src_addr: u32,
    /// Destination address in host byte order.
    pub dst_addr: u32,
}

impl Ipv4Header {
    /// Length in bytes that the header declares for itself, options included.
    pub open spec fn declared_len(self) -> nat {
        self.ihl as nat * 4
    }

    /// Length in bytes that the header declares for itself, options included.
    pub fn header_len(&self) -> (n: usize)
        ensures
            n == self.declared_len(),
    {
        self.ihl as usize * 4
    }
}

impl Header for Ipv4Header {
    open spec fn wire_len() -> nat {
        20
    }

    open spec fn decode(bytes: Seq<u8>) -> Ipv4Header {
        Ipv4Header {
            version: bytes[0] / 16,
            ihl: bytes[0] % 16,
            tos: bytes[1],
            total_len: be16(bytes, 2),
            id: be16(bytes, 4),
            frag_off: be16(bytes, 6),
            ttl: bytes[8],
            protocol: TransportProtocol::of_number(bytes[9]),
            checksum: be16(bytes, 10),
            src_addr: be32(bytes, 12),
            dst_addr: be32(bytes, 16),
        }
    }

    fn len() -> (n: usize) {
        ipv4_header_len()
    }

    fn parse(bytes: &[u8]) -> (header: Ipv4Header) {
        let first: u8 = bytes[0];
        assert(first >> 4 == first / 16) by (bit_vector);
        assert(first & 0x0F == first % 16) by (bit_vector);
        Ipv4Header {
            version: first >> 4,
            ihl: first & 0x0F,
            tos: bytes[1],
            total_len: read_be16(bytes, 2),
            id: read_be16(bytes, 4),
            frag_off: read_be16(bytes, 6),
            ttl: bytes[8],
            protocol: TransportProtocol::from_number(bytes[9]),
            checksum: read_be16(bytes, 10),
            src_addr: read_be32(bytes, 12),
            dst_addr: read_be32(bytes, 16),
        }
    }
}

/// TCP header without its options: 20 bytes.
#[derive(Clone, Copy, Debug, PartialEq, Eq, Structural)]
pub struct TcpHeader {
    pub source: u16,
    pub dest: u16,
    pub seq: u32,
    pub ack_seq: u32,
    /// Length of the header with its options, in 32-bit words.
    pub data_offset: u8,
    /// The twelve bits after the data offset: reserved bits and flags.
    pub flags: u16,
    pub window: u16,
    pub checksum: u16,
    pub urg_ptr: u16,
}

impl Header for TcpHeader {
    open spec fn wire_len() -> nat {
        20
    }

    open spec fn decode(bytes: Seq<u8>) -> TcpHeader {
        TcpHeader {
            source: be16(bytes, 0),
            dest: be16(bytes, 2),
            seq: be32(bytes, 4),
            ack_seq: be32(bytes, 8),
            data_offset: bytes[12] / 16,
            flags: (bytes[12] % 16 * 256 + bytes[13]) as u16,
            window: be16(bytes, 14),
            checksum: be16(bytes, 16),
            urg_ptr: be16(bytes, 18),
        }
    }

    fn len() -> (n: usize) {
        tcp_header_len()
    }

    fn parse(bytes: &[u8]) -> (header: TcpHeader) {
        let high: u8 = bytes[12];
        let low: u8 = bytes[13];
        TcpHeader {
            source: read_be16(bytes, 0),
            dest: read_be16(bytes, 2),
            seq: read_be32(bytes, 4),
            ack_seq: read_be32(bytes, 8),
            data_offset: high / 16,
            flags: (high % 16) as u16 * 256 + low as u16,
            window: read_be16(bytes, 14),
            checksum: read_be16(bytes, 16),
            urg_ptr: read_be16(bytes, 18),
        }
    }
}

/// UDP header: 8 bytes.
#[derive(Clone, Copy, Debug, PartialEq, Eq, Structural)]
pub struct UdpHeader {
    pub source: u16,
    pub dest: u16,
    pub length: u16,
    pub checksum: u16,
}

impl Header for UdpHeader {
    open spec fn wire_len() -> nat {
        8
    }

    open spec fn decode(bytes: Seq<u8>) -> UdpHeader {
        UdpHeader {
            source: be16(bytes, 0),
            dest: be16(bytes, 2),
            length: be16(bytes, 4),
            checksum: be16(bytes, 6),
        }
    }

    fn len() -> (n: usize) {
        udp_header_len()
    }

    fn parse(bytes: &[u8]) -> (header: UdpHeader) {
        UdpHeader {
            source: read_be16(bytes, 0),
            dest: read_be16(bytes, 2),
            length: read_be16(bytes, 4),
            checksum: read_be16(bytes, 6),
        }
    }
}

/// The header of the transport layer, for the two protocols that have ports.
#[derive(Clone, Copy, Debug, PartialEq, Eq, Structural)]
pub enum TransportHeader {
    Tcp(TcpHeader),
    Udp(UdpHeader),
}

impl TransportHeader {
    /// The port that the packet was sent from.
    pub open spec fn source(self) -> u16 {
        match self {
            TransportHeader::Tcp(tcp) => tcp.source,
            TransportHeader::Udp(udp) => udp.source,
        }
    }

    /// The port that the packet was sent to.
    pub open spec fn dest(self) -> u16 {
        match self {
            TransportHeader::Tcp(tcp) => tcp.dest,
            TransportHeader::Udp(udp) => udp.dest,
        }
    }

    /// The port on this host's side: the destination of a packet that comes
    /// in, the source of one that goes out.
    pub open spec fn local(self, direction: Direction) -> u16 {
        match direction {
            Direction::Ingress => self.dest(),
            Direction::Egress => self.source(),
        }
    }

    /// The port that the packet was sent from.
    pub fn source_port(&self) -> (port: u16)
        ensures
            port == self.source(),
    {
        match self {
            TransportHeader::Tcp(tcp) => tcp.source,
            TransportHeader::Udp(udp) => udp.source,
        }
    }

    /// The port that the packet was sent to.
    pub fn dest_port(&self) -> (port: u16)
        ensures
            port == self.dest(),
    {
        match self {
            TransportHeader::Tcp(tcp) => tcp.dest,
            TransportHeader::Udp(udp) => udp.dest,
        }
    }

    /// The port on this host's side: the destination of a packet that comes
    /// in, the source of one that goes out.
    pub fn local_port(&self, direction: Direction) -> (port: u16)
        ensures
            port == self.local(direction),
    {
        match direction {
            Direction::Ingress => self.dest_port(),
            Direction::Egress => self.source_port(),
        }
    }
}

/// The headers of one packet, as far as the packet has them, and its length.
#[derive(Clone, Copy, Debug, PartialEq, Eq)]
pub struct Headers {
    pub ethernet: EthernetHeader,
    /// Present when the frame carries IPv4.
    pub ipv4: Option<Ipv4Header>,
    /// Present when the IPv4 packet carries TCP or UDP.
    pub transport: Option<TransportHeader>,
    /// Number of bytes of the whole packet as it was captured.
    pub length: u64,
}

/// Offset of the IPv4 header in a frame: right after the Ethernet header.
pub open spec fn ipv4_offset() -> nat {
    EthernetHeader::wire_len()
}

/// Offset of the transport header in a frame: after the Ethernet header and
/// as many bytes as the IPv4 header declares for itself.
pub open spec fn transport_offset(ipv4: Ipv4Header) -> nat {
    ipv4_offset() + ipv4.declared_len()
}

/// What a packet parses to.
///
/// The Ethernet header comes first. The IPv4 header is read only from a
/// frame of type IPv4, the transport header only from an IPv4 packet that
/// carries TCP or UDP. A header that is due and does not fit in the buffer
/// fails the whole parse.
pub open spec fn parsed(bytes: Seq<u8>) -> Result<Headers, BoundsError> {
    let length = bytes.len() as u64;
    match header_at::<EthernetHeader>(bytes, 0) {
        Err(e) => Err(e),
        Ok(ethernet) => if ethernet.ether_type != EtherType::Ipv4 {
            Ok(Headers { ethernet, ipv4: None, transport: None, length })
        } else {
            match header_at::<Ipv4Header>(bytes, ipv4_offset()) {
                Err(e) => Err(e),
                Ok(ipv4) => match ipv4.protocol {
                    TransportProtocol::Tcp => match header_at::<TcpHeader>(
                        bytes,
                        transport_offset(ipv4),
                    ) {
                        Err(e) => Err(e),
                        Ok(tcp) => Ok(
                            Headers {
                                ethernet,
                                ipv4: Some(ipv4),
                                transport: Some(TransportHeader::Tcp(tcp)),
                                length,
                            },
                        ),
                    },
                    TransportProtocol::Udp => match header_at::<UdpHeader>(
                        bytes,
                        transport_offset(ipv4),
                    ) {
                        Err(e) => Err(e),
                        Ok(udp) => Ok(
                            Headers {
                                ethernet,
                                ipv4: Some(ipv4),
                                transport: Some(TransportHeader::Udp(udp)),
                                length,
                            },
                        ),
                    },
                    TransportProtocol::Other(_) => Ok(
                        Headers { ethernet, ipv4: Some(ipv4), transport: None, length },
                    ),
                },
            }
        },
    }
}

/// Parses the headers of a packet, layer by layer.
pub fn parse_headers(view: &PacketView) -> (r: Result<Headers, BoundsError>)
    ensures
        r == parsed(view@),
{
    let length = view.len() as u64;
    let ethernet: EthernetHeader = match view.read::<EthernetHeader>(0) {
        Ok(header) => header,
        Err(e) => { return Err(e); },
    };
    match ethernet.ether_type {
        EtherType::Ipv4 => {},
        _ => { return Ok(Headers { ethernet, ipv4: None, transport: None, length }); },
    }
    let ipv4: Ipv4Header = match view.read::<Ipv4Header>(EthernetHeader::len()) {
        Ok(header) => header,
        Err(e) => { return Err(e); },
    };
    let offset = EthernetHeader::len() + ipv4.header_len();
    let transport = match ipv4.protocol {
        TransportProtocol::Tcp => match view.read::<TcpHeader>(offset) {
            Ok(tcp) => Some(TransportHeader::Tcp(tcp)),
            Err(e) => { return Err(e); },
        },
        TransportProtocol::Udp => match view.read::<UdpHeader>(offset) {
            Ok(udp) => Some(TransportHeader::Udp(udp)),
            Err(e) => { return Err(e); },
        },
        TransportProtocol::Other(_) => None,
    };
    Ok(Headers { ethernet, ipv4: Some(ipv4), transport, length })
}

} // verus!

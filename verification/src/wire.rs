//! Header sizes and protocol numbers, as the `network-types` crate defines them.

use vstd::prelude::*;

verus! {

/// Size in bytes of an Ethernet header: `network_types::eth::EthHdr::LEN`.
///
/// That constant is the size of a packed struct of two 6-byte addresses and
/// a 16-bit type field.
#[verifier::external_body]
pub(crate) fn ethernet_header_len() -> (n: usize)
    ensures
        n == 14,
{
    network_types::eth::EthHdr::LEN
}

/// Size in bytes of an IPv4 header without options:
/// `network_types::ip::Ipv4Hdr::LEN`.
///
/// That constant is the size of a `repr(C)` struct whose fields are bytes and
/// byte arrays: 1 + 1 + 2 + 2 + 2 + 1 + 1 + 2 + 4 + 4.
#[verifier::external_body]
pub(crate) fn ipv4_header_len() -> (n: usize)
    ensures
        n == 20,
{
    network_types::ip::Ipv4Hdr::LEN
}

/// Size in bytes of a TCP header without options:
/// `network_types::tcp::TcpHdr::LEN`.
///
/// That constant is the size of a `repr(C)` struct of two 16-bit ports, two
/// 32-bit sequence numbers, a 2-byte bit field and three 16-bit fields.
#[verifier::external_body]
pub(crate) fn tcp_header_len() -> (n: usize)
    ensures
        n == 20,
{
    network_types::tcp::TcpHdr::LEN
}

/// Size in bytes of a UDP header: `network_types::udp::UdpHdr::LEN`.
///
/// That constant is the size of a `repr(C)` struct of four 2-byte arrays.
#[verifier::external_body]
pub(crate) fn udp_header_len() -> (n: usize)
    ensures
        n == 8,
{
    network_types::udp::UdpHdr::LEN
}

/// The EtherType of IPv4 in host byte order:
/// `network_types::eth::EtherType::Ipv4`.
///
/// The crate stores the discriminant in network byte order
/// (`0x0800_u16.to_be()`); the body undoes that.
#[verifier::external_body]
pub(crate) fn ether_type_ipv4() -> (code: u16)
    ensures
        code == 0x0800,
{
    u16::from_be(network_types::eth::EtherType::Ipv4 as u16)
}

/// The EtherType of IPv6 in host byte order:
/// `network_types::eth::EtherType::Ipv6`, stored there as `0x86DD_u16.to_be()`.
#[verifier::external_body]
pub(crate) fn ether_type_ipv6() -> (code: u16)
    ensures
        code == 0x86DD,
{
    u16::from_be(network_types::eth::EtherType::Ipv6 as u16)
}

/// The EtherType of ARP in host byte order:
/// `network_types::eth::EtherType::Arp`, stored there as `0x0806_u16.to_be()`.
#[verifier::external_body]
pub(crate) fn ether_type_arp() -> (code: u16)
    ensures
        code == 0x0806,
{
    u16::from_be(network_types::eth::EtherType::Arp as u16)
}

/// The EtherType of the Ethernet loopback protocol in host byte order:
/// `network_types::eth::EtherType::Loop`, stored there as `0x0060_u16.to_be()`.
#[verifier::external_body]
pub(crate) fn ether_type_loop() -> (code: u16)
    ensures
        code == 0x0060,
{
    u16::from_be(network_types::eth::EtherType::Loop as u16)
}

/// The IPv4 protocol number of TCP: `network_types::ip::IpProto::Tcp`,
/// whose discriminant is 6.
#[verifier::external_body]
pub(crate) fn ip_proto_tcp() -> (number: u8)
    ensures
        number == 6,
{
    network_types::ip::IpProto::Tcp as u8
}

/// The IPv4 protocol number of UDP: `network_types::ip::IpProto::Udp`,
/// whose discriminant is 17.
#[verifier::external_body]
pub(crate) fn ip_proto_udp() -> (number: u8)
    ensures
        number == 17,
{
    network_types::ip::IpProto::Udp as u8
}

} // verus!

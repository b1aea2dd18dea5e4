//! Flow keys, and the policies that take a packet's headers to one.

use vstd::prelude::*;
use crate::headers::{EtherType, Headers};
use crate::stats::Direction;

verus! {

/// The attribute by which packets are grouped for counting.
#[derive(Clone, Copy, Debug, PartialEq, Eq, Structural)]
pub enum Policy {
    BySourceAddress,
    ByDestinationAddress,
    /// By the port on this host's side of the connection.
    ByPort,
}

/// The value by which a packet is grouped. Addresses and ports are in host
/// byte order.
#[derive(Clone, Copy, Debug, PartialEq, Eq, Structural, PartialOrd, Ord, Hash)]
pub enum FlowKey {
    SourceAddress(u32),
    DestinationAddress(u32),
    Port(u16),
}

impl FlowKey {
    /// The place of a key in the order of all keys: source addresses first,
    /// then destination addresses, then ports, each kind by its number.
    pub open spec fn rank(self) -> int {
        match self {
            FlowKey::SourceAddress(address) => address as int,
            FlowKey::DestinationAddress(address) => 0x1_0000_0000 + address as int,
            FlowKey::Port(port) => 0x2_0000_0000 + port as int,
        }
    }

    /// One key per place: keys of equal rank are equal.
    pub proof fn lemma_rank_injective(a: FlowKey, b: FlowKey)
        ensures
            a.rank() == b.rank() <==> a == b,
    {
    }

    /// Whether `self` comes strictly before `other` in the order of keys.
    pub fn precedes(&self, other: &FlowKey) -> (b: bool)
        ensures
            b == (self.rank() < other.rank()),
    {
        match (*self, *other) {
            (FlowKey::SourceAddress(a), FlowKey::SourceAddress(b)) => a < b,
            (FlowKey::SourceAddress(_), _) => true,
            (FlowKey::DestinationAddress(_), FlowKey::SourceAddress(_)) => false,
            (FlowKey::DestinationAddress(a), FlowKey::DestinationAddress(b)) => a < b,
            (FlowKey::DestinationAddress(_), FlowKey::Port(_)) => true,
            (FlowKey::Port(a), FlowKey::Port(b)) => a < b,
            (FlowKey::Port(_), _) => false,
        }
    }
}

/// The key and the size under which a packet with these headers is counted,
/// if it is counted at all.
///
/// Only IPv4 packets are counted. An address policy takes the address from
/// the IPv4 header. The port policy needs a TCP or UDP header and takes from
/// it the port on this host's side. The size is the length of the whole
/// packet.
pub open spec fn classified(headers: Headers, policy: Policy, direction: Direction) -> Option<
    (FlowKey, u64),
> {
    if headers.ethernet.ether_type != EtherType::Ipv4 {
        None
    } else {
        match headers.ipv4 {
            None => None,
            Some(ipv4) => match policy {
                Policy::BySourceAddress => Some(
                    (FlowKey::SourceAddress(ipv4.src_addr), headers.length),
                ),
                Policy::ByDestinationAddress => Some(
                    (FlowKey::DestinationAddress(ipv4.dst_addr), headers.length),
                ),
                Policy::ByPort => match headers.transport {
                    None => None,
                    Some(transport) => Some(
                        (FlowKey::Port(transport.local(direction)), headers.length),
                    ),
                },
            },
        }
    }
}

/// Computes the key and the size under which a packet is counted, or `None`
/// for a packet that passes uncounted.
pub fn classify(headers: &Headers, policy: Policy, direction: Direction) -> (r: Option<
    (FlowKey, u64),
>)
    ensures
        r == classified(*headers, policy, direction),
{
    match headers.ethernet.ether_type {
        EtherType::Ipv4 => {},
        _ => { return None; },
    }
    let ipv4 = match headers.ipv4 {
        Some(ipv4) => ipv4,
        None => { return None; },
    };
    match policy {
        Policy::BySourceAddress => Some((FlowKey::SourceAddress(ipv4.src_addr), headers.length)),
        Policy::ByDestinationAddress => Some(
            (FlowKey::DestinationAddress(ipv4.dst_addr), headers.length),
        ),
        Policy::ByPort => match headers.transport {
            Some(transport) => Some(
                (FlowKey::Port(transport.local_port(direction)), headers.length),
            ),
            None => None,
        },
    }
}

} // verus!

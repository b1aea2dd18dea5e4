//! The packet path: parse, classify, count, and let the packet through.

use vstd::prelude::*;
use crate::classify::{classified, classify, FlowKey, Policy};
use crate::headers::{
    parse_headers, parsed, EtherType, EthernetHeader, Headers, Ipv4Header, TcpHeader,
    TransportProtocol,
};
use crate::packet::{be16, be32, BoundsError, Header, PacketView};
use crate::stats::{Direction, NetStats, Traffic};
use crate::table::{
    accepts, counts_once, holds, recorded, CounterTable, FlowEntry, RecordOutcome, TableFull,
};
use crate::verdict::{tc_act_pipe, tc_act_shot, xdp_drop, xdp_pass};

verus! {

/// What is to become of a packet.
#[derive(Clone, Copy, Debug, PartialEq, Eq, Structural)]
pub enum PassAction {
    /// Let it continue on its way.
    Pass,
    /// Discard it. Accounting never asks for this.
    Drop,
}

impl PassAction {
    /// The code of this action for an XDP hook.
    pub open spec fn xdp(self) -> u32 {
        match self {
            PassAction::Pass => 2,
            PassAction::Drop => 1,
        }
    }

    /// The code of this action for a traffic-control hook.
    pub open spec fn tc(self) -> i32 {
        match self {
            PassAction::Pass => 3,
            PassAction::Drop => 2,
        }
    }

    /// The code of this action for an XDP hook.
    pub fn xdp_code(self) -> (code: u32)
        ensures
            code == self.xdp(),
    {
        match self {
            PassAction::Pass => xdp_pass(),
            PassAction::Drop => xdp_drop(),
        }
    }

    /// The code of this action for a traffic-control hook.
    pub fn tc_code(self) -> (code: i32)
        ensures
            code == self.tc(),
    {
        match self {
            PassAction::Pass => tc_act_pipe(),
            PassAction::Drop => tc_act_shot(),
        }
    }
}

/// The packet is of a protocol that the policy has no key for.
#[derive(Clone, Copy, Debug, PartialEq, Eq, Structural)]
pub struct UnsupportedProtocol;

/// What the packet path made of one packet.
#[derive(Clone, Copy, Debug, PartialEq, Eq, Structural)]
pub enum Outcome {
    /// The packet was counted under this key.
    Counted(FlowKey),
    /// A header that was due did not fit in the buffer. Not counted.
    Truncated(BoundsError),
    /// The policy has no key for the packet. Not counted.
    Unclassified(UnsupportedProtocol),
    /// The key is new and the table is full. Not counted.
    Rejected(TableFull),
}

/// The key and the size under which a packet is counted, if it is counted.
///
/// A packet whose headers do not parse is not counted, nor is one that the
/// policy has no key for.
pub open spec fn counted_as(bytes: Seq<u8>, policy: Policy, direction: Direction) -> Option<
    (FlowKey, u64),
> {
    match parsed(bytes) {
        Ok(headers) => classified(headers, policy, direction),
        Err(_) => None,
    }
}

/// Parses a packet and computes the key and the size under which it is
/// counted. No table is touched.
///
/// `Ok(None)` is a packet that the policy has no key for. An error is a
/// packet of which a header did not fit in the buffer.
pub fn classify_packet(view: &PacketView, policy: Policy, direction: Direction) -> (r: Result<
    Option<(FlowKey, u64)>,
    BoundsError,
>)
    ensures
        r == match parsed(view@) {
            Ok(headers) => Ok::<Option<(FlowKey, u64)>, BoundsError>(
                classified(headers, policy, direction),
            ),
            Err(e) => Err::<Option<(FlowKey, u64)>, BoundsError>(e),
        },
        r matches Ok(counted) ==> counted == counted_as(view@, policy, direction),
        r is Err ==> counted_as(view@, policy, direction) is None,
{
    match parse_headers(view) {
        Ok(headers) => Ok(classify(&headers, policy, direction)),
        Err(e) => Err(e),
    }
}

/// The entries of a table after a packet has gone through the packet path.
pub open spec fn after_packet(
    entries: Seq<FlowEntry>,
    capacity: nat,
    policy: Policy,
    direction: Direction,
    bytes: Seq<u8>,
) -> Seq<FlowEntry> {
    match counted_as(bytes, policy, direction) {
        Some((key, size)) => recorded(entries, capacity, key, direction, size),
        None => entries,
    }
}

/// What the packet path makes of a packet, for a table with these entries.
pub open spec fn outcome_of(
    entries: Seq<FlowEntry>,
    capacity: nat,
    policy: Policy,
    direction: Direction,
    bytes: Seq<u8>,
) -> Outcome {
    match parsed(bytes) {
        Err(e) => Outcome::Truncated(e),
        Ok(headers) => match classified(headers, policy, direction) {
            None => Outcome::Unclassified(UnsupportedProtocol),
            Some((key, _)) => if accepts(entries, capacity, key) {
                Outcome::Counted(key)
            } else {
                Outcome::Rejected(TableFull)
            },
        },
    }
}

/// A classification policy and the table that packets are counted in.
pub struct Monitor {
    policy: Policy,
    table: CounterTable,
}

impl Monitor {
    /// The policy by which packets are grouped.
    pub closed spec fn rule(&self) -> Policy {
        self.policy
    }

    /// The entries of the table.
    pub closed spec fn flows(&self) -> Seq<FlowEntry> {
        self.table@.entries
    }

    /// The capacity of the table.
    pub closed spec fn limit(&self) -> nat {
        self.table.limit()
    }

    /// Whether `self` is what `before` becomes when one packet goes through
    /// the packet path: policy and capacity stay, and the table changes by
    /// that packet and by nothing else.
    pub open spec fn follows(self, before: Monitor, direction: Direction, bytes: Seq<u8>) -> bool {
        &&& self.rule() == before.rule()
        &&& self.limit() == before.limit()
        &&& self.flows() == after_packet(
            before.flows(),
            before.limit(),
            before.rule(),
            direction,
            bytes,
        )
        &&& counted_as(bytes, before.rule(), direction) matches Some((key, size)) ==> counts_once(
            before.flows(),
            self.flows(),
            before.limit(),
            key,
            direction,
            size,
        )
    }

    /// A monitor with an empty table for at most `capacity` flows.
    pub fn new(policy: Policy, capacity: usize) -> (monitor: Monitor)
        ensures
            monitor.rule() == policy,
            monitor.flows() == Seq::<FlowEntry>::empty(),
            monitor.limit() == capacity,
    {
        Monitor { policy, table: CounterTable::new(capacity) }
    }

    /// The policy by which packets are grouped.
    pub fn policy(&self) -> (policy: Policy)
        ensures
            policy == self.rule(),
    {
        self.policy
    }

    /// The table, for reading.
    pub fn table(&self) -> (table: &CounterTable)
        ensures
            table@.entries == self.flows(),
            table@.capacity == self.limit(),
    {
        &self.table
    }

    /// Takes one packet through the packet path and tells what became of it.
    ///
    /// The packet is counted if its headers parse and the policy has a key
    /// for it and the table takes that key. In every other case the table is
    /// left as it was.
    pub fn observe(&mut self, direction: Direction, view: &PacketView) -> (outcome: Outcome)
        ensures
            final(self).follows(*old(self), direction, view@),
            outcome == outcome_of(
                old(self).flows(),
                old(self).limit(),
                old(self).rule(),
                direction,
                view@,
            ),
    {
        match classify_packet(view, self.policy, direction) {
            Err(e) => Outcome::Truncated(e),
            Ok(None) => Outcome::Unclassified(UnsupportedProtocol),
            Ok(Some((key, size))) => match self.table.record(key, direction, size) {
                RecordOutcome::Recorded => Outcome::Counted(key),
                RecordOutcome::Rejected(full) => Outcome::Rejected(full),
            },
        }
    }

    /// Takes one packet through the packet path.
    ///
    /// The packet is counted if it can be, and let through whether it was
    /// counted or not: no fault in a packet and no lack of room in the table
    /// holds a packet up.
    pub fn on_packet(&mut self, direction: Direction, view: &PacketView) -> (action: PassAction)
        ensures
            action == PassAction::Pass,
            final(self).follows(*old(self), direction, view@),
    {
        let _ = self.observe(direction, view);
        PassAction::Pass
    }
}

/// Counts a packet that came in, and gives the XDP code for it if its
/// headers could be read.
pub fn try_ingress_counter(monitor: &mut Monitor, packet: &[u8]) -> (r: Result<u32, BoundsError>)
    ensures
        final(monitor).follows(*old(monitor), Direction::Ingress, packet@),
        r == match parsed(packet@) {
            Ok(_) => Ok::<u32, BoundsError>(PassAction::Pass.xdp()),
            Err(e) => Err::<u32, BoundsError>(e),
        },
{
    let view = PacketView::new(packet);
    match monitor.observe(Direction::Ingress, &view) {
        Outcome::Truncated(e) => Err(e),
        _ => Ok(PassAction::Pass.xdp_code()),
    }
}

/// Counts a packet that came in. The XDP code is always the one that lets
/// the packet through.
pub fn ingress_counter(monitor: &mut Monitor, packet: &[u8]) -> (code: u32)
    ensures
        code == PassAction::Pass.xdp(),
        final(monitor).follows(*old(monitor), Direction::Ingress, packet@),
{
    match try_ingress_counter(monitor, packet) {
        Ok(code) => code,
        Err(_) => PassAction::Pass.xdp_code(),
    }
}

/// Counts a packet that goes out, and gives the traffic-control code for it
/// if its headers could be read.
pub fn try_egress_counter(monitor: &mut Monitor, packet: &[u8]) -> (r: Result<i32, BoundsError>)
    ensures
        final(monitor).follows(*old(monitor), Direction::Egress, packet@),
        r == match parsed(packet@) {
            Ok(_) => Ok::<i32, BoundsError>(PassAction::Pass.tc()),
            Err(e) => Err::<i32, BoundsError>(e),
        },
{
    let view = PacketView::new(packet);
    match monitor.observe(Direction::Egress, &view) {
        Outcome::Truncated(e) => Err(e),
        _ => Ok(PassAction::Pass.tc_code()),
    }
}

/// Counts a packet that goes out. The traffic-control code is always the one
/// that lets the packet through.
pub fn egress_counter(monitor: &mut Monitor, packet: &[u8]) -> (code: i32)
    ensures
        code == PassAction::Pass.tc(),
        final(monitor).follows(*old(monitor), Direction::Egress, packet@),
{
    match try_egress_counter(monitor, packet) {
        Ok(code) => code,
        Err(_) => PassAction::Pass.tc_code(),
    }
}

/// A buffer shorter than an Ethernet header does not parse, and its packet
/// passes uncounted: the table stays as it was.
pub proof fn lemma_short_buffer_is_uncounted(
    bytes: Seq<u8>,
    policy: Policy,
    direction: Direction,
    entries: Seq<FlowEntry>,
    capacity: nat,
)
    requires
        bytes.len() < EthernetHeader::wire_len(),
    ensures
        parsed(bytes) == Err::<Headers, BoundsError>(BoundsError),
        counted_as(bytes, policy, direction) is None,
        after_packet(entries, capacity, policy, direction, bytes) == entries,
{
}

/// A frame that does not carry IPv4, such as an ARP frame, neither adds an
/// entry to the table nor changes one.
pub proof fn lemma_non_ipv4_is_uncounted(
    bytes: Seq<u8>,
    policy: Policy,
    direction: Direction,
    entries: Seq<FlowEntry>,
    capacity: nat,
)
    requires
        bytes.len() >= EthernetHeader::wire_len() ==> EtherType::of_code(be16(bytes, 12))
            != EtherType::Ipv4,
    ensures
        counted_as(bytes, policy, direction) is None,
        after_packet(entries, capacity, policy, direction, bytes) == entries,
{
}

/// A well-formed TCP packet over IPv4 over Ethernet, counted by source
/// address in an empty table with room, leaves one entry: under the source
/// address of the packet, in host byte order, with one packet and as many
/// bytes as the whole buffer is long.
pub proof fn lemma_tcp_packet_counts_by_source(bytes: Seq<u8>, direction: Direction, capacity: nat)
    requires
        bytes.len() <= usize::MAX,
        bytes.len() >= EthernetHeader::wire_len() + Ipv4Header::wire_len(),
        be16(bytes, 12) == 0x0800,
        bytes[23] == 6,
        14 + (bytes[14] % 16) * 4 + TcpHeader::wire_len() <= bytes.len(),
        capacity >= 1,
    ensures
        counted_as(bytes, Policy::BySourceAddress, direction) == Some(
            (FlowKey::SourceAddress(be32(bytes, 26)), bytes.len() as u64),
        ),
        after_packet(
            Seq::<FlowEntry>::empty(),
            capacity,
            Policy::BySourceAddress,
            direction,
            bytes,
        ) == seq![
            FlowEntry {
                key: FlowKey::SourceAddress(be32(bytes, 26)),
                stats: NetStats::zero().recorded(direction, bytes.len() as u64),
            },
        ],
        NetStats::zero().recorded(direction, bytes.len() as u64).side(direction) == (Traffic {
            packets: 1,
            bytes: bytes.len() as u64,
        }),
{
    let ethernet = EthernetHeader::decode(bytes.subrange(0, 14));
    assert(ethernet.ether_type == EtherType::Ipv4);
    let ipv4 = Ipv4Header::decode(bytes.subrange(14, 34));
    assert(ipv4.protocol == TransportProtocol::Tcp);
    assert(ipv4.ihl == bytes[14] % 16);
    assert(ipv4.src_addr == be32(bytes, 26));
    assert(parsed(bytes) is Ok);
    let key = FlowKey::SourceAddress(be32(bytes, 26));
    let entries = Seq::<FlowEntry>::empty();
    assert(!holds(entries, key));
}

/// What the packet path does after a fault that it cannot recover from.
#[derive(Clone, Copy, Debug, PartialEq, Eq, Structural)]
pub enum FaultAction {
    /// Stay where the fault happened, for good.
    Halt,
    /// Go back to handling packets.
    Resume,
}

/// The action after a fault in the packet path: halt. Nothing unwinds and
/// nothing returns into state that a fault may have left half-written.
pub fn panic() -> (action: FaultAction)
    ensures
        action == FaultAction::Halt,
{
    FaultAction::Halt
}

} // verus!

use network_usage_monitoring::classify::{classify, FlowKey, Policy};
use network_usage_monitoring::headers::parse_headers;
use network_usage_monitoring::monitor::{
    egress_counter, ingress_counter, try_egress_counter, try_ingress_counter, FaultAction,
    Monitor, Outcome, PassAction, UnsupportedProtocol,
};
use network_usage_monitoring::packet::{BoundsError, PacketView};
use network_usage_monitoring::stats::{Direction, NetStats, Traffic};
use network_usage_monitoring::table::{FlowEntry, TableFull};

fn frame(ether_type: u16, protocol: u8, ports: (u16, u16), payload: usize) -> Vec<u8> {
    let mut bytes = vec![0xff, 0xff, 0xff, 0xff, 0xff, 0xff, 0x02, 0, 0, 0, 0, 0x01];
    bytes.extend_from_slice(&ether_type.to_be_bytes());
    bytes.extend_from_slice(&[0x45, 0, 0, 0, 0, 0, 0, 0, 64, protocol, 0, 0]);
    bytes.extend_from_slice(&[10, 0, 0, 1]);
    bytes.extend_from_slice(&[192, 168, 0, 7]);
    bytes.extend_from_slice(&ports.0.to_be_bytes());
    bytes.extend_from_slice(&ports.1.to_be_bytes());
    bytes.extend_from_slice(&[0u8; 16]);
    bytes.extend(std::iter::repeat(0xa5).take(payload));
    bytes
}

fn tcp_packet(ports: (u16, u16), payload: usize) -> Vec<u8> {
    frame(0x0800, 6, ports, payload)
}

fn udp_packet(ports: (u16, u16), payload: usize) -> Vec<u8> {
    let mut bytes = frame(0x0800, 17, ports, payload);
    bytes.drain(42..54);
    bytes
}

fn entry(key: FlowKey, ingress: (u64, u64), egress: (u64, u64)) -> FlowEntry {
    FlowEntry {
        key,
        stats: NetStats {
            ingress: Traffic { packets: ingress.0, bytes: ingress.1 },
            egress: Traffic { packets: egress.0, bytes: egress.1 },
        },
    }
}

#[test]
fn a_tcp_packet_is_counted_under_its_source_address_with_its_whole_length() {
    let packet = tcp_packet((51000, 443), 20);
    assert_eq!(packet.len(), 74);
    let mut monitor = Monitor::new(Policy::BySourceAddress, 1024);
    assert_eq!(monitor.on_packet(Direction::Ingress, &PacketView::new(&packet)), PassAction::Pass);
    assert_eq!(
        monitor.table().snapshot(),
        vec![entry(FlowKey::SourceAddress(0x0a00_0001), (1, 74), (0, 0))]
    );
}

#[test]
fn a_packet_is_counted_under_its_destination_address() {
    let packet = udp_packet((53, 40000), 100);
    let mut monitor = Monitor::new(Policy::ByDestinationAddress, 8);
    monitor.on_packet(Direction::Egress, &PacketView::new(&packet));
    assert_eq!(
        monitor.table().snapshot(),
        vec![entry(FlowKey::DestinationAddress(0xc0a8_0007), (0, 0), (1, 142))]
    );
}

#[test]
fn the_port_policy_takes_the_port_of_this_side() {
    let packet = tcp_packet((51000, 443), 0);
    let headers = parse_headers(&PacketView::new(&packet)).unwrap();
    assert_eq!(
        classify(&headers, Policy::ByPort, Direction::Ingress),
        Some((FlowKey::Port(443), 54))
    );
    assert_eq!(
        classify(&headers, Policy::ByPort, Direction::Egress),
        Some((FlowKey::Port(51000), 54))
    );
    assert_eq!(
        classify(&headers, Policy::BySourceAddress, Direction::Egress),
        Some((FlowKey::SourceAddress(0x0a00_0001), 54))
    );
    assert_eq!(
        classify(&headers, Policy::ByDestinationAddress, Direction::Ingress),
        Some((FlowKey::DestinationAddress(0xc0a8_0007), 54))
    );
}

#[test]
fn a_protocol_without_ports_has_no_key_under_the_port_policy() {
    let mut packet = frame(0x0800, 1, (0, 0), 0);
    packet.truncate(42);
    let headers = parse_headers(&PacketView::new(&packet)).unwrap();
    assert_eq!(classify(&headers, Policy::ByPort, Direction::Ingress), None);
    assert_eq!(
        classify(&headers, Policy::BySourceAddress, Direction::Ingress),
        Some((FlowKey::SourceAddress(0x0a00_0001), 42))
    );
}

#[test]
fn a_buffer_shorter_than_an_ethernet_header_is_uncounted() {
    for policy in [Policy::BySourceAddress, Policy::ByDestinationAddress, Policy::ByPort] {
        let mut monitor = Monitor::new(policy, 8);
        let packet = tcp_packet((1, 2), 0);
        for length in 0..14 {
            let view = PacketView::new(&packet[..length]);
            assert_eq!(monitor.observe(Direction::Ingress, &view), Outcome::Truncated(BoundsError));
            assert_eq!(monitor.on_packet(Direction::Ingress, &view), PassAction::Pass);
        }
        assert!(monitor.table().is_empty());
        assert_eq!(monitor.policy(), policy);
    }
}

#[test]
fn a_frame_that_is_not_ipv4_never_touches_the_table() {
    let mut monitor = Monitor::new(Policy::BySourceAddress, 8);
    monitor.on_packet(Direction::Ingress, &PacketView::new(&tcp_packet((1, 2), 0)));
    let before = monitor.table().snapshot();
    for ether_type in [0x0806, 0x86DD, 0x0060, 0x8100, 0x0008] {
        let packet = frame(ether_type, 6, (1, 2), 30);
        let view = PacketView::new(&packet);
        assert_eq!(
            monitor.observe(Direction::Ingress, &view),
            Outcome::Unclassified(UnsupportedProtocol)
        );
        assert_eq!(monitor.on_packet(Direction::Egress, &view), PassAction::Pass);
    }
    assert_eq!(monitor.table().snapshot(), before);
}

#[test]
fn a_truncated_packet_is_let_through_uncounted() {
    let packet = tcp_packet((51000, 443), 0);
    let mut monitor = Monitor::new(Policy::ByPort, 8);
    for length in [14, 20, 33, 34, 40, 53] {
        assert_eq!(ingress_counter(&mut monitor, &packet[..length]), 2);
        assert_eq!(egress_counter(&mut monitor, &packet[..length]), 3);
        assert_eq!(try_ingress_counter(&mut monitor, &packet[..length]), Err(BoundsError));
        assert_eq!(try_egress_counter(&mut monitor, &packet[..length]), Err(BoundsError));
    }
    assert!(monitor.table().is_empty());
}

#[test]
fn packets_in_and_out_meet_under_the_port_of_this_side() {
    let mut monitor = Monitor::new(Policy::ByPort, 1024);
    assert_eq!(ingress_counter(&mut monitor, &tcp_packet((51000, 443), 6)), 2);
    assert_eq!(egress_counter(&mut monitor, &tcp_packet((443, 51000), 1446)), 3);
    assert_eq!(try_ingress_counter(&mut monitor, &udp_packet((5353, 53), 18)), Ok(2));
    assert_eq!(try_egress_counter(&mut monitor, &udp_packet((53, 5353), 58)), Ok(3));
    assert_eq!(
        monitor.table().snapshot(),
        vec![
            entry(FlowKey::Port(443), (1, 60), (1, 1500)),
            entry(FlowKey::Port(53), (1, 60), (1, 100)),
        ]
    );
}

#[test]
fn a_packet_for_a_full_table_is_let_through_uncounted() {
    let mut monitor = Monitor::new(Policy::ByPort, 1);
    assert_eq!(ingress_counter(&mut monitor, &tcp_packet((1, 80), 0)), 2);
    assert_eq!(ingress_counter(&mut monitor, &tcp_packet((1, 81), 0)), 2);
    assert_eq!(try_ingress_counter(&mut monitor, &tcp_packet((1, 82), 0)), Ok(2));
    assert_eq!(monitor.table().snapshot(), vec![entry(FlowKey::Port(80), (1, 54), (0, 0))]);
}

#[test]
fn each_action_has_its_code_for_each_hook() {
    assert_eq!(PassAction::Pass.xdp_code(), 2);
    assert_eq!(PassAction::Drop.xdp_code(), 1);
    assert_eq!(PassAction::Pass.tc_code(), 3);
    assert_eq!(PassAction::Drop.tc_code(), 2);
}

#[test]
fn a_fault_in_the_packet_path_halts_it() {
    assert_eq!(network_usage_monitoring::monitor::panic(), FaultAction::Halt);
}

#[test]
fn the_packet_path_tells_what_became_of_each_packet() {
    let mut monitor = Monitor::new(Policy::ByPort, 1);
    let first = tcp_packet((51000, 443), 0);
    let second = tcp_packet((51000, 80), 0);
    let mut icmp = frame(0x0800, 1, (0, 0), 0);
    icmp.truncate(42);
    assert_eq!(
        monitor.observe(Direction::Ingress, &PacketView::new(&first)),
        Outcome::Counted(FlowKey::Port(443))
    );
    assert_eq!(
        monitor.observe(Direction::Egress, &PacketView::new(&second)),
        Outcome::Rejected(TableFull)
    );
    assert_eq!(
        monitor.observe(Direction::Ingress, &PacketView::new(&icmp)),
        Outcome::Unclassified(UnsupportedProtocol)
    );
    assert_eq!(
        monitor.observe(Direction::Ingress, &PacketView::new(&first[..50])),
        Outcome::Truncated(BoundsError)
    );
    assert_eq!(monitor.table().snapshot(), vec![entry(FlowKey::Port(443), (1, 54), (0, 0))]);
}

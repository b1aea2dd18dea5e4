use network_usage_monitoring::stats::{Direction, NetStats, Traffic};

#[test]
fn fresh_counters_are_zero() {
    let stats = NetStats::new();
    assert_eq!(stats.ingress, Traffic { packets: 0, bytes: 0 });
    assert_eq!(stats.egress, Traffic { packets: 0, bytes: 0 });
    assert_eq!(NetStats::default(), stats);
}

#[test]
fn record_touches_one_direction() {
    let mut stats = NetStats::new();
    stats.record(Direction::Ingress, 74);
    assert_eq!(stats.ingress, Traffic { packets: 1, bytes: 74 });
    assert_eq!(stats.egress, Traffic { packets: 0, bytes: 0 });
}

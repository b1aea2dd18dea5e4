use network_usage_monitoring::classify::FlowKey;
use network_usage_monitoring::report::{capture, rank, DuplicateKey};
use network_usage_monitoring::stats::{Direction, NetStats, Traffic};
use network_usage_monitoring::table::{CounterTable, FlowEntry};

fn filled(flows: &[(FlowKey, u64, u64)]) -> CounterTable {
    let mut table = CounterTable::new(64);
    for (key, ingress, egress) in flows {
        table.record(*key, Direction::Ingress, *ingress);
        table.record(*key, Direction::Egress, *egress);
    }
    table
}

fn entry(port: u16, ingress: (u64, u64), egress: (u64, u64)) -> FlowEntry {
    FlowEntry {
        key: FlowKey::Port(port),
        stats: NetStats {
            ingress: Traffic { packets: ingress.0, bytes: ingress.1 },
            egress: Traffic { packets: egress.0, bytes: egress.1 },
        },
    }
}

fn keys(entries: &[FlowEntry]) -> Vec<FlowKey> {
    entries.iter().map(|entry| entry.key).collect()
}

#[test]
fn a_snapshot_of_an_empty_table_is_empty() {
    let snapshot = capture(&CounterTable::new(8), Direction::Ingress);
    assert!(snapshot.is_empty());
    assert_eq!(snapshot.len(), 0);
    assert_eq!(snapshot.total(), 0);
    assert_eq!(snapshot.get(0), None);
}

#[test]
fn a_snapshot_ranks_by_bytes_received_largest_first() {
    let table = filled(&[
        (FlowKey::Port(22), 300, 9000),
        (FlowKey::Port(80), 5000, 10),
        (FlowKey::Port(53), 40, 70000),
        (FlowKey::Port(443), 1200, 0),
    ]);
    let snapshot = capture(&table, Direction::default());
    assert_eq!(
        keys(snapshot.entries()),
        vec![FlowKey::Port(80), FlowKey::Port(443), FlowKey::Port(22), FlowKey::Port(53)]
    );
    assert_eq!(snapshot.total(), 6540);
    assert_eq!(snapshot.len(), 4);
}

#[test]
fn a_snapshot_can_rank_by_bytes_sent() {
    let table = filled(&[
        (FlowKey::Port(22), 300, 9000),
        (FlowKey::Port(80), 5000, 10),
        (FlowKey::Port(53), 40, 70000),
        (FlowKey::Port(443), 1200, 0),
    ]);
    let snapshot = capture(&table, Direction::Egress);
    assert_eq!(
        keys(snapshot.entries()),
        vec![FlowKey::Port(53), FlowKey::Port(22), FlowKey::Port(80), FlowKey::Port(443)]
    );
    assert_eq!(snapshot.total(), 79010);
}

#[test]
fn flows_of_equal_bytes_are_ranked_by_key() {
    let table = filled(&[
        (FlowKey::Port(9), 100, 0),
        (FlowKey::DestinationAddress(7), 100, 0),
        (FlowKey::Port(3), 100, 0),
        (FlowKey::SourceAddress(8), 100, 0),
        (FlowKey::Port(5), 200, 0),
        (FlowKey::SourceAddress(2), 100, 0),
    ]);
    let snapshot = capture(&table, Direction::Ingress);
    assert_eq!(
        keys(snapshot.entries()),
        vec![
            FlowKey::Port(5),
            FlowKey::SourceAddress(2),
            FlowKey::SourceAddress(8),
            FlowKey::DestinationAddress(7),
            FlowKey::Port(3),
            FlowKey::Port(9),
        ]
    );
}

#[test]
fn the_ranking_does_not_depend_on_the_order_of_arrival() {
    let flows = [
        (FlowKey::Port(1), 10, 0),
        (FlowKey::Port(2), 10, 0),
        (FlowKey::Port(3), 30, 0),
        (FlowKey::Port(4), 0, 0),
    ];
    let mut reversed = flows;
    reversed.reverse();
    let a = capture(&filled(&flows), Direction::Ingress);
    let b = capture(&filled(&reversed), Direction::Ingress);
    assert_eq!(a.entries(), b.entries());
    assert_eq!(a.total(), b.total());
}

#[test]
fn a_snapshot_holds_every_entry_of_the_table_once() {
    let table = filled(&[
        (FlowKey::Port(22), 300, 9000),
        (FlowKey::Port(80), 5000, 10),
        (FlowKey::Port(53), 40, 70000),
    ]);
    let snapshot = capture(&table, Direction::Ingress);
    let mut ranked = snapshot.entries().clone();
    let mut raw = table.snapshot();
    ranked.sort_by_key(|entry| entry.key);
    raw.sort_by_key(|entry| entry.key);
    assert_eq!(ranked, raw);
    assert_eq!(snapshot.get(0).map(|entry| entry.key), Some(FlowKey::Port(80)));
    assert_eq!(snapshot.get(3), None);
}

#[test]
fn the_grand_total_is_the_sum_of_all_recorded_sizes() {
    let mut table = CounterTable::new(16);
    let packets = [
        (FlowKey::Port(80), 60),
        (FlowKey::Port(443), 1500),
        (FlowKey::Port(80), 40),
        (FlowKey::Port(22), 0),
        (FlowKey::Port(443), 9),
    ];
    for (key, size) in packets {
        table.record(key, Direction::Ingress, size);
    }
    table.record(FlowKey::Port(80), Direction::Egress, 1_000_000);
    assert_eq!(capture(&table, Direction::Ingress).total(), 1609);
    assert_eq!(capture(&table, Direction::Egress).total(), 1_000_000);
}

#[test]
fn the_grand_total_stops_at_the_largest_number() {
    let table = filled(&[(FlowKey::Port(1), u64::MAX - 1, 0), (FlowKey::Port(2), 2, 0)]);
    assert_eq!(capture(&table, Direction::Ingress).total(), u64::MAX);
}

#[test]
fn plain_entries_are_ranked_as_a_table_with_these_entries_is() {
    let entries = vec![
        entry(22, (3, 300), (9, 9000)),
        entry(80, (7, 5000), (1, 10)),
        entry(53, (2, 40), (8, 70000)),
        entry(443, (4, 5000), (0, 0)),
    ];
    let snapshot = rank(&entries, Direction::Ingress).unwrap();
    assert_eq!(
        snapshot.entries(),
        &vec![
            entry(80, (7, 5000), (1, 10)),
            entry(443, (4, 5000), (0, 0)),
            entry(22, (3, 300), (9, 9000)),
            entry(53, (2, 40), (8, 70000)),
        ]
    );
    assert_eq!(snapshot.total(), 10340);
    let by_bytes_sent = rank(&entries, Direction::Egress).unwrap();
    assert_eq!(
        keys(by_bytes_sent.entries()),
        vec![FlowKey::Port(53), FlowKey::Port(22), FlowKey::Port(80), FlowKey::Port(443)]
    );
    assert_eq!(by_bytes_sent.total(), 79010);
    assert!(rank(&vec![], Direction::Ingress).unwrap().is_empty());
}

#[test]
fn entries_with_one_key_twice_are_refused() {
    let twice = vec![entry(22, (1, 1), (0, 0)), entry(80, (1, 1), (0, 0)), entry(22, (2, 2), (0, 0))];
    assert_eq!(rank(&twice, Direction::Ingress).err(), Some(DuplicateKey));
    let same = vec![entry(22, (1, 1), (0, 0)), entry(22, (1, 1), (0, 0))];
    assert_eq!(rank(&same, Direction::Egress).err(), Some(DuplicateKey));
    let other_kind = vec![
        FlowEntry { key: FlowKey::SourceAddress(22), stats: NetStats::new() },
        FlowEntry { key: FlowKey::DestinationAddress(22), stats: NetStats::new() },
        FlowEntry { key: FlowKey::Port(22), stats: NetStats::new() },
    ];
    assert!(rank(&other_kind, Direction::Ingress).is_ok());
}

#[test]
fn taking_a_snapshot_leaves_the_table_as_it_was() {
    let table = filled(&[(FlowKey::Port(2), 1, 0), (FlowKey::Port(1), 2, 0)]);
    let before = table.snapshot();
    let _ = capture(&table, Direction::Ingress);
    assert_eq!(table.snapshot(), before);
}

#[test]
fn the_snapshot_after_one_record_holds_one_entry() {
    let mut table = CounterTable::new(1024);
    table.record(FlowKey::SourceAddress(0x0a00_0001), Direction::Ingress, 74);
    let snapshot = capture(&table, Direction::Ingress);
    assert_eq!(
        snapshot.entries(),
        &vec![FlowEntry {
            key: FlowKey::SourceAddress(0x0a00_0001),
            stats: NetStats {
                ingress: Traffic { packets: 1, bytes: 74 },
                egress: Traffic { packets: 0, bytes: 0 },
            },
        }]
    );
    assert_eq!(snapshot.total(), 74);
}

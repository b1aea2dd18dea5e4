//! The counter table: a bounded store from flow keys to traffic counters.

use vstd::prelude::*;
use crate::classify::FlowKey;
use crate::stats::{capped, Direction, NetStats};

verus! {

/// Number of flows that a table holds unless told otherwise.
pub const DEFAULT_CAPACITY: usize = 1024;

/// Largest capacity for which a new table sets aside all its room at once.
const RESERVED_AT_MOST: usize = 65536;

/// One flow and its counters.
#[derive(Clone, Copy, Debug, PartialEq, Eq, Structural)]
pub struct FlowEntry {
    pub key: FlowKey,
    pub stats: NetStats,
}

/// The table holds as many flows as it can, and the key is not among them.
#[derive(Clone, Copy, Debug, PartialEq, Eq, Structural)]
pub struct TableFull;

/// What became of a packet that was handed to the table.
#[derive(Clone, Copy, Debug, PartialEq, Eq, Structural)]
pub enum RecordOutcome {
    /// The packet was counted.
    Recorded,
    /// The packet was not counted, and the table is as it was.
    Rejected(TableFull),
}

/// Whether some entry has this key.
pub open spec fn holds(entries: Seq<FlowEntry>, key: FlowKey) -> bool {
    exists|i: int| 0 <= i < entries.len() && (#[trigger] entries[i]).key == key
}

/// The place of an entry with this key, where there is one.
pub open spec fn index_of(entries: Seq<FlowEntry>, key: FlowKey) -> int {
    choose|i: int| 0 <= i < entries.len() && (#[trigger] entries[i]).key == key
}

/// The counters kept under a key.
pub open spec fn stats_of(entries: Seq<FlowEntry>, key: FlowKey) -> Option<NetStats> {
    if holds(entries, key) {
        Some(entries[index_of(entries, key)].stats)
    } else {
        None
    }
}

/// The counters under `key`, or fresh ones where the table has none.
pub open spec fn stats_or_zero(entries: Seq<FlowEntry>, key: FlowKey) -> NetStats {
    match stats_of(entries, key) {
        Some(stats) => stats,
        None => NetStats::zero(),
    }
}

/// No two entries have the same key.
pub open spec fn distinct_keys(entries: Seq<FlowEntry>) -> bool {
    forall|i: int, j: int|
        0 <= i < j < entries.len() ==> (#[trigger] entries[i]).key != (#[trigger] entries[j]).key
}

/// What every table satisfies: one entry per key, and no more entries than
/// the capacity.
pub open spec fn table_invariant(entries: Seq<FlowEntry>, capacity: nat) -> bool {
    distinct_keys(entries) && entries.len() <= capacity
}

/// Whether a packet under `key` is counted by a table with these entries.
///
/// A known key is always counted. A new key is counted while there is room.
pub open spec fn accepts(entries: Seq<FlowEntry>, capacity: nat, key: FlowKey) -> bool {
    holds(entries, key) || entries.len() < capacity
}

/// The entries after a packet of `size` bytes under `key` in `direction`.
///
/// A known key has its counters of that direction raised, in place. A new
/// key is appended with fresh counters that show this one packet, if there
/// is room. Else nothing changes.
pub open spec fn recorded(
    entries: Seq<FlowEntry>,
    capacity: nat,
    key: FlowKey,
    direction: Direction,
    size: u64,
) -> Seq<FlowEntry> {
    if holds(entries, key) {
        let i = index_of(entries, key);
        entries.update(i, FlowEntry { key, stats: entries[i].stats.recorded(direction, size) })
    } else if entries.len() < capacity {
        entries.push(FlowEntry { key, stats: NetStats::zero().recorded(direction, size) })
    } else {
        entries
    }
}

/// What one packet under `key` does to the counters, key by key: the
/// counters of `key` show one packet more in its direction, if the table
/// takes the key, and the counters of every other key are as they were.
pub open spec fn counts_once(
    before: Seq<FlowEntry>,
    after: Seq<FlowEntry>,
    capacity: nat,
    key: FlowKey,
    direction: Direction,
    size: u64,
) -> bool {
    &&& stats_of(after, key) == if accepts(before, capacity, key) {
        Some(stats_or_zero(before, key).recorded(direction, size))
    } else {
        None
    }
    &&& forall|other: FlowKey| other != key ==> stats_of(after, other) == stats_of(before, other)
}

/// A store from flow keys to counters that never holds more than a fixed
/// number of flows. Entries keep the order in which their keys first came.
///
/// Counting takes the table by exclusive reference. Where packets arrive in
/// several contexts at once, whoever shares the table puts it behind a lock,
/// one for the table or one for each of several tables that split the keys
/// among them. Reading takes a shared reference and changes nothing.
pub struct CounterTable {
    capacity: usize,
    entries: Vec<FlowEntry>,
}

/// What a table is to its users: its entries, in the order in which their
/// keys first came, and the largest number of flows that it holds.
pub struct TableView {
    pub entries: Seq<FlowEntry>,
    pub capacity: nat,
}

impl View for CounterTable {
    type V = TableView;

    closed spec fn view(&self) -> TableView {
        TableView { entries: self.entries@, capacity: self.capacity as nat }
    }
}

impl CounterTable {
    #[verifier::type_invariant]
    spec fn well_formed(self) -> bool {
        table_invariant(self.entries@, self.capacity as nat)
    }

    /// The largest number of flows that the table holds.
    pub open spec fn limit(&self) -> nat {
        self@.capacity
    }

    /// An empty table for at most `capacity` flows.
    pub fn new(capacity: usize) -> (table: CounterTable)
        ensures
            table@.entries == Seq::<FlowEntry>::empty(),
            table.limit() == capacity,
    {
        let reserved = if capacity <= RESERVED_AT_MOST {
            capacity
        } else {
            RESERVED_AT_MOST
        };
        CounterTable { capacity, entries: Vec::with_capacity(reserved) }
    }

    /// The largest number of flows that the table holds.
    pub fn capacity(&self) -> (n: usize)
        ensures
            n == self.limit(),
    {
        self.capacity
    }

    /// Number of flows in the table. It never exceeds the capacity, and no
    /// key occurs twice.
    pub fn len(&self) -> (n: usize)
        ensures
            n == self@.entries.len(),
            table_invariant(self@.entries, self.limit()),
    {
        proof {
            use_type_invariant(self);
        }
        self.entries.len()
    }

    /// Whether the table holds no flow.
    pub fn is_empty(&self) -> (b: bool)
        ensures
            b == (self@.entries.len() == 0),
    {
        self.entries.len() == 0
    }

    /// Whether the table has no room for a new key.
    pub fn is_full(&self) -> (b: bool)
        ensures
            b == (self@.entries.len() >= self.limit()),
    {
        self.entries.len() >= self.capacity
    }

    /// The counters kept under `key`.
    pub fn get(&self, key: &FlowKey) -> (r: Option<NetStats>)
        ensures
            r == stats_of(self@.entries, *key),
    {
        proof {
            use_type_invariant(self);
        }
        match find(&self.entries, key) {
            Some(i) => Some(self.entries[i].stats),
            None => None,
        }
    }

    /// Counts a packet of `size` bytes under `key` in `direction`.
    ///
    /// A packet under a new key is rejected when the table is full. The
    /// table is then left as it was: nothing is evicted to make room.
    pub fn record(&mut self, key: FlowKey, direction: Direction, size: u64) -> (outcome:
        RecordOutcome)
        ensures
            final(self).limit() == old(self).limit(),
            final(self)@.entries == recorded(
                old(self)@.entries,
                old(self).limit(),
                key,
                direction,
                size,
            ),
            outcome == if accepts(old(self)@.entries, old(self).limit(), key) {
                RecordOutcome::Recorded
            } else {
                RecordOutcome::Rejected(TableFull)
            },
            counts_once(
                old(self)@.entries,
                final(self)@.entries,
                old(self).limit(),
                key,
                direction,
                size,
            ),
            table_invariant(final(self)@.entries, final(self).limit()),
    {
        proof {
            use_type_invariant(&*self);
            lemma_recorded_keeps_invariant(self@.entries, self.limit(), key, direction, size);
            lemma_record_touches_one_key(self@.entries, self.limit(), key, direction, size);
            if accepts(self@.entries, self.limit(), key) {
                lemma_record_counts_once(self@.entries, self.limit(), key, direction, size);
            }
        }
        match find(&self.entries, &key) {
            Some(i) => {
                let mut stats = self.entries[i].stats;
                stats.record(direction, size);
                let mut entries: Vec<FlowEntry> = Vec::new();
                std::mem::swap(&mut entries, &mut self.entries);
                entries.set(i, FlowEntry { key, stats });
                self.entries = entries;
                RecordOutcome::Recorded
            },
            None => {
                if self.entries.len() < self.capacity {
                    let mut stats = NetStats::new();
                    stats.record(direction, size);
                    let mut entries: Vec<FlowEntry> = Vec::new();
                    std::mem::swap(&mut entries, &mut self.entries);
                    entries.push(FlowEntry { key, stats });
                    self.entries = entries;
                    RecordOutcome::Recorded
                } else {
                    RecordOutcome::Rejected(TableFull)
                }
            },
        }
    }

    /// A copy of all entries as they are now, in the order in which their
    /// keys first came.
    pub fn snapshot(&self) -> (entries: Vec<FlowEntry>)
        ensures
            entries@ == self@.entries,
            table_invariant(entries@, self.limit()),
    {
        proof {
            use_type_invariant(self);
        }
        self.entries.clone()
    }
}

/// Looks for the entry with this key.
fn find(entries: &Vec<FlowEntry>, key: &FlowKey) -> (r: Option<usize>)
    requires
        distinct_keys(entries@),
    ensures
        match r {
            Some(i) => holds(entries@, *key) && i == index_of(entries@, *key),
            None => !holds(entries@, *key),
        },
{
    let mut i: usize = 0;
    while i < entries.len()
        invariant
            i <= entries.len(),
            distinct_keys(entries@),
            forall|j: int| 0 <= j < i ==> (#[trigger] entries@[j]).key != *key,
        decreases entries.len() - i,
    {
        if entries[i].key == *key {
            return Some(i);
        }
        i += 1;
    }
    None
}

/// Recording keeps a table a table: keys stay distinct and the capacity is
/// kept.
pub proof fn lemma_recorded_keeps_invariant(
    entries: Seq<FlowEntry>,
    capacity: nat,
    key: FlowKey,
    direction: Direction,
    size: u64,
)
    requires
        table_invariant(entries, capacity),
    ensures
        table_invariant(recorded(entries, capacity, key, direction, size), capacity),
{
}

/// A packet that the table accepts shows in the counters of its key and
/// direction, and nowhere else: neither in the other direction nor under
/// another key.
pub proof fn lemma_record_counts_once(
    entries: Seq<FlowEntry>,
    capacity: nat,
    key: FlowKey,
    direction: Direction,
    size: u64,
)
    requires
        table_invariant(entries, capacity),
        accepts(entries, capacity, key),
    ensures
        stats_of(recorded(entries, capacity, key, direction, size), key) == Some(
            stats_or_zero(entries, key).recorded(direction, size),
        ),
        forall|other: FlowKey|
            other != key ==> stats_of(
                recorded(entries, capacity, key, direction, size),
                other,
            ) == stats_of(entries, other),
{
    let after = recorded(entries, capacity, key, direction, size);
    if holds(entries, key) {
        let i = index_of(entries, key);
        assert(after[i].key == key);
        assert(index_of(after, key) == i);
    } else {
        let i = entries.len() as int;
        assert(after[i].key == key);
        assert(index_of(after, key) == i);
    }
    lemma_record_touches_one_key(entries, capacity, key, direction, size);
}

/// A packet leaves the counters of every key but its own as they were,
/// whether the table accepts it or not.
pub proof fn lemma_record_touches_one_key(
    entries: Seq<FlowEntry>,
    capacity: nat,
    key: FlowKey,
    direction: Direction,
    size: u64,
)
    requires
        table_invariant(entries, capacity),
    ensures
        forall|other: FlowKey|
            other != key ==> stats_of(
                recorded(entries, capacity, key, direction, size),
                other,
            ) == stats_of(entries, other),
{
    let after = recorded(entries, capacity, key, direction, size);
    assert forall|other: FlowKey| other != key implies stats_of(after, other) == stats_of(
        entries,
        other,
    ) by {
        lemma_other_key_untouched(entries, capacity, key, direction, size, other);
    }
}

proof fn lemma_other_key_untouched(
    entries: Seq<FlowEntry>,
    capacity: nat,
    key: FlowKey,
    direction: Direction,
    size: u64,
    other: FlowKey,
)
    requires
        table_invariant(entries, capacity),
        other != key,
    ensures
        stats_of(recorded(entries, capacity, key, direction, size), other) == stats_of(
            entries,
            other,
        ),
{
    let after = recorded(entries, capacity, key, direction, size);
    lemma_recorded_keeps_invariant(entries, capacity, key, direction, size);
    if holds(entries, other) {
        let j = index_of(entries, other);
        assert(after[j].key == other);
        assert(index_of(after, other) == j);
    } else if holds(after, other) {
        let j = index_of(after, other);
        if j < entries.len() {
            assert(entries[j].key == other);
        }
    }
}

/// Two packets under one key, one after the other, add up: in their
/// direction the packet counter is two higher and the byte counter higher by
/// both sizes, each up to `u64::MAX`. The other direction is as it was.
pub proof fn lemma_records_accumulate(
    entries: Seq<FlowEntry>,
    capacity: nat,
    key: FlowKey,
    direction: Direction,
    first: u64,
    second: u64,
)
    requires
        table_invariant(entries, capacity),
        accepts(entries, capacity, key),
    ensures
        ({
            let start = stats_or_zero(entries, key);
            let once = recorded(entries, capacity, key, direction, first);
            let twice = recorded(once, capacity, key, direction, second);
            let end = stats_or_zero(twice, key);
            &&& holds(twice, key)
            &&& end.side(direction).packets == capped(start.side(direction).packets + 2)
            &&& end.side(direction).bytes == capped(start.side(direction).bytes + first + second)
            &&& forall|other: Direction| other != direction ==> end.side(other) == start.side(other)
        }),
{
    let once = recorded(entries, capacity, key, direction, first);
    lemma_record_counts_once(entries, capacity, key, direction, first);
    lemma_recorded_keeps_invariant(entries, capacity, key, direction, first);
    assert(holds(once, key));
    lemma_record_counts_once(once, capacity, key, direction, second);
}

/// A full table rejects a key that it does not hold, and stays exactly as it
/// was: no entry is changed and none is evicted.
pub proof fn lemma_full_table_rejects_new_key(
    entries: Seq<FlowEntry>,
    capacity: nat,
    key: FlowKey,
    direction: Direction,
    size: u64,
)
    requires
        entries.len() >= capacity,
        !holds(entries, key),
    ensures
        !accepts(entries, capacity, key),
        recorded(entries, capacity, key, direction, size) == entries,
{
}

/// Recording never takes anything away: the table does not shrink, every key
/// stays where it is, and no counter of any key goes down.
pub proof fn lemma_record_never_lowers(
    entries: Seq<FlowEntry>,
    capacity: nat,
    key: FlowKey,
    direction: Direction,
    size: u64,
)
    requires
        table_invariant(entries, capacity),
    ensures
        ({
            let after = recorded(entries, capacity, key, direction, size);
            &&& entries.len() <= after.len()
            &&& forall|i: int|
                0 <= i < entries.len() ==> (#[trigger] after[i]).key == entries[i].key
                    && after[i].stats.at_least(entries[i].stats)
        }),
{
}

/// A packet as the table is told of it: its key, its direction, its size.
#[derive(Clone, Copy, Debug, PartialEq, Eq, Structural)]
pub struct Observation {
    pub key: FlowKey,
    pub direction: Direction,
    pub size: u64,
}

/// The entries after a run of packets, recorded one after the other.
pub open spec fn replayed(entries: Seq<FlowEntry>, capacity: nat, packets: Seq<Observation>) -> Seq<
    FlowEntry,
>
    decreases packets.len(),
{
    if packets.len() == 0 {
        entries
    } else {
        let packet = packets.last();
        recorded(
            replayed(entries, capacity, packets.drop_last()),
            capacity,
            packet.key,
            packet.direction,
            packet.size,
        )
    }
}

/// Whether the table accepts every packet of a run, each at its turn.
pub open spec fn all_accepted(entries: Seq<FlowEntry>, capacity: nat, packets: Seq<Observation>) -> bool
    decreases packets.len(),
{
    packets.len() == 0 || (all_accepted(entries, capacity, packets.drop_last()) && accepts(
        replayed(entries, capacity, packets.drop_last()),
        capacity,
        packets.last().key,
    ))
}

/// Number of packets of a run under `key` in `direction`.
pub open spec fn packets_under(packets: Seq<Observation>, key: FlowKey, direction: Direction) -> int
    decreases packets.len(),
{
    if packets.len() == 0 {
        0
    } else {
        packets_under(packets.drop_last(), key, direction) + if packets.last().key == key
            && packets.last().direction == direction {
            1int
        } else {
            0int
        }
    }
}

/// Bytes of all packets of a run under `key` in `direction`.
pub open spec fn bytes_under(packets: Seq<Observation>, key: FlowKey, direction: Direction) -> int
    decreases packets.len(),
{
    if packets.len() == 0 {
        0
    } else {
        bytes_under(packets.drop_last(), key, direction) + if packets.last().key == key
            && packets.last().direction == direction {
            packets.last().size as int
        } else {
            0int
        }
    }
}

/// A run of packets keeps a table a table.
pub proof fn lemma_replayed_keeps_invariant(
    entries: Seq<FlowEntry>,
    capacity: nat,
    packets: Seq<Observation>,
)
    requires
        table_invariant(entries, capacity),
    ensures
        table_invariant(replayed(entries, capacity, packets), capacity),
    decreases packets.len(),
{
    if packets.len() > 0 {
        lemma_replayed_keeps_invariant(entries, capacity, packets.drop_last());
        let packet = packets.last();
        lemma_recorded_keeps_invariant(
            replayed(entries, capacity, packets.drop_last()),
            capacity,
            packet.key,
            packet.direction,
            packet.size,
        );
    }
}

/// After a run of packets that the table accepted one and all, the counters
/// of every key show exactly the packets and the bytes that the run held for
/// that key and direction, on top of what they showed before, up to
/// `u64::MAX`.
pub proof fn lemma_replayed_counts_exactly(
    entries: Seq<FlowEntry>,
    capacity: nat,
    packets: Seq<Observation>,
    key: FlowKey,
    direction: Direction,
)
    requires
        table_invariant(entries, capacity),
        all_accepted(entries, capacity, packets),
    ensures
        ({
            let start = stats_or_zero(entries, key).side(direction);
            let end = stats_or_zero(replayed(entries, capacity, packets), key).side(direction);
            &&& end.packets == capped(start.packets + packets_under(packets, key, direction))
            &&& end.bytes == capped(start.bytes + bytes_under(packets, key, direction))
        }),
        packets_under(packets, key, direction) >= 0,
        bytes_under(packets, key, direction) >= 0,
    decreases packets.len(),
{
    if packets.len() > 0 {
        let earlier = packets.drop_last();
        let packet = packets.last();
        let middle = replayed(entries, capacity, earlier);
        lemma_replayed_counts_exactly(entries, capacity, earlier, key, direction);
        lemma_replayed_keeps_invariant(entries, capacity, earlier);
        lemma_record_counts_once(middle, capacity, packet.key, packet.direction, packet.size);
    }
}

/// The entry that a packet leaves in a table that did not know its key.
pub open spec fn first_entry(packet: Observation) -> FlowEntry {
    FlowEntry {
        key: packet.key,
        stats: NetStats::zero().recorded(packet.direction, packet.size),
    }
}

/// The smaller of two numbers.
pub open spec fn at_most(n: nat, limit: nat) -> nat {
    if n <= limit {
        n
    } else {
        limit
    }
}

/// Packets with keys that are all different, sent to an empty table, fill it
/// in their order, one entry each, until it is full. Every packet after that
/// is rejected, and the entries that are there stay as they are.
pub proof fn lemma_distinct_keys_fill_in_order(capacity: nat, packets: Seq<Observation>)
    requires
        forall|i: int, j: int|
            0 <= i < j < packets.len() ==> (#[trigger] packets[i]).key != (
            #[trigger] packets[j]).key,
    ensures
        replayed(Seq::empty(), capacity, packets) == Seq::new(
            at_most(packets.len(), capacity),
            |i: int| first_entry(packets[i]),
        ),
    decreases packets.len(),
{
    let after = replayed(Seq::empty(), capacity, packets);
    let expected = Seq::new(at_most(packets.len(), capacity), |i: int| first_entry(packets[i]));
    if packets.len() == 0 {
        assert(after =~= expected);
    } else {
        let earlier = packets.drop_last();
        let packet = packets.last();
        let middle = replayed(Seq::empty(), capacity, earlier);
        lemma_distinct_keys_fill_in_order(capacity, earlier);
        assert(middle.len() == at_most(earlier.len(), capacity));
        assert(!holds(middle, packet.key)) by {
            assert forall|i: int| 0 <= i < middle.len() implies (#[trigger] middle[i]).key
                != packet.key by {
                assert(middle[i].key == earlier[i].key);
                assert(packets[i].key != packets[packets.len() - 1].key);
            }
        }
        assert(after =~= expected);
    }
}

} // verus!

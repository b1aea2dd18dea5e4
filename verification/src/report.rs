//! Snapshots: the table's flows ranked by traffic, with a grand total.

use vstd::prelude::*;
use crate::classify::FlowKey;
use crate::stats::{capped, Direction};
use crate::table::{
    all_accepted, distinct_keys, holds, index_of, lemma_replayed_keeps_invariant, recorded,
    replayed, stats_of, table_invariant,
    CounterTable, FlowEntry, Observation,
};

verus! {

/// The bytes that an entry has counted in one direction.
pub open spec fn volume(entry: FlowEntry, direction: Direction) -> u64 {
    entry.stats.side(direction).bytes
}

/// Whether `a` may stand before `b` in a ranking: `a` has more bytes in the
/// direction asked for, or as many and a key that is not later than `b`'s.
pub open spec fn before(a: FlowEntry, b: FlowEntry, direction: Direction) -> bool {
    volume(a, direction) > volume(b, direction) || (volume(a, direction) == volume(b, direction)
        && a.key.rank() <= b.key.rank())
}

/// The entries stand in ranking order: by bytes in the direction asked for,
/// largest first, and by key where the bytes are equal.
pub open spec fn ranked(entries: Seq<FlowEntry>, direction: Direction) -> bool {
    forall|i: int, j: int|
        0 <= i < j < entries.len() ==> before(#[trigger] entries[i], #[trigger] entries[j], direction)
}

/// The bytes that all entries together have counted in one direction.
pub open spec fn total_volume(entries: Seq<FlowEntry>, direction: Direction) -> int
    decreases entries.len(),
{
    if entries.len() == 0 {
        0
    } else {
        total_volume(entries.drop_last(), direction) + volume(entries.last(), direction)
    }
}

/// A ranking of the flows of a table at one moment, with the bytes of all of
/// them together. It does not change once made.
#[derive(Debug)]
pub struct Snapshot {
    entries: Vec<FlowEntry>,
    total: u64,
}

/// What a snapshot is to its users: its entries in ranking order, and its
/// grand total.
pub struct SnapshotView {
    pub entries: Seq<FlowEntry>,
    pub total: u64,
}

impl View for Snapshot {
    type V = SnapshotView;

    closed spec fn view(&self) -> SnapshotView {
        SnapshotView { entries: self.entries@, total: self.total }
    }
}

impl Snapshot {
    /// The grand total that the snapshot shows.
    pub open spec fn sum(&self) -> u64 {
        self@.total
    }

    /// Whether the snapshot is the ranking of `entries` by bytes in
    /// `direction`: it holds the same entries, one per key and each with
    /// its counters, in ranking order, and its grand total is the bytes of
    /// all of them in that direction, up to `u64::MAX`.
    pub open spec fn shows(&self, entries: Seq<FlowEntry>, direction: Direction) -> bool {
        &&& self@.entries.to_multiset() == entries.to_multiset()
        &&& self@.entries.len() == entries.len()
        &&& forall|key: FlowKey| stats_of(self@.entries, key) == stats_of(entries, key)
        &&& ranked(self@.entries, direction)
        &&& distinct_keys(self@.entries)
        &&& self.sum() == capped(total_volume(entries, direction))
        &&& self.sum() == capped(total_volume(self@.entries, direction))
    }

    /// Number of flows in the snapshot.
    pub fn len(&self) -> (n: usize)
        ensures
            n == self@.entries.len(),
    {
        self.entries.len()
    }

    /// Whether the snapshot holds no flow.
    pub fn is_empty(&self) -> (b: bool)
        ensures
            b == (self@.entries.len() == 0),
    {
        self.entries.len() == 0
    }

    /// The flow at place `i` of the ranking, `None` past its end.
    pub fn get(&self, i: usize) -> (r: Option<FlowEntry>)
        ensures
            r == if i < self@.entries.len() {
                Some(self@.entries[i as int])
            } else {
                None
            },
    {
        if i < self.entries.len() {
            Some(self.entries[i])
        } else {
            None
        }
    }

    /// All flows, in ranking order.
    pub fn entries(&self) -> (entries: &Vec<FlowEntry>)
        ensures
            entries@ == self@.entries,
    {
        &self.entries
    }

    /// Bytes of all flows together in the direction of the ranking. A total
    /// beyond `u64::MAX` shows as `u64::MAX`.
    pub fn total(&self) -> (n: u64)
        ensures
            n == self.sum(),
    {
        self.total
    }
}

/// Whether `a` may stand before `b` in a ranking.
fn stands_before(a: &FlowEntry, b: &FlowEntry, direction: Direction) -> (r: bool)
    ensures
        r == before(*a, *b, direction),
{
    let bytes_a = a.stats.traffic(direction).bytes;
    let bytes_b = b.stats.traffic(direction).bytes;
    bytes_a > bytes_b || (bytes_a == bytes_b && !b.key.precedes(&a.key))
}

/// Putting one entry into a sequence adds it to what the sequence holds,
/// wherever it is put.
proof fn lemma_insert_to_multiset(entries: Seq<FlowEntry>, at: int, entry: FlowEntry)
    requires
        0 <= at <= entries.len(),
    ensures
        entries.insert(at, entry).to_multiset() == entries.to_multiset().insert(entry),
{
    broadcast use vstd::multiset::group_multiset_axioms;
    broadcast use vstd::seq_lib::group_to_multiset_ensures;

    let longer = entries.insert(at, entry);
    assert(longer.remove(at) =~= entries);
    assert(longer[at] == entry);
    assert(longer.to_multiset().count(entry) > 0) by {
        assert(longer.contains(entry));
    }
    assert(longer.to_multiset() =~= entries.to_multiset().insert(entry));
}

/// The entries in ranking order.
fn ranking(entries: &Vec<FlowEntry>, direction: Direction) -> (out: Vec<FlowEntry>)
    ensures
        out@.to_multiset() == entries@.to_multiset(),
        ranked(out@, direction),
{
    let mut out: Vec<FlowEntry> = Vec::new();
    let mut i: usize = 0;
    assert(entries@.take(0) =~= Seq::<FlowEntry>::empty());
    while i < entries.len()
        invariant
            i <= entries.len(),
            out@.to_multiset() == entries@.take(i as int).to_multiset(),
            ranked(out@, direction),
        decreases entries.len() - i,
    {
        let entry = entries[i];
        let mut at: usize = 0;
        while at < out.len() && stands_before(&out[at], &entry, direction)
            invariant
                at <= out.len(),
                forall|k: int| 0 <= k < at ==> before(#[trigger] out@[k], entry, direction),
            decreases out.len() - at,
        {
            at += 1;
        }
        proof {
            lemma_insert_to_multiset(out@, at as int, entry);
            assert(entries@.take(i + 1) =~= entries@.take(i as int).push(entry));
            vstd::seq_lib::to_multiset_build(entries@.take(i as int), entry);
            let longer = out@.insert(at as int, entry);
            assert forall|a: int, b: int| 0 <= a < b < longer.len() implies before(
                #[trigger] longer[a],
                #[trigger] longer[b],
                direction,
            ) by {
                if at < out@.len() {
                    assert(!before(out@[at as int], entry, direction));
                }
                if a < at && b > at {
                    assert(before(out@[a], out@[b - 1], direction));
                } else if a < at && b < at {
                    assert(before(out@[a], out@[b], direction));
                } else if a > at {
                    assert(before(out@[a - 1], out@[b - 1], direction));
                } else if a == at {
                    if b - 1 > at {
                        assert(before(out@[at as int], out@[b - 1], direction));
                    }
                }
            }
        }
        out.insert(at, entry);
        i += 1;
    }
    assert(entries@.take(i as int) =~= entries@);
    out
}

/// Adds up the bytes of all entries in one direction, stopping at
/// `u64::MAX`.
pub fn total_of(entries: &Vec<FlowEntry>, direction: Direction) -> (total: u64)
    ensures
        total == capped(total_volume(entries@, direction)),
{
    let mut total: u64 = 0;
    let mut i: usize = 0;
    assert(entries@.take(0) =~= Seq::<FlowEntry>::empty());
    while i < entries.len()
        invariant
            i <= entries.len(),
            total == capped(total_volume(entries@.take(i as int), direction)),
            total_volume(entries@.take(i as int), direction) >= 0,
        decreases entries.len() - i,
    {
        assert(entries@.take(i + 1).drop_last() =~= entries@.take(i as int));
        total = total.saturating_add(entries[i].stats.traffic(direction).bytes);
        i += 1;
    }
    assert(entries@.take(i as int) =~= entries@);
    total
}

/// The snapshot of entries that have one entry per key.
fn snapshot_of(entries: &Vec<FlowEntry>, direction: Direction) -> (snapshot: Snapshot)
    requires
        distinct_keys(entries@),
    ensures
        snapshot.shows(entries@, direction),
{
    let total = total_of(entries, direction);
    let ranked = ranking(entries, direction);
    proof {
        entries@.to_multiset_ensures();
        ranked@.to_multiset_ensures();
        lemma_same_entries_distinct_keys(entries@, ranked@);
        lemma_same_entries_same_stats(entries@, ranked@);
        lemma_total_volume_of_same_entries(entries@, ranked@, direction);
    }
    Snapshot { entries: ranked, total }
}

/// Takes a snapshot of a table: its flows ranked by the bytes they counted
/// in `direction`, largest first, flows of equal bytes by key, and the bytes
/// of all flows together.
///
/// The table is only read.
pub fn capture(table: &CounterTable, direction: Direction) -> (snapshot: Snapshot)
    ensures
        snapshot.shows(table@.entries, direction),
{
    let entries = table.snapshot();
    snapshot_of(&entries, direction)
}

/// Two of the entries have the same key.
#[derive(Clone, Copy, Debug, PartialEq, Eq, Structural)]
pub struct DuplicateKey;

/// Whether no two entries have the same key.
fn keys_are_distinct(entries: &Vec<FlowEntry>) -> (r: bool)
    ensures
        r == distinct_keys(entries@),
{
    let mut j: usize = 0;
    while j < entries.len()
        invariant
            j <= entries@.len(),
            forall|a: int, b: int|
                0 <= a < b < j ==> (#[trigger] entries@[a]).key != (#[trigger] entries@[b]).key,
        decreases entries.len() - j,
    {
        let mut i: usize = 0;
        while i < j
            invariant
                i <= j < entries@.len(),
                forall|a: int| 0 <= a < i ==> (#[trigger] entries@[a]).key != entries@[j as int].key,
            decreases j - i,
        {
            if entries[i].key == entries[j].key {
                return false;
            }
            i += 1;
        }
        j += 1;
    }
    true
}

/// Takes a snapshot of entries that were read elsewhere, such as counters
/// that a kernel program keeps: the same ranking and total as `capture`
/// gives for a table with these entries.
///
/// A snapshot has one entry per key. Entries of which two have the same key
/// are refused.
pub fn rank(entries: &Vec<FlowEntry>, direction: Direction) -> (r: Result<Snapshot, DuplicateKey>)
    ensures
        r is Ok <==> distinct_keys(entries@),
        r matches Ok(snapshot) ==> snapshot.shows(entries@, direction),
{
    if keys_are_distinct(entries) {
        Ok(snapshot_of(entries, direction))
    } else {
        Err(DuplicateKey)
    }
}

/// A sequence that holds the same entries as one with distinct keys has
/// distinct keys too.
pub proof fn lemma_same_entries_distinct_keys(a: Seq<FlowEntry>, b: Seq<FlowEntry>)
    requires
        distinct_keys(a),
        a.to_multiset() == b.to_multiset(),
    ensures
        distinct_keys(b),
{
    broadcast use vstd::multiset::group_multiset_axioms;
    broadcast use vstd::seq_lib::group_to_multiset_ensures;

    assert(a.no_duplicates()) by {
        assert forall|i: int, j: int| 0 <= i < a.len() && 0 <= j < a.len() && i != j implies a[i]
            != a[j] by {
            if i < j {
                assert(a[i].key != a[j].key);
            } else {
                assert(a[j].key != a[i].key);
            }
        }
    }
    a.lemma_multiset_has_no_duplicates();
    b.lemma_multiset_has_no_duplicates_conv();
    assert forall|i: int, j: int| 0 <= i < j < b.len() implies (#[trigger] b[i]).key != (
    #[trigger] b[j]).key by {
        assert(b.contains(b[i]));
        assert(b.contains(b[j]));
        assert(a.to_multiset().count(b[i]) > 0);
        assert(a.to_multiset().count(b[j]) > 0);
        assert(a.contains(b[i]));
        assert(a.contains(b[j]));
        let p = choose|p: int| 0 <= p < a.len() && a[p] == b[i];
        let q = choose|q: int| 0 <= q < a.len() && a[q] == b[j];
        assert(b[i] != b[j]);
        if p < q {
            assert(a[p].key != a[q].key);
        } else {
            assert(a[q].key != a[p].key);
        }
    }
}

/// Two sequences that hold the same entries, one entry per key, have the
/// same counters under every key.
pub proof fn lemma_same_entries_same_stats(a: Seq<FlowEntry>, b: Seq<FlowEntry>)
    requires
        distinct_keys(a),
        a.to_multiset() == b.to_multiset(),
    ensures
        forall|key: FlowKey| stats_of(a, key) == stats_of(b, key),
{
    broadcast use vstd::multiset::group_multiset_axioms;
    broadcast use vstd::seq_lib::group_to_multiset_ensures;

    lemma_same_entries_distinct_keys(a, b);
    assert forall|key: FlowKey| stats_of(a, key) == stats_of(b, key) by {
        if holds(a, key) {
            let i = index_of(a, key);
            assert(a.contains(a[i]));
            assert(b.to_multiset().count(a[i]) > 0);
            assert(b.contains(a[i]));
            let j = choose|j: int| 0 <= j < b.len() && b[j] == a[i];
            assert(b[j].key == key);
            assert(index_of(b, key) == j);
        } else if holds(b, key) {
            let j = index_of(b, key);
            assert(b.contains(b[j]));
            assert(a.to_multiset().count(b[j]) > 0);
            assert(a.contains(b[j]));
            let i = choose|i: int| 0 <= i < a.len() && a[i] == b[j];
            assert(a[i].key == key);
        }
    }
}

/// In a ranking with one entry per key, entries of equal bytes stand in the
/// strict order of their keys, and all others in the strict order of their
/// bytes, largest first.
pub proof fn lemma_ties_go_by_key(entries: Seq<FlowEntry>, direction: Direction, i: int, j: int)
    requires
        ranked(entries, direction),
        distinct_keys(entries),
        0 <= i < j < entries.len(),
    ensures
        volume(entries[i], direction) >= volume(entries[j], direction),
        volume(entries[i], direction) == volume(entries[j], direction) ==> entries[i].key.rank()
            < entries[j].key.rank(),
{
    assert(before(entries[i], entries[j], direction));
    assert(entries[i].key != entries[j].key);
    FlowKey::lemma_rank_injective(entries[i].key, entries[j].key);
}

/// There is one ranking only: two sequences in ranking order that hold the
/// same entries, one entry per key, are the same sequence. Entries of equal
/// bytes stand in the order of their keys and in no other.
pub proof fn lemma_ranking_is_unique(a: Seq<FlowEntry>, b: Seq<FlowEntry>, direction: Direction)
    requires
        ranked(a, direction),
        ranked(b, direction),
        distinct_keys(a),
        a.to_multiset() == b.to_multiset(),
    ensures
        a == b,
    decreases a.len(),
{
    broadcast use vstd::multiset::group_multiset_axioms;
    broadcast use vstd::seq_lib::group_to_multiset_ensures;

    assert(a.len() == b.len()) by {
        a.to_multiset_ensures();
        b.to_multiset_ensures();
    }
    if a.len() == 0 {
        assert(a =~= b);
    } else {
        assert(a.contains(a[0]));
        assert(b.contains(b[0]));
        assert(b.to_multiset().count(a[0]) > 0);
        assert(a.to_multiset().count(b[0]) > 0);
        assert(b.contains(a[0]));
        assert(a.contains(b[0]));
        let i = choose|i: int| 0 <= i < a.len() && a[i] == b[0];
        let j = choose|j: int| 0 <= j < b.len() && b[j] == a[0];
        assert(before(a[0], a[i], direction));
        assert(before(b[0], b[j], direction));
        FlowKey::lemma_rank_injective(a[0].key, a[i].key);
        if i != 0 {
            assert(a[0].key != a[i].key);
        }
        assert(a[0] == b[0]);
        assert(a.drop_first().to_multiset() =~= a.to_multiset().remove(a[0])) by {
            assert(a.drop_first() =~= a.remove(0));
        }
        assert(b.drop_first().to_multiset() =~= b.to_multiset().remove(b[0])) by {
            assert(b.drop_first() =~= b.remove(0));
        }
        assert(ranked(a.drop_first(), direction)) by {
            assert forall|x: int, y: int| 0 <= x < y < a.drop_first().len() implies before(
                #[trigger] a.drop_first()[x],
                #[trigger] a.drop_first()[y],
                direction,
            ) by {
                assert(before(a[x + 1], a[y + 1], direction));
            }
        }
        assert(ranked(b.drop_first(), direction)) by {
            assert forall|x: int, y: int| 0 <= x < y < b.drop_first().len() implies before(
                #[trigger] b.drop_first()[x],
                #[trigger] b.drop_first()[y],
                direction,
            ) by {
                assert(before(b[x + 1], b[y + 1], direction));
            }
        }
        assert(distinct_keys(a.drop_first())) by {
            assert forall|x: int, y: int| 0 <= x < y < a.drop_first().len() implies (
            #[trigger] a.drop_first()[x]).key != (#[trigger] a.drop_first()[y]).key by {
                assert(a[x + 1].key != a[y + 1].key);
            }
        }
        lemma_ranking_is_unique(a.drop_first(), b.drop_first(), direction);
        assert(a =~= seq![a[0]] + a.drop_first());
        assert(b =~= seq![b[0]] + b.drop_first());
    }
}

/// Taking one entry out lowers the total by that entry's bytes.
proof fn lemma_total_volume_remove(entries: Seq<FlowEntry>, at: int, direction: Direction)
    requires
        0 <= at < entries.len(),
    ensures
        total_volume(entries.remove(at), direction) + volume(entries[at], direction)
            == total_volume(entries, direction),
    decreases entries.len(),
{
    if at == entries.len() - 1 {
        assert(entries.remove(at) =~= entries.drop_last());
    } else {
        assert(entries.remove(at).drop_last() =~= entries.drop_last().remove(at));
        assert(entries.remove(at).last() == entries.last());
        lemma_total_volume_remove(entries.drop_last(), at, direction);
    }
}

/// The total does not depend on the order of the entries.
pub proof fn lemma_total_volume_of_same_entries(
    a: Seq<FlowEntry>,
    b: Seq<FlowEntry>,
    direction: Direction,
)
    requires
        a.to_multiset() == b.to_multiset(),
    ensures
        total_volume(a, direction) == total_volume(b, direction),
    decreases a.len(),
{
    broadcast use vstd::multiset::group_multiset_axioms;
    broadcast use vstd::seq_lib::group_to_multiset_ensures;

    assert(a.len() == b.len()) by {
        a.to_multiset_ensures();
        b.to_multiset_ensures();
    }
    if a.len() > 0 {
        let last = a.last();
        assert(a.contains(last));
        assert(b.to_multiset().count(last) > 0);
        assert(b.contains(last));
        let at = choose|at: int| 0 <= at < b.len() && b[at] == last;
        assert(a.drop_last() =~= a.remove(a.len() - 1));
        assert(a.drop_last().to_multiset() =~= b.remove(at).to_multiset());
        lemma_total_volume_of_same_entries(a.drop_last(), b.remove(at), direction);
        lemma_total_volume_remove(b, at, direction);
    }
}

/// Bytes of all packets of a run in `direction`.
pub open spec fn bytes_sent(packets: Seq<Observation>, direction: Direction) -> int
    decreases packets.len(),
{
    if packets.len() == 0 {
        0
    } else {
        bytes_sent(packets.drop_last(), direction) + if packets.last().direction == direction {
            packets.last().size as int
        } else {
            0int
        }
    }
}

/// Replacing one entry changes the total by the difference of the two.
proof fn lemma_total_volume_update(
    entries: Seq<FlowEntry>,
    at: int,
    entry: FlowEntry,
    direction: Direction,
)
    requires
        0 <= at < entries.len(),
    ensures
        total_volume(entries.update(at, entry), direction) == total_volume(entries, direction)
            - volume(entries[at], direction) + volume(entry, direction),
        total_volume(entries, direction) >= volume(entries[at], direction),
    decreases entries.len(),
{
    let changed = entries.update(at, entry);
    lemma_total_volume_bounds(entries.drop_last(), direction);
    if at == entries.len() - 1 {
        assert(changed.drop_last() =~= entries.drop_last());
    } else {
        assert(changed.drop_last() =~= entries.drop_last().update(at, entry));
        lemma_total_volume_update(entries.drop_last(), at, entry, direction);
    }
}

/// A total is never negative.
proof fn lemma_total_volume_bounds(entries: Seq<FlowEntry>, direction: Direction)
    ensures
        total_volume(entries, direction) >= 0,
    decreases entries.len(),
{
    if entries.len() > 0 {
        lemma_total_volume_bounds(entries.drop_last(), direction);
    }
}

/// Round trip: after a run of packets that the table accepted one and all,
/// the grand total of a snapshot is the total before the run and the bytes
/// of every packet of the run in the direction of the snapshot, up to
/// `u64::MAX`.
pub proof fn lemma_total_counts_every_byte(
    entries: Seq<FlowEntry>,
    capacity: nat,
    packets: Seq<Observation>,
    direction: Direction,
)
    requires
        table_invariant(entries, capacity),
        all_accepted(entries, capacity, packets),
    ensures
        capped(total_volume(replayed(entries, capacity, packets), direction)) == capped(
            total_volume(entries, direction) + bytes_sent(packets, direction),
        ),
        bytes_sent(packets, direction) >= 0,
    decreases packets.len(),
{
    lemma_total_volume_bounds(entries, direction);
    if packets.len() > 0 {
        let earlier = packets.drop_last();
        let packet = packets.last();
        let middle = replayed(entries, capacity, earlier);
        lemma_total_counts_every_byte(entries, capacity, earlier, direction);
        lemma_replayed_keeps_invariant(entries, capacity, earlier);
        lemma_total_volume_bounds(middle, direction);
        let after = recorded(middle, capacity, packet.key, packet.direction, packet.size);
        if holds(middle, packet.key) {
            let at = index_of(middle, packet.key);
            lemma_total_volume_update(middle, at, after[at], direction);
        } else {
            assert(after.drop_last() =~= middle);
        }
    }
}

} // verus!

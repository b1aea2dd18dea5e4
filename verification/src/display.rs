//! What a display shows of a snapshot: one row per flow, and the totals.

use vstd::prelude::*;
use crate::classify::FlowKey;
use crate::process::{process_name, trimmed, unnamed};
use crate::report::{total_of, total_volume, Snapshot};
use crate::stats::{capped, Direction};
use crate::table::FlowEntry;

verus! {

/// One row of the display. The fields stand in the order of the columns.
#[derive(Debug, PartialEq, Eq)]
pub struct Row {
    /// The process that owns the flow, 0 where none was found.
    pub pid: u32,
    /// The name of that process.
    pub process: String,
    pub key: FlowKey,
    pub ingress_packets: u64,
    pub ingress_bytes: u64,
    pub egress_packets: u64,
    pub egress_bytes: u64,
}

/// Number of columns of the display.
pub const COLUMNS: usize = 7;

/// What was found out about the owner of a flow.
#[derive(Clone, Debug, PartialEq, Eq)]
pub struct Owner {
    /// The process that owns the flow, if one was found.
    pub pid: Option<u32>,
    /// What the system has on record as the name of that process, if it
    /// could be read.
    pub record: Option<String>,
}

/// Whether a row shows this flow with this owner and this name.
pub open spec fn shows(row: Row, entry: FlowEntry, pid: Option<u32>, name: Seq<char>) -> bool {
    &&& row.pid == match pid {
        Some(id) => id,
        None => 0,
    }
    &&& row.process@ == name
    &&& row.key == entry.key
    &&& row.ingress_packets == entry.stats.ingress.packets
    &&& row.ingress_bytes == entry.stats.ingress.bytes
    &&& row.egress_packets == entry.stats.egress.packets
    &&& row.egress_bytes == entry.stats.egress.bytes
}

/// The name to show for an owner: for a process that was found, its record
/// without the white space at its ends, and `<unnamed>` where there is no
/// process or no record.
pub open spec fn name_of(owner: Owner) -> Seq<char> {
    match (owner.pid, owner.record) {
        (Some(_), Some(text)) => trimmed(text@),
        _ => "<unnamed>"@,
    }
}

/// The owner of the flow at place `i`: the one at that place of `owners`,
/// and nobody where `owners` is too short.
pub open spec fn owner_at(owners: Seq<Owner>, i: int) -> Owner {
    if 0 <= i < owners.len() {
        owners[i]
    } else {
        Owner { pid: None, record: None }
    }
}

/// The row for one flow, given the process that was found for it and the
/// name to show for that process.
pub fn row(entry: &FlowEntry, pid: Option<u32>, process: String) -> (row: Row)
    ensures
        shows(row, *entry, pid, process@),
{
    Row {
        pid: match pid {
            Some(id) => id,
            None => 0,
        },
        process,
        key: entry.key,
        ingress_packets: entry.stats.ingress.packets,
        ingress_bytes: entry.stats.ingress.bytes,
        egress_packets: entry.stats.egress.packets,
        egress_bytes: entry.stats.egress.bytes,
    }
}

/// The rows of a snapshot, in the order of the snapshot: the row at each
/// place shows the flow at that place, with the owner at that place of
/// `owners`.
pub fn rows(snapshot: &Snapshot, owners: &Vec<Owner>) -> (rows: Vec<Row>)
    ensures
        rows@.len() == snapshot@.entries.len(),
        forall|i: int|
            0 <= i < rows@.len() ==> shows(
                #[trigger] rows@[i],
                snapshot@.entries[i],
                owner_at(owners@, i).pid,
                name_of(owner_at(owners@, i)),
            ),
{
    let entries = snapshot.entries();
    let mut rows: Vec<Row> = Vec::new();
    let mut i: usize = 0;
    while i < entries.len()
        invariant
            i <= entries@.len(),
            entries@ == snapshot@.entries,
            rows@.len() == i,
            forall|k: int|
                0 <= k < i ==> shows(
                    #[trigger] rows@[k],
                    snapshot@.entries[k],
                    owner_at(owners@, k).pid,
                    name_of(owner_at(owners@, k)),
                ),
        decreases entries.len() - i,
    {
        let pid = if i < owners.len() {
            owners[i].pid
        } else {
            None
        };
        let name = match pid {
            Some(_) => match &owners[i].record {
                Some(text) => process_name(Some(text.as_str())),
                None => process_name(None),
            },
            None => unnamed(),
        };
        let next = row(&entries[i], pid, name);
        rows.push(next);
        i += 1;
    }
    rows
}

/// The bytes that all flows of a snapshot received, and the bytes that they
/// sent, each up to `u64::MAX`.
pub fn totals(snapshot: &Snapshot) -> (sums: (u64, u64))
    ensures
        sums.0 == capped(total_volume(snapshot@.entries, Direction::Ingress)),
        sums.1 == capped(total_volume(snapshot@.entries, Direction::Egress)),
{
    let entries = snapshot.entries();
    (total_of(entries, Direction::Ingress), total_of(entries, Direction::Egress))
}

} // verus!

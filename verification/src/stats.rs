//! Traffic counters: packets and bytes, per direction.

use vstd::prelude::*;

verus! {

/// The side of the interface on which a packet was seen.
#[derive(Clone, Copy, Debug, PartialEq, Eq, Structural)]
pub enum Direction {
    /// Received by the interface.
    Ingress,
    /// Sent from the interface.
    Egress,
}

impl Default for Direction {
    /// The direction that is looked at where none is asked for: ingress.
    fn default() -> (direction: Direction)
        ensures
            direction == Direction::Ingress,
    {
        Direction::Ingress
    }
}

/// Packet and byte counters of one flow in one direction.
///
/// Counters only ever grow. A counter that reaches `u64::MAX` stays there.
#[derive(Clone, Copy, Debug, PartialEq, Eq, Structural)]
pub struct Traffic {
    pub packets: u64,
    pub bytes: u64,
}

/// Counters of one flow, for both directions.
#[derive(Clone, Copy, Debug, PartialEq, Eq, Structural)]
pub struct NetStats {
    pub ingress: Traffic,
    pub egress: Traffic,
}

/// The value a 64-bit counter shows for a true count of `n`.
pub open spec fn capped(n: int) -> u64 {
    if n >= u64::MAX {
        u64::MAX
    } else if n <= 0 {
        0
    } else {
        n as u64
    }
}

impl Traffic {
    /// Counters before any packet was seen.
    pub open spec fn zero() -> Traffic {
        Traffic { packets: 0, bytes: 0 }
    }

    /// The counters after one more packet of `size` bytes.
    pub open spec fn counted(self, size: u64) -> Traffic {
        Traffic { packets: capped(self.packets + 1), bytes: capped(self.bytes + size) }
    }

    /// `self` shows at least what `earlier` shows, in both counters.
    pub open spec fn at_least(self, earlier: Traffic) -> bool {
        earlier.packets <= self.packets && earlier.bytes <= self.bytes
    }

    pub fn new() -> (t: Traffic)
        ensures
            t == Traffic::zero(),
    {
        Traffic { packets: 0, bytes: 0 }
    }

    /// Counts one packet of `size` bytes.
    pub fn count(&mut self, size: u64)
        ensures
            *final(self) == old(self).counted(size),
    {
        self.packets = self.packets.saturating_add(1);
        self.bytes = self.bytes.saturating_add(size);
    }
}

impl Default for Traffic {
    fn default() -> (t: Traffic)
        ensures
            t == Traffic::zero(),
    {
        Traffic::new()
    }
}

impl NetStats {
    /// Counters before any packet was seen.
    pub open spec fn zero() -> NetStats {
        NetStats { ingress: Traffic::zero(), egress: Traffic::zero() }
    }

    /// The counters of one direction.
    pub open spec fn side(self, direction: Direction) -> Traffic {
        match direction {
            Direction::Ingress => self.ingress,
            Direction::Egress => self.egress,
        }
    }

    /// The counters after one more packet of `size` bytes in `direction`.
    /// The other direction is untouched.
    pub open spec fn recorded(self, direction: Direction, size: u64) -> NetStats {
        match direction {
            Direction::Ingress => NetStats { ingress: self.ingress.counted(size), egress: self.egress },
            Direction::Egress => NetStats { ingress: self.ingress, egress: self.egress.counted(size) },
        }
    }

    /// `self` shows at least what `earlier` shows, in all four counters.
    pub open spec fn at_least(self, earlier: NetStats) -> bool {
        self.ingress.at_least(earlier.ingress) && self.egress.at_least(earlier.egress)
    }

    pub fn new() -> (s: NetStats)
        ensures
            s == NetStats::zero(),
    {
        NetStats { ingress: Traffic::new(), egress: Traffic::new() }
    }

    /// The counters of one direction.
    pub fn traffic(&self, direction: Direction) -> (t: Traffic)
        ensures
            t == self.side(direction),
    {
        match direction {
            Direction::Ingress => self.ingress,
            Direction::Egress => self.egress,
        }
    }

    /// Counts one packet of `size` bytes seen in `direction`.
    pub fn record(&mut self, direction: Direction, size: u64)
        ensures
            *final(self) == old(self).recorded(direction, size),
    {
        match direction {
            Direction::Ingress => self.ingress.count(size),
            Direction::Egress => self.egress.count(size),
        }
    }
}

impl Default for NetStats {
    fn default() -> (s: NetStats)
        ensures
            s == NetStats::zero(),
    {
        NetStats::new()
    }
}

} // verus!

//! Per-flow network traffic accounting.
//!
//! Packets are handed to the library as raw byte buffers. Each one is parsed
//! layer by layer with bounds checks, reduced to a flow key under a
//! classification policy, and counted in a fixed-capacity table by direction.
//! A reporter turns the table into a ranking of the busiest flows.
//!
//! - [`packet`]: a bounds-checked view of a buffer.
//! - [`headers`]: Ethernet, IPv4, TCP and UDP headers and their parse.
//! - [`classify`]: flow keys and classification policies.
//! - [`stats`] and [`table`]: the counters and the table that holds them.
//! - [`monitor`]: the packet path from buffer to table.
//! - [`report`]: snapshots of the table, ranked.
//! - [`process`] and [`display`]: what a display adds to a snapshot.

pub mod classify;
pub mod display;
pub mod headers;
pub mod monitor;
pub mod packet;
pub mod process;
pub mod report;
pub mod stats;
pub mod table;
mod verdict;
mod wire;

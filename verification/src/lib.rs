//! The network sensor: which sockets a network interface and a process use, and how much traffic
//! goes through them.
//!
//! Captured bytes become link-layer packets (`frame`), IP packets (`ip`) and transport packets
//! (`transport`). The kernel's socket tables are read as text (`text`, `number`, `hex`, `table`) and
//! give the sockets (`socket`) of an interface (`interface`); a process (`process`) owns sockets and
//! adds up their traffic.
#![allow(unused_imports)]

pub mod address;
pub mod frame;
pub mod hex;
pub mod interface;
pub mod ip;
pub mod number;
pub mod process;
pub mod socket;
pub mod table;
pub mod text;
pub mod transport;

//! Core of a small multi-criticality real-time kernel: a process table, a
//! three-tier priority scheduler (device, periodic cyclic executive, sporadic
//! round-robin), counting semaphores with busy/cooperative waiting, byte FIFO
//! channels, and the small collections those are built on.
//!
//! Hardware concerns (context switching, page mapping, interrupt vectors) stay
//! outside this crate; every entry point exchanges plain values with its
//! caller: pids, names, stack bounds, and opaque resume handles.

pub mod interrupts;
pub mod ipc;
pub mod kernel;
pub mod memory;
pub mod processes;
pub mod sync;
pub mod special_collections;
pub mod static_collections;

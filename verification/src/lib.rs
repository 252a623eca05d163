//! Verified core of a periodic system-status sampler.
//!
//! The library holds the parsing, derivation and formatting logic of a
//! status-bar emitter: CPU utilization from aggregate counter samples,
//! temperature, free disk space, network link state, battery percentage,
//! a wall-clock rendering, and the streaming-protocol framing. All I/O
//! (reading the virtual files, the syscalls, the emission loop) lives in
//! the surrounding application, which hands this library plain values.

pub mod cpu;
pub mod disk;
pub mod emit;
pub mod hwmon;
pub mod segments;
pub mod num;
pub mod text;
pub mod sched;

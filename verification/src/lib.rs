//! A cooperative task runtime core.
//!
//! Tasks are suspendable computations identified by an [`id::Id`]. The
//! executor places them on runners, runners poll them when woken, and
//! suspendable primitives (timers, offloaded file operations) arrange the
//! wake-ups. Every scheduling decision in this crate is a terminating
//! function with a contract; threads, clocks and system calls are supplied by
//! the program that embeds it.

pub mod id;
pub mod minimum;
pub mod executor;
pub mod adapters;
pub mod timer_future;

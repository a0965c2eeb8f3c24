//! The bookkeeping of a bounds-check-bypass experiment on a cache covert channel.
//!
//! Everything here is ordinary, deterministic arithmetic on plain values: which address to
//! evict, which index to hand the gadget, in which order to time the channel lines, how
//! the timings add up and which byte they point to. The instructions that read the cycle
//! counter, evict a line or fence the pipeline are issued by the caller, who is told what
//! to do next by the two step functions in [`reader`] and [`extraction`].

pub mod tuning;
pub mod timer;
pub mod sink;
pub mod channel;
pub mod gadget;
pub mod histogram;
pub mod probe;
pub mod schedule;
pub mod reader;
pub mod extraction;
pub mod length;

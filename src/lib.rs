//! A small userspace network stack core: a table of virtual devices, a
//! table of Layer-3 protocols with reception queues, an interrupt table
//! that maps signals to device handlers, and IPv4 input on top.
//!
//! The stack's tables live in one `net::NetStack` value. Raising an IRQ
//! records the signal in the interrupt tables; the platform layer delivers
//! recorded signals to an interrupt thread, which asks
//! `platform::linux::intr::intr_dispatch` what to run.

pub mod driver;
pub mod error;
pub mod ip;
pub mod net;
pub mod platform;
pub mod utils;

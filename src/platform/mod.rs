pub mod linux;

use crate::net::NetDeviceHandler;
use vstd::prelude::*;

verus! {

/// The IRQ line may be shared with other devices that also ask for sharing.
pub const IRQ_FLAG_SHARED: u32 = 0x01;

/// Flags given when an IRQ handler is requested.
#[derive(Clone, Copy, Debug)]
pub struct IRQFlags {
    pub bits: u32,
}

impl IRQFlags {
    pub open spec fn is_shared(self) -> bool {
        self.bits & IRQ_FLAG_SHARED == IRQ_FLAG_SHARED
    }

    pub fn empty() -> (r: IRQFlags)
        ensures
            r.bits == 0,
    {
        IRQFlags { bits: 0 }
    }

    pub fn shared() -> (r: IRQFlags)
        ensures
            r.bits == IRQ_FLAG_SHARED,
            r.is_shared(),
    {
        assert(1u32 & 1u32 == 1u32) by (bit_vector);
        IRQFlags { bits: IRQ_FLAG_SHARED }
    }

    pub fn contains_shared(&self) -> (r: bool)
        ensures
            r == self.is_shared(),
    {
        self.bits & IRQ_FLAG_SHARED == IRQ_FLAG_SHARED
    }
}

/// The interrupt service routine of each driver.
#[derive(Clone, Copy, Debug, PartialEq, Eq, Structural)]
pub enum IrqHandler {
    Dummy,
    Loopback,
}

/// One registered IRQ handler: on signal `irq`, `handler` runs for `dev`.
#[derive(Debug)]
pub struct IRQEntry {
    pub irq: i32,
    pub flags: IRQFlags,
    pub debug_name: String,
    pub dev: NetDeviceHandler,
    pub handler: IrqHandler,
}

} // verus!

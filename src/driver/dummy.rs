use crate::driver::{device_name, device_name_of, INTR_IRQ_BASE};
use crate::error::{is_intr_err, UtcpResult};
use crate::net::{
    flags_with_up, net_device_register, new_device_index, NetDevice, NetDeviceFlags,
    NetDeviceHandler, NetDeviceOps, NetStack, NET_DEVICE_FLAG_UP,
};
use crate::platform::linux::intr::{
    intr_raise_irq, intr_request_irq, irq_conflict, raised_one, IntrState, IRQ_CONFLICT_MSG,
};
use crate::platform::{IRQFlags, IrqHandler, IRQ_FLAG_SHARED};
use vstd::prelude::*;

verus! {

/// The IRQ of dummy devices, shared among them.
pub const DUMMY_IRQ: i32 = INTR_IRQ_BASE;

/// A device that accepts every frame, drops it and raises its IRQ; its
/// interrupt handler does nothing.
#[derive(Debug)]
pub struct DummyNetDevice {
    pub name: String,
    pub flags: NetDeviceFlags,
}

impl DummyNetDevice {
    pub const MTU: u16 = 0xffff;
    pub const HEADER_LEN: usize = 0;
    pub const ADDR_LEN: usize = 0;

    /// Creates a dummy device named after the next device number, registers
    /// it, and requests its shared IRQ. The device stays registered when the
    /// IRQ request fails.
    pub fn init(stack: &mut NetStack) -> (r: UtcpResult<NetDeviceHandler>)
        requires
            old(stack).wf(),
        ensures
            final(stack).wf(),
            final(stack).devices@.len() == old(stack).devices@.len() + 1,
            forall|i: int|
                0 <= i < old(stack).devices@.len() ==> final(stack).devices@[i]
                    == old(stack).devices@[i],
            final(stack).devices@.last() matches NetDevice::Dummy(d) && d.name@ == device_name_of(
                old(stack).next_device_index as nat,
            ) && d.flags.bits == 0,
            final(stack).next_device_index == old(stack).next_device_index.wrapping_add(1),
            final(stack).protocols == old(stack).protocols,
            final(stack).ip_ifaces == old(stack).ip_ifaces,
            irq_conflict(old(stack).intr.irqs@, DUMMY_IRQ, true) ==> is_intr_err(
                r,
                IRQ_CONFLICT_MSG@,
            ) && final(stack).intr == old(stack).intr,
            !irq_conflict(old(stack).intr.irqs@, DUMMY_IRQ, true) ==> {
                &&& r == Ok::<NetDeviceHandler, crate::error::UtcpErr>(
                    NetDeviceHandler { private: old(stack).devices@.len() as usize },
                )
                &&& final(stack).intr.irqs@.len() == old(stack).intr.irqs@.len() + 1
                &&& final(stack).intr.irqs@.drop_last() == old(stack).intr.irqs@
                &&& final(stack).intr.irqs@.last().irq == DUMMY_IRQ
                &&& final(stack).intr.irqs@.last().flags.bits == IRQ_FLAG_SHARED
                &&& final(stack).intr.irqs@.last().dev == NetDeviceHandler {
                    private: old(stack).devices@.len() as usize,
                }
                &&& final(stack).intr.irqs@.last().handler == IrqHandler::Dummy
                &&& final(stack).intr.irqs@.last().debug_name@ == device_name_of(
                    old(stack).next_device_index as nat,
                )
                &&& final(stack).intr.sigmask@.to_set() == old(stack).intr.sigmask@.to_set().insert(
                    DUMMY_IRQ,
                )
                &&& final(stack).intr.raised == old(stack).intr.raised
                &&& final(stack).intr.running == old(stack).intr.running
            },
    {
        let index = new_device_index(stack);
        let name = device_name(index);
        let dev = DummyNetDevice { name: name.clone(), flags: NetDeviceFlags::empty() };
        let handler = match net_device_register(stack, NetDevice::Dummy(dev)) {
            Ok(h) => h,
            Err(e) => {
                return Err(e);
            },
        };
        let flags = IRQFlags::shared();
        let r = intr_request_irq(&mut stack.intr, DUMMY_IRQ, IrqHandler::Dummy, flags, name, handler);
        match r {
            Ok(()) => {
                assert(stack.intr.irqs@.drop_last() =~= old(stack).intr.irqs@);
                Ok(handler)
            },
            Err(e) => Err(e),
        }
    }
}

impl NetDeviceOps for DummyNetDevice {
    open spec fn spec_name(&self) -> Seq<char> {
        self.name@
    }

    open spec fn spec_up(&self) -> bool {
        self.flags.has(NET_DEVICE_FLAG_UP)
    }

    open spec fn with_up(&self, up: bool) -> Self {
        DummyNetDevice { name: self.name, flags: flags_with_up(self.flags, up) }
    }

    open spec fn ready(&self) -> bool {
        true
    }

    open spec fn accepted(&self, next: Self, ty: u16, data: Seq<u8>) -> bool {
        next == *self
    }

    open spec fn spec_irq(&self) -> i32 {
        DUMMY_IRQ
    }

    fn name(&self) -> (r: &str) {
        self.name.as_str()
    }

    fn is_up(&self) -> (r: bool) {
        self.flags.contains(NET_DEVICE_FLAG_UP)
    }

    fn open(&mut self) -> (r: UtcpResult<()>) {
        self.flags.insert(NET_DEVICE_FLAG_UP);
        Ok(())
    }

    fn close(&mut self) -> (r: UtcpResult<()>) {
        self.flags.remove(NET_DEVICE_FLAG_UP);
        Ok(())
    }

    /// The frame goes nowhere; only the IRQ is raised.
    fn transmit(&mut self, intr: &mut IntrState, ty: u16, data: &[u8], dst: &mut [u8]) -> (r:
        UtcpResult<()>) {
        intr_raise_irq(intr, DUMMY_IRQ)
    }
}

/// The dummy device's interrupt handler: there is nothing to receive.
pub fn dummy_isr(irq: i32, dev: NetDeviceHandler) {
}

} // verus!

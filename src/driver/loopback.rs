use crate::driver::{device_name, device_name_of, INTR_IRQ_BASE};
use crate::error::{is_intr_err, UtcpResult};
use crate::net::{
    flags_with_up, iface_handle_valid, input_many, input_raises,
    lemma_input_many_types, lemma_protocol_index_types, net_device_register, net_input_handler,
    new_device_index, protos_view, NetDevice, NetDeviceFlags, NetDeviceHandler, NetDeviceOps,
    NetInterface, NetInterfaceHandler, NetStack, NET_DEVICE_FLAG_UP,
};
use crate::platform::linux::intr::{
    intr_raise_irq, intr_request_irq, irq_conflict, raised_one, IntrState, IRQ_CONFLICT_MSG,
};
use crate::platform::{IRQFlags, IrqHandler, IRQ_FLAG_SHARED};
use crate::utils::{pushed, SmallQueue};
use vstd::prelude::*;
use vstd::slice::slice_to_vec;

verus! {

/// Frames a loopback device holds before the oldest is dropped.
pub const LOOPBACK_QUEUE_LIMIT: usize = 16;

/// The IRQ of loopback devices, shared among them.
pub const LOOPBACK_IRQ: i32 = INTR_IRQ_BASE + 1;

/// A device that queues every frame it transmits and, from its interrupt
/// handler, feeds them back into the stack as received frames.
#[derive(Debug)]
pub struct LoopbackNetDevice {
    pub name: String,
    pub flags: NetDeviceFlags,
    pub queue: SmallQueue<(u16, Vec<u8>), LOOPBACK_QUEUE_LIMIT>,
    pub ifaces: Vec<NetInterface>,
}

/// Queued frames as type and bytes.
pub open spec fn frames(q: Seq<(u16, Vec<u8>)>) -> Seq<(u16, Seq<u8>)> {
    q.map_values(|f: (u16, Vec<u8>)| (f.0, f.1@))
}

proof fn lemma_frames_pushed(q: Seq<(u16, Vec<u8>)>, x: (u16, Vec<u8>), n: nat)
    requires
        0 < n,
    ensures
        frames(pushed(q, x, n)) == pushed(frames(q), (x.0, x.1@), n),
{
    if q.len() < n {
        assert(frames(q.push(x)) =~= frames(q).push((x.0, x.1@)));
    } else {
        assert(frames(q.drop_first().push(x)) =~= frames(q).drop_first().push((x.0, x.1@)));
    }
}

impl LoopbackNetDevice {
    pub const MTU: u16 = 0xffff;
    pub const HEADER_LEN: usize = 0;
    pub const ADDR_LEN: usize = 0;

    /// Creates a loopback device named after the next device number,
    /// registers it, and requests its shared IRQ. The device stays
    /// registered when the IRQ request fails.
    pub fn init(stack: &mut NetStack) -> (r: UtcpResult<NetDeviceHandler>)
        requires
            old(stack).wf(),
        ensures
            final(stack).wf(),
            final(stack).devices@.len() == old(stack).devices@.len() + 1,
            forall|i: int|
                0 <= i < old(stack).devices@.len() ==> final(stack).devices@[i]
                    == old(stack).devices@[i],
            final(stack).devices@.last() matches NetDevice::Loopback(d) && d.name@
                == device_name_of(old(stack).next_device_index as nat) && d.flags.bits == 0
                && d.queue@.len() == 0 && d.ifaces@.len() == 0,
            final(stack).next_device_index == old(stack).next_device_index.wrapping_add(1),
            final(stack).protocols == old(stack).protocols,
            final(stack).ip_ifaces == old(stack).ip_ifaces,
            irq_conflict(old(stack).intr.irqs@, LOOPBACK_IRQ, true) ==> is_intr_err(
                r,
                IRQ_CONFLICT_MSG@,
            ) && final(stack).intr == old(stack).intr,
            !irq_conflict(old(stack).intr.irqs@, LOOPBACK_IRQ, true) ==> {
                &&& r == Ok::<NetDeviceHandler, crate::error::UtcpErr>(
                    NetDeviceHandler { private: old(stack).devices@.len() as usize },
                )
                &&& final(stack).intr.irqs@.len() == old(stack).intr.irqs@.len() + 1
                &&& final(stack).intr.irqs@.drop_last() == old(stack).intr.irqs@
                &&& final(stack).intr.irqs@.last().irq == LOOPBACK_IRQ
                &&& final(stack).intr.irqs@.last().flags.bits == IRQ_FLAG_SHARED
                &&& final(stack).intr.irqs@.last().dev == NetDeviceHandler {
                    private: old(stack).devices@.len() as usize,
                }
                &&& final(stack).intr.irqs@.last().handler == IrqHandler::Loopback
                &&& final(stack).intr.irqs@.last().debug_name@ == device_name_of(
                    old(stack).next_device_index as nat,
                )
                &&& final(stack).intr.sigmask@.to_set() == old(stack).intr.sigmask@.to_set().insert(
                    LOOPBACK_IRQ,
                )
                &&& final(stack).intr.raised == old(stack).intr.raised
                &&& final(stack).intr.running == old(stack).intr.running
            },
    {
        let index = new_device_index(stack);
        let name = device_name(index);
        let dev = LoopbackNetDevice {
            name: name.clone(),
            flags: NetDeviceFlags::empty(),
            queue: SmallQueue::new(),
            ifaces: Vec::new(),
        };
        let handler = match net_device_register(stack, NetDevice::Loopback(dev)) {
            Ok(h) => h,
            Err(e) => {
                return Err(e);
            },
        };
        let flags = IRQFlags::shared();
        let r = intr_request_irq(
            &mut stack.intr,
            LOOPBACK_IRQ,
            IrqHandler::Loopback,
            flags,
            name,
            handler,
        );
        match r {
            Ok(()) => {
                assert(stack.intr.irqs@.drop_last() =~= old(stack).intr.irqs@);
                Ok(handler)
            },
            Err(e) => Err(e),
        }
    }

    /// Appends `iface` to the device's interfaces and returns the handle of
    /// the new slot.
    pub fn add_interface(&mut self, self_handler: NetDeviceHandler, iface: NetInterface) -> (r:
        NetInterfaceHandler)
        ensures
            r == (NetInterfaceHandler {
                dev: self_handler,
                iface_index: old(self).ifaces@.len() as usize,
                family: iface.spec_family(),
            }),
            final(self).ifaces@ == old(self).ifaces@.push(iface),
            final(self).name == old(self).name,
            final(self).flags == old(self).flags,
            final(self).queue == old(self).queue,
    {
        let handler = NetInterfaceHandler {
            dev: self_handler,
            iface_index: self.ifaces.len(),
            family: iface.family(),
        };
        self.ifaces.push(iface);
        handler
    }

    pub fn get_interfaces(&self) -> (r: &[NetInterface])
        ensures
            r@ == self.ifaces@,
    {
        self.ifaces.as_slice()
    }
}

impl NetDeviceOps for LoopbackNetDevice {
    open spec fn spec_name(&self) -> Seq<char> {
        self.name@
    }

    open spec fn spec_up(&self) -> bool {
        self.flags.has(NET_DEVICE_FLAG_UP)
    }

    open spec fn with_up(&self, up: bool) -> Self {
        LoopbackNetDevice {
            name: self.name,
            flags: flags_with_up(self.flags, up),
            queue: self.queue,
            ifaces: self.ifaces,
        }
    }

    open spec fn ready(&self) -> bool {
        self.queue.wf()
    }

    open spec fn accepted(&self, next: Self, ty: u16, data: Seq<u8>) -> bool {
        &&& next.name == self.name
        &&& next.flags == self.flags
        &&& next.ifaces == self.ifaces
        &&& frames(next.queue@) == pushed(
            frames(self.queue@),
            (ty, data),
            LOOPBACK_QUEUE_LIMIT as nat,
        )
    }

    open spec fn spec_irq(&self) -> i32 {
        LOOPBACK_IRQ
    }

    fn name(&self) -> (r: &str) {
        self.name.as_str()
    }

    fn is_up(&self) -> (r: bool) {
        self.flags.contains(NET_DEVICE_FLAG_UP)
    }

    fn open(&mut self) -> (r: UtcpResult<()>) {
        self.flags.insert(NET_DEVICE_FLAG_UP);
        Ok(())
    }

    fn close(&mut self) -> (r: UtcpResult<()>) {
        self.flags.remove(NET_DEVICE_FLAG_UP);
        Ok(())
    }

    /// Queues a copy of the frame, dropping the oldest frame when the queue
    /// is full, and raises the IRQ.
    fn transmit(&mut self, intr: &mut IntrState, ty: u16, data: &[u8], dst: &mut [u8]) -> (r:
        UtcpResult<()>) {
        let copy = slice_to_vec(data);
        proof {
            lemma_frames_pushed(self.queue@, (ty, copy), LOOPBACK_QUEUE_LIMIT as nat);
        }
        let _ = self.queue.push((ty, copy));
        intr_raise_irq(intr, LOOPBACK_IRQ)
    }
}

/// The frames queued at a loopback device, oldest first.
pub open spec fn loopback_frames(d: NetDevice) -> Seq<(u16, Seq<u8>)> {
    match d {
        NetDevice::Loopback(l) => frames(l.queue@),
        _ => Seq::empty(),
    }
}

/// `b` is loopback device `a` with `m` fewer frames at the head of its
/// queue, and nothing else changed.
pub open spec fn loopback_popped(a: NetDevice, b: NetDevice, m: int) -> bool {
    a matches NetDevice::Loopback(la) && b matches NetDevice::Loopback(lb) && lb.name == la.name
        && lb.flags == la.flags && lb.ifaces == la.ifaces && lb.queue.wf() && 0 <= m <= frames(la.queue@).len()
        && frames(lb.queue@) == frames(la.queue@).skip(m)
}

/// What the loopback interrupt handler does for device `h`: a loopback
/// device's queued frames are taken in, oldest first, and its queue is
/// left empty; for any other handle nothing changes.
pub open spec fn loopback_isr_post(a: NetStack, b: NetStack, h: NetDeviceHandler) -> bool {
    if h.private < a.devices@.len() && a.resolve(h) is Loopback {
        let fr = loopback_frames(a.resolve(h));
        let pv = protos_view(a.protocols@);
        &&& b.devices@.len() == a.devices@.len()
        &&& forall|j: int| 0 <= j < a.devices@.len() && j != h.private ==> b.devices@[j] == a.devices@[j]
        &&& loopback_popped(a.resolve(h), b.resolve(h), fr.len() as int)
        &&& protos_view(b.protocols@) == input_many(pv, h, fr)
        &&& b.intr.raised@ == a.intr.raised@ + input_raises(pv, fr)
        &&& b.intr.irqs == a.intr.irqs
        &&& b.intr.sigmask == a.intr.sigmask
        &&& b.intr.running == a.intr.running
        &&& b.ip_ifaces == a.ip_ifaces
        &&& b.next_device_index == a.next_device_index
    } else {
        b == a
    }
}

/// Removes the oldest frame queued at loopback device `i`.
fn pop_loopback_frame(devices: &mut Vec<NetDevice>, i: usize) -> (r: Option<(u16, Vec<u8>)>)
    requires
        i < old(devices)@.len(),
        old(devices)@[i as int].wf(),
        old(devices)@[i as int] is Loopback,
    ensures
        final(devices)@.len() == old(devices)@.len(),
        forall|j: int| 0 <= j < old(devices)@.len() && j != i ==> final(devices)@[j] == old(devices)@[j],
        loopback_frames(old(devices)@[i as int]).len() == 0 ==> r is None && final(devices)@[i as int]
            == old(devices)@[i as int],
        loopback_frames(old(devices)@[i as int]).len() > 0 ==> (r matches Some(f) && (f.0, f.1@)
            == loopback_frames(old(devices)@[i as int])[0] && loopback_popped(
            old(devices)@[i as int],
            final(devices)@[i as int],
            1,
        )),
{
    let d = &mut devices[i];
    match d {
        NetDevice::Loopback(lb) => {
            if lb.queue.len() == 0 {
                return None;
            }
            let ghost q = lb.queue@;
            let r = lb.queue.pop_front();
            proof {
                if q.len() > 0 {
                    assert(frames(lb.queue@) =~= frames(q).skip(1));
                }
            }
            r
        },
        _ => None,
    }
}

/// The loopback device's interrupt handler: feeds every queued frame, oldest
/// first, to the stack's input handler with the device's handle.
pub fn loopback_isr(stack: &mut NetStack, irq: i32, handler: NetDeviceHandler)
    requires
        old(stack).wf(),
    ensures
        final(stack).wf(),
        loopback_isr_post(*old(stack), *final(stack), handler),
{
    let i = handler.private;
    if i >= stack.devices.len() {
        return;
    }
    match &stack.devices[i] {
        NetDevice::Loopback(_) => {},
        _ => {
            return;
        },
    }
    let ghost d0 = stack.devices@[i as int];
    let ghost fr = loopback_frames(d0);
    let ghost pv = protos_view(stack.protocols@);
    let ghost raised0 = stack.intr.raised@;
    let mut more = true;
    let mut m: usize = 0;
    proof {
        assert(d0.wf());
        assert(fr.len() <= LOOPBACK_QUEUE_LIMIT);
        assert(fr.take(0) =~= Seq::<(u16, Seq<u8>)>::empty());
        assert(frames(d0->Loopback_0.queue@).skip(0) =~= frames(d0->Loopback_0.queue@));
    }
    while more
        invariant
            stack.wf(),
            i == handler.private,
            i < stack.devices@.len(),
            stack.devices@.len() == old(stack).devices@.len(),
            d0 == old(stack).devices@[i as int],
            d0 is Loopback,
            fr == loopback_frames(d0),
            pv == protos_view(old(stack).protocols@),
            raised0 == old(stack).intr.raised@,
            forall|j: int| 0 <= j < stack.devices@.len() && j != i ==> stack.devices@[j] == old(stack).devices@[j],
            m <= fr.len(),
            fr.len() <= LOOPBACK_QUEUE_LIMIT,
            loopback_popped(d0, stack.devices@[i as int], m as int),
            !more ==> m == fr.len(),
            protos_view(stack.protocols@) == input_many(pv, handler, fr.take(m as int)),
            stack.intr.raised@ == raised0 + input_raises(pv, fr.take(m as int)),
            stack.intr.irqs == old(stack).intr.irqs,
            stack.intr.sigmask == old(stack).intr.sigmask,
            stack.intr.running == old(stack).intr.running,
            stack.ip_ifaces == old(stack).ip_ifaces,
            stack.next_device_index == old(stack).next_device_index,
        decreases fr.len() - m + if more {
            1int
        } else {
            0int
        },
    {
        let ghost before = *stack;
        match pop_loopback_frame(&mut stack.devices, i) {
            None => {
                more = false;
            },
            Some(f) => {
                proof {
                    assert(m < fr.len());
                    assert(fr[m as int] == (f.0, f.1@));
                    assert forall|k: int| 0 <= k < stack.ip_ifaces@.len() implies iface_handle_valid(
                        stack.devices@,
                        #[trigger] stack.ip_ifaces@[k],
                    ) by {
                        assert(iface_handle_valid(before.devices@, before.ip_ifaces@[k]));
                    }
                    assert forall|j: int| 0 <= j < stack.devices@.len() implies (#[trigger] stack.devices@[j]).wf() by {
                        assert(before.devices@[j].wf());
                    }
                    lemma_input_many_types(pv, handler, fr.take(m as int));
                    lemma_protocol_index_types(protos_view(stack.protocols@), pv, f.0);
                }
                let _ = net_input_handler(stack, &handler, f.0, f.1.as_slice());
                m = m + 1;
                proof {
                    assert(fr.take(m as int).drop_last() =~= fr.take(m - 1));
                    assert(fr.take(m as int).last() == (f.0, f.1@));
                    assert(frames(stack.devices@[i as int]->Loopback_0.queue@) =~= fr.skip(m as int));
                }
            },
        }
    }
    proof {
        assert(fr.take(m as int) =~= fr);
    }
}

} // verus!

use crate::driver::dummy::{DummyNetDevice, DUMMY_IRQ};
use crate::driver::loopback::{frames, LoopbackNetDevice, LOOPBACK_IRQ, LOOPBACK_QUEUE_LIMIT};
use crate::driver::INTR_IRQ_SOFTIRQ;
use crate::error::{is_net_err, net_err, UtcpErr, UtcpResult};
use crate::ip::{ip_input, ip_verdict, IpInputResult, IpInterface};
use crate::platform::linux::intr::{self, raised_one, IntrState};
use crate::utils::pushed;
use std::collections::VecDeque;
use vstd::slice::slice_to_vec;
use vstd::prelude::*;

verus! {

pub const NET_PROTOCOL_TYPE_IP: u16 = 0x0800;
pub const NET_PROTOCOL_TYPE_ARP: u16 = 0x0806;
pub const NET_PROTOCOL_TYPE_IPV6: u16 = 0x86dd;

pub const NET_DEVICE_FLAG_UP: u16 = 0x0001;
pub const NET_DEVICE_FLAG_LOOPBACK: u16 = 0x0010;
pub const NET_DEVICE_FLAG_BROADCAST: u16 = 0x0020;
pub const NET_DEVICE_FLAG_P2P: u16 = 0x0040;
pub const NET_DEVICE_FLAG_NEED_ARP: u16 = 0x0100;

pub const NOT_UP_MSG: &'static str = "device not opened";
pub const TOO_LARGE_MSG: &'static str = "data too large";
pub const IFACE_EXISTS_MSG: &'static str = "interface already exists";
pub const NO_IFACE_SUPPORT_MSG: &'static str = "device does not support interfaces";
pub const PROTOCOL_EXISTS_MSG: &'static str = "protocol already registered";

/// Bit set of device flags.
#[derive(Clone, Copy, Debug)]
pub struct NetDeviceFlags {
    pub bits: u16,
}

impl NetDeviceFlags {
    pub open spec fn has(self, mask: u16) -> bool {
        self.bits & mask == mask
    }

    pub fn empty() -> (r: NetDeviceFlags)
        ensures
            r.bits == 0,
    {
        NetDeviceFlags { bits: 0 }
    }

    pub fn contains(&self, mask: u16) -> (r: bool)
        ensures
            r == self.has(mask),
    {
        self.bits & mask == mask
    }

    pub fn insert(&mut self, mask: u16)
        ensures
            final(self).bits == old(self).bits | mask,
            final(self).has(mask),
    {
        let b = self.bits;
        assert((b | mask) & mask == mask) by (bit_vector);
        self.bits = b | mask;
    }

    pub fn remove(&mut self, mask: u16)
        ensures
            final(self).bits == old(self).bits & !mask,
            mask != 0 ==> !final(self).has(mask),
    {
        let b = self.bits;
        assert(mask != 0 ==> (b & !mask) & mask != mask) by (bit_vector);
        self.bits = b & !mask;
    }
}

/// The flags `f` with the UP bit set or cleared.
pub open spec fn flags_with_up(f: NetDeviceFlags, up: bool) -> NetDeviceFlags {
    if up {
        NetDeviceFlags { bits: f.bits | NET_DEVICE_FLAG_UP }
    } else {
        NetDeviceFlags { bits: f.bits & !NET_DEVICE_FLAG_UP }
    }
}

/// Handle of a registered device: its index in the device table.
#[derive(Clone, Copy, Debug, PartialEq, Eq, Structural)]
pub struct NetDeviceHandler {
    pub private: usize,
}

/// The operations every device driver offers.
pub trait NetDeviceOps: Sized {
    spec fn spec_name(&self) -> Seq<char>;

    spec fn spec_up(&self) -> bool;

    /// This device with its UP flag set or cleared and nothing else changed.
    spec fn with_up(&self, up: bool) -> Self;

    /// The device's internal state is consistent, so it can take a frame.
    spec fn ready(&self) -> bool;

    /// `next` is this device after it accepted frame `(ty, data)`.
    spec fn accepted(&self, next: Self, ty: u16, data: Seq<u8>) -> bool;

    /// The IRQ the device raises when it transmits.
    spec fn spec_irq(&self) -> i32;

    fn name(&self) -> (r: &str)
        ensures
            r@ == self.spec_name(),
    ;

    fn is_up(&self) -> (r: bool)
        ensures
            r == self.spec_up(),
    ;

    fn open(&mut self) -> (r: UtcpResult<()>)
        ensures
            r is Ok,
            *final(self) == old(self).with_up(true),
            final(self).spec_up(),
    ;

    fn close(&mut self) -> (r: UtcpResult<()>)
        ensures
            r is Ok,
            *final(self) == old(self).with_up(false),
            !final(self).spec_up(),
    ;

    /// Hands frame `(ty, data)` to the device, which raises its IRQ.
    fn transmit(&mut self, intr: &mut IntrState, ty: u16, data: &[u8], dst: &mut [u8]) -> (r:
        UtcpResult<()>)
        requires
            old(self).ready(),
        ensures
            r is Ok,
            old(self).accepted(*final(self), ty, data@),
            final(self).ready(),
            final(dst)@ == old(dst)@,
            raised_one(*old(intr), *final(intr), old(self).spec_irq()),
    ;
}

#[derive(Clone, Copy, Debug, PartialEq, Eq, Structural)]
pub enum NetDeviceType {
    Dummy,
    Loopback,
    Ethernet,
}

/// A device of one of the supported kinds. `Ethernet` is reserved: it cannot
/// be registered.
#[derive(Debug)]
pub enum NetDevice {
    Dummy(DummyNetDevice),
    Loopback(LoopbackNetDevice),
    Ethernet,
}

/// `b` is device `a` after it accepted frame `(ty, data)` for transmission.
pub open spec fn transmitted(a: NetDevice, b: NetDevice, ty: u16, data: Seq<u8>) -> bool {
    match a {
        NetDevice::Loopback(la) => b matches NetDevice::Loopback(lb) && lb.name == la.name
            && lb.flags == la.flags && lb.ifaces == la.ifaces && lb.queue.wf() && frames(lb.queue@)
            == pushed(frames(la.queue@), (ty, data), LOOPBACK_QUEUE_LIMIT as nat),
        _ => b == a,
    }
}

impl NetDevice {
    pub open spec fn spec_type(&self) -> NetDeviceType {
        match self {
            NetDevice::Dummy(_) => NetDeviceType::Dummy,
            NetDevice::Loopback(_) => NetDeviceType::Loopback,
            NetDevice::Ethernet => NetDeviceType::Ethernet,
        }
    }

    pub open spec fn spec_mtu(&self) -> u16 {
        match self {
            NetDevice::Dummy(_) => DummyNetDevice::MTU,
            NetDevice::Loopback(_) => LoopbackNetDevice::MTU,
            NetDevice::Ethernet => 0,
        }
    }

    pub open spec fn spec_name(&self) -> Seq<char> {
        match self {
            NetDevice::Dummy(d) => d.spec_name(),
            NetDevice::Loopback(d) => d.spec_name(),
            NetDevice::Ethernet => Seq::empty(),
        }
    }

    pub open spec fn spec_up(&self) -> bool {
        match self {
            NetDevice::Dummy(d) => d.spec_up(),
            NetDevice::Loopback(d) => d.spec_up(),
            NetDevice::Ethernet => false,
        }
    }

    pub open spec fn with_up(&self, up: bool) -> NetDevice {
        match self {
            NetDevice::Dummy(d) => NetDevice::Dummy(d.with_up(up)),
            NetDevice::Loopback(d) => NetDevice::Loopback(d.with_up(up)),
            NetDevice::Ethernet => NetDevice::Ethernet,
        }
    }

    /// The L3 interfaces of the device; a dummy device has none.
    pub open spec fn spec_ifaces(&self) -> Seq<NetInterface> {
        match self {
            NetDevice::Loopback(d) => d.ifaces@,
            _ => Seq::empty(),
        }
    }

    /// The IRQ the device raises when it transmits.
    pub open spec fn spec_irq(&self) -> i32 {
        match self {
            NetDevice::Dummy(_) => DUMMY_IRQ,
            NetDevice::Loopback(_) => LOOPBACK_IRQ,
            NetDevice::Ethernet => 0,
        }
    }

    /// A device that can be registered: not the reserved variant, and with
    /// a well-formed transmit queue.
    pub open spec fn wf(&self) -> bool {
        match self {
            NetDevice::Dummy(_) => true,
            NetDevice::Loopback(d) => d.queue.wf(),
            NetDevice::Ethernet => false,
        }
    }

    pub fn device_type(&self) -> (r: NetDeviceType)
        ensures
            r == self.spec_type(),
    {
        match self {
            NetDevice::Dummy(_) => NetDeviceType::Dummy,
            NetDevice::Loopback(_) => NetDeviceType::Loopback,
            NetDevice::Ethernet => NetDeviceType::Ethernet,
        }
    }

    pub fn mtu(&self) -> (r: u16)
        requires
            !(self is Ethernet),
        ensures
            r == self.spec_mtu(),
    {
        match self {
            NetDevice::Dummy(_) => DummyNetDevice::MTU,
            NetDevice::Loopback(_) => LoopbackNetDevice::MTU,
            NetDevice::Ethernet => 0,
        }
    }

    pub fn name(&self) -> (r: &str)
        requires
            !(self is Ethernet),
        ensures
            r@ == self.spec_name(),
    {
        match self {
            NetDevice::Dummy(dev) => dev.name(),
            NetDevice::Loopback(dev) => dev.name(),
            NetDevice::Ethernet => "",
        }
    }

    pub fn is_up(&self) -> (r: bool)
        ensures
            r == self.spec_up(),
    {
        match self {
            NetDevice::Dummy(dev) => dev.is_up(),
            NetDevice::Loopback(dev) => dev.is_up(),
            NetDevice::Ethernet => false,
        }
    }

    pub fn open(&mut self) -> (r: UtcpResult<()>)
        requires
            !(*old(self) is Ethernet),
        ensures
            r is Ok,
            *final(self) == old(self).with_up(true),
            final(self).spec_up(),
    {
        match self {
            NetDevice::Dummy(dev) => dev.open(),
            NetDevice::Loopback(dev) => dev.open(),
            NetDevice::Ethernet => Ok(()),
        }
    }

    pub fn close(&mut self) -> (r: UtcpResult<()>)
        requires
            !(*old(self) is Ethernet),
        ensures
            r is Ok,
            *final(self) == old(self).with_up(false),
            !final(self).spec_up(),
    {
        match self {
            NetDevice::Dummy(dev) => dev.close(),
            NetDevice::Loopback(dev) => dev.close(),
            NetDevice::Ethernet => Ok(()),
        }
    }

    /// Hands frame `(ty, data)` to the driver, which raises its IRQ.
    pub fn transmit(&mut self, intr: &mut IntrState, ty: u16, data: &[u8], dst: &mut [u8]) -> (r:
        UtcpResult<()>)
        requires
            old(self).wf(),
        ensures
            r is Ok,
            transmitted(*old(self), *final(self), ty, data@),
            final(self).wf(),
            final(dst)@ == old(dst)@,
            raised_one(*old(intr), *final(intr), old(self).spec_irq()),
    {
        match self {
            NetDevice::Dummy(dev) => dev.transmit(intr, ty, data, dst),
            NetDevice::Loopback(dev) => dev.transmit(intr, ty, data, dst),
            NetDevice::Ethernet => Ok(()),
        }
    }

    pub fn get_interfaces(&self) -> (r: &[NetInterface])
        ensures
            r@ == self.spec_ifaces(),
    {
        match self {
            NetDevice::Loopback(dev) => dev.get_interfaces(),
            _ => &[],
        }
    }

    /// Appends `iface` to the interfaces of a loopback device and returns
    /// the handle of the new slot.
    pub fn add_interface(&mut self, handler: NetDeviceHandler, iface: NetInterface) -> (r:
        NetInterfaceHandler)
        requires
            *old(self) is Loopback,
        ensures
            r == (NetInterfaceHandler {
                dev: handler,
                iface_index: old(self).spec_ifaces().len() as usize,
                family: iface.spec_family(),
            }),
            *final(self) is Loopback,
            final(self).spec_ifaces() == old(self).spec_ifaces().push(iface),
            final(self).spec_name() == old(self).spec_name(),
            final(self).spec_up() == old(self).spec_up(),
            final(self).wf() == old(self).wf(),
            *old(self) matches NetDevice::Loopback(a) ==> *final(self) matches NetDevice::Loopback(b)
                && b.queue@ == a.queue@ && b.flags == a.flags && b.name == a.name,
    {
        match self {
            NetDevice::Loopback(dev) => dev.add_interface(handler, iface),
            _ => NetInterfaceHandler {
                dev: handler,
                iface_index: 0,
                family: iface.family(),
            },
        }
    }
}

/// What a protocol does with each frame it receives.
#[derive(Clone, Copy, Debug, PartialEq, Eq, Structural)]
pub enum NetProtocolHandler {
    /// IPv4 input: header validation and interface selection.
    Ip,
    /// No processing: frames are handed as they are to the caller of the
    /// soft-IRQ drain.
    Raw,
}

/// A frame waiting in a protocol's queue, with the device it came from.
#[derive(Debug)]
pub struct NetProtocolQueueEntry {
    pub dev: NetDeviceHandler,
    pub data: Vec<u8>,
}

/// A Layer-3 protocol: its type, its handler and its reception queue.
#[derive(Debug)]
pub struct NetProtocol {
    pub ty: u16,
    pub handler: NetProtocolHandler,
    pub queue: VecDeque<NetProtocolQueueEntry>,
}

/// A protocol as the contracts see it: type, handler and the queued frames
/// with their devices, oldest first.
pub type ProtoView = (u16, NetProtocolHandler, Seq<(NetDeviceHandler, Seq<u8>)>);

pub open spec fn entry_view(e: NetProtocolQueueEntry) -> (NetDeviceHandler, Seq<u8>) {
    (e.dev, e.data@)
}

impl NetProtocol {
    pub open spec fn view_of(self) -> ProtoView {
        (self.ty, self.handler, self.queue@.map_values(|e: NetProtocolQueueEntry| entry_view(e)))
    }

    pub fn new(ty: u16, handler: NetProtocolHandler) -> (r: NetProtocol)
        ensures
            r.view_of() == (ty, handler, Seq::<(NetDeviceHandler, Seq<u8>)>::empty()),
    {
        let r = NetProtocol { ty, handler, queue: VecDeque::new() };
        assert(r.view_of().2 =~= Seq::<(NetDeviceHandler, Seq<u8>)>::empty());
        r
    }
}

pub open spec fn protos_view(ps: Seq<NetProtocol>) -> Seq<ProtoView> {
    ps.map_values(|p: NetProtocol| p.view_of())
}

/// Index of the first protocol at or after `i` whose type is `ty`, or -1.
pub open spec fn protocol_index_from(pv: Seq<ProtoView>, ty: u16, i: int) -> int
    decreases pv.len() - i,
{
    if i < 0 || i >= pv.len() {
        -1
    } else if pv[i].0 == ty {
        i
    } else {
        protocol_index_from(pv, ty, i + 1)
    }
}

/// Index of the protocol registered for `ty`, or -1.
pub open spec fn protocol_index(pv: Seq<ProtoView>, ty: u16) -> int {
    protocol_index_from(pv, ty, 0)
}

/// The protocol table after frame `data` of type `ty` arrived from `dev`:
/// the matching protocol's queue gains the frame; an unknown type changes
/// nothing.
pub open spec fn input_one(pv: Seq<ProtoView>, dev: NetDeviceHandler, ty: u16, data: Seq<u8>) -> Seq<
    ProtoView,
> {
    let k = protocol_index(pv, ty);
    if k < 0 {
        pv
    } else {
        pv.update(k, (pv[k].0, pv[k].1, pv[k].2.push((dev, data))))
    }
}

/// The soft-IRQ signals raised while frame of type `ty` is taken in.
pub open spec fn input_raise(pv: Seq<ProtoView>, ty: u16) -> Seq<i32> {
    if protocol_index(pv, ty) >= 0 {
        seq![INTR_IRQ_SOFTIRQ]
    } else {
        Seq::empty()
    }
}

/// The protocol table after frames `frames` arrived from `dev`, in order.
pub open spec fn input_many(pv: Seq<ProtoView>, dev: NetDeviceHandler, frames: Seq<(u16, Seq<u8>)>) -> Seq<
    ProtoView,
>
    decreases frames.len(),
{
    if frames.len() == 0 {
        pv
    } else {
        let f = frames.last();
        input_one(input_many(pv, dev, frames.drop_last()), dev, f.0, f.1)
    }
}

/// The soft-IRQ signals raised while `frames` are taken in, in order.
pub open spec fn input_raises(pv: Seq<ProtoView>, frames: Seq<(u16, Seq<u8>)>) -> Seq<i32>
    decreases frames.len(),
{
    if frames.len() == 0 {
        Seq::empty()
    } else {
        input_raises(pv, frames.drop_last()) + input_raise(pv, frames.last().0)
    }
}

/// Taking frames in changes no protocol's type or handler.
pub proof fn lemma_input_many_types(pv: Seq<ProtoView>, dev: NetDeviceHandler, frames: Seq<(u16, Seq<u8>)>)
    ensures
        input_many(pv, dev, frames).len() == pv.len(),
        forall|j: int|
            0 <= j < pv.len() ==> (#[trigger] input_many(pv, dev, frames)[j]).0 == pv[j].0
                && input_many(pv, dev, frames)[j].1 == pv[j].1,
    decreases frames.len(),
{
    if frames.len() > 0 {
        lemma_input_many_types(pv, dev, frames.drop_last());
        lemma_protocol_index(input_many(pv, dev, frames.drop_last()), frames.last().0);
    }
}

/// A L3 interface bound to a device.
#[derive(Debug)]
pub enum NetInterface {
    Ip(IpInterface),
}

#[derive(Clone, Copy, Debug, PartialEq, Eq, Structural)]
pub enum NetInterfaceFamily {
    Ip,
}

impl NetInterface {
    pub open spec fn spec_family(&self) -> NetInterfaceFamily {
        match self {
            NetInterface::Ip(_) => NetInterfaceFamily::Ip,
        }
    }

    pub fn family(&self) -> (r: NetInterfaceFamily)
        ensures
            r == self.spec_family(),
    {
        match self {
            NetInterface::Ip(_) => NetInterfaceFamily::Ip,
        }
    }
}

/// Handle of an interface: its device and its slot on that device.
#[derive(Clone, Copy, Debug, PartialEq, Eq, Structural)]
pub struct NetInterfaceHandler {
    pub dev: NetDeviceHandler,
    pub iface_index: usize,
    pub family: NetInterfaceFamily,
}

/// `h` names an existing interface slot.
pub open spec fn iface_handle_valid(devices: Seq<NetDevice>, h: NetInterfaceHandler) -> bool {
    &&& h.dev.private < devices.len()
    &&& h.iface_index < devices[h.dev.private as int].spec_ifaces().len()
}

/// The stack's tables: devices, protocols, IPv4 interfaces and the interrupt
/// subsystem, with the counter that names devices.
pub struct NetStack {
    pub devices: Vec<NetDevice>,
    pub protocols: Vec<NetProtocol>,
    pub ip_ifaces: Vec<NetInterfaceHandler>,
    pub intr: IntrState,
    pub next_device_index: u32,
}

/// Registered protocols have pairwise distinct types.
pub open spec fn protocol_types_unique(pv: Seq<ProtoView>) -> bool {
    forall|i: int, j: int| 0 <= i < j < pv.len() ==> pv[i].0 != pv[j].0
}

impl NetStack {
    pub open spec fn wf(&self) -> bool {
        &&& forall|i: int| 0 <= i < self.devices@.len() ==> (#[trigger] self.devices@[i]).wf()
        &&& forall|k: int|
            0 <= k < self.ip_ifaces@.len() ==> iface_handle_valid(
                self.devices@,
                #[trigger] self.ip_ifaces@[k],
            )
        &&& protocol_types_unique(protos_view(self.protocols@))
        &&& self.intr.wf()
    }

    /// The device behind handle `h`.
    pub open spec fn resolve(&self, h: NetDeviceHandler) -> NetDevice {
        self.devices@[h.private as int]
    }
}

/// Initialises the stack: empty device and interface tables, the IPv4
/// protocol registered, and fresh interrupt tables.
pub fn net_init() -> (r: UtcpResult<NetStack>)
    ensures
        r matches Ok(s) && {
            &&& s.wf()
            &&& s.devices@.len() == 0
            &&& s.ip_ifaces@.len() == 0
            &&& protos_view(s.protocols@) == seq![
                (NET_PROTOCOL_TYPE_IP, NetProtocolHandler::Ip, Seq::<(NetDeviceHandler, Seq<u8>)>::empty()),
            ]
            &&& s.intr.irqs@.len() == 0
            &&& s.intr.sigmask@ == seq![crate::driver::INTR_IRQ_TERMINATE, INTR_IRQ_SOFTIRQ]
            &&& s.intr.raised@.len() == 0
            &&& !s.intr.running
            &&& s.next_device_index == 0
        },
{
    let intr = intr::intr_init();
    let mut s = NetStack {
        devices: Vec::new(),
        protocols: Vec::new(),
        ip_ifaces: Vec::new(),
        intr,
        next_device_index: 0,
    };
    assert(protos_view(s.protocols@) =~= Seq::empty());
    proof {
        lemma_protocol_index(protos_view(s.protocols@), NET_PROTOCOL_TYPE_IP);
    }
    let r = crate::ip::ip_init(&mut s);
    assert(protos_view(s.protocols@) =~= seq![
        (NET_PROTOCOL_TYPE_IP, NetProtocolHandler::Ip, Seq::<(NetDeviceHandler, Seq<u8>)>::empty()),
    ]);
    Ok(s)
}

/// The next device number from the stack's counter, which then advances
/// (wrapping at the end of its range).
pub fn new_device_index(stack: &mut NetStack) -> (r: u32)
    ensures
        r == old(stack).next_device_index,
        final(stack).next_device_index == old(stack).next_device_index.wrapping_add(1),
        final(stack).devices == old(stack).devices,
        final(stack).protocols == old(stack).protocols,
        final(stack).ip_ifaces == old(stack).ip_ifaces,
        final(stack).intr == old(stack).intr,
{
    let r = stack.next_device_index;
    stack.next_device_index = r.wrapping_add(1);
    r
}

/// `protocol_index_from` finds the first match at or after `i`.
pub proof fn lemma_protocol_index_from(pv: Seq<ProtoView>, ty: u16, i: int)
    requires
        0 <= i,
    ensures
        ({
            let r = protocol_index_from(pv, ty, i);
            &&& r == -1 || (i <= r < pv.len() && pv[r].0 == ty)
            &&& forall|j: int| i <= j < pv.len() && (r == -1 || j < r) ==> pv[j].0 != ty
        }),
    decreases pv.len() - i,
{
    if i < pv.len() && pv[i].0 != ty {
        lemma_protocol_index_from(pv, ty, i + 1);
    }
}

/// The protocol found for `ty` is the first one of that type.
pub proof fn lemma_protocol_index(pv: Seq<ProtoView>, ty: u16)
    ensures
        protocol_index(pv, ty) == -1 || (0 <= protocol_index(pv, ty) < pv.len() && pv[protocol_index(
            pv,
            ty,
        )].0 == ty),
        forall|j: int|
            0 <= j < pv.len() && (protocol_index(pv, ty) == -1 || j < protocol_index(pv, ty))
                ==> pv[j].0 != ty,
{
    lemma_protocol_index_from(pv, ty, 0);
}

/// The protocol lookup depends on the types of the table alone.
pub proof fn lemma_protocol_index_types(a: Seq<ProtoView>, b: Seq<ProtoView>, ty: u16)
    requires
        a.len() == b.len(),
        forall|j: int| 0 <= j < a.len() ==> a[j].0 == b[j].0,
    ensures
        protocol_index(a, ty) == protocol_index(b, ty),
{
    lemma_protocol_index(a, ty);
    lemma_protocol_index(b, ty);
}

/// Scans the protocol table for type `ty`.
fn find_protocol(protocols: &Vec<NetProtocol>, ty: u16) -> (r: Option<usize>)
    ensures
        r matches Some(k) ==> k == protocol_index(protos_view(protocols@), ty) && k
            < protocols@.len(),
        r is None ==> protocol_index(protos_view(protocols@), ty) == -1,
{
    let ghost pv = protos_view(protocols@);
    proof {
        lemma_protocol_index(pv, ty);
    }
    let mut i: usize = 0;
    while i < protocols.len()
        invariant
            pv == protos_view(protocols@),
            i <= protocols@.len(),
            forall|j: int| 0 <= j < i ==> pv[j].0 != ty,
        decreases protocols@.len() - i,
    {
        if protocols[i].ty == ty {
            proof {
                lemma_protocol_index(pv, ty);
            }
            assert(pv[i as int].0 == ty);
            return Some(i);
        }
        i = i + 1;
    }
    None
}

/// Adds `proto` to the protocol table; a second protocol of the same type
/// is refused.
pub fn net_protocol_register(stack: &mut NetStack, proto: NetProtocol) -> (r: UtcpResult<()>)
    requires
        old(stack).wf(),
    ensures
        final(stack).wf(),
        final(stack).devices == old(stack).devices,
        final(stack).ip_ifaces == old(stack).ip_ifaces,
        final(stack).intr == old(stack).intr,
        final(stack).next_device_index == old(stack).next_device_index,
        protocol_index(protos_view(old(stack).protocols@), proto.ty) >= 0 ==> is_net_err(
            r,
            PROTOCOL_EXISTS_MSG@,
        ) && final(stack).protocols == old(stack).protocols,
        protocol_index(protos_view(old(stack).protocols@), proto.ty) < 0 ==> r is Ok && protos_view(
            final(stack).protocols@,
        ) == protos_view(old(stack).protocols@).push(proto.view_of()),
{
    proof {
        lemma_protocol_index(protos_view(stack.protocols@), proto.ty);
    }
    if find_protocol(&stack.protocols, proto.ty).is_some() {
        return Err(net_err(PROTOCOL_EXISTS_MSG));
    }
    let ghost v = proto.view_of();
    stack.protocols.push(proto);
    assert(protos_view(stack.protocols@) =~= protos_view(old(stack).protocols@).push(v));
    Ok(())
}

/// Stores `dev` in the device table under the next index.
pub fn net_device_register(stack: &mut NetStack, dev: NetDevice) -> (r: UtcpResult<
    NetDeviceHandler,
>)
    requires
        old(stack).wf(),
        dev.wf(),
    ensures
        final(stack).wf(),
        r == Ok::<NetDeviceHandler, UtcpErr>(
            NetDeviceHandler { private: old(stack).devices@.len() as usize },
        ),
        final(stack).devices@ == old(stack).devices@.push(dev),
        final(stack).protocols == old(stack).protocols,
        final(stack).ip_ifaces == old(stack).ip_ifaces,
        final(stack).intr == old(stack).intr,
        final(stack).next_device_index == old(stack).next_device_index,
{
    let index = stack.devices.len();
    stack.devices.push(dev);
    assert forall|k: int| 0 <= k < stack.ip_ifaces@.len() implies iface_handle_valid(
        stack.devices@,
        #[trigger] stack.ip_ifaces@[k],
    ) by {
        assert(iface_handle_valid(old(stack).devices@, old(stack).ip_ifaces@[k]));
        assert(stack.devices@[stack.ip_ifaces@[k].dev.private as int] == old(stack).devices@[stack.ip_ifaces@[k].dev.private as int]);
    }
    Ok(NetDeviceHandler { private: index })
}

/// Sends frame `(ty, data)` through device `dev`. The device must be up and
/// the frame no larger than its MTU.
pub fn net_device_output(
    stack: &mut NetStack,
    dev: &NetDeviceHandler,
    ty: u16,
    data: &[u8],
    dst: &mut [u8],
) -> (r: UtcpResult<()>)
    requires
        old(stack).wf(),
        dev.private < old(stack).devices@.len(),
    ensures
        final(stack).wf(),
        final(dst)@ == old(dst)@,
        !old(stack).resolve(*dev).spec_up() ==> is_net_err(r, NOT_UP_MSG@) && *final(stack)
            == *old(stack),
        old(stack).resolve(*dev).spec_up() && data@.len() > old(stack).resolve(*dev).spec_mtu()
            ==> is_net_err(r, TOO_LARGE_MSG@) && *final(stack) == *old(stack),
        old(stack).resolve(*dev).spec_up() && data@.len() <= old(stack).resolve(*dev).spec_mtu()
            ==> {
            &&& r is Ok
            &&& final(stack).devices@.len() == old(stack).devices@.len()
            &&& forall|j: int|
                0 <= j < old(stack).devices@.len() && j != dev.private ==> final(stack).devices@[j]
                    == old(stack).devices@[j]
            &&& transmitted(old(stack).resolve(*dev), final(stack).resolve(*dev), ty, data@)
            &&& raised_one(old(stack).intr, final(stack).intr, old(stack).resolve(*dev).spec_irq())
            &&& final(stack).protocols == old(stack).protocols
            &&& final(stack).ip_ifaces == old(stack).ip_ifaces
            &&& final(stack).next_device_index == old(stack).next_device_index
        },
{
    let i = dev.private;
    assert(stack.devices@[i as int].wf());
    if !stack.devices[i].is_up() {
        return Err(net_err(NOT_UP_MSG));
    }
    if data.len() > stack.devices[i].mtu() as usize {
        return Err(net_err(TOO_LARGE_MSG));
    }
    let d = &mut stack.devices[i];
    let r = d.transmit(&mut stack.intr, ty, data, dst);
    proof {
        assert forall|k: int| 0 <= k < stack.ip_ifaces@.len() implies iface_handle_valid(
            stack.devices@,
            #[trigger] stack.ip_ifaces@[k],
        ) by {
            assert(iface_handle_valid(old(stack).devices@, old(stack).ip_ifaces@[k]));
        }
        assert forall|j: int| 0 <= j < stack.devices@.len() implies (#[trigger] stack.devices@[j]).wf() by {
            assert(old(stack).devices@[j].wf());
        }
    }
    r
}

/// Brings a device up.
pub fn net_device_open(dev: &mut NetDevice) -> (r: UtcpResult<()>)
    requires
        !(*old(dev) is Ethernet),
    ensures
        r is Ok,
        *final(dev) == old(dev).with_up(true),
        final(dev).spec_up(),
{
    dev.open()
}

/// Takes a device down.
pub fn net_device_close(dev: &mut NetDevice) -> (r: UtcpResult<()>)
    requires
        !(*old(dev) is Ethernet),
    ensures
        r is Ok,
        *final(dev) == old(dev).with_up(false),
        !final(dev).spec_up(),
{
    dev.close()
}

/// Setting or clearing the UP flag keeps a device's interfaces and shape.
pub proof fn lemma_with_up_keeps(d: NetDevice, up: bool)
    ensures
        d.with_up(up).spec_ifaces() == d.spec_ifaces(),
        d.with_up(up).wf() == d.wf(),
        d.with_up(up).spec_name() == d.spec_name(),
        d.with_up(up).spec_mtu() == d.spec_mtu(),
        d.with_up(up).spec_irq() == d.spec_irq(),
{
}

/// Sets every registered device up or down, in table order.
fn set_all_devices(stack: &mut NetStack, up: bool)
    requires
        old(stack).wf(),
    ensures
        final(stack).wf(),
        final(stack).devices@.len() == old(stack).devices@.len(),
        forall|j: int|
            0 <= j < old(stack).devices@.len() ==> final(stack).devices@[j] == old(stack).devices@[j].with_up(up),
        final(stack).protocols == old(stack).protocols,
        final(stack).ip_ifaces == old(stack).ip_ifaces,
        final(stack).intr == old(stack).intr,
        final(stack).next_device_index == old(stack).next_device_index,
{
    let n = stack.devices.len();
    let mut i: usize = 0;
    while i < n
        invariant
            n == old(stack).devices@.len(),
            stack.devices@.len() == n,
            i <= n,
            forall|j: int| 0 <= j < i ==> stack.devices@[j] == old(stack).devices@[j].with_up(up),
            forall|j: int| i <= j < n ==> stack.devices@[j] == old(stack).devices@[j],
            forall|j: int| 0 <= j < n ==> (#[trigger] old(stack).devices@[j]).wf(),
            stack.protocols == old(stack).protocols,
            stack.ip_ifaces == old(stack).ip_ifaces,
            stack.intr == old(stack).intr,
            stack.next_device_index == old(stack).next_device_index,
        decreases n - i,
    {
        assert(old(stack).devices@[i as int].wf());
        let d = &mut stack.devices[i];
        if up {
            let _ = net_device_open(d);
        } else {
            let _ = net_device_close(d);
        }
        i = i + 1;
    }
    proof {
        assert forall|j: int| 0 <= j < n implies (#[trigger] stack.devices@[j]).wf() by {
            lemma_with_up_keeps(old(stack).devices@[j], up);
        }
        assert forall|k: int| 0 <= k < stack.ip_ifaces@.len() implies iface_handle_valid(
            stack.devices@,
            #[trigger] stack.ip_ifaces@[k],
        ) by {
            assert(iface_handle_valid(old(stack).devices@, old(stack).ip_ifaces@[k]));
            lemma_with_up_keeps(old(stack).devices@[stack.ip_ifaces@[k].dev.private as int], up);
        }
    }
}

/// Starts interrupt handling, then brings every device up.
pub fn net_run(stack: &mut NetStack) -> (r: UtcpResult<()>)
    requires
        old(stack).wf(),
    ensures
        r is Ok,
        final(stack).wf(),
        final(stack).devices@.len() == old(stack).devices@.len(),
        forall|j: int|
            0 <= j < old(stack).devices@.len() ==> final(stack).devices@[j] == old(stack).devices@[j].with_up(true),
        final(stack).intr.running,
        final(stack).intr.irqs == old(stack).intr.irqs,
        final(stack).intr.sigmask == old(stack).intr.sigmask,
        final(stack).intr.raised == old(stack).intr.raised,
        final(stack).protocols == old(stack).protocols,
        final(stack).ip_ifaces == old(stack).ip_ifaces,
        final(stack).next_device_index == old(stack).next_device_index,
{
    let _ = intr::intr_run(&mut stack.intr);
    set_all_devices(stack, true);
    Ok(())
}

/// Stops interrupt handling, then takes every device down.
pub fn net_shutdown(stack: &mut NetStack) -> (r: UtcpResult<()>)
    requires
        old(stack).wf(),
    ensures
        r is Ok,
        final(stack).wf(),
        final(stack).devices@.len() == old(stack).devices@.len(),
        forall|j: int|
            0 <= j < old(stack).devices@.len() ==> final(stack).devices@[j] == old(stack).devices@[j].with_up(false),
        !final(stack).intr.running,
        final(stack).intr.irqs == old(stack).intr.irqs,
        final(stack).intr.sigmask == old(stack).intr.sigmask,
        old(stack).intr.running ==> final(stack).intr.raised@ == old(stack).intr.raised@.push(
            crate::driver::INTR_IRQ_TERMINATE,
        ),
        !old(stack).intr.running ==> final(stack).intr.raised == old(stack).intr.raised,
        final(stack).protocols == old(stack).protocols,
        final(stack).ip_ifaces == old(stack).ip_ifaces,
        final(stack).next_device_index == old(stack).next_device_index,
{
    let _ = intr::intr_shutdown(&mut stack.intr);
    set_all_devices(stack, false);
    Ok(())
}

/// Takes in frame `(ty, data)` received on `dev`: a copy joins the queue of
/// the protocol registered for `ty` and the soft-IRQ is raised; a frame of
/// an unknown type is dropped.
pub fn net_input_handler(stack: &mut NetStack, dev: &NetDeviceHandler, ty: u16, data: &[u8]) -> (r:
    UtcpResult<()>)
    requires
        old(stack).wf(),
    ensures
        r is Ok,
        final(stack).wf(),
        protos_view(final(stack).protocols@) == input_one(
            protos_view(old(stack).protocols@),
            *dev,
            ty,
            data@,
        ),
        final(stack).intr.raised@ == old(stack).intr.raised@ + input_raise(
            protos_view(old(stack).protocols@),
            ty,
        ),
        final(stack).intr.irqs == old(stack).intr.irqs,
        final(stack).intr.sigmask == old(stack).intr.sigmask,
        final(stack).intr.running == old(stack).intr.running,
        final(stack).devices == old(stack).devices,
        final(stack).ip_ifaces == old(stack).ip_ifaces,
        final(stack).next_device_index == old(stack).next_device_index,
{
    let ghost pv = protos_view(stack.protocols@);
    match find_protocol(&stack.protocols, ty) {
        Some(k) => {
            let entry = NetProtocolQueueEntry { dev: *dev, data: slice_to_vec(data) };
            let ghost ev = entry_view(entry);
            let p = &mut stack.protocols[k];
            p.queue.push_back(entry);
            let _ = intr::intr_raise_irq(&mut stack.intr, INTR_IRQ_SOFTIRQ);
            proof {
                assert(protos_view(stack.protocols@)[k as int].2 =~= pv[k as int].2.push(ev));
                assert(protos_view(stack.protocols@) =~= input_one(pv, *dev, ty, data@));
                assert(stack.intr.raised@ =~= old(stack).intr.raised@ + input_raise(pv, ty));
            }
            Ok(())
        },
        None => {
            assert(stack.intr.raised@ =~= old(stack).intr.raised@ + input_raise(pv, ty));
            Ok(())
        },
    }
}

/// Some interface in `ifs` belongs to family `f`.
pub open spec fn has_family(ifs: Seq<NetInterface>, f: NetInterfaceFamily) -> bool {
    exists|k: int| 0 <= k < ifs.len() && (#[trigger] ifs[k]).spec_family() == f
}

/// Position of the first interface of family `family` in `ifs`.
fn family_index(ifs: &[NetInterface], family: NetInterfaceFamily) -> (r: Option<usize>)
    ensures
        r is None <==> !has_family(ifs@, family),
        r is None <==> family_index_from(ifs@, family, 0) < 0,
        r matches Some(k) ==> k == family_index_from(ifs@, family, 0) && k < ifs@.len(),
{
    let mut k: usize = 0;
    while k < ifs.len()
        invariant
            k <= ifs@.len(),
            forall|j: int| 0 <= j < k ==> (#[trigger] ifs@[j]).spec_family() != family,
            family_index_from(ifs@, family, 0) == family_index_from(ifs@, family, k as int),
        decreases ifs@.len() - k,
    {
        if ifs[k].family() == family {
            return Some(k);
        }
        k = k + 1;
    }
    None
}

/// Attaches `iface` to the device behind `handler`. Only loopback devices
/// take interfaces, and at most one of each family.
pub(crate) fn device_attach_iface(stack: &mut NetStack, handler: NetDeviceHandler, iface: NetInterface) -> (r:
    UtcpResult<NetInterfaceHandler>)
    requires
        old(stack).wf(),
        handler.private < old(stack).devices@.len(),
    ensures
        final(stack).wf(),
        !(old(stack).resolve(handler) is Loopback) ==> is_net_err(r, NO_IFACE_SUPPORT_MSG@)
            && *final(stack) == *old(stack),
        old(stack).resolve(handler) is Loopback && has_family(
            old(stack).resolve(handler).spec_ifaces(),
            iface.spec_family(),
        ) ==> is_net_err(r, IFACE_EXISTS_MSG@) && *final(stack) == *old(stack),
        old(stack).resolve(handler) is Loopback && !has_family(
            old(stack).resolve(handler).spec_ifaces(),
            iface.spec_family(),
        ) ==> {
            &&& r == Ok::<NetInterfaceHandler, UtcpErr>(
                NetInterfaceHandler {
                    dev: handler,
                    iface_index: old(stack).resolve(handler).spec_ifaces().len() as usize,
                    family: iface.spec_family(),
                },
            )
            &&& final(stack).devices@.len() == old(stack).devices@.len()
            &&& forall|j: int|
                0 <= j < old(stack).devices@.len() && j != handler.private ==> final(stack).devices@[j] == old(stack).devices@[j]
            &&& final(stack).resolve(handler) is Loopback
            &&& final(stack).resolve(handler).spec_ifaces() == old(stack).resolve(
                handler,
            ).spec_ifaces().push(iface)
            &&& final(stack).resolve(handler).spec_name() == old(stack).resolve(handler).spec_name()
            &&& final(stack).resolve(handler).spec_up() == old(stack).resolve(handler).spec_up()
            &&& final(stack).protocols == old(stack).protocols
            &&& final(stack).ip_ifaces == old(stack).ip_ifaces
            &&& final(stack).intr == old(stack).intr
            &&& final(stack).next_device_index == old(stack).next_device_index
        },
{
    let i = handler.private;
    match &stack.devices[i] {
        NetDevice::Loopback(_) => {},
        _ => {
            return Err(net_err(NO_IFACE_SUPPORT_MSG));
        },
    }
    let family = iface.family();
    if family_index(stack.devices[i].get_interfaces(), family).is_some() {
        return Err(net_err(IFACE_EXISTS_MSG));
    }
    let d = &mut stack.devices[i];
    let r = d.add_interface(handler, iface);
    proof {
        assert(old(stack).devices@[i as int].wf());
        assert forall|k: int| 0 <= k < stack.ip_ifaces@.len() implies iface_handle_valid(
            stack.devices@,
            #[trigger] stack.ip_ifaces@[k],
        ) by {
            assert(iface_handle_valid(old(stack).devices@, old(stack).ip_ifaces@[k]));
        }
        assert forall|j: int| 0 <= j < stack.devices@.len() implies (#[trigger] stack.devices@[j]).wf() by {
            assert(old(stack).devices@[j].wf());
        }
    }
    Ok(r)
}

/// Attaches `iface` to the device behind `handler`; see
/// `device_attach_iface` for when it is refused.
pub fn net_device_add_iface(stack: &mut NetStack, handler: NetDeviceHandler, iface: NetInterface) -> (r:
    UtcpResult<()>)
    requires
        old(stack).wf(),
        handler.private < old(stack).devices@.len(),
    ensures
        final(stack).wf(),
        !(old(stack).resolve(handler) is Loopback) ==> is_net_err(r, NO_IFACE_SUPPORT_MSG@)
            && *final(stack) == *old(stack),
        old(stack).resolve(handler) is Loopback && has_family(
            old(stack).resolve(handler).spec_ifaces(),
            iface.spec_family(),
        ) ==> is_net_err(r, IFACE_EXISTS_MSG@) && *final(stack) == *old(stack),
        old(stack).resolve(handler) is Loopback && !has_family(
            old(stack).resolve(handler).spec_ifaces(),
            iface.spec_family(),
        ) ==> {
            &&& r is Ok
            &&& final(stack).devices@.len() == old(stack).devices@.len()
            &&& forall|j: int|
                0 <= j < old(stack).devices@.len() && j != handler.private ==> final(stack).devices@[j] == old(stack).devices@[j]
            &&& final(stack).resolve(handler).spec_ifaces() == old(stack).resolve(
                handler,
            ).spec_ifaces().push(iface)
            &&& final(stack).resolve(handler).spec_name() == old(stack).resolve(handler).spec_name()
            &&& final(stack).resolve(handler).spec_up() == old(stack).resolve(handler).spec_up()
            &&& final(stack).protocols == old(stack).protocols
            &&& final(stack).ip_ifaces == old(stack).ip_ifaces
            &&& final(stack).intr == old(stack).intr
        },
{
    match device_attach_iface(stack, handler, iface) {
        Ok(_) => Ok(()),
        Err(e) => Err(e),
    }
}

/// Index of the first interface of family `f` at or after `i`, or -1.
pub open spec fn family_index_from(ifs: Seq<NetInterface>, f: NetInterfaceFamily, i: int) -> int
    decreases ifs.len() - i,
{
    if i < 0 || i >= ifs.len() {
        -1
    } else if ifs[i].spec_family() == f {
        i
    } else {
        family_index_from(ifs, f, i + 1)
    }
}

/// The first interface of family `family` on device `dev`, if any.
pub fn net_device_get_iface<'a>(
    stack: &'a NetStack,
    dev: &NetDeviceHandler,
    family: NetInterfaceFamily,
) -> (r: Option<&'a NetInterface>)
    requires
        dev.private < stack.devices@.len(),
    ensures
        ({
            let ifs = stack.resolve(*dev).spec_ifaces();
            let k = family_index_from(ifs, family, 0);
            &&& k < 0 ==> r is None
            &&& k >= 0 ==> (r matches Some(x) && *x == ifs[k])
        }),
{
    let ifs = stack.devices[dev.private].get_interfaces();
    match family_index(ifs, family) {
        Some(k) => Some(&ifs[k]),
        None => None,
    }
}

/// One handler invocation of a soft-IRQ run: the frame, where it came from,
/// and, for IPv4, what IPv4 input made of it.
#[derive(Debug)]
pub struct NetProtocolDelivery {
    pub ty: u16,
    pub dev: NetDeviceHandler,
    pub data: Vec<u8>,
    pub result: Option<IpInputResult>,
}

pub type DeliveryView = (u16, NetDeviceHandler, Seq<u8>, Option<IpInputResult>);

pub open spec fn delivery_view(d: NetProtocolDelivery) -> DeliveryView {
    (d.ty, d.dev, d.data@, d.result)
}

/// What handler `h` reports for frame `data`.
pub open spec fn handler_outcome(
    h: NetProtocolHandler,
    devices: Seq<NetDevice>,
    ifaces: Seq<NetInterfaceHandler>,
    data: Seq<u8>,
) -> Option<IpInputResult> {
    match h {
        NetProtocolHandler::Ip => Some(ip_verdict(devices, ifaces, data)),
        NetProtocolHandler::Raw => None,
    }
}

/// The handler invocations for the frames queued at protocol `p`, oldest
/// first.
pub open spec fn proto_deliveries(
    p: ProtoView,
    devices: Seq<NetDevice>,
    ifaces: Seq<NetInterfaceHandler>,
) -> Seq<DeliveryView> {
    p.2.map_values(
        |e: (NetDeviceHandler, Seq<u8>)| (p.0, e.0, e.1, handler_outcome(p.1, devices, ifaces, e.1)),
    )
}

/// The handler invocations of a soft-IRQ run: protocol by protocol in
/// registration order, each protocol's frames oldest first.
pub open spec fn all_deliveries(
    pv: Seq<ProtoView>,
    devices: Seq<NetDevice>,
    ifaces: Seq<NetInterfaceHandler>,
) -> Seq<DeliveryView>
    decreases pv.len(),
{
    if pv.len() == 0 {
        Seq::empty()
    } else {
        all_deliveries(pv.drop_last(), devices, ifaces) + proto_deliveries(pv.last(), devices, ifaces)
    }
}

/// The protocol table with every queue emptied.
pub open spec fn drained(pv: Seq<ProtoView>) -> Seq<ProtoView> {
    pv.map_values(|p: ProtoView| (p.0, p.1, Seq::<(NetDeviceHandler, Seq<u8>)>::empty()))
}

/// Removes the oldest frame queued at protocol `i`.
fn pop_protocol_entry(protocols: &mut Vec<NetProtocol>, i: usize) -> (r: Option<NetProtocolQueueEntry>)
    requires
        i < old(protocols)@.len(),
    ensures
        final(protocols)@.len() == old(protocols)@.len(),
        forall|j: int|
            0 <= j < old(protocols)@.len() && j != i ==> final(protocols)@[j] == old(protocols)@[j],
        final(protocols)@[i as int].ty == old(protocols)@[i as int].ty,
        final(protocols)@[i as int].handler == old(protocols)@[i as int].handler,
        old(protocols)@[i as int].queue@.len() == 0 ==> r is None && final(protocols)@[i as int].queue@
            == old(protocols)@[i as int].queue@,
        old(protocols)@[i as int].queue@.len() > 0 ==> r == Some(old(protocols)@[i as int].queue@[0])
            && final(protocols)@[i as int].queue@ == old(protocols)@[i as int].queue@.drop_first(),
{
    let p = &mut protocols[i];
    p.queue.pop_front()
}

/// The soft-IRQ bottom half: drains every protocol queue, protocol by
/// protocol in registration order and each oldest first, running the
/// protocol's handler on each frame. Returns the invocations in order.
pub fn net_softirq_handler(stack: &mut NetStack) -> (r: Vec<NetProtocolDelivery>)
    requires
        old(stack).wf(),
    ensures
        final(stack).wf(),
        r@.map_values(|d: NetProtocolDelivery| delivery_view(d)) == all_deliveries(
            protos_view(old(stack).protocols@),
            old(stack).devices@,
            old(stack).ip_ifaces@,
        ),
        protos_view(final(stack).protocols@) == drained(protos_view(old(stack).protocols@)),
        final(stack).devices == old(stack).devices,
        final(stack).ip_ifaces == old(stack).ip_ifaces,
        final(stack).intr == old(stack).intr,
        final(stack).next_device_index == old(stack).next_device_index,
{
    let ghost pv = protos_view(stack.protocols@);
    let ghost devices = stack.devices@;
    let ghost ifaces = stack.ip_ifaces@;
    let mut out: Vec<NetProtocolDelivery> = Vec::new();
    let n = stack.protocols.len();
    let mut i: usize = 0;
    while i < n
        invariant
            n == pv.len(),
            i <= n,
            stack.wf(),
            stack.protocols@.len() == n,
            stack.devices@ == devices,
            stack.devices == old(stack).devices,
            stack.ip_ifaces == old(stack).ip_ifaces,
            stack.ip_ifaces@ == ifaces,
            stack.intr == old(stack).intr,
            stack.next_device_index == old(stack).next_device_index,
            forall|j: int| 0 <= j < i ==> protos_view(stack.protocols@)[j] == drained(pv)[j],
            forall|j: int| i <= j < n ==> protos_view(stack.protocols@)[j] == pv[j],
            out@.map_values(|d: NetProtocolDelivery| delivery_view(d)) == all_deliveries(
                pv.take(i as int),
                devices,
                ifaces,
            ),
        decreases n - i,
    {
        let ghost base = out@.map_values(|d: NetProtocolDelivery| delivery_view(d));
        let ghost q0 = pv[i as int].2;
        let ty = stack.protocols[i].ty;
        let handler = stack.protocols[i].handler;
        while stack.protocols[i].queue.len() > 0
            invariant
                n == pv.len(),
                i < n,
                stack.wf(),
                stack.protocols@.len() == n,
                stack.devices@ == devices,
                stack.devices == old(stack).devices,
                stack.ip_ifaces == old(stack).ip_ifaces,
                stack.ip_ifaces@ == ifaces,
                stack.intr == old(stack).intr,
                stack.next_device_index == old(stack).next_device_index,
                ty == pv[i as int].0,
                handler == pv[i as int].1,
                q0 == pv[i as int].2,
                forall|j: int| 0 <= j < i ==> protos_view(stack.protocols@)[j] == drained(pv)[j],
                forall|j: int| i < j < n ==> protos_view(stack.protocols@)[j] == pv[j],
                protos_view(stack.protocols@)[i as int].0 == ty,
                protos_view(stack.protocols@)[i as int].1 == handler,
                q0.len() >= protos_view(stack.protocols@)[i as int].2.len(),
                protos_view(stack.protocols@)[i as int].2 == q0.skip(
                    q0.len() - protos_view(stack.protocols@)[i as int].2.len(),
                ),
                out@.map_values(|d: NetProtocolDelivery| delivery_view(d)) == base
                    + proto_deliveries(pv[i as int], devices, ifaces).take(
                    q0.len() - protos_view(stack.protocols@)[i as int].2.len(),
                ),
            ensures
                protos_view(stack.protocols@)[i as int].2.len() == 0,
            decreases stack.protocols@[i as int].queue@.len(),
        {
            let ghost before = stack.protocols@;
            let ghost m = q0.len() - protos_view(stack.protocols@)[i as int].2.len();
            let entry = match pop_protocol_entry(&mut stack.protocols, i) {
                Some(e) => e,
                None => {
                    break;
                },
            };
            proof {
                assert forall|j: int| 0 <= j < n && j != i implies protos_view(stack.protocols@)[j] == protos_view(before)[j] by {}
                assert(protocol_types_unique(protos_view(stack.protocols@))) by {
                    assert forall|a: int, b: int| 0 <= a < b < n implies protos_view(stack.protocols@)[a].0 != protos_view(stack.protocols@)[b].0 by {
                        assert(protos_view(stack.protocols@)[a].0 == protos_view(before)[a].0);
                        assert(protos_view(stack.protocols@)[b].0 == protos_view(before)[b].0);
                    }
                }
            }
            let result = match handler {
                NetProtocolHandler::Ip => Some(ip_input(stack, entry.data.as_slice(), &entry.dev)),
                NetProtocolHandler::Raw => None,
            };
            let ghost ev = entry_view(entry);
            let d = NetProtocolDelivery { ty, dev: entry.dev, data: entry.data, result };
            let ghost outv = out@.map_values(|d: NetProtocolDelivery| delivery_view(d));
            let ghost dv = delivery_view(d);
            out.push(d);
            proof {
                assert(out@.map_values(|d: NetProtocolDelivery| delivery_view(d)) =~= outv.push(dv));
                assert(protos_view(before)[i as int].2[0] == ev);
                assert(protos_view(stack.protocols@)[i as int].2 =~= protos_view(before)[i as int].2.drop_first());
                assert(m < q0.len());
                assert(q0[m] == ev);
                assert(result == handler_outcome(handler, devices, ifaces, ev.1));
                assert(protos_view(stack.protocols@)[i as int].2 =~= q0.skip(m + 1));
                assert(proto_deliveries(pv[i as int], devices, ifaces)[m] == delivery_view(d));
                assert(proto_deliveries(pv[i as int], devices, ifaces).take(m + 1) =~= proto_deliveries(pv[i as int], devices, ifaces).take(m).push(delivery_view(d)));
                assert(out@.map_values(|d: NetProtocolDelivery| delivery_view(d)) =~= base
                    + proto_deliveries(pv[i as int], devices, ifaces).take(m + 1));
            }
        }
        proof {
            let m = q0.len();
            assert(protos_view(stack.protocols@)[i as int].2.len() == 0);
            assert(proto_deliveries(pv[i as int], devices, ifaces).take(m as int) =~= proto_deliveries(pv[i as int], devices, ifaces));
            assert(pv.take(i + 1).drop_last() =~= pv.take(i as int));
            assert(protos_view(stack.protocols@)[i as int] == drained(pv)[i as int]);
        }
        i = i + 1;
    }
    proof {
        assert(pv.take(n as int) =~= pv);
        assert(protos_view(stack.protocols@) =~= drained(pv));
    }
    out
}

/// A device as its driver creates it: a dummy or loopback device with no
/// flag set.
pub open spec fn fresh_device(d: NetDevice) -> bool {
    match d {
        NetDevice::Dummy(x) => x.flags.bits == 0,
        NetDevice::Loopback(x) => x.flags.bits == 0,
        NetDevice::Ethernet => false,
    }
}

/// A registered device resolves through its handle to itself, under its
/// own name, and a freshly created device is down until opened, so output
/// through it fails as not up.
pub proof fn law_registered_device_resolves(s0: NetStack, s1: NetStack, d: NetDevice, h: NetDeviceHandler)
    requires
        s1.devices@ == s0.devices@.push(d),
        h.private == s0.devices@.len(),
    ensures
        s1.resolve(h) == d,
        s1.resolve(h).spec_name() == d.spec_name(),
        fresh_device(d) ==> !s1.resolve(h).spec_up(),
{
    assert((0u16 & NET_DEVICE_FLAG_UP) != NET_DEVICE_FLAG_UP) by (bit_vector);
}

/// Opening brings a device up and closing takes it down; opening an open
/// device or closing a closed one changes nothing further.
pub proof fn law_open_close(d: NetDevice)
    requires
        !(d is Ethernet),
    ensures
        d.with_up(true).spec_up(),
        !d.with_up(false).spec_up(),
        d.with_up(true).with_up(true) == d.with_up(true),
        d.with_up(false).with_up(false) == d.with_up(false),
{
    let b: u16 = match d {
        NetDevice::Dummy(x) => x.flags.bits,
        NetDevice::Loopback(x) => x.flags.bits,
        NetDevice::Ethernet => 0,
    };
    assert(((b | 1u16) & 1u16) == 1u16) by (bit_vector);
    assert(((b & !1u16) & 1u16) != 1u16) by (bit_vector);
    assert(((b | 1u16) | 1u16) == (b | 1u16)) by (bit_vector);
    assert(((b & !1u16) & !1u16) == (b & !1u16)) by (bit_vector);
}

/// A frame of a type with no registered protocol grows no queue and raises
/// no soft-IRQ.
pub proof fn law_unknown_type_dropped(pv: Seq<ProtoView>, dev: NetDeviceHandler, ty: u16, data: Seq<u8>)
    requires
        forall|j: int| 0 <= j < pv.len() ==> pv[j].0 != ty,
    ensures
        input_one(pv, dev, ty, data) == pv,
        input_raise(pv, ty) == Seq::<i32>::empty(),
{
    lemma_protocol_index(pv, ty);
}

/// The invocations of a soft-IRQ run over the first `n` protocols, when
/// only protocol `k` has frames queued.
proof fn lemma_all_deliveries_single(
    pv: Seq<ProtoView>,
    k: int,
    n: int,
    devices: Seq<NetDevice>,
    ifaces: Seq<NetInterfaceHandler>,
)
    requires
        0 <= k < pv.len(),
        0 <= n <= pv.len(),
        forall|j: int| 0 <= j < pv.len() && j != k ==> pv[j].2.len() == 0,
    ensures
        all_deliveries(pv.take(n), devices, ifaces) == if n > k {
            proto_deliveries(pv[k], devices, ifaces)
        } else {
            Seq::empty()
        },
    decreases n,
{
    if n > 0 {
        lemma_all_deliveries_single(pv, k, n - 1, devices, ifaces);
        assert(pv.take(n).drop_last() =~= pv.take(n - 1));
        assert(pv.take(n).last() == pv[n - 1]);
        if n - 1 != k {
            assert(proto_deliveries(pv[n - 1], devices, ifaces) =~= Seq::empty());
        }
        assert(all_deliveries(pv.take(n), devices, ifaces) =~= all_deliveries(pv.take(n - 1), devices, ifaces)
            + proto_deliveries(pv[n - 1], devices, ifaces));
    } else {
        assert(pv.take(0) =~= Seq::<ProtoView>::empty());
    }
}

/// A frame transmitted on a loopback device with an empty queue, taken back
/// in by the device's interrupt handler, reaches the handler of its
/// protocol in the next soft-IRQ run exactly once, with its bytes and the
/// device's handle, when no other frame is pending.
pub proof fn law_loopback_round_trip(
    pv: Seq<ProtoView>,
    devices: Seq<NetDevice>,
    ifaces: Seq<NetInterfaceHandler>,
    h: NetDeviceHandler,
    ty: u16,
    data: Seq<u8>,
)
    requires
        forall|j: int| 0 <= j < pv.len() ==> pv[j].2.len() == 0,
        protocol_index(pv, ty) >= 0,
    ensures
        pushed(Seq::<(u16, Seq<u8>)>::empty(), (ty, data), LOOPBACK_QUEUE_LIMIT as nat) == seq![
            (ty, data),
        ],
        all_deliveries(input_many(pv, h, seq![(ty, data)]), devices, ifaces) == seq![
            (ty, h, data, handler_outcome(pv[protocol_index(pv, ty)].1, devices, ifaces, data)),
        ],
{
    let k = protocol_index(pv, ty);
    lemma_protocol_index(pv, ty);
    assert(Seq::<(u16, Seq<u8>)>::empty().push((ty, data)) =~= seq![(ty, data)]);
    let fr = seq![(ty, data)];
    assert(fr.drop_last() =~= Seq::<(u16, Seq<u8>)>::empty());
    let pv2 = input_many(pv, h, fr);
    assert(input_many(pv, h, fr.drop_last()) == pv);
    assert(fr.last() == (ty, data));
    assert(pv2 == input_one(pv, h, ty, data));
    assert(pv2[k].2 =~= seq![(h, data)]);
    lemma_all_deliveries_single(pv2, k, pv2.len() as int, devices, ifaces);
    assert(pv2.take(pv2.len() as int) =~= pv2);
    assert(proto_deliveries(pv2[k], devices, ifaces) =~= seq![
        (ty, h, data, handler_outcome(pv[k].1, devices, ifaces, data)),
    ]);
}

} // verus!

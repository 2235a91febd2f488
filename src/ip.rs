use crate::error::{is_net_err, UtcpResult};
use crate::net::{
    device_attach_iface, has_family, iface_handle_valid, net_protocol_register, protocol_index,
    protos_view, NetDevice, NetDeviceHandler, NetInterface, NetInterfaceFamily,
    NetInterfaceHandler, NetProtocol, NetProtocolHandler, NetStack, IFACE_EXISTS_MSG,
    NET_PROTOCOL_TYPE_IP, NO_IFACE_SUPPORT_MSG, PROTOCOL_EXISTS_MSG,
};
use crate::utils::{
    checksum16, checksum_of, law_single_byte_change_detected, lemma_checksum_field_verifies,
};
use vstd::prelude::*;
use vstd::string::StringSliceAdditionalSpecFns;

verus! {

/// Length of the fixed IPv4 header.
pub const IP_HEADER_MIN_LEN: usize = 20;

/// Big-endian 16-bit number at `d[i..i + 2]`.
pub open spec fn be16(d: Seq<u8>, i: int) -> u16 {
    (d[i] as nat * 256 + d[i + 1] as nat) as u16
}

/// Big-endian 32-bit number at `d[i..i + 4]`.
pub open spec fn be32(d: Seq<u8>, i: int) -> u32 {
    (d[i] as nat * 0x1000000 + d[i + 1] as nat * 0x10000 + d[i + 2] as nat * 0x100 + d[
        i + 3
    ] as nat) as u32
}

/// The fixed IPv4 header, its multi-byte fields converted from network to
/// host order.
#[derive(Clone, Copy, Debug)]
pub struct IpHeader {
    /// Version and header length
    pub vhl: u8,
    /// Type of service
    pub tos: u8,
    /// Total length (header and data)
    pub total: u16,
    /// Identification
    pub id: u16,
    /// Flags (3 bits) and fragment offset (13 bits)
    pub offset: u16,
    /// Time to live
    pub ttl: u8,
    /// Protocol
    pub protocol: u8,
    /// Header checksum
    pub sum: u16,
    /// Source address
    pub src: u32,
    /// Destination address
    pub dst: u32,
}

/// The header at the start of `d`.
pub open spec fn header_of(d: Seq<u8>) -> IpHeader {
    IpHeader {
        vhl: d[0],
        tos: d[1],
        total: be16(d, 2),
        id: be16(d, 4),
        offset: be16(d, 6),
        ttl: d[8],
        protocol: d[9],
        sum: be16(d, 10),
        src: be32(d, 12),
        dst: be32(d, 16),
    }
}

impl IpHeader {
    pub open spec fn spec_version(self) -> u8 {
        self.vhl / 16
    }

    pub open spec fn spec_flags(self) -> u8 {
        (self.offset / 0x2000) as u8
    }

    pub open spec fn spec_fragment_offset(self) -> u16 {
        self.offset % 0x2000
    }

    pub open spec fn spec_more_fragments(self) -> bool {
        self.spec_flags() % 2 == 1
    }

    pub open spec fn spec_dont_fragment(self) -> bool {
        (self.spec_flags() / 2) % 2 == 1
    }

    /// Reads the fixed header at the start of `data`; `None` when `data` is
    /// too short to hold one.
    pub fn new(data: &[u8]) -> (r: Option<IpHeader>)
        ensures
            data@.len() < IP_HEADER_MIN_LEN ==> r is None,
            data@.len() >= IP_HEADER_MIN_LEN ==> r == Some(header_of(data@)),
    {
        if data.len() < IP_HEADER_MIN_LEN {
            return None;
        }
        Some(
            IpHeader {
                vhl: data[0],
                tos: data[1],
                total: read_be16(data, 2),
                id: read_be16(data, 4),
                offset: read_be16(data, 6),
                ttl: data[8],
                protocol: data[9],
                sum: read_be16(data, 10),
                src: read_be32(data, 12),
                dst: read_be32(data, 16),
            },
        )
    }

    pub fn version(&self) -> (r: u8)
        ensures
            r == self.spec_version(),
    {
        self.vhl / 16
    }

    /// Header length in 32-bit words.
    pub fn header_len(&self) -> (r: u8)
        ensures
            r == self.vhl % 16,
    {
        self.vhl % 16
    }

    pub fn tos(&self) -> (r: u8)
        ensures
            r == self.tos,
    {
        self.tos
    }

    pub fn total(&self) -> (r: u16)
        ensures
            r == self.total,
    {
        self.total
    }

    pub fn id(&self) -> (r: u16)
        ensures
            r == self.id,
    {
        self.id
    }

    /// Fragment offset: the low 13 bits of the field.
    pub fn offset(&self) -> (r: u16)
        ensures
            r == self.spec_fragment_offset(),
    {
        self.offset % 0x2000
    }

    /// The three flag bits: the top of the field.
    pub fn flags(&self) -> (r: u8)
        ensures
            r == self.spec_flags(),
            r < 8,
    {
        (self.offset / 0x2000) as u8
    }

    pub fn dont_fragment(&self) -> (r: bool)
        ensures
            r == self.spec_dont_fragment(),
    {
        (self.flags() / 2) % 2 == 1
    }

    pub fn more_fragments(&self) -> (r: bool)
        ensures
            r == self.spec_more_fragments(),
    {
        self.flags() % 2 == 1
    }

    pub fn ttl(&self) -> (r: u8)
        ensures
            r == self.ttl,
    {
        self.ttl
    }

    pub fn protocol(&self) -> (r: u8)
        ensures
            r == self.protocol,
    {
        self.protocol
    }

    pub fn sum(&self) -> (r: u16)
        ensures
            r == self.sum,
    {
        self.sum
    }

    pub fn src(&self) -> (r: IpAddress)
        ensures
            r == IpAddress(self.src),
    {
        IpAddress(self.src)
    }

    pub fn dst(&self) -> (r: IpAddress)
        ensures
            r == IpAddress(self.dst),
    {
        IpAddress(self.dst)
    }
}

fn read_be16(d: &[u8], i: usize) -> (r: u16)
    requires
        i + 2 <= d@.len(),
    ensures
        r == be16(d@, i as int),
{
    d[i] as u16 * 256 + d[i + 1] as u16
}

fn read_be32(d: &[u8], i: usize) -> (r: u32)
    requires
        i + 4 <= d@.len(),
    ensures
        r == be32(d@, i as int),
{
    d[i] as u32 * 0x1000000 + d[i + 1] as u32 * 0x10000 + d[i + 2] as u32 * 0x100 + d[i + 3] as u32
}

/// An IPv4 address, as a host-order 32-bit number.
#[derive(Clone, Copy, Debug, PartialEq, Eq, Structural)]
pub struct IpAddress(pub u32);

/// The dot-separated fields of `s`, in order; an empty string is one empty
/// field.
pub open spec fn split_dots(s: Seq<u8>) -> Seq<Seq<u8>>
    decreases s.len(),
{
    if s.len() == 0 {
        seq![Seq::empty()]
    } else {
        let rest = split_dots(s.drop_last());
        if s.last() == 46 {
            rest.push(Seq::empty())
        } else {
            rest.update(rest.len() - 1, rest.last().push(s.last()))
        }
    }
}

pub open spec fn is_digit(b: u8) -> bool {
    48 <= b <= 57
}

pub open spec fn all_digits(f: Seq<u8>) -> bool {
    forall|j: int| 0 <= j < f.len() ==> is_digit(#[trigger] f[j])
}

/// The number written in decimal by the digits `f` (zero when empty).
pub open spec fn dec_value(f: Seq<u8>) -> nat
    decreases f.len(),
{
    if f.len() == 0 {
        0
    } else {
        dec_value(f.drop_last()) * 10 + (f.last() - 48) as nat
    }
}

/// `s` is four dot-separated decimal numbers, each at most 255.
pub open spec fn is_dotted_quad(s: Seq<u8>) -> bool {
    let fs = split_dots(s);
    &&& fs.len() == 4
    &&& forall|k: int| 0 <= k < 4 ==> all_digits(#[trigger] fs[k]) && dec_value(fs[k]) <= 255
}

/// The address written by the dotted quad `s`, first field most significant.
pub open spec fn quad_value(s: Seq<u8>) -> u32 {
    let fs = split_dots(s);
    (dec_value(fs[0]) * 0x1000000 + dec_value(fs[1]) * 0x10000 + dec_value(fs[2]) * 0x100
        + dec_value(fs[3])) as u32
}

proof fn lemma_split_nonempty(s: Seq<u8>)
    ensures
        split_dots(s).len() >= 1,
    decreases s.len(),
{
    if s.len() > 0 {
        lemma_split_nonempty(s.drop_last());
    }
}

/// The fields of a prefix of `s` are the leading fields of `s`, the last
/// one possibly cut short.
proof fn lemma_split_prefix(s: Seq<u8>, i: int, j: int)
    requires
        0 <= i <= j <= s.len(),
    ensures
        ({
            let a = split_dots(s.take(i));
            let b = split_dots(s.take(j));
            &&& 1 <= a.len() <= b.len()
            &&& forall|p: int| 0 <= p < a.len() - 1 ==> a[p] == b[p]
            &&& a.last().len() <= b[a.len() - 1].len()
            &&& b[a.len() - 1].take(a.last().len() as int) == a.last()
        }),
    decreases j - i,
{
    lemma_split_nonempty(s.take(i));
    if i == j {
        let a = split_dots(s.take(i));
        assert(a.last().take(a.last().len() as int) =~= a.last());
    } else {
        lemma_split_prefix(s, i, j - 1);
        lemma_split_nonempty(s.take(j - 1));
        assert(s.take(j).drop_last() =~= s.take(j - 1));
        let a = split_dots(s.take(i));
        let b0 = split_dots(s.take(j - 1));
        let b = split_dots(s.take(j));
        if s[j - 1] != 46 && a.len() == b0.len() {
            assert(b[a.len() - 1].take(a.last().len() as int) =~= b0[a.len() - 1].take(
                a.last().len() as int,
            ));
        }
    }
}

/// A prefix of a string of digits is worth no more than the whole.
proof fn lemma_dec_prefix(f: Seq<u8>, k: int)
    requires
        0 <= k <= f.len(),
        all_digits(f),
    ensures
        dec_value(f.take(k)) <= dec_value(f),
    decreases f.len() - k,
{
    if k < f.len() {
        assert(f.drop_last().take(k) =~= f.take(k));
        assert(all_digits(f.drop_last())) by {
            assert forall|j: int| 0 <= j < f.drop_last().len() implies is_digit(
                #[trigger] f.drop_last()[j],
            ) by {
                assert(f.drop_last()[j] == f[j]);
            }
        }
        lemma_dec_prefix(f.drop_last(), k);
        assert(f.len() - 1 < f.len());
        assert(is_digit(f[f.len() - 1]));
    } else {
        assert(f.take(k) =~= f);
    }
}

impl IpAddress {
    /// Reads a dotted-quad address such as "127.0.0.1".
    pub fn parse_from(s: &str) -> (r: IpAddress)
        requires
            is_dotted_quad(s.spec_bytes()),
        ensures
            r.0 == quad_value(s.spec_bytes()),
    {
        let bytes = s.as_bytes();
        let ghost sb = bytes@;
        let ghost fs = split_dots(sb);
        let mut parts: Vec<u8> = Vec::new();
        let mut value: u8 = 0;
        let mut i: usize = 0;
        proof {
            assert(sb.take(0) =~= Seq::<u8>::empty());
            assert(split_dots(Seq::<u8>::empty())[0] =~= Seq::<u8>::empty());
        }
        while i < bytes.len()
            invariant
                sb == bytes@,
                fs == split_dots(sb),
                is_dotted_quad(sb),
                i <= sb.len(),
                split_dots(sb.take(i as int)).len() == parts@.len() + 1,
                parts@.len() <= 3,
                forall|p: int| 0 <= p < parts@.len() ==> parts@[p] as nat == dec_value(fs[p]),
                value as nat == dec_value(split_dots(sb.take(i as int)).last()),
            decreases sb.len() - i,
        {
            let b = bytes[i];
            proof {
                lemma_split_prefix(sb, i as int, i + 1);
                lemma_split_prefix(sb, i + 1, sb.len() as int);
                lemma_split_prefix(sb, i as int, sb.len() as int);
                assert(sb.take(i + 1).drop_last() =~= sb.take(i as int));
                assert(sb.take(sb.len() as int) =~= sb);
            }
            let ghost a = split_dots(sb.take(i as int));
            let ghost a1 = split_dots(sb.take(i + 1));
            if b == 46 {
                proof {
                    assert(a.len() - 1 < 4 - 1);
                    assert(a.last() == fs[a.len() - 1].take(a.last().len() as int));
                    assert(a1.len() == a.len() + 1);
                    assert(a[a.len() - 1] == fs[a.len() - 1]);
                }
                parts.push(value);
                value = 0;
            } else {
                proof {
                    let k = a1.len() - 1;
                    assert(a1.last() == a.last().push(b));
                    assert(fs[k].take(a1.last().len() as int) == a1.last());
                    assert(all_digits(fs[k]));
                    assert(fs[k][a1.last().len() - 1] == a1.last()[a1.last().len() - 1]);
                    assert(is_digit(b));
                    lemma_dec_prefix(fs[k], a1.last().len() as int);
                    assert(a1.last().drop_last() =~= a.last());
                    assert(dec_value(a1.last()) <= 255);
                }
                let digit = b - 48;
                value = value * 10 + digit;
            }
            i = i + 1;
        }
        proof {
            assert(sb.take(sb.len() as int) =~= sb);
        }
        parts.push(value);
        let addr = parts[0] as u32 * 0x1000000 + parts[1] as u32 * 0x10000 + parts[2] as u32 * 0x100
            + parts[3] as u32;
        IpAddress(addr)
    }
}

impl From<u32> for IpAddress {
    fn from(addr: u32) -> (r: IpAddress) {
        IpAddress(addr)
    }
}

impl vstd::std_specs::convert::FromSpecImpl<u32> for IpAddress {
    open spec fn obeys_from_spec() -> bool {
        true
    }

    open spec fn from_spec(v: u32) -> IpAddress {
        IpAddress(v)
    }
}

/// The address whose octets, first one most significant, are `o`.
pub open spec fn octets_value(o: [u8; 4]) -> u32 {
    (o[0] as nat * 0x1000000 + o[1] as nat * 0x10000 + o[2] as nat * 0x100 + o[3] as nat) as u32
}

impl From<[u8; 4]> for IpAddress {
    fn from(octets: [u8; 4]) -> (r: IpAddress) {
        IpAddress(
            octets[0] as u32 * 0x1000000 + octets[1] as u32 * 0x10000 + octets[2] as u32 * 0x100
                + octets[3] as u32,
        )
    }
}

impl vstd::std_specs::convert::FromSpecImpl<[u8; 4]> for IpAddress {
    open spec fn obeys_from_spec() -> bool {
        true
    }

    open spec fn from_spec(v: [u8; 4]) -> IpAddress {
        IpAddress(octets_value(v))
    }
}

/// 0.0.0.0
pub const IP_ADDR_ANY: u32 = 0;

/// 255.255.255.255
pub const IP_ADDR_BROADCAST: u32 = 0xffff_ffff;

/// An IPv4 interface: unicast address, netmask, and the subnet broadcast
/// address derived from them.
#[derive(Debug)]
pub struct IpInterface {
    pub unicast: IpAddress,
    pub netmask: IpAddress,
    pub broadcast: IpAddress,
}

impl IpInterface {
    pub open spec fn wf(&self) -> bool {
        self.broadcast.0 == self.unicast.0 | !self.netmask.0
    }

    pub fn new(unicast: IpAddress, netmask: IpAddress) -> (r: IpInterface)
        ensures
            r.unicast == unicast,
            r.netmask == netmask,
            r.broadcast.0 == unicast.0 | !netmask.0,
            r.wf(),
    {
        let broadcast = IpAddress(unicast.0 | !netmask.0);
        IpInterface { unicast, netmask, broadcast }
    }
}

/// What IPv4 input made of a received datagram.
#[derive(Clone, Copy, Debug, PartialEq, Eq, Structural)]
pub enum IpInputResult {
    /// Shorter than the fixed header.
    TooShort,
    /// Shorter than the header's total length.
    Truncated,
    /// The version field is not 4.
    NotIpv4,
    /// The checksum over the datagram does not come out zero.
    ChecksumMismatch,
    /// More fragments follow, or the fragment offset is not zero.
    Fragmented,
    /// No interface takes the destination address.
    NoInterface,
    /// Accepted by this interface.
    Accepted(NetInterfaceHandler),
}

/// Registers the IPv4 protocol; refused when a protocol of its type is
/// already registered.
pub fn ip_init(stack: &mut NetStack) -> (r: UtcpResult<()>)
    requires
        old(stack).wf(),
    ensures
        final(stack).wf(),
        protocol_index(protos_view(old(stack).protocols@), NET_PROTOCOL_TYPE_IP) >= 0 ==> is_net_err(
            r,
            PROTOCOL_EXISTS_MSG@,
        ) && final(stack).protocols == old(stack).protocols,
        protocol_index(protos_view(old(stack).protocols@), NET_PROTOCOL_TYPE_IP) < 0 ==> r is Ok
            && protos_view(final(stack).protocols@) == protos_view(old(stack).protocols@).push(
            (NET_PROTOCOL_TYPE_IP, NetProtocolHandler::Ip, Seq::empty()),
        ),
        final(stack).devices == old(stack).devices,
        final(stack).ip_ifaces == old(stack).ip_ifaces,
        final(stack).intr == old(stack).intr,
        final(stack).next_device_index == old(stack).next_device_index,
{
    net_protocol_register(stack, NetProtocol::new(NET_PROTOCOL_TYPE_IP, NetProtocolHandler::Ip))
}

/// The interface behind handle `h`.
pub open spec fn iface_at(devices: Seq<NetDevice>, h: NetInterfaceHandler) -> NetInterface {
    devices[h.dev.private as int].spec_ifaces()[h.iface_index as int]
}

/// Interface `i` takes datagrams for `addr`: its own address, its subnet
/// broadcast, or the limited broadcast.
pub open spec fn iface_accepts(i: NetInterface, addr: u32) -> bool {
    match i {
        NetInterface::Ip(ip) => addr == ip.unicast.0 || addr == ip.broadcast.0 || addr
            == IP_ADDR_BROADCAST,
    }
}

/// The first interface, from position `i` of the IPv4 interface table on,
/// that takes datagrams for `addr`.
pub open spec fn select_from(
    devices: Seq<NetDevice>,
    ifaces: Seq<NetInterfaceHandler>,
    addr: u32,
    i: int,
) -> Option<NetInterfaceHandler>
    decreases ifaces.len() - i,
{
    if i < 0 || i >= ifaces.len() {
        None
    } else if iface_accepts(iface_at(devices, ifaces[i]), addr) {
        Some(ifaces[i])
    } else {
        select_from(devices, ifaces, addr, i + 1)
    }
}

/// Picks the interface that takes datagrams for `addr`, scanning the IPv4
/// interfaces in registration order.
pub fn ip_iface_select(stack: &NetStack, addr: IpAddress) -> (r: Option<NetInterfaceHandler>)
    requires
        stack.wf(),
    ensures
        r == select_from(stack.devices@, stack.ip_ifaces@, addr.0, 0),
{
    let mut i: usize = 0;
    while i < stack.ip_ifaces.len()
        invariant
            stack.wf(),
            i <= stack.ip_ifaces@.len(),
            select_from(stack.devices@, stack.ip_ifaces@, addr.0, 0) == select_from(
                stack.devices@,
                stack.ip_ifaces@,
                addr.0,
                i as int,
            ),
        decreases stack.ip_ifaces@.len() - i,
    {
        let h = stack.ip_ifaces[i];
        assert(iface_handle_valid(stack.devices@, stack.ip_ifaces@[i as int]));
        let ifs = stack.devices[h.dev.private].get_interfaces();
        match &ifs[h.iface_index] {
            NetInterface::Ip(ip) => {
                if addr.0 == ip.unicast.0 || addr.0 == ip.broadcast.0 || addr.0 == IP_ADDR_BROADCAST {
                    return Some(h);
                }
            },
        }
        i = i + 1;
    }
    None
}

/// What IPv4 input makes of datagram `d`, given the devices and the IPv4
/// interface table.
pub open spec fn ip_verdict(
    devices: Seq<NetDevice>,
    ifaces: Seq<NetInterfaceHandler>,
    d: Seq<u8>,
) -> IpInputResult {
    if d.len() < IP_HEADER_MIN_LEN {
        IpInputResult::TooShort
    } else {
        let h = header_of(d);
        if d.len() < h.total {
            IpInputResult::Truncated
        } else if h.spec_version() != 4 {
            IpInputResult::NotIpv4
        } else if checksum_of(d, 0) != 0 {
            IpInputResult::ChecksumMismatch
        } else if h.spec_more_fragments() || h.spec_fragment_offset() != 0 {
            IpInputResult::Fragmented
        } else {
            match select_from(devices, ifaces, h.dst, 0) {
                Some(x) => IpInputResult::Accepted(x),
                None => IpInputResult::NoInterface,
            }
        }
    }
}

/// IPv4 input: validates datagram `data` received on `dev` (length, version,
/// checksum over the whole datagram, no fragments) and selects the
/// interface that takes its destination.
pub fn ip_input(stack: &NetStack, data: &[u8], dev: &NetDeviceHandler) -> (r: IpInputResult)
    requires
        stack.wf(),
    ensures
        r == ip_verdict(stack.devices@, stack.ip_ifaces@, data@),
{
    let ip_hdr = match IpHeader::new(data) {
        Some(h) => h,
        None => {
            return IpInputResult::TooShort;
        },
    };
    if data.len() < ip_hdr.total() as usize {
        return IpInputResult::Truncated;
    }
    if ip_hdr.version() != 4 {
        return IpInputResult::NotIpv4;
    }
    let actual = checksum16(data, 0);
    if actual != 0 {
        return IpInputResult::ChecksumMismatch;
    }
    if ip_hdr.more_fragments() || ip_hdr.offset() != 0 {
        return IpInputResult::Fragmented;
    }
    match ip_iface_select(stack, ip_hdr.dst()) {
        Some(iface) => IpInputResult::Accepted(iface),
        None => IpInputResult::NoInterface,
    }
}

/// Binds IPv4 interface `iface` to the device behind `handler` and enters it
/// in the IPv4 interface table. Only loopback devices take interfaces, and
/// at most one IPv4 interface each.
pub fn ip_iface_register(stack: &mut NetStack, handler: NetDeviceHandler, iface: IpInterface) -> (r:
    UtcpResult<()>)
    requires
        old(stack).wf(),
        handler.private < old(stack).devices@.len(),
    ensures
        final(stack).wf(),
        !(old(stack).resolve(handler) is Loopback) ==> is_net_err(r, NO_IFACE_SUPPORT_MSG@)
            && *final(stack) == *old(stack),
        old(stack).resolve(handler) is Loopback && has_family(
            old(stack).resolve(handler).spec_ifaces(),
            NetInterfaceFamily::Ip,
        ) ==> is_net_err(r, IFACE_EXISTS_MSG@) && *final(stack) == *old(stack),
        old(stack).resolve(handler) is Loopback && !has_family(
            old(stack).resolve(handler).spec_ifaces(),
            NetInterfaceFamily::Ip,
        ) ==> {
            &&& r is Ok
            &&& final(stack).devices@.len() == old(stack).devices@.len()
            &&& forall|j: int|
                0 <= j < old(stack).devices@.len() && j != handler.private ==> final(stack).devices@[j]
                    == old(stack).devices@[j]
            &&& final(stack).resolve(handler).spec_ifaces() == old(stack).resolve(
                handler,
            ).spec_ifaces().push(NetInterface::Ip(iface))
            &&& final(stack).resolve(handler).spec_name() == old(stack).resolve(handler).spec_name()
            &&& final(stack).resolve(handler).spec_up() == old(stack).resolve(handler).spec_up()
            &&& final(stack).ip_ifaces@ == old(stack).ip_ifaces@.push(
                NetInterfaceHandler {
                    dev: handler,
                    iface_index: old(stack).resolve(handler).spec_ifaces().len() as usize,
                    family: NetInterfaceFamily::Ip,
                },
            )
            &&& final(stack).protocols == old(stack).protocols
            &&& final(stack).intr == old(stack).intr
            &&& final(stack).next_device_index == old(stack).next_device_index
        },
{
    let h = match device_attach_iface(stack, handler, NetInterface::Ip(iface)) {
        Ok(h) => h,
        Err(e) => {
            return Err(e);
        },
    };
    stack.ip_ifaces.push(h);
    proof {
        assert forall|k: int| 0 <= k < stack.ip_ifaces@.len() implies iface_handle_valid(
            stack.devices@,
            #[trigger] stack.ip_ifaces@[k],
        ) by {
            if k < stack.ip_ifaces@.len() - 1 {
                assert(stack.ip_ifaces@[k] == old(stack).ip_ifaces@[k]);
            }
        }
    }
    Ok(())
}

/// A datagram that checked to zero and then had one byte changed is dropped
/// at the checksum check, once it still passes the length and version
/// checks: no interface is selected for it.
pub proof fn law_corrupted_datagram_dropped(
    devices: Seq<NetDevice>,
    ifaces: Seq<NetInterfaceHandler>,
    d: Seq<u8>,
    j: int,
    v: u8,
)
    requires
        0 <= j < d.len(),
        v != d[j],
        checksum_of(d, 0) == 0,
        d.len() >= IP_HEADER_MIN_LEN,
        d.len() >= header_of(d.update(j, v)).total,
        header_of(d.update(j, v)).spec_version() == 4,
    ensures
        ip_verdict(devices, ifaces, d.update(j, v)) == IpInputResult::ChecksumMismatch,
{
    law_single_byte_change_detected(d, j, v);
}

/// An IPv4 header whose checksum field holds the checksum of the header
/// taken with that field zeroed, stored low byte first as computed, checks
/// to zero.
pub proof fn law_ip_header_checksum(h: Seq<u8>)
    requires
        h.len() >= IP_HEADER_MIN_LEN,
        h[10] == 0,
        h[11] == 0,
    ensures
        ({
            let c = checksum_of(h, 0);
            checksum_of(h.update(10, (c % 256) as u8).update(11, (c / 256) as u8), 0) == 0
        }),
{
    lemma_checksum_field_verifies(h, 5);
}

} // verus!

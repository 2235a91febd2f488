use utcp::driver::loopback::LoopbackNetDevice;
use utcp::ip::{
    ip_iface_register, ip_iface_select, ip_init, ip_input, IpAddress, IpHeader, IpInputResult,
    IpInterface,
};
use utcp::net::{net_init, NetDeviceHandler, NetInterfaceFamily, NetInterfaceHandler, NetStack};
use utcp::utils::checksum16;

const TEST_DATA: [u8; 48] = [
    0x45, 0x00, 0x00, 0x30, 0x00, 0x80, 0x00, 0x00, 0xff, 0x01, 0xbd, 0x4a, 0x7f, 0x00, 0x00, 0x01,
    0x7f, 0x00, 0x00, 0x01, 0x08, 0x00, 0x35, 0x64, 0x00, 0x80, 0x00, 0x01, 0x31, 0x32, 0x33, 0x34,
    0x35, 0x36, 0x37, 0x38, 0x39, 0x30, 0x21, 0x40, 0x23, 0x24, 0x25, 0x5e, 0x26, 0x2a, 0x28, 0x29,
];

fn stack_with(addr: &str, mask: &str) -> (NetStack, NetDeviceHandler) {
    let mut stack = net_init().unwrap();
    let dev = LoopbackNetDevice::init(&mut stack).unwrap();
    let iface = IpInterface::new(IpAddress::parse_from(addr), IpAddress::parse_from(mask));
    ip_iface_register(&mut stack, dev, iface).unwrap();
    (stack, dev)
}

/// A header of `total` bytes with a correct checksum, sent to `dst`.
fn datagram(dst: [u8; 4], flags_offset: u16, total: usize) -> Vec<u8> {
    let mut d = vec![0u8; total];
    d[0] = 0x45;
    d[2] = (total >> 8) as u8;
    d[3] = total as u8;
    d[6] = (flags_offset >> 8) as u8;
    d[7] = flags_offset as u8;
    d[8] = 64;
    d[9] = 17;
    d[12..16].copy_from_slice(&[10, 0, 0, 2]);
    d[16..20].copy_from_slice(&dst);
    let c = checksum16(&d, 0);
    d[10] = (c % 256) as u8;
    d[11] = (c / 256) as u8;
    d
}

#[test]
fn parse_dotted_quads() {
    assert_eq!(IpAddress::parse_from("127.0.0.1"), IpAddress(0x7f00_0001));
    assert_eq!(IpAddress::parse_from("255.0.0.0"), IpAddress(0xff00_0000));
    assert_eq!(IpAddress::parse_from("192.168.1.254"), IpAddress(0xc0a8_01fe));
    assert_eq!(IpAddress::parse_from("0.0.0.0"), IpAddress(0));
    assert_eq!(IpAddress::parse_from("255.255.255.255"), IpAddress(0xffff_ffff));
}

#[test]
fn interface_broadcast_from_netmask() {
    let i = IpInterface::new(IpAddress::parse_from("127.0.0.1"), IpAddress::parse_from("255.0.0.0"));
    assert_eq!(i.broadcast, IpAddress(0x7fff_ffff));
    let j = IpInterface::new(IpAddress::parse_from("192.168.1.7"), IpAddress::parse_from("255.255.255.0"));
    assert_eq!(j.broadcast, IpAddress(0xc0a8_01ff));
}

#[test]
fn header_fields_of_fixture() {
    assert!(IpHeader::new(&TEST_DATA[..19]).is_none());
    let h = IpHeader::new(&TEST_DATA).unwrap();
    assert_eq!(h.version(), 4);
    assert_eq!(h.header_len(), 5);
    assert_eq!(h.tos(), 0);
    assert_eq!(h.total(), 48);
    assert_eq!(h.id(), 0x0080);
    assert_eq!(h.offset(), 0);
    assert_eq!(h.flags(), 0);
    assert!(!h.dont_fragment());
    assert!(!h.more_fragments());
    assert_eq!(h.ttl(), 255);
    assert_eq!(h.protocol(), 1);
    assert_eq!(h.sum(), 0xbd4a);
    assert_eq!(h.src(), IpAddress(0x7f00_0001));
    assert_eq!(h.dst(), IpAddress(0x7f00_0001));
}

#[test]
fn header_flags_and_offset() {
    let d = datagram([10, 0, 0, 1], 0x6005, 20);
    let h = IpHeader::new(&d).unwrap();
    assert_eq!(h.flags(), 3);
    assert!(h.dont_fragment());
    assert!(h.more_fragments());
    assert_eq!(h.offset(), 5);
}

#[test]
fn fixture_checksums_to_zero() {
    assert_eq!(checksum16(&TEST_DATA[..20], 0), 0);
    assert_eq!(checksum16(&TEST_DATA, 0), 0);
}

#[test]
fn filled_in_header_checksum_verifies() {
    let mut h = TEST_DATA[..20].to_vec();
    h[10] = 0;
    h[11] = 0;
    let c = checksum16(&h, 0);
    h[10] = (c % 256) as u8;
    h[11] = (c / 256) as u8;
    assert_eq!(&h[10..12], &[0xbd, 0x4a]);
    assert_eq!(checksum16(&h, 0), 0);
}

#[test]
fn ip_input_accepts_fixture() {
    let (stack, dev) = stack_with("127.0.0.1", "255.0.0.0");
    let want = NetInterfaceHandler { dev, iface_index: 0, family: NetInterfaceFamily::Ip };
    assert_eq!(ip_input(&stack, &TEST_DATA, &dev), IpInputResult::Accepted(want));
}

#[test]
fn ip_input_rejections() {
    let (stack, dev) = stack_with("10.0.0.1", "255.255.255.0");
    assert_eq!(ip_input(&stack, &TEST_DATA[..10], &dev), IpInputResult::TooShort);
    assert_eq!(ip_input(&stack, &TEST_DATA[..40], &dev), IpInputResult::Truncated);
    let mut v6 = TEST_DATA;
    v6[0] = 0x65;
    assert_eq!(ip_input(&stack, &v6, &dev), IpInputResult::NotIpv4);
    let mut bad = TEST_DATA;
    bad[15] = 2;
    assert_eq!(ip_input(&stack, &bad, &dev), IpInputResult::ChecksumMismatch);
    let frag = datagram([10, 0, 0, 1], 0x2000, 20);
    assert_eq!(ip_input(&stack, &frag, &dev), IpInputResult::Fragmented);
    let later = datagram([10, 0, 0, 1], 0x0008, 20);
    assert_eq!(ip_input(&stack, &later, &dev), IpInputResult::Fragmented);
    let elsewhere = datagram([10, 0, 1, 1], 0, 20);
    assert_eq!(ip_input(&stack, &elsewhere, &dev), IpInputResult::NoInterface);
}

#[test]
fn interface_selection_rules() {
    let (stack, dev) = stack_with("10.0.0.1", "255.255.255.0");
    let want = Some(NetInterfaceHandler { dev, iface_index: 0, family: NetInterfaceFamily::Ip });
    assert_eq!(ip_iface_select(&stack, IpAddress(0x0a00_0001)), want);
    assert_eq!(ip_iface_select(&stack, IpAddress(0x0a00_00ff)), want);
    assert_eq!(ip_iface_select(&stack, IpAddress(0xffff_ffff)), want);
    assert_eq!(ip_iface_select(&stack, IpAddress(0x0a00_0002)), None);
    let empty = net_init().unwrap();
    assert_eq!(ip_iface_select(&empty, IpAddress(0xffff_ffff)), None);
    let broadcast = datagram([10, 0, 0, 255], 0, 28);
    assert_eq!(ip_input(&stack, &broadcast, &dev), IpInputResult::Accepted(want.unwrap()));
}

#[test]
fn ip_init_refuses_second_registration() {
    let mut stack = net_init().unwrap();
    assert!(ip_init(&mut stack).is_err());
}

#[test]
fn address_from_number_and_octets() {
    assert_eq!(IpAddress::from(0x7f00_0001u32), IpAddress(0x7f00_0001));
    assert_eq!(IpAddress::from([127u8, 0, 0, 1]), IpAddress(0x7f00_0001));
    assert_eq!(IpAddress::from([192u8, 168, 1, 254]), IpAddress::parse_from("192.168.1.254"));
}

#[test]
fn every_single_byte_change_is_detected() {
    for j in 0..TEST_DATA.len() {
        for delta in [1u8, 0x10, 0x80, 0xff] {
            let mut d = TEST_DATA;
            d[j] = d[j].wrapping_add(delta);
            assert_ne!(checksum16(&d, 0), 0, "byte {} changed by {}", j, delta);
        }
    }
}

#[test]
fn corrupted_header_is_dropped_at_checksum() {
    let (stack, dev) = stack_with("127.0.0.1", "255.0.0.0");
    for j in [1usize, 4, 5, 8, 9, 10, 11, 12, 15, 16, 19] {
        let mut d = TEST_DATA;
        d[j] ^= 0xff;
        assert_eq!(ip_input(&stack, &d, &dev), IpInputResult::ChecksumMismatch, "byte {}", j);
    }
}

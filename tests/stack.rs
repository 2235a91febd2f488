use utcp::driver::dummy::{DummyNetDevice, DUMMY_IRQ};
use utcp::driver::loopback::{LoopbackNetDevice, LOOPBACK_IRQ};
use utcp::driver::{INTR_IRQ_SOFTIRQ, INTR_IRQ_TERMINATE};
use utcp::error::UtcpErr;
use utcp::ip::{ip_iface_register, IpAddress, IpInputResult, IpInterface};
use utcp::net::{
    net_device_add_iface, net_device_close, net_device_get_iface, net_device_open,
    net_device_output, net_init, net_input_handler, net_protocol_register, net_run,
    net_shutdown, net_softirq_handler, NetDevice, NetDeviceHandler, NetInterface,
    NetInterfaceFamily, NetInterfaceHandler, NetProtocol, NetProtocolDelivery,
    NetProtocolHandler, NetStack, IFACE_EXISTS_MSG, NET_PROTOCOL_TYPE_IP, NOT_UP_MSG,
    NO_IFACE_SUPPORT_MSG, PROTOCOL_EXISTS_MSG, TOO_LARGE_MSG,
};
use utcp::platform::linux::intr::{
    intr_dispatch, intr_invoke, intr_raise_irq, intr_request_irq, intr_take_raised, IntrAction,
    IRQ_CONFLICT_MSG,
};
use utcp::platform::{IRQFlags, IrqHandler};

const TEST_DATA: [u8; 48] = [
    0x45, 0x00, 0x00, 0x30, 0x00, 0x80, 0x00, 0x00, 0xff, 0x01, 0xbd, 0x4a, 0x7f, 0x00, 0x00, 0x01,
    0x7f, 0x00, 0x00, 0x01, 0x08, 0x00, 0x35, 0x64, 0x00, 0x80, 0x00, 0x01, 0x31, 0x32, 0x33, 0x34,
    0x35, 0x36, 0x37, 0x38, 0x39, 0x30, 0x21, 0x40, 0x23, 0x24, 0x25, 0x5e, 0x26, 0x2a, 0x28, 0x29,
];

/// What delivering the raised signals did.
#[derive(Default)]
struct Run {
    signals: Vec<i32>,
    isr_runs: Vec<(usize, i32)>,
    deliveries: Vec<NetProtocolDelivery>,
    terminated: bool,
}

/// Plays the interrupt thread: delivers raised signals until none is left.
fn deliver_all(stack: &mut NetStack) -> Run {
    let mut run = Run::default();
    loop {
        let sigs = intr_take_raised(&mut stack.intr);
        if sigs.is_empty() {
            return run;
        }
        for sig in sigs {
            run.signals.push(sig);
            match intr_dispatch(&stack.intr, sig) {
                IntrAction::Terminate => run.terminated = true,
                IntrAction::SoftIrq => run.deliveries.extend(net_softirq_handler(stack)),
                IntrAction::Irq(entries) => {
                    for k in entries {
                        run.isr_runs.push((k, sig));
                        intr_invoke(stack, k, sig);
                    }
                }
            }
        }
    }
}

fn net_msg(e: &UtcpErr) -> Option<&str> {
    match e {
        UtcpErr::Net(m) => Some(m.as_str()),
        UtcpErr::Intr(_) => None,
    }
}

fn loopback_with_iface() -> (NetStack, NetDeviceHandler) {
    let mut stack = net_init().unwrap();
    let dev = LoopbackNetDevice::init(&mut stack).unwrap();
    let iface = IpInterface::new(
        IpAddress::parse_from("127.0.0.1"),
        IpAddress::parse_from("255.0.0.0"),
    );
    ip_iface_register(&mut stack, dev, iface).unwrap();
    (stack, dev)
}

#[test]
fn init_registers_ipv4_and_waits_for_control_signals() {
    let stack = net_init().unwrap();
    assert_eq!(stack.protocols.len(), 1);
    assert_eq!(stack.protocols[0].ty, NET_PROTOCOL_TYPE_IP);
    assert_eq!(stack.protocols[0].handler, NetProtocolHandler::Ip);
    assert_eq!(stack.intr.sigmask, vec![INTR_IRQ_TERMINATE, INTR_IRQ_SOFTIRQ]);
    assert!(stack.devices.is_empty());
    assert!(!stack.intr.running);
}

#[test]
fn devices_are_named_by_a_counter() {
    let mut stack = net_init().unwrap();
    let d0 = DummyNetDevice::init(&mut stack).unwrap();
    let d1 = LoopbackNetDevice::init(&mut stack).unwrap();
    assert_eq!(d0, NetDeviceHandler { private: 0 });
    assert_eq!(d1, NetDeviceHandler { private: 1 });
    assert_eq!(stack.devices[0].name(), "dev0");
    assert_eq!(stack.devices[1].name(), "dev1");
    assert_eq!(stack.intr.irqs[0].debug_name, "dev0");
    assert!(stack.intr.sigmask.contains(&DUMMY_IRQ));
    assert!(stack.intr.sigmask.contains(&LOOPBACK_IRQ));
}

#[test]
fn registered_device_resolves_and_is_down() {
    let mut stack = net_init().unwrap();
    let dev = DummyNetDevice::init(&mut stack).unwrap();
    assert_eq!(stack.devices[dev.private].name(), "dev0");
    assert!(!stack.devices[dev.private].is_up());
    let r = net_device_output(&mut stack, &dev, 0x0800, b"Hello, World", &mut []);
    assert_eq!(net_msg(&r.unwrap_err()), Some(NOT_UP_MSG));
    assert!(stack.intr.raised.is_empty());
}

#[test]
fn open_and_close_toggle_up_idempotently() {
    let mut stack = net_init().unwrap();
    let dev = LoopbackNetDevice::init(&mut stack).unwrap();
    let d = &mut stack.devices[dev.private];
    net_device_open(d).unwrap();
    assert!(d.is_up());
    net_device_open(d).unwrap();
    assert!(d.is_up());
    net_device_close(d).unwrap();
    assert!(!d.is_up());
    net_device_close(d).unwrap();
    assert!(!d.is_up());
}

#[test]
fn irq_sharing_must_agree() {
    let mut stack = net_init().unwrap();
    let dev = NetDeviceHandler { private: 0 };
    intr_request_irq(&mut stack.intr, 40, IrqHandler::Dummy, IRQFlags::shared(), "a".to_string(), dev)
        .unwrap();
    let r = intr_request_irq(&mut stack.intr, 40, IrqHandler::Dummy, IRQFlags::empty(), "b".to_string(), dev);
    match r {
        Err(UtcpErr::Intr(m)) => assert_eq!(m, IRQ_CONFLICT_MSG),
        _ => panic!("expected an interrupt error"),
    }
    assert_eq!(stack.intr.irqs.len(), 1);
    intr_request_irq(&mut stack.intr, 40, IrqHandler::Dummy, IRQFlags::shared(), "c".to_string(), dev)
        .unwrap();
    assert_eq!(stack.intr.irqs.len(), 2);
    assert_eq!(stack.intr.sigmask.iter().filter(|s| **s == 40).count(), 1);
}

#[test]
fn two_devices_share_an_irq() {
    let mut stack = net_init().unwrap();
    DummyNetDevice::init(&mut stack).unwrap();
    DummyNetDevice::init(&mut stack).unwrap();
    match intr_dispatch(&stack.intr, DUMMY_IRQ) {
        IntrAction::Irq(v) => assert_eq!(v, vec![0, 1]),
        _ => panic!("expected IRQ handlers"),
    }
}

#[test]
fn unknown_type_is_dropped() {
    let (mut stack, dev) = loopback_with_iface();
    net_input_handler(&mut stack, &dev, 0x1234, b"abc").unwrap();
    assert!(stack.protocols[0].queue.is_empty());
    assert!(stack.intr.raised.is_empty());
}

#[test]
fn known_type_is_queued_and_raises_softirq() {
    let (mut stack, dev) = loopback_with_iface();
    net_input_handler(&mut stack, &dev, NET_PROTOCOL_TYPE_IP, b"abc").unwrap();
    assert_eq!(stack.protocols[0].queue.len(), 1);
    assert_eq!(stack.protocols[0].queue[0].data, b"abc".to_vec());
    assert_eq!(stack.intr.raised, vec![INTR_IRQ_SOFTIRQ]);
}

#[test]
fn loopback_round_trip_delivers_once() {
    let mut stack = net_init().unwrap();
    let dev = LoopbackNetDevice::init(&mut stack).unwrap();
    net_protocol_register(&mut stack, NetProtocol::new(0x9000, NetProtocolHandler::Raw)).unwrap();
    net_run(&mut stack).unwrap();
    net_device_output(&mut stack, &dev, 0x9000, b"ping", &mut []).unwrap();
    let run = deliver_all(&mut stack);
    assert_eq!(run.signals, vec![LOOPBACK_IRQ, INTR_IRQ_SOFTIRQ]);
    assert_eq!(run.deliveries.len(), 1);
    let d = &run.deliveries[0];
    assert_eq!(d.ty, 0x9000);
    assert_eq!(d.dev, dev);
    assert_eq!(d.data, b"ping".to_vec());
    assert_eq!(d.result, None);
}

#[test]
fn scenario_dummy_transmit() {
    let mut stack = net_init().unwrap();
    let dev = DummyNetDevice::init(&mut stack).unwrap();
    net_run(&mut stack).unwrap();
    net_device_output(&mut stack, &dev, 0x0800, b"Hello, World", &mut []).unwrap();
    let run = deliver_all(&mut stack);
    assert_eq!(run.signals, vec![DUMMY_IRQ]);
    assert_eq!(run.isr_runs, vec![(0, DUMMY_IRQ)]);
    assert!(run.deliveries.is_empty());
}

#[test]
fn scenario_loopback_ipv4() {
    let (mut stack, dev) = loopback_with_iface();
    net_run(&mut stack).unwrap();
    net_device_output(&mut stack, &dev, NET_PROTOCOL_TYPE_IP, &TEST_DATA, &mut []).unwrap();
    let run = deliver_all(&mut stack);
    assert_eq!(run.deliveries.len(), 1);
    let d = &run.deliveries[0];
    assert_eq!(d.ty, NET_PROTOCOL_TYPE_IP);
    assert_eq!(d.data, TEST_DATA.to_vec());
    let expected = NetInterfaceHandler { dev, iface_index: 0, family: NetInterfaceFamily::Ip };
    assert_eq!(d.result, Some(IpInputResult::Accepted(expected)));
    assert_eq!(stack.ip_ifaces, vec![expected]);
}

#[test]
fn scenario_checksum_rejection() {
    let (mut stack, dev) = loopback_with_iface();
    net_run(&mut stack).unwrap();
    let mut bad = TEST_DATA;
    bad[8] ^= 0x01;
    net_device_output(&mut stack, &dev, NET_PROTOCOL_TYPE_IP, &bad, &mut []).unwrap();
    let run = deliver_all(&mut stack);
    assert_eq!(run.deliveries.len(), 1);
    assert_eq!(run.deliveries[0].result, Some(IpInputResult::ChecksumMismatch));
}

#[test]
fn scenario_mtu_enforcement() {
    let mut stack = net_init().unwrap();
    let dev = DummyNetDevice::init(&mut stack).unwrap();
    net_run(&mut stack).unwrap();
    let mtu = stack.devices[dev.private].mtu() as usize;
    assert_eq!(mtu, 0xffff);
    let too_big = vec![0u8; mtu + 1];
    let r = net_device_output(&mut stack, &dev, 0x0800, &too_big, &mut []);
    assert_eq!(net_msg(&r.unwrap_err()), Some(TOO_LARGE_MSG));
    assert!(stack.intr.raised.is_empty());
    let fits = vec![0u8; mtu];
    net_device_output(&mut stack, &dev, 0x0800, &fits, &mut []).unwrap();
    assert_eq!(stack.intr.raised, vec![DUMMY_IRQ]);
}

#[test]
fn scenario_queue_overflow() {
    let mut stack = net_init().unwrap();
    let dev = LoopbackNetDevice::init(&mut stack).unwrap();
    net_protocol_register(&mut stack, NetProtocol::new(0x9000, NetProtocolHandler::Raw)).unwrap();
    net_run(&mut stack).unwrap();
    for i in 0..20u8 {
        net_device_output(&mut stack, &dev, 0x9000, &[i], &mut []).unwrap();
    }
    let run = deliver_all(&mut stack);
    let got: Vec<Vec<u8>> = run.deliveries.iter().map(|d| d.data.clone()).collect();
    let want: Vec<Vec<u8>> = (4..20u8).map(|i| vec![i]).collect();
    assert_eq!(got, want);
}

#[test]
fn scenario_shutdown() {
    let mut stack = net_init().unwrap();
    let dev = LoopbackNetDevice::init(&mut stack).unwrap();
    net_run(&mut stack).unwrap();
    assert!(stack.intr.running);
    assert!(stack.devices[dev.private].is_up());
    net_shutdown(&mut stack).unwrap();
    assert!(!stack.intr.running);
    assert!(!stack.devices[dev.private].is_up());
    let run = deliver_all(&mut stack);
    assert!(run.terminated);
    assert_eq!(run.signals, vec![INTR_IRQ_TERMINATE]);
    assert_eq!(intr_dispatch(&stack.intr, INTR_IRQ_TERMINATE), IntrAction::Terminate);
}

#[test]
fn shutdown_before_run_raises_nothing() {
    let mut stack = net_init().unwrap();
    net_shutdown(&mut stack).unwrap();
    assert!(stack.intr.raised.is_empty());
}

#[test]
fn interface_errors() {
    let mut stack = net_init().unwrap();
    let dummy = DummyNetDevice::init(&mut stack).unwrap();
    let lo = LoopbackNetDevice::init(&mut stack).unwrap();
    let mk = || IpInterface::new(IpAddress::parse_from("10.0.0.1"), IpAddress::parse_from("255.255.255.0"));
    let r = ip_iface_register(&mut stack, dummy, mk());
    assert_eq!(net_msg(&r.unwrap_err()), Some(NO_IFACE_SUPPORT_MSG));
    ip_iface_register(&mut stack, lo, mk()).unwrap();
    let r = ip_iface_register(&mut stack, lo, mk());
    assert_eq!(net_msg(&r.unwrap_err()), Some(IFACE_EXISTS_MSG));
    let r = net_device_add_iface(&mut stack, lo, NetInterface::Ip(mk()));
    assert_eq!(net_msg(&r.unwrap_err()), Some(IFACE_EXISTS_MSG));
    assert_eq!(stack.ip_ifaces.len(), 1);
    match net_device_get_iface(&stack, &lo, NetInterfaceFamily::Ip) {
        Some(NetInterface::Ip(ip)) => {
            assert_eq!(ip.unicast, IpAddress(0x0a00_0001));
            assert_eq!(ip.broadcast, IpAddress(0x0a00_00ff));
        }
        None => panic!("expected an interface"),
    }
    assert!(net_device_get_iface(&stack, &dummy, NetInterfaceFamily::Ip).is_none());
}

#[test]
fn add_iface_attaches_without_indexing() {
    let mut stack = net_init().unwrap();
    let lo = LoopbackNetDevice::init(&mut stack).unwrap();
    let ip = IpInterface::new(IpAddress::parse_from("10.0.0.1"), IpAddress::parse_from("255.0.0.0"));
    net_device_add_iface(&mut stack, lo, NetInterface::Ip(ip)).unwrap();
    assert_eq!(stack.devices[lo.private].get_interfaces().len(), 1);
    assert!(stack.ip_ifaces.is_empty());
}

#[test]
fn duplicate_protocol_is_refused() {
    let mut stack = net_init().unwrap();
    let r = net_protocol_register(&mut stack, NetProtocol::new(NET_PROTOCOL_TYPE_IP, NetProtocolHandler::Raw));
    assert_eq!(net_msg(&r.unwrap_err()), Some(PROTOCOL_EXISTS_MSG));
    assert_eq!(stack.protocols.len(), 1);
}

#[test]
fn raise_irq_records_signal() {
    let mut stack = net_init().unwrap();
    intr_raise_irq(&mut stack.intr, 42).unwrap();
    intr_raise_irq(&mut stack.intr, 42).unwrap();
    assert_eq!(intr_take_raised(&mut stack.intr), vec![42, 42]);
    assert!(stack.intr.raised.is_empty());
}

#[test]
fn ethernet_device_is_down() {
    assert!(!NetDevice::Ethernet.is_up());
}

#[test]
fn device_names_count_past_nine() {
    let mut stack = net_init().unwrap();
    for _ in 0..11 {
        DummyNetDevice::init(&mut stack).unwrap();
    }
    assert_eq!(stack.devices[9].name(), "dev9");
    assert_eq!(stack.devices[10].name(), "dev10");
}

#[test]
fn output_leaves_scratch_buffer_alone() {
    let mut stack = net_init().unwrap();
    let dev = LoopbackNetDevice::init(&mut stack).unwrap();
    let mut scratch = [7u8; 4];
    let r = net_device_output(&mut stack, &dev, 0x0800, b"x", &mut scratch);
    assert!(r.is_err());
    assert_eq!(scratch, [7u8; 4]);
    net_run(&mut stack).unwrap();
    net_device_output(&mut stack, &dev, 0x0800, b"x", &mut scratch).unwrap();
    assert_eq!(scratch, [7u8; 4]);
}

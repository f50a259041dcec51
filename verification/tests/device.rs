//! Device lifecycle against a scripted bus: version check, initialization,
//! the socket allocator, reset, and the common-register accessors.

use w5500::device::{Device, DeviceState, ResetError};
use w5500::host::dhcp::Dhcp;
use w5500::mock::MockBus;
use w5500::net::{Ipv4Addr, MacAddress};
use w5500::uninitialized_device::{InitializeError, UninitializedDevice};
use w5500::Mode;

fn assert_op(bus: &MockBus, i: usize, write: bool, block: u8, address: u16, data: &[u8]) {
    assert_eq!(bus.op_is_write(i), write, "direction of frame {}", i);
    assert_eq!(bus.op_block(i), block, "block of frame {}", i);
    assert_eq!(bus.op_address(i), address, "address of frame {}", i);
    assert_eq!(bus.op_data(i), data.to_vec(), "data of frame {}", i);
}

fn dhcp_device(bus: MockBus) -> Device<MockBus, Dhcp> {
    Device::new(bus, DeviceState::new(Dhcp::new(MacAddress::new(2, 0, 0, 0, 0, 1))))
}

#[test]
fn test_version_read_trace() {
    // reading VERSION is one read frame of the common block at 0x39
    let mut bus = MockBus::new();
    bus.push_read(vec![0x04]);
    let mut device = dhcp_device(bus);
    assert_eq!(device.version().unwrap(), 0x04);
    let (bus, _) = device.release();
    assert_eq!(bus.op_count(), 1);
    assert_op(&bus, 0, false, 0x00, 0x39, &[0x04]);
}

#[test]
fn test_version_reads_back_what_the_chip_answers() {
    // a four-wire read of common VERSION answering 0x05 is observed as 0x05
    let mut bus = MockBus::new();
    bus.push_read(vec![0x05]);
    let mut device = dhcp_device(bus);
    assert_eq!(device.version().unwrap(), 0x05);
}

#[test]
fn test_initialize_advanced_trace() {
    let mut bus = MockBus::new();
    bus.push_read(vec![0x04]); // VERSION
    let device = UninitializedDevice::new(bus)
        .initialize_advanced(
            MacAddress::new(2, 0, 0, 0, 0, 1),
            Ipv4Addr::new(192, 168, 0, 201),
            Ipv4Addr::new(192, 168, 0, 1),
            Ipv4Addr::new(255, 255, 255, 0),
            Mode::default(),
        )
        .unwrap();
    let (bus, _) = device.release();
    assert_eq!(bus.op_count(), 7);
    assert_op(&bus, 0, false, 0x00, 0x39, &[0x04]); // version check
    assert_op(&bus, 1, true, 0x00, 0x00, &[0x80]); // reset bit
    assert_op(&bus, 2, true, 0x00, 0x00, &[0x02]); // mode byte (force ARP)
    assert_op(&bus, 3, true, 0x00, 0x01, &[192, 168, 0, 1]); // gateway
    assert_op(&bus, 4, true, 0x00, 0x05, &[255, 255, 255, 0]); // subnet
    assert_op(&bus, 5, true, 0x00, 0x09, &[2, 0, 0, 0, 0, 1]); // mac
    assert_op(&bus, 6, true, 0x00, 0x0F, &[192, 168, 0, 201]); // ip
}

#[test]
fn test_initialize_manual_defaults_gateway() {
    let mut bus = MockBus::new();
    bus.push_read(vec![0x04]);
    let device = UninitializedDevice::new(bus)
        .initialize_manual(
            MacAddress::new(2, 0, 0, 0, 0, 1),
            Ipv4Addr::new(10, 1, 2, 3),
            Mode::default(),
        )
        .unwrap();
    let (bus, _) = device.release();
    // the gateway is the IP with its last octet forced to 1
    assert_op(&bus, 3, true, 0x00, 0x01, &[10, 1, 2, 1]);
    assert_op(&bus, 4, true, 0x00, 0x05, &[255, 255, 255, 0]);
}

#[test]
fn test_initialize_rejects_wrong_version() {
    let mut bus = MockBus::new();
    bus.push_read(vec![0x05]);
    let result = UninitializedDevice::new(bus).initialize(
        MacAddress::new(2, 0, 0, 0, 0, 1),
        Mode::default(),
    );
    assert!(matches!(result, Err(InitializeError::ChipNotConnected)));
}

#[test]
fn test_take_socket_eight_distinct_then_none() {
    let mut device = dhcp_device(MockBus::new());
    let mut seen = Vec::new();
    for _ in 0..8 {
        let socket = device.take_socket().expect("a socket should be free");
        assert!(!seen.contains(&socket.index), "indices must be distinct");
        seen.push(socket.index);
    }
    assert_eq!(seen, vec![0, 1, 2, 3, 4, 5, 6, 7]);
    assert!(device.take_socket().is_none());
}

#[test]
fn test_take_socket_with_interleaved_release() {
    let mut device = dhcp_device(MockBus::new());
    let first = device.take_socket().unwrap();
    let second = device.take_socket().unwrap();
    assert_ne!(first.index, second.index);
    // releasing the first frees exactly that index again
    let first_index = first.index;
    device.release_socket(first);
    let third = device.take_socket().unwrap();
    assert_eq!(third.index, first_index);
    // while both are held, further takes never repeat a held index
    let fourth = device.take_socket().unwrap();
    assert_ne!(fourth.index, second.index);
    assert_ne!(fourth.index, third.index);
}

#[test]
fn test_reset_refused_while_socket_outstanding() {
    let mut device = dhcp_device(MockBus::new());
    let _held = device.take_socket().unwrap();
    let result = device.reset();
    assert!(matches!(result, Err(ResetError::SocketsNotReleased)));
}

#[test]
fn test_reset_writes_reset_bit_when_all_released() {
    let mut device = dhcp_device(MockBus::new());
    let socket = device.take_socket().unwrap();
    device.release_socket(socket);
    let uninitialized = device.reset().expect("reset should proceed");
    let bus = uninitialized.bus;
    assert_eq!(bus.op_count(), 1);
    assert_op(&bus, 0, true, 0x00, 0x00, &[0x80]);
}

#[test]
fn test_common_register_accessors() {
    let mut bus = MockBus::new();
    bus.push_read(vec![192, 168, 0, 1]); // gateway
    bus.push_read(vec![255, 255, 255, 0]); // subnet
    bus.push_read(vec![2, 0, 0, 0, 0, 9]); // mac
    bus.push_read(vec![192, 168, 0, 201]); // ip
    bus.push_read(vec![0xBF]); // phy config
    bus.push_read(vec![0x0F, 0xA0]); // retry time
    bus.push_read(vec![0x07]); // retry count
    let mut device = dhcp_device(bus);
    assert_eq!(device.gateway().unwrap().octets(), [192, 168, 0, 1]);
    assert_eq!(device.subnet_mask().unwrap().octets(), [255, 255, 255, 0]);
    assert_eq!(device.mac().unwrap().octets(), [2, 0, 0, 0, 0, 9]);
    assert_eq!(device.ip().unwrap().octets(), [192, 168, 0, 201]);
    assert!(device.phy_config().unwrap().link_up());
    assert_eq!(device.current_retry_timeout().unwrap().to_millis(), 400);
    assert_eq!(device.current_retry_count().unwrap(), 0x07);
    let (bus, _) = device.release();
    assert_op(&bus, 0, false, 0x00, 0x01, &[192, 168, 0, 1]);
    assert_op(&bus, 1, false, 0x00, 0x05, &[255, 255, 255, 0]);
    assert_op(&bus, 2, false, 0x00, 0x09, &[2, 0, 0, 0, 0, 9]);
    assert_op(&bus, 3, false, 0x00, 0x0F, &[192, 168, 0, 201]);
    assert_op(&bus, 4, false, 0x00, 0x2E, &[0xBF]);
    assert_op(&bus, 5, false, 0x00, 0x19, &[0x0F, 0xA0]);
    assert_op(&bus, 6, false, 0x00, 0x1B, &[0x07]);
}

#[test]
fn test_retry_setters_trace() {
    let mut device = dhcp_device(MockBus::new());
    device
        .set_retry_timeout(w5500::register::common::RetryTime::from_millis(400))
        .unwrap();
    device.set_retry_count(0x07).unwrap();
    let (bus, _) = device.release();
    assert_op(&bus, 0, true, 0x00, 0x19, &[0x0F, 0xA0]);
    assert_op(&bus, 1, true, 0x00, 0x1B, &[0x07]);
}

#[test]
fn test_udp_socket_allocation_and_close() {
    let mut device = dhcp_device(MockBus::new());
    let first = device.udp_socket().unwrap();
    assert_eq!(first.index(), 0);
    assert_eq!(first.get_port(), 49152);
    let second = device.udp_socket().unwrap();
    assert_eq!(second.index(), 1);
    // closing returns the socket: it is handed out again
    device.close_udp(first).unwrap();
    let third = device.udp_socket().unwrap();
    assert_eq!(third.index(), 0);
    let (bus, _) = device.release();
    // the close wrote the closed protocol and the CLOSE command
    assert_op(&bus, 0, true, 0x01, 0x00, &[0x00]);
    assert_op(&bus, 1, true, 0x01, 0x01, &[0x10]);
}

#[test]
fn test_tcp_socket_allocation_and_close() {
    let mut device = dhcp_device(MockBus::new());
    let mut held = Vec::new();
    for _ in 0..8 {
        held.push(device.tcp_socket().unwrap());
    }
    assert!(matches!(
        device.tcp_socket(),
        Err(w5500::tcp::TcpSocketError::NoMoreSockets)
    ));
    assert!(matches!(
        device.udp_socket(),
        Err(w5500::udp::UdpSocketError::NoMoreSockets)
    ));
    device.close_tcp(held.pop().unwrap()).unwrap();
    assert!(device.tcp_socket().is_ok());
}

#[test]
fn test_deactivate_activate_keeps_state() {
    let mut device = dhcp_device(MockBus::new());
    let taken = device.take_socket().unwrap();
    let taken_index = taken.index;
    let (bus, inactive) = device.deactivate();
    let mut device = inactive.activate(bus);
    // the allocator state survived: the taken index is still out
    let next = device.take_socket().unwrap();
    assert_ne!(next.index, taken_index);
}

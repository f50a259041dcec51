//! The UDP endpoint against a scripted bus: open, send, receive, close,
//! stability sampling, and every error surface.

use w5500::mock::MockBus;
use w5500::net::{Ipv4Addr, SocketAddrV4};
use w5500::socket::Socket;
use w5500::udp::{UdpSocket, UdpSocketError};
use w5500::NbError;

fn assert_op(bus: &MockBus, i: usize, write: bool, block: u8, address: u16, data: &[u8]) {
    assert_eq!(bus.op_is_write(i), write, "direction of frame {}", i);
    assert_eq!(bus.op_block(i), block, "block of frame {}", i);
    assert_eq!(bus.op_address(i), address, "address of frame {}", i);
    assert_eq!(bus.op_data(i), data.to_vec(), "data of frame {}", i);
}

#[test]
fn test_udp_new_port_base() {
    let udp = UdpSocket::new(Socket::new(3));
    assert_eq!(udp.get_port(), 49152 + 3);
    assert_eq!(udp.index(), 3);
}

#[test]
fn test_udp_open_trace() {
    let mut bus = MockBus::new();
    bus.push_read(vec![0x22]); // STATUS reaches UDP right away
    let udp = UdpSocket::new(Socket::new(0));
    udp.open(&mut bus).unwrap();
    assert_eq!(bus.op_count(), 7);
    assert_op(&bus, 0, true, 0x01, 0x01, &[0x10]); // CLOSE command
    assert_op(&bus, 1, true, 0x01, 0x02, &[0xFF]); // clear interrupts
    assert_op(&bus, 2, true, 0x01, 0x04, &[0xC0, 0x00]); // source port 49152
    assert_op(&bus, 3, true, 0x01, 0x00, &[0x02]); // UDP protocol
    assert_op(&bus, 4, true, 0x01, 0x2C, &[0x18]); // SEND_OK | TIMEOUT mask
    assert_op(&bus, 5, true, 0x01, 0x01, &[0x01]); // OPEN command
    assert_op(&bus, 6, false, 0x01, 0x03, &[0x22]); // wait until STATUS == UDP
}

#[test]
fn test_udp_open_keeps_polling_until_udp_status() {
    let mut bus = MockBus::new();
    bus.push_read(vec![0x00]); // still closed
    bus.push_read(vec![0x22]); // now UDP
    let udp = UdpSocket::new(Socket::new(0));
    udp.open(&mut bus).unwrap();
    assert_eq!(bus.op_count(), 8);
    assert_op(&bus, 6, false, 0x01, 0x03, &[0x00]);
    assert_op(&bus, 7, false, 0x01, 0x03, &[0x22]);
}

#[test]
fn test_udp_send_all_waits_out_a_full_buffer_mid_send() {
    // the first batch fills the free space; the next round finds no space
    // and waits instead of failing, then finishes
    let mut bus = MockBus::new();
    // batch one: four of eight bytes
    bus.push_read(vec![0x22]);
    bus.push_read(vec![0x00, 0x04]);
    bus.push_read(vec![0x00, 0x00]);
    bus.push_read(vec![0x00, 0x04]);
    bus.push_read(vec![0x00, 0x04]);
    bus.push_read(vec![0x10]);
    // a round with no space: waited out, no error
    bus.push_read(vec![0x22]);
    bus.push_read(vec![0x00, 0x00]);
    // batch two: the rest
    bus.push_read(vec![0x22]);
    bus.push_read(vec![0x00, 0x04]);
    bus.push_read(vec![0x00, 0x04]);
    bus.push_read(vec![0x00, 0x08]);
    bus.push_read(vec![0x00, 0x08]);
    bus.push_read(vec![0x10]);
    let mut udp = UdpSocket::new(Socket::new(0));
    udp.set_destination(&mut bus, SocketAddrV4::new(Ipv4Addr::new(10, 0, 0, 5), 7))
        .unwrap();
    let payload: Vec<u8> = vec![1, 2, 3, 4, 5, 6, 7, 8];
    udp.socket_send_all(&mut bus, &payload).unwrap();
    assert_op(&bus, 2 + 3, true, 0b00010, 0x0000, &[1, 2, 3, 4]);
    // the stall round read only the status and the empty free size
    assert_op(&bus, 2 + 10, false, 0x01, 0x03, &[0x22]);
    assert_op(&bus, 2 + 11, false, 0x01, 0x20, &[0x00, 0x00]);
    assert_op(&bus, 2 + 12 + 3, true, 0b00010, 0x0004, &[5, 6, 7, 8]);
}

#[test]
fn test_udp_send_to_trace() {
    // send "Hi" to 10.0.0.5:1234 with 2048 bytes free and the pointer at 0
    let mut bus = MockBus::new();
    bus.push_read(vec![0x22]); // STATUS: UDP
    bus.push_read(vec![0x08, 0x00]); // TX_FREE_SIZE: 2048
    bus.push_read(vec![0x00, 0x00]); // TX_WRITE_PTR: 0
    bus.push_read(vec![0x00, 0x02]); // poll: TX_READ_PTR
    bus.push_read(vec![0x00, 0x02]); // poll: TX_WRITE_PTR
    bus.push_read(vec![0x10]); // poll: SEND_OK interrupt
    let mut udp = UdpSocket::new(Socket::new(0));
    let remote = SocketAddrV4::new(Ipv4Addr::new(10, 0, 0, 5), 1234);
    udp.socket_send_to(&mut bus, remote, &vec![0x48, 0x69]).unwrap();
    assert_eq!(bus.op_count(), 12);
    assert_op(&bus, 0, true, 0x01, 0x0C, &[10, 0, 0, 5]); // DEST_IP
    assert_op(&bus, 1, true, 0x01, 0x10, &[0x04, 0xD2]); // DEST_PORT 1234
    assert_op(&bus, 2, false, 0x01, 0x03, &[0x22]); // status check
    assert_op(&bus, 3, false, 0x01, 0x20, &[0x08, 0x00]); // free size
    assert_op(&bus, 4, false, 0x01, 0x24, &[0x00, 0x00]); // write pointer
    assert_op(&bus, 5, true, 0b00010, 0x0000, &[0x48, 0x69]); // payload into TX buffer
    assert_op(&bus, 6, true, 0x01, 0x24, &[0x00, 0x02]); // pointer advanced by 2
    assert_op(&bus, 7, true, 0x01, 0x01, &[0x20]); // SEND command
    assert_op(&bus, 8, false, 0x01, 0x22, &[0x00, 0x02]); // TX_READ_PTR caught up
    assert_op(&bus, 9, false, 0x01, 0x24, &[0x00, 0x02]); // TX_WRITE_PTR
    assert_op(&bus, 10, false, 0x01, 0x02, &[0x10]); // SEND_OK fired
    assert_op(&bus, 11, true, 0x01, 0x02, &[0x10]); // SEND_OK cleared
}

#[test]
fn test_udp_send_same_destination_not_rewritten() {
    let mut bus = MockBus::new();
    let mut udp = UdpSocket::new(Socket::new(0));
    let remote = SocketAddrV4::new(Ipv4Addr::new(10, 0, 0, 5), 1234);
    udp.set_destination(&mut bus, remote).unwrap();
    assert_eq!(bus.op_count(), 2);
    // the same destination again writes nothing
    udp.set_destination(&mut bus, remote).unwrap();
    assert_eq!(bus.op_count(), 2);
    // a different one writes both registers again
    udp.set_destination(&mut bus, SocketAddrV4::new(Ipv4Addr::new(10, 0, 0, 6), 1234))
        .unwrap();
    assert_eq!(bus.op_count(), 4);
}

#[test]
fn test_udp_receive_truncates_and_advances_by_full_size() {
    // a 12-byte datagram (11 bytes in the buffer: 8 header + 3 payload) from
    // 192.168.1.50:5000 carrying "abc", read into 8 bytes of room
    let mut bus = MockBus::new();
    bus.push_read(vec![0x22]); // STATUS: UDP
    bus.push_read(vec![0x04]); // RECV interrupt set
    bus.push_read(vec![0x00, 0x0B]); // RX_RECEIVED_SIZE sample
    bus.push_read(vec![0x00, 0x0B]); // stable second sample
    bus.push_read(vec![0x00, 0x00]); // RX_READ_PTR
    bus.push_read(vec![0xC0, 0xA8, 0x01, 0x32, 0x13, 0x88, 0x00, 0x03]); // header
    bus.push_read(vec![0x61, 0x62, 0x63]); // payload
    let udp = UdpSocket::new(Socket::new(0));
    let (data, header) = udp.socket_receive(&mut bus, 8).unwrap();
    assert_eq!(data, vec![0x61, 0x62, 0x63]);
    assert_eq!(header.len, 3);
    assert_eq!(header.origin.ip().octets(), [192, 168, 1, 50]);
    assert_eq!(header.origin.port(), 5000);
    assert_eq!(bus.op_count(), 10);
    assert_op(&bus, 4, false, 0x01, 0x28, &[0x00, 0x00]); // read pointer
    assert_op(&bus, 5, false, 0b00011, 0x0000, &[0xC0, 0xA8, 0x01, 0x32, 0x13, 0x88, 0x00, 0x03]);
    assert_op(&bus, 6, false, 0b00011, 0x0008, &[0x61, 0x62, 0x63]);
    assert_op(&bus, 7, true, 0x01, 0x28, &[0x00, 0x0B]); // advanced by all 11 bytes
    assert_op(&bus, 8, true, 0x01, 0x01, &[0x40]); // RECV command
    assert_op(&bus, 9, true, 0x01, 0x02, &[0x04]); // RECV interrupt cleared
}

#[test]
fn test_receive_size_needs_two_equal_samples() {
    // a register that changes between reads costs one extra sampling pair
    let mut bus = MockBus::new();
    bus.push_read(vec![0x00, 0x05]);
    bus.push_read(vec![0x00, 0x08]);
    bus.push_read(vec![0x00, 0x08]);
    bus.push_read(vec![0x00, 0x08]);
    let socket = Socket::new(0);
    assert_eq!(socket.get_receive_size(&mut bus).unwrap(), Some(0x08));
    assert_eq!(bus.op_count(), 4);
    for i in 0..4 {
        assert_op(
            &bus,
            i,
            false,
            0x01,
            0x26,
            if i == 0 { &[0x00, 0x05] } else { &[0x00, 0x08] },
        );
    }
}

#[test]
fn test_udp_receive_would_block_without_interrupt() {
    let mut bus = MockBus::new();
    bus.push_read(vec![0x22]); // STATUS: UDP
    bus.push_read(vec![0x00]); // no RECV interrupt
    let udp = UdpSocket::new(Socket::new(0));
    let result = udp.socket_receive(&mut bus, 8);
    assert!(matches!(result, Err(NbError::WouldBlock)));
    assert_eq!(bus.op_count(), 2);
}

#[test]
fn test_udp_receive_zero_room_is_overflow() {
    let mut bus = MockBus::new();
    bus.push_read(vec![0x22]);
    bus.push_read(vec![0x04]);
    bus.push_read(vec![0x00, 0x0B]);
    bus.push_read(vec![0x00, 0x0B]);
    let udp = UdpSocket::new(Socket::new(0));
    let result = udp.socket_receive(&mut bus, 0);
    assert!(matches!(result, Err(NbError::Other(UdpSocketError::BufferOverflow))));
}

#[test]
fn test_udp_send_without_destination() {
    let mut bus = MockBus::new();
    bus.push_read(vec![0x22]);
    let udp = UdpSocket::new(Socket::new(0));
    let result = udp.socket_send(&mut bus, &vec![1, 2, 3], 0);
    assert!(matches!(result, Err(NbError::Other(UdpSocketError::DestinationNotSet))));
}

#[test]
fn test_udp_send_socket_not_open() {
    let mut bus = MockBus::new();
    bus.push_read(vec![0x00]); // STATUS: closed
    let udp = UdpSocket::new(Socket::new(0));
    let result = udp.socket_send(&mut bus, &vec![1], 0);
    assert!(matches!(result, Err(NbError::Other(UdpSocketError::SocketNotOpen))));
}

#[test]
fn test_udp_send_unrecognised_status() {
    let mut bus = MockBus::new();
    bus.push_read(vec![0x99]);
    let udp = UdpSocket::new(Socket::new(0));
    let result = udp.socket_send(&mut bus, &vec![1], 0);
    assert!(matches!(result, Err(NbError::Other(UdpSocketError::UnrecognisedStatus))));
}

#[test]
fn test_udp_send_buffer_full() {
    let mut bus = MockBus::new();
    bus.push_read(vec![0x22]);
    bus.push_read(vec![0x00, 0x00]); // no TX space at the start
    let mut udp = UdpSocket::new(Socket::new(0));
    udp.set_destination(&mut bus, SocketAddrV4::new(Ipv4Addr::new(10, 0, 0, 5), 7))
        .unwrap();
    let result = udp.socket_send(&mut bus, &vec![1], 0);
    assert!(matches!(result, Err(NbError::Other(UdpSocketError::BufferFull))));
}

#[test]
fn test_udp_send_write_timeout() {
    let mut bus = MockBus::new();
    bus.push_read(vec![0x22]); // STATUS
    bus.push_read(vec![0x00, 0x10]); // free size 16
    bus.push_read(vec![0x00, 0x00]); // write pointer
    bus.push_read(vec![0x00, 0x01]); // poll: TX_READ_PTR
    bus.push_read(vec![0x00, 0x01]); // poll: TX_WRITE_PTR
    bus.push_read(vec![0x08]); // TIMEOUT fired, SEND_OK clear
    let mut udp = UdpSocket::new(Socket::new(0));
    udp.set_destination(&mut bus, SocketAddrV4::new(Ipv4Addr::new(10, 0, 0, 5), 7))
        .unwrap();
    let result = udp.socket_send(&mut bus, &vec![0xAA], 0);
    assert!(matches!(result, Err(NbError::Other(UdpSocketError::WriteTimeout))));
    // the TIMEOUT interrupt was cleared by writing its bit
    let last = bus.op_count() - 1;
    assert_op(&bus, last, true, 0x01, 0x02, &[0x08]);
}

#[test]
fn test_udp_send_all_batches_cover_buffer() {
    // eight bytes through a TX buffer with only four bytes free per round
    let mut bus = MockBus::new();
    for round in 0..2u8 {
        bus.push_read(vec![0x22]); // STATUS
        bus.push_read(vec![0x00, 0x04]); // four bytes free
        bus.push_read(vec![0x00, 4 * round]); // write pointer
        bus.push_read(vec![0x00, 4 * round + 4]); // poll: read ptr
        bus.push_read(vec![0x00, 4 * round + 4]); // poll: write ptr
        bus.push_read(vec![0x10]); // SEND_OK
    }
    let mut udp = UdpSocket::new(Socket::new(0));
    udp.set_destination(&mut bus, SocketAddrV4::new(Ipv4Addr::new(10, 0, 0, 5), 7))
        .unwrap();
    let payload: Vec<u8> = vec![1, 2, 3, 4, 5, 6, 7, 8];
    udp.socket_send_all(&mut bus, &payload).unwrap();
    // the two batch writes to the TX buffer block cover the payload in order
    assert_op(&bus, 2 + 3, true, 0b00010, 0x0000, &[1, 2, 3, 4]);
    assert_op(&bus, 2 + 10 + 3, true, 0b00010, 0x0004, &[5, 6, 7, 8]);
}

#[test]
fn test_udp_close_trace() {
    let mut bus = MockBus::new();
    let udp = UdpSocket::new(Socket::new(0));
    udp.socket_close(&mut bus).unwrap();
    assert_eq!(bus.op_count(), 2);
    assert_op(&bus, 0, true, 0x01, 0x00, &[0x00]); // closed protocol
    assert_op(&bus, 1, true, 0x01, 0x01, &[0x10]); // CLOSE command
}

#[test]
fn test_udp_set_port_writes_source_port() {
    let mut bus = MockBus::new();
    let mut udp = UdpSocket::new(Socket::new(0));
    udp.set_port(&mut bus, 8080).unwrap();
    assert_eq!(udp.get_port(), 8080);
    assert_eq!(bus.op_count(), 1);
    assert_op(&bus, 0, true, 0x01, 0x04, &[0x1F, 0x90]);
}

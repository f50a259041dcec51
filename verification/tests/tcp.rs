//! The TCP endpoint against a scripted bus: open, connect — including a
//! refused connection — send, receive, disconnect and close.

use w5500::mock::MockBus;
use w5500::net::{Ipv4Addr, SocketAddrV4};
use w5500::socket::Socket;
use w5500::tcp::{TcpSocket, TcpSocketError};
use w5500::NbError;

fn assert_op(bus: &MockBus, i: usize, write: bool, block: u8, address: u16, data: &[u8]) {
    assert_eq!(bus.op_is_write(i), write, "direction of frame {}", i);
    assert_eq!(bus.op_block(i), block, "block of frame {}", i);
    assert_eq!(bus.op_address(i), address, "address of frame {}", i);
    assert_eq!(bus.op_data(i), data.to_vec(), "data of frame {}", i);
}

#[test]
fn test_tcp_open_trace() {
    let mut bus = MockBus::new();
    bus.push_read(vec![0x13]); // STATUS reaches INIT right away
    let mut tcp = TcpSocket::new(Socket::new(1));
    tcp.open(&mut bus, 49850).unwrap();
    assert_eq!(bus.op_count(), 7);
    assert_op(&bus, 0, true, 0x05, 0x01, &[0x10]); // CLOSE
    assert_op(&bus, 1, true, 0x05, 0x02, &[0xFF]); // clear interrupts
    assert_op(&bus, 2, true, 0x05, 0x04, &[0xC2, 0xBA]); // source port 49850
    assert_op(&bus, 3, true, 0x05, 0x00, &[0x01]); // TCP protocol
    assert_op(&bus, 4, true, 0x05, 0x2C, &[0x18]); // SEND_OK | TIMEOUT mask
    assert_op(&bus, 5, true, 0x05, 0x01, &[0x01]); // OPEN
    assert_op(&bus, 6, false, 0x05, 0x03, &[0x13]); // wait until STATUS == INIT
}

#[test]
fn test_tcp_open_keeps_polling_until_init() {
    let mut bus = MockBus::new();
    bus.push_read(vec![0x00]); // still closed
    bus.push_read(vec![0x13]); // now INIT
    let mut tcp = TcpSocket::new(Socket::new(1));
    tcp.open(&mut bus, 49850).unwrap();
    assert_eq!(bus.op_count(), 8);
    assert_op(&bus, 6, false, 0x05, 0x03, &[0x00]);
    assert_op(&bus, 7, false, 0x05, 0x03, &[0x13]);
}

#[test]
fn test_tcp_connect_established() {
    let mut bus = MockBus::new();
    bus.push_read(vec![0x13]); // STATUS: INIT
    bus.push_read(vec![0x15]); // poll: SYN_SENT
    bus.push_read(vec![0x17]); // poll: ESTABLISHED
    let mut tcp = TcpSocket::new(Socket::new(0));
    let remote = SocketAddrV4::new(Ipv4Addr::new(10, 1, 2, 3), 80);
    tcp.socket_connect(&mut bus, remote).unwrap();
    assert_eq!(bus.op_count(), 6);
    assert_op(&bus, 0, false, 0x01, 0x03, &[0x13]);
    assert_op(&bus, 1, true, 0x01, 0x0C, &[10, 1, 2, 3]); // DEST_IP
    assert_op(&bus, 2, true, 0x01, 0x10, &[0x00, 0x50]); // DEST_PORT 80
    assert_op(&bus, 3, true, 0x01, 0x01, &[0x04]); // CONNECT
    assert_op(&bus, 4, false, 0x01, 0x03, &[0x15]);
    assert_op(&bus, 5, false, 0x01, 0x03, &[0x17]);
}

#[test]
fn test_tcp_connect_refused_reopens_socket() {
    // the remote refuses: status runs SYN_SENT then CLOSED; the driver
    // closes and re-opens the socket and surfaces no error at this layer
    let mut bus = MockBus::new();
    bus.push_read(vec![0x13]); // STATUS: INIT
    bus.push_read(vec![0x15]); // poll: SYN_SENT
    bus.push_read(vec![0x00]); // poll: CLOSED (RST or timeout)
    bus.push_read(vec![0x00]); // is_connected afterwards: CLOSED
    let mut tcp = TcpSocket::new(Socket::new(0));
    let remote = SocketAddrV4::new(Ipv4Addr::new(10, 1, 2, 3), 80);
    tcp.socket_connect(&mut bus, remote).unwrap();
    assert!(!tcp.socket_is_connected(&mut bus).unwrap());
    assert_eq!(bus.op_count(), 14);
    assert_op(&bus, 1, true, 0x01, 0x0C, &[10, 1, 2, 3]);
    assert_op(&bus, 2, true, 0x01, 0x10, &[0x00, 0x50]);
    assert_op(&bus, 3, true, 0x01, 0x01, &[0x04]); // CONNECT
    assert_op(&bus, 5, false, 0x01, 0x03, &[0x00]); // CLOSED observed
    // the socket is closed and re-opened so the caller can retry with it
    assert_op(&bus, 6, true, 0x01, 0x00, &[0x00]); // closed protocol
    assert_op(&bus, 7, true, 0x01, 0x01, &[0x10]); // CLOSE
    assert_op(&bus, 8, true, 0x01, 0x01, &[0x10]); // reopen: CLOSE
    assert_op(&bus, 9, true, 0x01, 0x02, &[0xFF]); // reopen: clear interrupts
    assert_op(&bus, 10, true, 0x01, 0x00, &[0x01]); // reopen: TCP protocol
    assert_op(&bus, 11, true, 0x01, 0x2C, &[0x18]); // reopen: interrupt mask
    assert_op(&bus, 12, true, 0x01, 0x01, &[0x01]); // reopen: OPEN
}

#[test]
fn test_tcp_connect_refuses_udp_mode() {
    let mut bus = MockBus::new();
    bus.push_read(vec![0x22]); // STATUS: UDP mode
    let mut tcp = TcpSocket::new(Socket::new(0));
    let remote = SocketAddrV4::new(Ipv4Addr::new(10, 1, 2, 3), 80);
    let result = tcp.socket_connect(&mut bus, remote);
    assert!(matches!(result, Err(NbError::Other(TcpSocketError::UnsupportedMode))));
}

#[test]
fn test_tcp_connect_transient_state_reopens_first() {
    let mut bus = MockBus::new();
    bus.push_read(vec![0x18]); // STATUS: FIN_WAIT, a transient state
    bus.push_read(vec![0x17]); // poll: ESTABLISHED
    let mut tcp = TcpSocket::new(Socket::new(0));
    let remote = SocketAddrV4::new(Ipv4Addr::new(10, 1, 2, 3), 80);
    tcp.socket_connect(&mut bus, remote).unwrap();
    // close + reopen come before the destination writes
    assert_op(&bus, 1, true, 0x01, 0x00, &[0x00]);
    assert_op(&bus, 2, true, 0x01, 0x01, &[0x10]);
    assert_op(&bus, 8, true, 0x01, 0x0C, &[10, 1, 2, 3]);
    assert_op(&bus, 10, true, 0x01, 0x01, &[0x04]);
}

#[test]
fn test_tcp_send_trace() {
    let mut bus = MockBus::new();
    bus.push_read(vec![0x17]); // STATUS: ESTABLISHED
    bus.push_read(vec![0x08, 0x00]); // 2048 bytes free
    bus.push_read(vec![0x00, 0x10]); // write pointer 16
    bus.push_read(vec![0x10]); // SEND_OK
    let mut tcp = TcpSocket::new(Socket::new(0));
    let sent = tcp.socket_send(&mut bus, &vec![0xDE, 0xAD]).unwrap();
    assert_eq!(sent, 2);
    assert_eq!(bus.op_count(), 8);
    assert_op(&bus, 3, true, 0b00010, 0x0010, &[0xDE, 0xAD]); // payload
    assert_op(&bus, 4, true, 0x01, 0x24, &[0x00, 0x12]); // pointer advanced by 2
    assert_op(&bus, 5, true, 0x01, 0x01, &[0x20]); // SEND
    assert_op(&bus, 6, false, 0x01, 0x02, &[0x10]); // SEND_OK polled
    assert_op(&bus, 7, true, 0x01, 0x02, &[0x10]); // SEND_OK cleared
}

#[test]
fn test_tcp_send_clamps_to_free_size() {
    let mut bus = MockBus::new();
    bus.push_read(vec![0x17]);
    bus.push_read(vec![0x00, 0x02]); // only two bytes free
    bus.push_read(vec![0x00, 0x00]);
    bus.push_read(vec![0x10]);
    let mut tcp = TcpSocket::new(Socket::new(0));
    let sent = tcp.socket_send(&mut bus, &vec![1, 2, 3, 4, 5]).unwrap();
    assert_eq!(sent, 2);
    assert_op(&bus, 3, true, 0b00010, 0x0000, &[1, 2]);
}

#[test]
fn test_tcp_send_not_connected() {
    let mut bus = MockBus::new();
    bus.push_read(vec![0x00]); // STATUS: CLOSED
    let mut tcp = TcpSocket::new(Socket::new(0));
    let result = tcp.socket_send(&mut bus, &vec![1]);
    assert!(matches!(result, Err(NbError::Other(TcpSocketError::NotConnected))));
}

#[test]
fn test_tcp_receive_trace() {
    let mut bus = MockBus::new();
    bus.push_read(vec![0x17]); // ESTABLISHED
    bus.push_read(vec![0x04]); // RECV interrupt
    bus.push_read(vec![0x00, 0x03]); // received size sample
    bus.push_read(vec![0x00, 0x03]); // stable
    bus.push_read(vec![0x01, 0x00]); // read pointer 256
    bus.push_read(vec![0xCA, 0xFE, 0x42]); // data
    let mut tcp = TcpSocket::new(Socket::new(0));
    let data = tcp.socket_receive(&mut bus, 64).unwrap();
    assert_eq!(data, vec![0xCA, 0xFE, 0x42]);
    assert_eq!(bus.op_count(), 9);
    assert_op(&bus, 5, false, 0b00011, 0x0100, &[0xCA, 0xFE, 0x42]);
    assert_op(&bus, 6, true, 0x01, 0x28, &[0x01, 0x03]); // advanced by bytes read
    assert_op(&bus, 7, true, 0x01, 0x01, &[0x40]); // RECV command
    assert_op(&bus, 8, true, 0x01, 0x02, &[0x04]); // interrupt cleared
}

#[test]
fn test_tcp_receive_nothing_pending() {
    let mut bus = MockBus::new();
    bus.push_read(vec![0x17]);
    bus.push_read(vec![0x00]); // no RECV interrupt
    let mut tcp = TcpSocket::new(Socket::new(0));
    let data = tcp.socket_receive(&mut bus, 64).unwrap();
    assert!(data.is_empty());
    assert_eq!(bus.op_count(), 2);
}

#[test]
fn test_tcp_receive_not_connected() {
    let mut bus = MockBus::new();
    bus.push_read(vec![0x14]); // LISTEN, not ESTABLISHED
    let mut tcp = TcpSocket::new(Socket::new(0));
    let result = tcp.socket_receive(&mut bus, 64);
    assert!(matches!(result, Err(TcpSocketError::NotConnected)));
}

#[test]
fn test_tcp_disconnect_and_close() {
    let mut bus = MockBus::new();
    let tcp = TcpSocket::new(Socket::new(2));
    tcp.disconnect(&mut bus).unwrap();
    tcp.socket_close(&mut bus).unwrap();
    assert_eq!(bus.op_count(), 3);
    assert_op(&bus, 0, true, 0x09, 0x01, &[0x08]); // DISCON
    assert_op(&bus, 1, true, 0x09, 0x00, &[0x00]); // closed protocol
    assert_op(&bus, 2, true, 0x09, 0x01, &[0x10]); // CLOSE
}

#[test]
fn test_tcp_is_connected() {
    let mut bus = MockBus::new();
    bus.push_read(vec![0x17]);
    bus.push_read(vec![0x14]);
    let tcp = TcpSocket::new(Socket::new(0));
    assert!(tcp.socket_is_connected(&mut bus).unwrap());
    assert!(!tcp.socket_is_connected(&mut bus).unwrap());
}

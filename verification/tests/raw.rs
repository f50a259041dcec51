//! MACRAW mode against a scripted bus: setup, frame round trips, and the
//! interrupt controls.

use w5500::mock::MockBus;
use w5500::net::MacAddress;
use w5500::uninitialized_device::UninitializedDevice;

fn assert_op(bus: &MockBus, i: usize, write: bool, block: u8, address: u16, data: &[u8]) {
    assert_eq!(bus.op_is_write(i), write, "direction of frame {}", i);
    assert_eq!(bus.op_block(i), block, "block of frame {}", i);
    assert_eq!(bus.op_address(i), address, "address of frame {}", i);
    assert_eq!(bus.op_data(i), data.to_vec(), "data of frame {}", i);
}

#[test]
fn test_initialize_macraw_trace() {
    let bus = MockBus::new();
    let device = UninitializedDevice::new(bus)
        .initialize_macraw(MacAddress::new(2, 0, 0, 0, 0, 1))
        .unwrap();
    let bus = device.bus;
    assert_eq!(bus.op_count(), 20);
    assert_op(&bus, 0, true, 0x00, 0x00, &[0x80]); // chip reset
    assert_op(&bus, 1, true, 0x00, 0x09, &[2, 0, 0, 0, 0, 1]); // MAC
    assert_op(&bus, 2, true, 0x01, 0x1F, &[16]); // socket 0 TX: 16 KiB
    assert_op(&bus, 3, true, 0x01, 0x1E, &[16]); // socket 0 RX: 16 KiB
    // sockets 1..8 surrender their buffers
    for i in 1..8u8 {
        let reg = 4 * i + 1;
        assert_op(&bus, 2 + 2 * i as usize, true, reg, 0x1F, &[0]);
        assert_op(&bus, 3 + 2 * i as usize, true, reg, 0x1E, &[0]);
    }
    assert_op(&bus, 18, true, 0x01, 0x00, &[0x84]); // MACRAW with MAC filter
    assert_op(&bus, 19, true, 0x01, 0x01, &[0x01]); // OPEN
}

fn raw_device(bus: MockBus) -> w5500::raw_device::RawDevice<MockBus> {
    UninitializedDevice::new(bus)
        .initialize_macraw(MacAddress::new(2, 0, 0, 0, 0, 1))
        .unwrap()
}

#[test]
fn test_raw_read_frame_round_trip() {
    // a 60-byte frame: the chip reports 62 bytes, two of them the length
    // prefix that counts itself
    let mut bus = MockBus::new();
    bus.push_read(vec![0x00, 0x3E]); // received size sample: 62
    bus.push_read(vec![0x00, 0x3E]); // stable
    bus.push_read(vec![0x00, 0x00]); // RX read pointer
    bus.push_read(vec![0x00, 0x3E]); // length prefix: 62
    let payload: Vec<u8> = (0..60u8).collect();
    bus.push_read(payload.clone());
    let mut device = raw_device(bus);
    let setup_ops = device.bus.op_count();
    let frame = device.read_frame(60).unwrap();
    assert_eq!(frame.len(), 60);
    assert_eq!(frame, payload);
    let bus = device.bus;
    assert_eq!(bus.op_count(), setup_ops + 7);
    assert_op(&bus, setup_ops + 2, false, 0x01, 0x28, &[0x00, 0x00]);
    assert_op(&bus, setup_ops + 3, false, 0x03, 0x0000, &[0x00, 0x3E]); // prefix
    assert_op(&bus, setup_ops + 4, false, 0x03, 0x0002, &payload); // payload at +2
    assert_op(&bus, setup_ops + 5, true, 0x01, 0x28, &[0x00, 0x3E]); // advanced by 62
    assert_op(&bus, setup_ops + 6, true, 0x01, 0x01, &[0x40]); // RECV
}

#[test]
fn test_raw_read_frame_nothing_pending() {
    let mut bus = MockBus::new();
    bus.push_read(vec![0x00, 0x00]);
    bus.push_read(vec![0x00, 0x00]);
    let mut device = raw_device(bus);
    let frame = device.read_frame(1500).unwrap();
    assert!(frame.is_empty());
}

#[test]
fn test_raw_read_frame_truncates_but_consumes_whole_frame() {
    let mut bus = MockBus::new();
    bus.push_read(vec![0x00, 0x0A]); // 10 bytes: 2 prefix + 8 payload
    bus.push_read(vec![0x00, 0x0A]);
    bus.push_read(vec![0x00, 0x00]);
    bus.push_read(vec![0x00, 0x0A]);
    bus.push_read(vec![1, 2, 3]); // only three bytes of room
    let mut device = raw_device(bus);
    let setup_ops = device.bus.op_count();
    let frame = device.read_frame(3).unwrap();
    assert_eq!(frame, vec![1, 2, 3]);
    let bus = device.bus;
    // the read pointer still advanced over the whole 10-byte frame
    assert_op(&bus, setup_ops + 5, true, 0x01, 0x28, &[0x00, 0x0A]);
}

#[test]
fn test_raw_write_frame_round_trip() {
    let mut bus = MockBus::new();
    bus.push_read(vec![0x08, 0x00]); // 2048 bytes free
    bus.push_read(vec![0x00, 0x20]); // write pointer 32
    bus.push_read(vec![0x10]); // SEND_OK
    let mut device = raw_device(bus);
    let setup_ops = device.bus.op_count();
    let frame: Vec<u8> = (0..60u8).collect();
    let count = device.write_frame(&frame).unwrap();
    assert_eq!(count, 60);
    let bus = device.bus;
    assert_eq!(bus.op_count(), setup_ops + 7);
    assert_op(&bus, setup_ops, true, 0x01, 0x02, &[0x10]); // SEND_OK cleared up front
    assert_op(&bus, setup_ops + 3, true, 0x02, 0x0020, &frame); // payload
    assert_op(&bus, setup_ops + 4, true, 0x01, 0x24, &[0x00, 0x5C]); // pointer + 60
    assert_op(&bus, setup_ops + 5, true, 0x01, 0x01, &[0x20]); // SEND
    assert_op(&bus, setup_ops + 6, false, 0x01, 0x02, &[0x10]); // SEND_OK polled
}

#[test]
fn test_raw_write_frame_clamps_to_free_size() {
    let mut bus = MockBus::new();
    bus.push_read(vec![0x00, 0x04]); // only four bytes free
    bus.push_read(vec![0x00, 0x00]);
    bus.push_read(vec![0x10]);
    let mut device = raw_device(bus);
    let setup_ops = device.bus.op_count();
    let count = device.write_frame(&vec![1, 2, 3, 4, 5]).unwrap();
    assert_eq!(count, 4);
    let bus = device.bus;
    // the first four bytes go out; the pointer advances by exactly four
    assert_op(&bus, setup_ops + 3, true, 0x02, 0x0000, &[1, 2, 3, 4]);
    assert_op(&bus, setup_ops + 4, true, 0x01, 0x24, &[0x00, 0x04]);
    assert_op(&bus, setup_ops + 5, true, 0x01, 0x01, &[0x20]);
}

#[test]
fn test_raw_write_frame_empty_writes_nothing() {
    let mut bus = MockBus::new();
    bus.push_read(vec![0x08, 0x00]);
    bus.push_read(vec![0x00, 0x00]);
    bus.push_read(vec![0x10]);
    let mut device = raw_device(bus);
    let setup_ops = device.bus.op_count();
    let count = device.write_frame(&Vec::new()).unwrap();
    assert_eq!(count, 0);
    let bus = device.bus;
    // no payload write: the pointer is committed unchanged and SEND issued
    assert_op(&bus, setup_ops + 3, true, 0x01, 0x24, &[0x00, 0x00]);
    assert_op(&bus, setup_ops + 4, true, 0x01, 0x01, &[0x20]);
}

#[test]
fn test_raw_interrupt_controls() {
    let mut device = raw_device(MockBus::new());
    let setup_ops = device.bus.op_count();
    device.enable_interrupts(0x04).unwrap();
    device.clear_interrupts().unwrap();
    device.disable_interrupts().unwrap();
    let bus = device.bus;
    assert_eq!(bus.op_count(), setup_ops + 5);
    assert_op(&bus, setup_ops, true, 0x01, 0x2C, &[0x04]); // unmask RECV
    assert_op(&bus, setup_ops + 1, true, 0x00, 0x18, &[0x01]); // chip-wide mask on
    assert_op(&bus, setup_ops + 2, true, 0x01, 0x02, &[0xFF]); // clear all
    assert_op(&bus, setup_ops + 3, true, 0x00, 0x18, &[0x00]); // chip-wide mask off
    assert_op(&bus, setup_ops + 4, true, 0x01, 0x2C, &[0xFF]); // mask all
}

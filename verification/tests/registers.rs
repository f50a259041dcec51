//! The register map: mode bytes, status parsing, socket block identifiers,
//! retry timing and PHY configuration.

use w5500::register::common::{PhyConfig, PhyDuplexStatus, PhyOperationMode, PhySpeedStatus, RetryTime};
use w5500::register::socketn::{Command, Interrupt, Protocol, Status};
use w5500::register::{
    SOCKET0, SOCKET0_BUFFER_RX, SOCKET0_BUFFER_TX, SOCKET1, SOCKET1_BUFFER_RX, SOCKET1_BUFFER_TX,
    SOCKET2, SOCKET2_BUFFER_RX, SOCKET2_BUFFER_TX, SOCKET3, SOCKET3_BUFFER_RX, SOCKET3_BUFFER_TX,
    SOCKET4, SOCKET4_BUFFER_RX, SOCKET4_BUFFER_TX, SOCKET5, SOCKET5_BUFFER_RX, SOCKET5_BUFFER_TX,
    SOCKET6, SOCKET6_BUFFER_RX, SOCKET6_BUFFER_TX, SOCKET7, SOCKET7_BUFFER_RX, SOCKET7_BUFFER_TX,
};
use w5500::socket::Socket;
use w5500::{ArpResponses, ConnectionType, Mode, OnPingRequest, OnWakeOnLan};

#[test]
fn test_mode_register() {
    let ping_respond_and_force_arp = Mode {
        on_wake_on_lan: OnWakeOnLan::Ignore,
        on_ping_request: OnPingRequest::Respond,
        connection_type: ConnectionType::Ethernet,
        arp_responses: ArpResponses::Cache,
    };
    assert_eq!(0b0000_0000, ping_respond_and_force_arp.to_u8());

    let all_enabled = Mode {
        on_wake_on_lan: OnWakeOnLan::InvokeInterrupt,
        on_ping_request: OnPingRequest::Respond,
        connection_type: ConnectionType::PPoE,
        arp_responses: ArpResponses::DropAfterUse,
    };
    assert_eq!(0b0010_1010, all_enabled.to_u8());
}

#[test]
fn test_status_from_byte() {
    let udp = 0x22_u8;
    let status = Status::from_u8(udp).expect("Should parse to Status");
    assert_eq!(status, Status::Udp);
}

#[test]
fn test_status_codes() {
    assert_eq!(Status::from_u8(0x00), Some(Status::Closed));
    assert_eq!(Status::from_u8(0x13), Some(Status::Init));
    assert_eq!(Status::from_u8(0x14), Some(Status::Listen));
    assert_eq!(Status::from_u8(0x17), Some(Status::Established));
    assert_eq!(Status::from_u8(0x1c), Some(Status::CloseWait));
    assert_eq!(Status::from_u8(0x42), Some(Status::MacRaw));
    assert_eq!(Status::from_u8(0x15), Some(Status::SynSent));
    assert_eq!(Status::from_u8(0x99), None);
    assert_eq!(Status::Established.to_u8(), 0x17);
}

#[test]
fn test_command_and_interrupt_codes() {
    assert_eq!(Command::Open.to_u8(), 0x01);
    assert_eq!(Command::Listen.to_u8(), 0x02);
    assert_eq!(Command::Connect.to_u8(), 0x04);
    assert_eq!(Command::Discon.to_u8(), 0x08);
    assert_eq!(Command::Close.to_u8(), 0x10);
    assert_eq!(Command::Send.to_u8(), 0x20);
    assert_eq!(Command::Receive.to_u8(), 0x40);
    assert_eq!(Interrupt::All.to_u8(), 0xFF);
    assert_eq!(Interrupt::SendOk.to_u8(), 0x10);
    assert_eq!(Interrupt::Timeout.to_u8(), 0x08);
    assert_eq!(Interrupt::Receive.to_u8(), 0x04);
    assert_eq!(Interrupt::Disconnect.to_u8(), 0x02);
    assert_eq!(Interrupt::Connect.to_u8(), 0x01);
    assert_eq!(Protocol::Closed.to_u8(), 0b00);
    assert_eq!(Protocol::Tcp.to_u8(), 0b01);
    assert_eq!(Protocol::Udp.to_u8(), 0b10);
    assert_eq!(Protocol::MacRaw.to_u8(), 0b100);
}

#[test]
fn test_socket_registers() {
    {
        let socket_0 = Socket::new(0);
        assert_eq!(socket_0.register(), SOCKET0);
        assert_eq!(socket_0.tx_buffer(), SOCKET0_BUFFER_TX);
        assert_eq!(socket_0.rx_buffer(), SOCKET0_BUFFER_RX);
    }
    {
        let socket_1 = Socket::new(1);
        assert_eq!(socket_1.register(), SOCKET1);
        assert_eq!(socket_1.tx_buffer(), SOCKET1_BUFFER_TX);
        assert_eq!(socket_1.rx_buffer(), SOCKET1_BUFFER_RX);
    }
    {
        let socket_2 = Socket::new(2);
        assert_eq!(socket_2.register(), SOCKET2);
        assert_eq!(socket_2.tx_buffer(), SOCKET2_BUFFER_TX);
        assert_eq!(socket_2.rx_buffer(), SOCKET2_BUFFER_RX);
    }
    {
        let socket_3 = Socket::new(3);
        assert_eq!(socket_3.register(), SOCKET3);
        assert_eq!(socket_3.tx_buffer(), SOCKET3_BUFFER_TX);
        assert_eq!(socket_3.rx_buffer(), SOCKET3_BUFFER_RX);
    }
    {
        let socket_4 = Socket::new(4);
        assert_eq!(socket_4.register(), SOCKET4);
        assert_eq!(socket_4.tx_buffer(), SOCKET4_BUFFER_TX);
        assert_eq!(socket_4.rx_buffer(), SOCKET4_BUFFER_RX);
    }
    {
        let socket_5 = Socket::new(5);
        assert_eq!(socket_5.register(), SOCKET5);
        assert_eq!(socket_5.tx_buffer(), SOCKET5_BUFFER_TX);
        assert_eq!(socket_5.rx_buffer(), SOCKET5_BUFFER_RX);
    }
    {
        let socket_6 = Socket::new(6);
        assert_eq!(socket_6.register(), SOCKET6);
        assert_eq!(socket_6.tx_buffer(), SOCKET6_BUFFER_TX);
        assert_eq!(socket_6.rx_buffer(), SOCKET6_BUFFER_RX);
    }
    {
        let socket_7 = Socket::new(7);
        assert_eq!(socket_7.register(), SOCKET7);
        assert_eq!(socket_7.tx_buffer(), SOCKET7_BUFFER_TX);
        assert_eq!(socket_7.rx_buffer(), SOCKET7_BUFFER_RX);
    }
}

#[test]
fn test_retry_time() {
    let default = RetryTime::from_millis(200);
    assert_eq!(RetryTime::default(), default);
    assert_eq!(default.to_u16(), 2000);

    let four_hundred_ms = RetryTime::from_millis(400);
    assert_eq!(four_hundred_ms.to_u16(), 4000);
    assert_eq!(four_hundred_ms.to_millis(), 400);
    assert_eq!(four_hundred_ms.to_register(), [0x0F, 0xA0]);
    assert_eq!(RetryTime::from_register([0x0F, 0xA0]), four_hundred_ms);
}

#[test]
fn test_phy_config_bits() {
    let phy = PhyConfig::from_u8(0b111_111);
    assert!(phy.link_up());
    assert_eq!(phy.speed(), PhySpeedStatus::Mbps100);
    assert_eq!(phy.duplex(), PhyDuplexStatus::FullDuplex);
    assert_eq!(phy.operation_mode(), Some(PhyOperationMode::Auto));

    let down = PhyConfig::from_u8(0b000_000);
    assert!(!down.link_up());
    assert_eq!(down.speed(), PhySpeedStatus::Mbps10);
    assert_eq!(down.duplex(), PhyDuplexStatus::HalfDuplex);
    assert_eq!(down.operation_mode(), Some(PhyOperationMode::HalfDuplex10bt));

    let undefined = PhyConfig::from_u8(0b101_000);
    assert_eq!(undefined.operation_mode(), None);
}

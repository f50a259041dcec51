//! The initialized device: the socket allocator bitmap, the common-register
//! accessors, and the deactivate/activate pair that parts the state from the
//! bus handle.

use vstd::prelude::*;

use crate::bits::{spec_get_bit, spec_set_bit, u8_get_bit, u8_set_bit};
use crate::bus::{rd, read_u16, read_u8, wr, write_u16, write_u8, Bus};
use crate::host::Host;
use crate::net::{Ipv4Addr, MacAddress};
use crate::register;
use crate::register::common;
use crate::register::common::{PhyConfig, RetryTime};
use crate::socket::Socket;
use crate::Mode;

verus! {

/// Why a reset was refused or failed.
#[derive(Clone, Debug)]
pub enum ResetError<E> {
    /// At least one socket is still allocated.
    SocketsNotReleased,
    Other(E),
}

/// The device's own state: the host-configuration provider and the allocator
/// bitmap, one bit per socket, set while the socket is free.
#[derive(Debug)]
pub struct DeviceState<HostImpl: Host> {
    pub host: HostImpl,
    pub sockets: u8,
}

impl<HostImpl: Host> DeviceState<HostImpl> {
    /// A fresh state: all eight sockets free.
    pub fn new(host: HostImpl) -> (r: Self)
        ensures
            r.sockets == 0xFF,
            r.host == host,
    {
        DeviceState { sockets: 0xFF, host }
    }

    /// Allocate the free socket with the lowest index, clearing its bit.
    /// None is returned exactly when every socket is taken.
    pub fn socket(&mut self) -> (r: Option<Socket>)
        ensures
            final (self).host == old(self).host,
            match r {
                Some(s) => s.wf() && spec_get_bit(old(self).sockets, s.index) && final (self).sockets == spec_set_bit(old(self).sockets, s.index, false) && (forall|j: u8|
                    j < s.index ==> !spec_get_bit(old(self).sockets, j)),
                None => old(self).sockets == 0 && final (self).sockets == old(self).sockets,
            },
    {
        let mut index: usize = 0;
        while index < 8
            invariant
                index <= 8,
                *self == *old(self),
                forall|j: u8| j < index ==> !spec_get_bit(self.sockets, j),
            decreases 8 - index,
        {
            if u8_get_bit(self.sockets, index) {
                self.sockets = u8_set_bit(self.sockets, index, false);
                return Some(Socket::new(index as u8));
            }
            index = index + 1;
        }
        proof {
            let m = self.sockets;
            assert(!spec_get_bit(m, 0) && !spec_get_bit(m, 1) && !spec_get_bit(m, 2)
                && !spec_get_bit(m, 3) && !spec_get_bit(m, 4) && !spec_get_bit(m, 5)
                && !spec_get_bit(m, 6) && !spec_get_bit(m, 7));
            assert(m == 0) by (bit_vector)
                requires
                    m & (1u8 << 0u8) == 0 && m & (1u8 << 1u8) == 0 && m & (1u8 << 2u8) == 0 && m & (
                    1u8 << 3u8) == 0 && m & (1u8 << 4u8) == 0 && m & (1u8 << 5u8) == 0 && m & (1u8
                        << 6u8) == 0 && m & (1u8 << 7u8) == 0,
            ;
        }
        None
    }

    /// Return a socket to the allocator, setting its bit.
    pub fn release_socket(&mut self, socket: Socket)
        requires
            socket.wf(),
        ensures
            final (self).host == old(self).host,
            final (self).sockets == spec_set_bit(old(self).sockets, socket.index, true),
    {
        self.sockets = u8_set_bit(self.sockets, socket.index as usize, true);
    }

    /// Whether any socket is currently allocated.
    pub fn any_allocated(&self) -> (r: bool)
        ensures
            r == (self.sockets != 0xFF),
    {
        self.sockets != 0xFF
    }
}

/// An allocation leaves every other socket's availability untouched: the
/// index handed out had its bit set, loses it, and no other bit changes.  So
/// however allocations and releases interleave, an allocation never returns
/// an index that is currently held: two holders of one socket cannot arise.
pub proof fn lemma_allocator_distinct(m: u8, i: u8)
    requires
        i < 8,
        spec_get_bit(m, i),
    ensures
        !spec_get_bit(spec_set_bit(m, i, false), i),
        forall|j: u8|
            j < 8 && j != i ==> #[trigger] spec_get_bit(spec_set_bit(m, i, false), j)
                == spec_get_bit(m, j),
{
    assert(spec_set_bit(m, i, false) & (1u8 << i) == 0) by (bit_vector)
        requires
            i < 8,
            spec_set_bit(m, i, false) == m & !(1u8 << i),
    ;
    assert forall|j: u8| j < 8 && j != i implies #[trigger] spec_get_bit(
        spec_set_bit(m, i, false),
        j,
    ) == spec_get_bit(m, j) by {
        assert((m & !(1u8 << i)) & (1u8 << j) == m & (1u8 << j)) by (bit_vector)
            requires
                i < 8 && j < 8 && i != j,
        ;
    }
}

/// From a fresh allocator, the eight successive allocations hand out the
/// indices 0 through 7 in order — eight distinct sockets — and afterwards
/// the bitmap is empty, so a ninth allocation finds none free.  The mask
/// after `i` greedy allocations from a full bitmap has exactly the bits from
/// `i` up still set; the next allocation must return `i` and leaves the bits
/// from `i + 1` up.
pub proof fn lemma_allocator_eight_then_none(m: u8, i: u8)
    requires
        i < 8,
        forall|j: u8| j < 8 ==> #[trigger] spec_get_bit(m, j) == (j >= i),
    ensures
        spec_get_bit(m, i),
        forall|j: u8| j < i ==> !spec_get_bit(m, j),
        forall|j: u8|
            j < 8 ==> #[trigger] spec_get_bit(spec_set_bit(m, i, false), j) == (j >= i + 1),
        i == 7 ==> spec_set_bit(m, i, false) == 0,
{
    assert(spec_get_bit(m, i));
    lemma_allocator_distinct(m, i);
    assert forall|j: u8| j < 8 implies #[trigger] spec_get_bit(spec_set_bit(m, i, false), j) == (j
        >= i + 1) by {
        if j != i {
            assert(spec_get_bit(spec_set_bit(m, i, false), j) == spec_get_bit(m, j));
        }
    }
    if i == 7 {
        let m2 = spec_set_bit(m, i, false);
        assert(!spec_get_bit(m2, 0) && !spec_get_bit(m2, 1) && !spec_get_bit(m2, 2)
            && !spec_get_bit(m2, 3) && !spec_get_bit(m2, 4) && !spec_get_bit(m2, 5)
            && !spec_get_bit(m2, 6) && !spec_get_bit(m2, 7));
        assert(m2 == 0) by (bit_vector)
            requires
                m2 & (1u8 << 0u8) == 0 && m2 & (1u8 << 1u8) == 0 && m2 & (1u8 << 2u8) == 0 && m2 & (
                1u8 << 3u8) == 0 && m2 & (1u8 << 4u8) == 0 && m2 & (1u8 << 5u8) == 0 && m2 & (1u8
                    << 6u8) == 0 && m2 & (1u8 << 7u8) == 0,
        ;
    }
}

/// The full bitmap has every socket free: the starting point of the law
/// above, as `DeviceState::new` establishes it.
pub proof fn lemma_allocator_fresh_full()
    ensures
        forall|j: u8| j < 8 ==> #[trigger] spec_get_bit(0xFFu8, j),
{
    assert forall|j: u8| j < 8 implies #[trigger] spec_get_bit(0xFFu8, j) by {
        assert(0xFFu8 & (1u8 << j) != 0) by (bit_vector)
            requires
                j < 8,
        ;
    }
}

/// An initialized device: the bus handle and the device state.
pub struct Device<SpiBus: Bus, HostImpl: Host> {
    pub bus: SpiBus,
    pub state: DeviceState<HostImpl>,
}

impl<SpiBus: Bus, HostImpl: Host> Device<SpiBus, HostImpl> {
    pub fn new(bus: SpiBus, state: DeviceState<HostImpl>) -> (r: Self)
        ensures
            r.bus == bus,
            r.state == state,
    {
        Device { bus, state }
    }

    pub fn get_state(&self) -> (r: &DeviceState<HostImpl>)
        ensures
            r == self.state,
    {
        &self.state
    }

    /// Reset the chip and return to the uninitialized state.  The reset is
    /// refused with `SocketsNotReleased` exactly when a socket is still
    /// allocated; otherwise the reset bit is written to the mode register.
    pub fn reset(self) -> (r: Result<
        crate::uninitialized_device::UninitializedDevice<SpiBus>,
        ResetError<SpiBus::Error>,
    >)
        ensures
            (r matches Err(e) && e is SocketsNotReleased) <==> self.state.sockets != 0xFF,
            r matches Ok(d) ==> d.bus.ops() == self.bus.ops().push(
                wr(register::COMMON, common::MODE, seq![0x80u8]),
            ),
    {
        let mut this = self;
        if this.state.any_allocated() {
            Err(ResetError::SocketsNotReleased)
        } else {
            match this.reset_device() {
                Ok(_) => Ok(crate::uninitialized_device::UninitializedDevice::new(this.bus)),
                Err(e) => Err(ResetError::Other(e)),
            }
        }
    }

    /// Give the bus handle and the state back.
    pub fn release(self) -> (r: (SpiBus, DeviceState<HostImpl>))
        ensures
            r.0 == self.bus,
            r.1 == self.state,
    {
        (self.bus, self.state)
    }

    /// Allocate a free socket, if one is left.
    pub fn take_socket(&mut self) -> (r: Option<Socket>)
        ensures
            final (self).bus == old(self).bus,
            final (self).state.host == old(self).state.host,
            match r {
                Some(s) => s.wf() && spec_get_bit(old(self).state.sockets, s.index) && final (self).state.sockets == spec_set_bit(old(self).state.sockets, s.index, false) && (
                forall|j: u8| j < s.index ==> !spec_get_bit(old(self).state.sockets, j)),
                None => old(self).state.sockets == 0 && final (self).state.sockets == old(self).state.sockets,
            },
    {
        self.state.socket()
    }

    /// Return a socket to the allocator.
    pub fn release_socket(&mut self, socket: Socket)
        requires
            socket.wf(),
        ensures
            final (self).bus == old(self).bus,
            final (self).state.host == old(self).state.host,
            final (self).state.sockets == spec_set_bit(old(self).state.sockets, socket.index, true),
    {
        self.state.release_socket(socket)
    }

    /// The gateway address the chip holds.
    pub fn gateway(&mut self) -> (r: Result<Ipv4Addr, SpiBus::Error>)
        ensures
            final (self).state == old(self).state,
            match r {
                Ok(ip) => final (self).bus.ops() == old(self).bus.ops().push(
                    rd(register::COMMON, common::GATEWAY, ip.octets@),
                ),
                Err(_) => final (self).bus.ops() == old(self).bus.ops(),
            },
    {
        match self.bus.read_frame(register::COMMON, common::GATEWAY, 4) {
            Ok(data) => {
                let ip = Ipv4Addr::new(data[0], data[1], data[2], data[3]);
                proof {
                    assert(ip.octets@ =~= data@);
                }
                Ok(ip)
            },
            Err(e) => Err(e),
        }
    }

    /// The subnet mask the chip holds.
    pub fn subnet_mask(&mut self) -> (r: Result<Ipv4Addr, SpiBus::Error>)
        ensures
            final (self).state == old(self).state,
            match r {
                Ok(ip) => final (self).bus.ops() == old(self).bus.ops().push(
                    rd(register::COMMON, common::SUBNET_MASK, ip.octets@),
                ),
                Err(_) => final (self).bus.ops() == old(self).bus.ops(),
            },
    {
        match self.bus.read_frame(register::COMMON, common::SUBNET_MASK, 4) {
            Ok(data) => {
                let ip = Ipv4Addr::new(data[0], data[1], data[2], data[3]);
                proof {
                    assert(ip.octets@ =~= data@);
                }
                Ok(ip)
            },
            Err(e) => Err(e),
        }
    }

    /// The MAC address the chip holds.
    pub fn mac(&mut self) -> (r: Result<MacAddress, SpiBus::Error>)
        ensures
            final (self).state == old(self).state,
            match r {
                Ok(mac) => final (self).bus.ops() == old(self).bus.ops().push(
                    rd(register::COMMON, common::MAC, mac.octets@),
                ),
                Err(_) => final (self).bus.ops() == old(self).bus.ops(),
            },
    {
        match self.bus.read_frame(register::COMMON, common::MAC, 6) {
            Ok(data) => {
                let mac = MacAddress::new(data[0], data[1], data[2], data[3], data[4], data[5]);
                proof {
                    assert(mac.octets@ =~= data@);
                }
                Ok(mac)
            },
            Err(e) => Err(e),
        }
    }

    /// The IP address the chip holds.
    pub fn ip(&mut self) -> (r: Result<Ipv4Addr, SpiBus::Error>)
        ensures
            final (self).state == old(self).state,
            match r {
                Ok(ip) => final (self).bus.ops() == old(self).bus.ops().push(
                    rd(register::COMMON, common::IP, ip.octets@),
                ),
                Err(_) => final (self).bus.ops() == old(self).bus.ops(),
            },
    {
        match self.bus.read_frame(register::COMMON, common::IP, 4) {
            Ok(data) => {
                let ip = Ipv4Addr::new(data[0], data[1], data[2], data[3]);
                proof {
                    assert(ip.octets@ =~= data@);
                }
                Ok(ip)
            },
            Err(e) => Err(e),
        }
    }

    /// The PHY configuration register.
    pub fn phy_config(&mut self) -> (r: Result<PhyConfig, SpiBus::Error>)
        ensures
            final (self).state == old(self).state,
            match r {
                Ok(phy) => final (self).bus.ops() == old(self).bus.ops().push(
                    rd(register::COMMON, common::PHY_CONFIG, seq![phy.0]),
                ),
                Err(_) => final (self).bus.ops() == old(self).bus.ops(),
            },
    {
        match read_u8(&mut self.bus, register::COMMON, common::PHY_CONFIG) {
            Ok(v) => Ok(PhyConfig::from_u8(v)),
            Err(e) => Err(e),
        }
    }

    /// Write the reset bit of the common mode register.
    pub fn reset_device(&mut self) -> (r: Result<(), SpiBus::Error>)
        ensures
            final (self).state == old(self).state,
            match r {
                Ok(_) => final (self).bus.ops() == old(self).bus.ops().push(
                    wr(register::COMMON, common::MODE, seq![0x80u8]),
                ),
                Err(_) => final (self).bus.ops() == old(self).bus.ops(),
            },
    {
        write_u8(&mut self.bus, register::COMMON, common::MODE, 0x80)
    }

    /// Write the chip-wide mode byte.
    pub fn set_mode(&mut self, mode_options: Mode) -> (r: Result<(), SpiBus::Error>)
        ensures
            final (self).state == old(self).state,
            match r {
                Ok(_) => final (self).bus.ops() == old(self).bus.ops().push(
                    wr(register::COMMON, common::MODE, seq![mode_options.spec_u8()]),
                ),
                Err(_) => final (self).bus.ops() == old(self).bus.ops(),
            },
    {
        write_u8(&mut self.bus, register::COMMON, common::MODE, mode_options.to_u8())
    }

    /// The chip version register; a healthy chip reads 0x04.
    pub fn version(&mut self) -> (r: Result<u8, SpiBus::Error>)
        ensures
            final (self).state == old(self).state,
            match r {
                Ok(v) => final (self).bus.ops() == old(self).bus.ops().push(
                    rd(register::COMMON, common::VERSION, seq![v]),
                ),
                Err(_) => final (self).bus.ops() == old(self).bus.ops(),
            },
    {
        read_u8(&mut self.bus, register::COMMON, common::VERSION)
    }

    /// Set the retry time-value register.
    pub fn set_retry_timeout(&mut self, retry_time_value: RetryTime) -> (r: Result<
        (),
        SpiBus::Error,
    >)
        ensures
            final (self).state == old(self).state,
            match r {
                Ok(_) => final (self).bus.ops() == old(self).bus.ops().push(
                    wr(
                        register::COMMON,
                        common::RETRY_TIME,
                        crate::frame::spec_be2(retry_time_value.0),
                    ),
                ),
                Err(_) => final (self).bus.ops() == old(self).bus.ops(),
            },
    {
        write_u16(&mut self.bus, register::COMMON, common::RETRY_TIME, retry_time_value.to_u16())
    }

    /// The current retry time-value register.
    pub fn current_retry_timeout(&mut self) -> (r: Result<RetryTime, SpiBus::Error>)
        ensures
            final (self).state == old(self).state,
            match r {
                Ok(t) => final (self).bus.ops() == old(self).bus.ops().push(
                    rd(register::COMMON, common::RETRY_TIME, crate::frame::spec_be2(t.0)),
                ),
                Err(_) => final (self).bus.ops() == old(self).bus.ops(),
            },
    {
        match read_u16(&mut self.bus, register::COMMON, common::RETRY_TIME) {
            Ok(v) => Ok(RetryTime(v)),
            Err(e) => Err(e),
        }
    }

    /// Set the retry count register: the chip retransmits this many extra
    /// times before raising a timeout.
    pub fn set_retry_count(&mut self, retry_count: u8) -> (r: Result<(), SpiBus::Error>)
        ensures
            final (self).state == old(self).state,
            match r {
                Ok(_) => final (self).bus.ops() == old(self).bus.ops().push(
                    wr(register::COMMON, common::RETRY_COUNT, seq![retry_count]),
                ),
                Err(_) => final (self).bus.ops() == old(self).bus.ops(),
            },
    {
        write_u8(&mut self.bus, register::COMMON, common::RETRY_COUNT, retry_count)
    }

    /// The current retry count register.
    pub fn current_retry_count(&mut self) -> (r: Result<u8, SpiBus::Error>)
        ensures
            final (self).state == old(self).state,
            match r {
                Ok(v) => final (self).bus.ops() == old(self).bus.ops().push(
                    rd(register::COMMON, common::RETRY_COUNT, seq![v]),
                ),
                Err(_) => final (self).bus.ops() == old(self).bus.ops(),
            },
    {
        read_u8(&mut self.bus, register::COMMON, common::RETRY_COUNT)
    }

    /// Part the state from the bus handle; the state survives unchanged.
    pub fn deactivate(self) -> (r: (SpiBus, InactiveDevice<HostImpl>))
        ensures
            r.0 == self.bus,
            r.1.0 == self.state,
    {
        (self.bus, InactiveDevice(self.state))
    }

    /// Allocate a socket and wrap it as a UDP endpoint.  This fails exactly
    /// when all eight sockets are taken.
    pub fn udp_socket(&mut self) -> (r: Result<
        crate::udp::UdpSocket,
        crate::udp::UdpSocketError<SpiBus::Error>,
    >)
        ensures
            final (self).bus == old(self).bus,
            final (self).state.host == old(self).state.host,
            match r {
                Ok(s) => s.wf() && s.destination is None && s.port == 49152 + s.socket.index
                    && spec_get_bit(old(self).state.sockets, s.socket.index) && final (
                self).state.sockets == spec_set_bit(old(self).state.sockets, s.socket.index, false),
                Err(e) => e is NoMoreSockets && old(self).state.sockets == 0 && final (
                self).state.sockets == old(self).state.sockets,
            },
    {
        match self.take_socket() {
            Some(socket) => Ok(crate::udp::UdpSocket::new(socket)),
            None => Err(crate::udp::UdpSocketError::NoMoreSockets),
        }
    }

    /// Close a UDP endpoint's socket on the chip and return it to the
    /// allocator.
    pub fn close_udp(&mut self, socket: crate::udp::UdpSocket) -> (r: Result<
        (),
        crate::udp::UdpSocketError<SpiBus::Error>,
    >)
        requires
            socket.wf(),
        ensures
            final (self).state.host == old(self).state.host,
            r matches Ok(_) ==> final (self).bus.ops() == old(self).bus.ops() + seq![
                wr(socket.socket.spec_register(), crate::register::socketn::MODE, seq![0x00u8]),
                wr(socket.socket.spec_register(), crate::register::socketn::COMMAND, seq![0x10u8]),
            ] && final (self).state.sockets == spec_set_bit(
                old(self).state.sockets,
                socket.socket.index,
                true,
            ),
            r matches Err(e) ==> e is Other && final (self).state.sockets == old(
                self,
            ).state.sockets,
    {
        match socket.socket_close(&mut self.bus) {
            Ok(_) => (),
            Err(e) => {
                return Err(e);
            },
        }
        self.release_socket(socket.socket);
        Ok(())
    }

    /// Allocate a socket and wrap it as a TCP endpoint.  This fails exactly
    /// when all eight sockets are taken.
    pub fn tcp_socket(&mut self) -> (r: Result<
        crate::tcp::TcpSocket,
        crate::tcp::TcpSocketError<SpiBus::Error>,
    >)
        ensures
            final (self).bus == old(self).bus,
            final (self).state.host == old(self).state.host,
            match r {
                Ok(s) => s.wf() && spec_get_bit(old(self).state.sockets, s.socket.index) && final (
                self).state.sockets == spec_set_bit(old(self).state.sockets, s.socket.index, false),
                Err(e) => e is NoMoreSockets && old(self).state.sockets == 0 && final (
                self).state.sockets == old(self).state.sockets,
            },
    {
        match self.take_socket() {
            Some(socket) => Ok(crate::tcp::TcpSocket::new(socket)),
            None => Err(crate::tcp::TcpSocketError::NoMoreSockets),
        }
    }

    /// Close a TCP endpoint's socket on the chip and return it to the
    /// allocator.
    pub fn close_tcp(&mut self, socket: crate::tcp::TcpSocket) -> (r: Result<
        (),
        crate::tcp::TcpSocketError<SpiBus::Error>,
    >)
        requires
            socket.wf(),
        ensures
            final (self).state.host == old(self).state.host,
            r matches Ok(_) ==> final (self).bus.ops() == old(self).bus.ops()
                + crate::tcp::spec_tcp_close_ops(socket.socket.spec_register()) && final (
            self).state.sockets == spec_set_bit(old(self).state.sockets, socket.socket.index, true),
            r matches Err(e) ==> e is Other && final (self).state.sockets == old(
                self,
            ).state.sockets,
    {
        match socket.socket_close(&mut self.bus) {
            Ok(_) => (),
            Err(e) => {
                return Err(e);
            },
        }
        self.release_socket(socket.socket);
        Ok(())
    }
}

/// Device state parted from its bus handle.
#[derive(Debug)]
pub struct InactiveDevice<HostImpl: Host>(pub DeviceState<HostImpl>);

impl<HostImpl: Host> InactiveDevice<HostImpl> {
    /// Marry the state to a bus handle again.  The allocator bitmap and the
    /// host configuration come through a deactivate/activate round trip
    /// unchanged.
    pub fn activate<SpiBus: Bus>(self, bus: SpiBus) -> (r: Device<SpiBus, HostImpl>)
        ensures
            r.bus == bus,
            r.state == self.0,
    {
        Device { bus, state: self.0 }
    }
}

} // verus!

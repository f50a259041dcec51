//! The device before initialization: version check, chip reset, mode write,
//! host-configuration setup.

use vstd::prelude::*;

use crate::bus::{
    appended_ops, extends, rd, read_u16, read_u8, wr, write_u16, write_u8, Bus, BusOp,
};
use crate::device::{Device, DeviceState};
use crate::host::dhcp::Dhcp;
use crate::host::manual::Manual;
use crate::host::{spec_default_config, spec_settings_writes, Host, HostConfig};
use crate::net::{Ipv4Addr, MacAddress};
use crate::register;
use crate::register::common;
use crate::register::common::RetryTime;
use crate::socket::is_reg_read;
use crate::Mode;

verus! {

/// Why initialization failed.
#[derive(Debug)]
pub enum InitializeError<SpiError> {
    SpiError(SpiError),
    /// The version register did not read 0x04.
    ChipNotConnected,
}

/// A device around a bus handle, not yet initialized.
#[derive(Debug)]
pub struct UninitializedDevice<SpiBus: Bus> {
    pub bus: SpiBus,
}

/// The frames of a successful initialization before the host configuration is
/// applied: the version check reading 0x04, the reset write, the mode write.
pub open spec fn spec_init_prefix(mode_byte: u8) -> Seq<BusOp> {
    seq![
        rd(register::COMMON, common::VERSION, seq![0x04u8]),
        wr(register::COMMON, common::MODE, seq![0x80u8]),
        wr(register::COMMON, common::MODE, seq![mode_byte]),
    ]
}

impl<SpiBus: Bus> UninitializedDevice<SpiBus> {
    pub fn new(bus: SpiBus) -> (r: UninitializedDevice<SpiBus>)
        ensures
            r.bus == bus,
    {
        UninitializedDevice { bus }
    }

    /// Initialize with a MAC address and mode settings, deferring address
    /// configuration to DHCP.
    pub fn initialize(self, mac: MacAddress, mode_options: Mode) -> (r: Result<
        Device<SpiBus, Dhcp>,
        InitializeError<SpiBus::Error>,
    >)
        ensures
            r matches Ok(d) ==> (d.bus.ops() == self.bus.ops() + spec_init_prefix(
                mode_options.spec_u8(),
            ) && d.state.sockets == 0xFF && d.state.host == (Dhcp { mac })),
    {
        let host = Dhcp::new(mac);
        let r = self.initialize_with_host(host, mode_options);
        proof {
            if r is Ok {
                let d = r->Ok_0;
                assert(self.bus.ops() + spec_init_prefix(mode_options.spec_u8())
                    + Seq::<BusOp>::empty() =~= self.bus.ops() + spec_init_prefix(
                    mode_options.spec_u8(),
                ));
            }
        }
        r
    }

    /// Initialize with a fixed IP.  The gateway is the IP with its last octet
    /// forced to 1, and the subnet mask is 255.255.255.0.
    pub fn initialize_manual(self, mac: MacAddress, ip: Ipv4Addr, mode_options: Mode) -> (r: Result<
        Device<SpiBus, Manual>,
        InitializeError<SpiBus::Error>,
    >)
        ensures
            r matches Ok(d) ==> ({
                let settings = HostConfig {
                    mac,
                    ip,
                    gateway: Ipv4Addr {
                        octets: [ip.octets[0], ip.octets[1], ip.octets[2], 1u8],
                    },
                    subnet: Ipv4Addr { octets: [255u8, 255u8, 255u8, 0u8] },
                };
                &&& d.bus.ops() == self.bus.ops() + spec_init_prefix(mode_options.spec_u8())
                    + spec_settings_writes(spec_default_config(), settings)
                &&& d.state.sockets == 0xFF
                &&& d.state.host == Manual { is_setup: true, settings, current: settings }
            }),
    {
        let gateway = Ipv4Addr::new(ip.octets[0], ip.octets[1], ip.octets[2], 1);
        let subnet = Ipv4Addr::new(255, 255, 255, 0);
        self.initialize_advanced(mac, ip, gateway, subnet, mode_options)
    }

    /// Initialize with every address given explicitly.
    pub fn initialize_advanced(
        self,
        mac: MacAddress,
        ip: Ipv4Addr,
        gateway: Ipv4Addr,
        subnet: Ipv4Addr,
        mode_options: Mode,
    ) -> (r: Result<Device<SpiBus, Manual>, InitializeError<SpiBus::Error>>)
        ensures
            r matches Ok(d) ==> ({
                let settings = HostConfig { mac, ip, gateway, subnet };
                &&& d.bus.ops() == self.bus.ops() + spec_init_prefix(mode_options.spec_u8())
                    + spec_settings_writes(spec_default_config(), settings)
                &&& d.state.sockets == 0xFF
                &&& d.state.host == Manual { is_setup: true, settings, current: settings }
            }),
    {
        let host = Manual::new(mac, ip, gateway, subnet);
        self.initialize_with_host(host, mode_options)
    }

    /// Read the version register and check it against `expected_version`.
    /// This succeeds exactly when the chip answered that byte; any other
    /// byte is `ChipNotConnected`, and the trace shows the byte read either
    /// way.  A bus failure leaves the trace unchanged.
    pub fn assert_chip_version(&mut self, expected_version: u8) -> (r: Result<
        (),
        InitializeError<SpiBus::Error>,
    >)
        ensures
            ({
                let appended = appended_ops(old(self).bus.ops(), final (self).bus.ops());
                &&& extends(old(self).bus.ops(), final (self).bus.ops())
                &&& (r matches Ok(_) <==> final (self).bus.ops() == old(self).bus.ops().push(
                    rd(register::COMMON, common::VERSION, seq![expected_version]),
                ))
                &&& (r matches Err(e) ==> match e {
                    InitializeError::ChipNotConnected => appended.len() == 1 && is_reg_read(
                        register::COMMON,
                        common::VERSION,
                        1,
                        appended[0],
                    ) && appended[0].data()[0] != expected_version,
                    InitializeError::SpiError(_) => final (self).bus.ops() == old(self).bus.ops(),
                })
            }),
    {
        let ghost base = self.bus.ops();
        let version = match read_u8(&mut self.bus, register::COMMON, common::VERSION) {
            Ok(v) => v,
            Err(e) => {
                proof {
                    assert(self.bus.ops() =~= base + self.bus.ops().skip(base.len() as int));
                }
                return Err(InitializeError::SpiError(e));
            },
        };
        proof {
            assert(self.bus.ops() =~= base + self.bus.ops().skip(base.len() as int));
        }
        if version != expected_version {
            proof {
                let good = base.push(rd(register::COMMON, common::VERSION, seq![expected_version]));
                if self.bus.ops() == good {
                    assert(self.bus.ops()[self.bus.ops().len() - 1] == rd(
                        register::COMMON,
                        common::VERSION,
                        seq![expected_version],
                    ));
                    assert(seq![version] == seq![expected_version]);
                    assert(seq![version][0] == seq![expected_version][0]);
                }
            }
            return Err(InitializeError::ChipNotConnected);
        }
        Ok(())
    }

    /// The shared initialization sequence: check the version register, write
    /// the reset bit, write the mode byte, refresh the host configuration.
    fn initialize_with_host<HostImpl: Host>(self, host: HostImpl, mode_options: Mode) -> (r: Result<
        Device<SpiBus, HostImpl>,
        InitializeError<SpiBus::Error>,
    >)
        ensures
            r matches Ok(d) ==> d.bus.ops() == self.bus.ops() + spec_init_prefix(
                mode_options.spec_u8(),
            ) + host.spec_refresh_writes() && d.state.sockets == 0xFF && d.state.host
                == host.spec_after_refresh(),
    {
        let mut this = self;
        let mut host = host;
        let ghost base = this.bus.ops();
        match this.assert_chip_version(0x04) {
            Ok(_) => (),
            Err(e) => {
                return Err(e);
            },
        }
        match write_u8(&mut this.bus, register::COMMON, common::MODE, 0x80) {
            Ok(_) => (),
            Err(e) => {
                return Err(InitializeError::SpiError(e));
            },
        }
        match write_u8(&mut this.bus, register::COMMON, common::MODE, mode_options.to_u8()) {
            Ok(_) => (),
            Err(e) => {
                return Err(InitializeError::SpiError(e));
            },
        }
        proof {
            assert(this.bus.ops() =~= base + spec_init_prefix(mode_options.spec_u8()));
        }
        let ghost pre_refresh = this.bus.ops();
        let ghost host_pre = host;
        match host.refresh(&mut this.bus) {
            Ok(_) => (),
            Err(e) => {
                return Err(InitializeError::SpiError(e));
            },
        }
        proof {
            assert(this.bus.ops() =~= base + spec_init_prefix(mode_options.spec_u8())
                + host_pre.spec_refresh_writes());
        }
        Ok(Device::new(this.bus, DeviceState::new(host)))
    }

    /// Repurpose the chip for raw Ethernet: reset it, write the MAC address,
    /// and hand the bus to a MACRAW device built around socket 0.
    pub fn initialize_macraw(self, mac: MacAddress) -> (r: Result<
        crate::raw_device::RawDevice<SpiBus>,
        InitializeError<SpiBus::Error>,
    >)
        ensures
            r matches Ok(d) ==> d.wf() && d.bus.ops() == self.bus.ops() + seq![
                wr(register::COMMON, common::MODE, seq![0x80u8]),
                wr(register::COMMON, common::MAC, mac.octets@),
            ] + crate::raw_device::spec_macraw_setup_ops(),
    {
        let mut this = self;
        let ghost base = this.bus.ops();
        match write_u8(&mut this.bus, register::COMMON, common::MODE, 0x80) {
            Ok(_) => (),
            Err(e) => {
                return Err(InitializeError::SpiError(e));
            },
        }
        let mut mac_bytes: Vec<u8> = Vec::new();
        mac_bytes.push(mac.octets[0]);
        mac_bytes.push(mac.octets[1]);
        mac_bytes.push(mac.octets[2]);
        mac_bytes.push(mac.octets[3]);
        mac_bytes.push(mac.octets[4]);
        mac_bytes.push(mac.octets[5]);
        proof {
            assert(mac_bytes@ =~= mac.octets@);
        }
        match this.bus.write_frame(register::COMMON, common::MAC, &mac_bytes) {
            Ok(_) => (),
            Err(e) => {
                return Err(InitializeError::SpiError(e));
            },
        }
        proof {
            assert(this.bus.ops() =~= base + seq![
                wr(register::COMMON, common::MODE, seq![0x80u8]),
                wr(register::COMMON, common::MAC, mac.octets@),
            ]);
        }
        let r = crate::raw_device::RawDevice::new(this.bus);
        proof {
            if r is Ok {
                let d = r->Ok_0;
                assert(d.bus.ops() =~= base + seq![
                    wr(register::COMMON, common::MODE, seq![0x80u8]),
                    wr(register::COMMON, common::MAC, mac.octets@),
                ] + crate::raw_device::spec_macraw_setup_ops());
            }
        }
        r
    }

    /// Write the reset bit of the common mode register.
    pub fn reset(&mut self) -> (r: Result<(), SpiBus::Error>)
        ensures
            match r {
                Ok(_) => final (self).bus.ops() == old(self).bus.ops().push(
                    wr(register::COMMON, common::MODE, seq![0x80u8]),
                ),
                Err(_) => final (self).bus.ops() == old(self).bus.ops(),
            },
    {
        write_u8(&mut self.bus, register::COMMON, common::MODE, 0x80)
    }

    /// Write the chip-wide mode byte.
    pub fn set_mode(&mut self, mode_options: Mode) -> (r: Result<(), SpiBus::Error>)
        ensures
            match r {
                Ok(_) => final (self).bus.ops() == old(self).bus.ops().push(
                    wr(register::COMMON, common::MODE, seq![mode_options.spec_u8()]),
                ),
                Err(_) => final (self).bus.ops() == old(self).bus.ops(),
            },
    {
        write_u8(&mut self.bus, register::COMMON, common::MODE, mode_options.to_u8())
    }

    /// The chip version register; a healthy chip reads 0x04.
    pub fn version(&mut self) -> (r: Result<u8, SpiBus::Error>)
        ensures
            match r {
                Ok(v) => final (self).bus.ops() == old(self).bus.ops().push(
                    rd(register::COMMON, common::VERSION, seq![v]),
                ),
                Err(_) => final (self).bus.ops() == old(self).bus.ops(),
            },
    {
        read_u8(&mut self.bus, register::COMMON, common::VERSION)
    }

    /// Set the retry time-value register.
    pub fn set_retry_timeout(&mut self, retry_time_value: RetryTime) -> (r: Result<
        (),
        SpiBus::Error,
    >)
        ensures
            match r {
                Ok(_) => final (self).bus.ops() == old(self).bus.ops().push(
                    wr(
                        register::COMMON,
                        common::RETRY_TIME,
                        crate::frame::spec_be2(retry_time_value.0),
                    ),
                ),
                Err(_) => final (self).bus.ops() == old(self).bus.ops(),
            },
    {
        write_u16(&mut self.bus, register::COMMON, common::RETRY_TIME, retry_time_value.to_u16())
    }

    /// The current retry time-value register.
    pub fn current_retry_timeout(&mut self) -> (r: Result<RetryTime, SpiBus::Error>)
        ensures
            match r {
                Ok(t) => final (self).bus.ops() == old(self).bus.ops().push(
                    rd(register::COMMON, common::RETRY_TIME, crate::frame::spec_be2(t.0)),
                ),
                Err(_) => final (self).bus.ops() == old(self).bus.ops(),
            },
    {
        match read_u16(&mut self.bus, register::COMMON, common::RETRY_TIME) {
            Ok(v) => Ok(RetryTime(v)),
            Err(e) => Err(e),
        }
    }

    /// Set the retry count register.
    pub fn set_retry_count(&mut self, retry_count: u8) -> (r: Result<(), SpiBus::Error>)
        ensures
            match r {
                Ok(_) => final (self).bus.ops() == old(self).bus.ops().push(
                    wr(register::COMMON, common::RETRY_COUNT, seq![retry_count]),
                ),
                Err(_) => final (self).bus.ops() == old(self).bus.ops(),
            },
    {
        write_u8(&mut self.bus, register::COMMON, common::RETRY_COUNT, retry_count)
    }

    /// The current retry count register.
    pub fn current_retry_count(&mut self) -> (r: Result<u8, SpiBus::Error>)
        ensures
            match r {
                Ok(v) => final (self).bus.ops() == old(self).bus.ops().push(
                    rd(register::COMMON, common::RETRY_COUNT, seq![v]),
                ),
                Err(_) => final (self).bus.ops() == old(self).bus.ops(),
            },
    {
        read_u8(&mut self.bus, register::COMMON, common::RETRY_COUNT)
    }
}

} // verus!

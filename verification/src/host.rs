//! Host configuration: the MAC, IP, gateway and subnet values written to the
//! chip's common registers, refreshed by diffing desired settings against a
//! shadow of what was last written.

use vstd::prelude::*;

pub mod dhcp;
pub mod manual;

use crate::bus::{appended_ops, extends, touches_only, wr, Bus, BusOp};
use crate::net::{Ipv4Addr, MacAddress};
use crate::register;
use crate::register::common;

verus! {

/// The {MAC, IP, gateway, subnet} tuple the common registers hold.
#[derive(Copy, Clone, Debug, PartialEq, Eq)]
pub struct HostConfig {
    pub mac: MacAddress,
    pub ip: Ipv4Addr,
    pub gateway: Ipv4Addr,
    pub subnet: Ipv4Addr,
}

impl HostConfig {
    /// The two configurations name the same addresses, octet for octet.
    pub open spec fn same_as(self, other: HostConfig) -> bool {
        &&& self.mac.octets@ == other.mac.octets@
        &&& self.ip.octets@ == other.ip.octets@
        &&& self.gateway.octets@ == other.gateway.octets@
        &&& self.subnet.octets@ == other.subnet.octets@
    }
}

/// The configuration with every address unspecified: what a shadow copy
/// assumes of a freshly reset chip.
pub open spec fn spec_default_config() -> HostConfig {
    HostConfig {
        mac: MacAddress { octets: [0u8, 0u8, 0u8, 0u8, 0u8, 0u8] },
        ip: Ipv4Addr { octets: [0u8, 0u8, 0u8, 0u8] },
        gateway: Ipv4Addr { octets: [0u8, 0u8, 0u8, 0u8] },
        subnet: Ipv4Addr { octets: [0u8, 0u8, 0u8, 0u8] },
    }
}

impl Default for HostConfig {
    /// All addresses unspecified.
    fn default() -> (r: Self)
        ensures
            r == spec_default_config(),
    {
        HostConfig {
            mac: MacAddress { octets: [0u8, 0u8, 0u8, 0u8, 0u8, 0u8] },
            ip: Ipv4Addr { octets: [0u8, 0u8, 0u8, 0u8] },
            gateway: Ipv4Addr { octets: [0u8, 0u8, 0u8, 0u8] },
            subnet: Ipv4Addr { octets: [0u8, 0u8, 0u8, 0u8] },
        }
    }
}

/// The writes that bring the chip's common registers from `current` to
/// `settings`: one write per field that differs, in the order gateway,
/// subnet, MAC, IP.
pub open spec fn spec_settings_writes(current: HostConfig, settings: HostConfig) -> Seq<BusOp> {
    (if settings.gateway.octets@ != current.gateway.octets@ {
        seq![wr(register::COMMON, common::GATEWAY, settings.gateway.octets@)]
    } else {
        Seq::empty()
    }) + (if settings.subnet.octets@ != current.subnet.octets@ {
        seq![wr(register::COMMON, common::SUBNET_MASK, settings.subnet.octets@)]
    } else {
        Seq::empty()
    }) + (if settings.mac.octets@ != current.mac.octets@ {
        seq![wr(register::COMMON, common::MAC, settings.mac.octets@)]
    } else {
        Seq::empty()
    }) + (if settings.ip.octets@ != current.ip.octets@ {
        seq![wr(register::COMMON, common::IP, settings.ip.octets@)]
    } else {
        Seq::empty()
    })
}

/// A provider of host settings.  A refresh writes whatever the provider has
/// pending to the chip's common registers, and nothing else.
pub trait Host: Sized {
    /// The writes a refresh performs from this state.
    spec fn spec_refresh_writes(self) -> Seq<BusOp>;

    /// The provider's state after a successful refresh.
    spec fn spec_after_refresh(self) -> Self;

    /// Get (if necessary) and write the host settings to the chip.
    fn refresh<B: Bus>(&mut self, bus: &mut B) -> (r: Result<(), B::Error>)
        ensures
            extends(old(bus).ops(), final (bus).ops()),
            touches_only(
                appended_ops(old(bus).ops(), final (bus).ops()),
                Set::empty().insert(register::COMMON),
            ),
            r is Ok ==> final (bus).ops() == old(bus).ops() + old(self).spec_refresh_writes() && *final (self)
                == old(self).spec_after_refresh(),
    ;
}

/// Write any settings that differ from the shadow `current` to the chip, then
/// bring the shadow up to date.
pub fn write_settings<B: Bus>(bus: &mut B, current: &mut HostConfig, settings: &HostConfig) -> (r:
    Result<(), B::Error>)
    ensures
        extends(old(bus).ops(), final (bus).ops()),
        touches_only(
            appended_ops(old(bus).ops(), final (bus).ops()),
            Set::empty().insert(register::COMMON),
        ),
        match r {
            Ok(_) => final (bus).ops() == old(bus).ops() + spec_settings_writes(
                *old(current),
                *settings,
            ) && *final (current) == *settings,
            Err(_) => *final (current) == *old(current),
        },
{
    let ghost base = bus.ops();
    let ghost mut appended: Seq<BusOp> = Seq::empty();
    if !settings.gateway.eq(&current.gateway) {
        let mut data: Vec<u8> = Vec::new();
        data.push(settings.gateway.octets[0]);
        data.push(settings.gateway.octets[1]);
        data.push(settings.gateway.octets[2]);
        data.push(settings.gateway.octets[3]);
        proof {
            assert(data@ =~= settings.gateway.octets@);
        }
        match bus.write_frame(register::COMMON, common::GATEWAY, &data) {
            Ok(_) => (),
            Err(e) => {
                proof {
                    crate::bus::lemma_extends(base, appended);
                }
                return Err(e);
            },
        }
        proof {
            appended = appended.push(wr(register::COMMON, common::GATEWAY, data@));
        }
    }
    proof {
        assert(bus.ops() =~= base + appended);
    }
    if !settings.subnet.eq(&current.subnet) {
        let mut data: Vec<u8> = Vec::new();
        data.push(settings.subnet.octets[0]);
        data.push(settings.subnet.octets[1]);
        data.push(settings.subnet.octets[2]);
        data.push(settings.subnet.octets[3]);
        proof {
            assert(data@ =~= settings.subnet.octets@);
        }
        match bus.write_frame(register::COMMON, common::SUBNET_MASK, &data) {
            Ok(_) => (),
            Err(e) => {
                proof {
                    crate::bus::lemma_extends(base, appended);
                }
                return Err(e);
            },
        }
        proof {
            appended = appended.push(wr(register::COMMON, common::SUBNET_MASK, data@));
        }
    }
    proof {
        assert(bus.ops() =~= base + appended);
    }
    if !settings.mac.eq(&current.mac) {
        let mut data: Vec<u8> = Vec::new();
        data.push(settings.mac.octets[0]);
        data.push(settings.mac.octets[1]);
        data.push(settings.mac.octets[2]);
        data.push(settings.mac.octets[3]);
        data.push(settings.mac.octets[4]);
        data.push(settings.mac.octets[5]);
        proof {
            assert(data@ =~= settings.mac.octets@);
        }
        match bus.write_frame(register::COMMON, common::MAC, &data) {
            Ok(_) => (),
            Err(e) => {
                proof {
                    crate::bus::lemma_extends(base, appended);
                }
                return Err(e);
            },
        }
        proof {
            appended = appended.push(wr(register::COMMON, common::MAC, data@));
        }
    }
    proof {
        assert(bus.ops() =~= base + appended);
    }
    if !settings.ip.eq(&current.ip) {
        let mut data: Vec<u8> = Vec::new();
        data.push(settings.ip.octets[0]);
        data.push(settings.ip.octets[1]);
        data.push(settings.ip.octets[2]);
        data.push(settings.ip.octets[3]);
        proof {
            assert(data@ =~= settings.ip.octets@);
        }
        match bus.write_frame(register::COMMON, common::IP, &data) {
            Ok(_) => (),
            Err(e) => {
                proof {
                    crate::bus::lemma_extends(base, appended);
                }
                return Err(e);
            },
        }
        proof {
            appended = appended.push(wr(register::COMMON, common::IP, data@));
        }
    }
    *current = *settings;
    proof {
        assert(bus.ops() =~= base + appended);
        assert(appended =~= spec_settings_writes(*old(current), *settings));
        crate::bus::lemma_extends(base, appended);
    }
    Ok(())
}

} // verus!

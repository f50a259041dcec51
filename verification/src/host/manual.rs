//! Host settings fixed at construction and written to the chip once.

use vstd::prelude::*;

use crate::bus::{Bus, BusOp};
use crate::host::{spec_settings_writes, write_settings, Host, HostConfig};
use crate::net::{Ipv4Addr, MacAddress};

verus! {

/// Fixed host settings: the desired configuration, a shadow of what the chip
/// holds, and whether the one-time setup write has happened.
#[derive(Copy, Clone, Debug)]
pub struct Manual {
    pub is_setup: bool,
    pub settings: HostConfig,
    pub current: HostConfig,
}

impl Manual {
    pub fn new(mac: MacAddress, ip: Ipv4Addr, gateway: Ipv4Addr, subnet: Ipv4Addr) -> (r: Manual)
        ensures
            !r.is_setup,
            r.settings == (HostConfig { mac, ip, gateway, subnet }),
            r.current == crate::host::spec_default_config(),
    {
        Manual {
            is_setup: false,
            settings: HostConfig { mac, ip, gateway, subnet },
            current: HostConfig::default(),
        }
    }
}

impl Host for Manual {
    /// Nothing after setup; before it, the writes that bring the shadow to
    /// the desired settings.
    open spec fn spec_refresh_writes(self) -> Seq<BusOp> {
        if self.is_setup {
            Seq::empty()
        } else {
            spec_settings_writes(self.current, self.settings)
        }
    }

    open spec fn spec_after_refresh(self) -> Manual {
        if self.is_setup {
            self
        } else {
            Manual { is_setup: true, settings: self.settings, current: self.settings }
        }
    }

    fn refresh<B: Bus>(&mut self, bus: &mut B) -> (r: Result<(), B::Error>) {
        if !self.is_setup {
            match write_settings(bus, &mut self.current, &self.settings) {
                Ok(_) => (),
                Err(e) => {
                    return Err(e);
                },
            }
            self.is_setup = true;
        } else {
            proof {
                crate::bus::lemma_extends(bus.ops(), Seq::empty());
                assert(bus.ops() + Seq::<BusOp>::empty() =~= bus.ops());
            }
        }
        Ok(())
    }
}

} // verus!

//! Host configuration deferred to DHCP.
//!
//! Negotiating settings over DHCP belongs to a subsystem that drives a UDP
//! socket and updates the chip when a lease arrives; this provider accepts
//! the MAC address and leaves the chip's addresses untouched.

use vstd::prelude::*;

use crate::bus::{Bus, BusOp};
use crate::host::Host;
use crate::net::MacAddress;

verus! {

/// A host-configuration provider that leaves the chip's addresses untouched.
#[derive(Copy, Clone, Debug)]
pub struct Dhcp {
    pub mac: MacAddress,
}

impl Dhcp {
    pub fn new(mac: MacAddress) -> (r: Dhcp)
        ensures
            r.mac == mac,
    {
        Dhcp { mac }
    }
}

impl Host for Dhcp {
    open spec fn spec_refresh_writes(self) -> Seq<BusOp> {
        Seq::empty()
    }

    open spec fn spec_after_refresh(self) -> Dhcp {
        self
    }

    fn refresh<B: Bus>(&mut self, bus: &mut B) -> (r: Result<(), B::Error>) {
        proof {
            crate::bus::lemma_extends(bus.ops(), Seq::empty());
            assert(bus.ops() + Seq::<BusOp>::empty() =~= bus.ops());
        }
        Ok(())
    }
}

} // verus!

//! Networking value types: MAC addresses, IPv4 addresses, and IPv4 socket
//! addresses, held as plain octets.

use vstd::prelude::*;

use crate::frame::spec_u16;

verus! {

/// An EUI-48 MAC address.
#[derive(Copy, Clone, Debug, PartialEq, Eq, Hash)]
pub struct MacAddress {
    /// Octets of the MAC address.
    pub octets: [u8; 6],
}

impl MacAddress {
    /// The MAC address `a`:`b`:`c`:`d`:`e`:`f`.
    pub fn new(a: u8, b: u8, c: u8, d: u8, e: u8, f: u8) -> (r: MacAddress)
        ensures
            r == (MacAddress { octets: [a, b, c, d, e, f] }),
            r.octets@ == seq![a, b, c, d, e, f],
    {
        let octets: [u8; 6] = [a, b, c, d, e, f];
        assert(octets@ =~= seq![a, b, c, d, e, f]);
        MacAddress { octets }
    }

    /// The six octets that make up this address.
    pub fn octets(&self) -> (r: [u8; 6])
        ensures
            r@ == self.octets@,
    {
        self.octets
    }

    pub fn eq(&self, other: &MacAddress) -> (r: bool)
        ensures
            r == (self.octets@ =~= other.octets@),
    {
        let mut i: usize = 0;
        while i < 6
            invariant
                i <= 6,
                forall|j: int| 0 <= j < i ==> self.octets@[j] == other.octets@[j],
        decreases 6 - i,
        {
            if self.octets[i] != other.octets[i] {
                return false;
            }
            i = i + 1;
        }
        proof {
            assert(self.octets@.len() == 6 && other.octets@.len() == 6);
        }
        true
    }
}

impl Default for MacAddress {
    /// The unspecified address 00:00:00:00:00:00.
    fn default() -> (r: Self)
        ensures
            r.octets@ == seq![0u8, 0u8, 0u8, 0u8, 0u8, 0u8],
    {
        let octets: [u8; 6] = [0, 0, 0, 0, 0, 0];
        assert(octets@ =~= seq![0u8, 0u8, 0u8, 0u8, 0u8, 0u8]);
        MacAddress { octets }
    }
}

/// An IPv4 address, held as its four octets.
#[derive(Copy, Clone, Debug, PartialEq, Eq, Hash)]
pub struct Ipv4Addr {
    pub octets: [u8; 4],
}

impl Ipv4Addr {
    /// The address `a`.`b`.`c`.`d`.
    pub fn new(a: u8, b: u8, c: u8, d: u8) -> (r: Ipv4Addr)
        ensures
            r == (Ipv4Addr { octets: [a, b, c, d] }),
            r.octets@ == seq![a, b, c, d],
    {
        let octets: [u8; 4] = [a, b, c, d];
        assert(octets@ =~= seq![a, b, c, d]);
        Ipv4Addr { octets }
    }

    pub fn octets(&self) -> (r: [u8; 4])
        ensures
            r@ == self.octets@,
    {
        self.octets
    }

    /// The unspecified address 0.0.0.0.
    pub fn unspecified() -> (r: Ipv4Addr)
        ensures
            r == (Ipv4Addr { octets: [0u8, 0u8, 0u8, 0u8] }),
            r.octets@ == seq![0u8, 0u8, 0u8, 0u8],
    {
        Ipv4Addr::new(0, 0, 0, 0)
    }

    pub fn eq(&self, other: &Ipv4Addr) -> (r: bool)
        ensures
            r == (self.octets@ =~= other.octets@),
    {
        let r = self.octets[0] == other.octets[0] && self.octets[1] == other.octets[1]
            && self.octets[2] == other.octets[2] && self.octets[3] == other.octets[3];
        proof {
            assert(self.octets@.len() == 4 && other.octets@.len() == 4);
        }
        r
    }
}

impl Default for Ipv4Addr {
    fn default() -> (r: Self)
        ensures
            r.octets@ == seq![0u8, 0u8, 0u8, 0u8],
    {
        Ipv4Addr::unspecified()
    }
}

/// An IPv4 socket address: an address and a port.
#[derive(Copy, Clone, Debug, PartialEq, Eq, Hash)]
pub struct SocketAddrV4 {
    pub ip: Ipv4Addr,
    pub port: u16,
}

impl SocketAddrV4 {
    pub fn new(ip: Ipv4Addr, port: u16) -> (r: SocketAddrV4)
        ensures
            r.ip == ip && r.port == port,
    {
        SocketAddrV4 { ip, port }
    }

    pub fn ip(&self) -> (r: Ipv4Addr)
        ensures
            r == self.ip,
    {
        self.ip
    }

    pub fn port(&self) -> (r: u16)
        ensures
            r == self.port,
    {
        self.port
    }

    pub fn eq(&self, other: &SocketAddrV4) -> (r: bool)
        ensures
            r == (self.ip.octets@ =~= other.ip.octets@ && self.port == other.port),
    {
        self.ip.eq(&other.ip) && self.port == other.port
    }

    /// The origin a chip-prepended UDP packet header denotes: bytes 0 to 3
    /// are the source address, bytes 4 and 5 the big-endian source port.
    pub open spec fn spec_from_header(header: Seq<u8>) -> SocketAddrV4 {
        SocketAddrV4 {
            ip: Ipv4Addr { octets: [header[0], header[1], header[2], header[3]] },
            port: spec_u16(header[4], header[5]),
        }
    }
}

} // verus!

//! Network addresses as plain values.
use vstd::prelude::*;

verus! {

/// An IP address: its version, and its bits as a number.
#[derive(Clone, Copy, Debug, PartialEq, Eq, Structural)]
pub struct PeerIp {
    pub v6: bool,
    pub bits: u128,
}

/// The address of a peer. The flow information and the scope are those of an IPv6 address, and
/// zero otherwise.
#[derive(Clone, Copy, Debug, PartialEq, Eq, Structural)]
pub struct PeerAddr {
    pub ip: PeerIp,
    pub port: u16,
    pub flow: u32,
    pub scope: u32,
}

/// A port at an IP address.
pub open spec fn addr_at(ip: PeerIp, port: u16) -> PeerAddr {
    PeerAddr { ip: ip, port: port, flow: 0, scope: 0 }
}

/// A port at an IP address.
pub fn socket_addr(ip: PeerIp, port: u16) -> (a: PeerAddr)
    ensures
        a == addr_at(ip, port),
{
    PeerAddr { ip: ip, port: port, flow: 0, scope: 0 }
}

/// A port at an IP address keeps both, and has no flow and no scope.
pub proof fn law_addresses_keep_ip_and_port(ip: PeerIp, port: u16)
    ensures
        addr_at(ip, port).ip == ip,
        addr_at(ip, port).port == port,
        addr_at(ip, port).flow == 0,
        addr_at(ip, port).scope == 0,
{
}

} // verus!

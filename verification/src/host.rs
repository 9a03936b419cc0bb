use vstd::prelude::*;

verus! {

/// An IPv4 socket address as plain values: the four address octets and
/// the port.
#[derive(Clone, Copy, Debug, PartialEq, Eq)]
pub struct SocketAddressV4 {
    pub octets: [u8; 4],
    pub port: u16,
}

/// An IPv6 socket address as plain values: the eight 16-bit segments
/// and the port.
#[derive(Clone, Copy, Debug, PartialEq, Eq)]
pub struct SocketAddressV6 {
    pub segments: [u16; 8],
    pub port: u16,
}

/// A resolved socket address of either family.
#[derive(Clone, Copy, Debug, PartialEq, Eq)]
pub enum SocketAddress {
    V4(SocketAddressV4),
    V6(SocketAddressV6),
}

/// A host/port addressing value: either a still-unresolved domain name
/// with a port, or a resolved socket address. Pure data, consumed by
/// connection-establishment logic outside this library.
#[derive(Debug)]
pub enum HostPort {
    DomainPort(String, u16),
    IPPort(SocketAddress),
}

impl HostPort {
    /// The port of the address, whichever form it is in.
    pub fn port(&self) -> (p: u16)
        ensures
            match self {
                HostPort::DomainPort(_, q) => p == q,
                HostPort::IPPort(SocketAddress::V4(a)) => p == a.port,
                HostPort::IPPort(SocketAddress::V6(a)) => p == a.port,
            },
    {
        match self {
            HostPort::DomainPort(_, q) => *q,
            HostPort::IPPort(SocketAddress::V4(a)) => a.port,
            HostPort::IPPort(SocketAddress::V6(a)) => a.port,
        }
    }
}

} // verus!

//! Addresses as plain values: an IP address is its numeric value, a
//! socket address pairs one with a port. Contracts can then speak of
//! addresses directly, and the transport layer converts at the edge.

use vstd::prelude::*;

verus! {

/// An IP address: the 32-bit value of an IPv4 address or the 128-bit
/// value of an IPv6 address. The two namespaces are independent.
#[derive(Clone, Copy, PartialEq, Eq, Hash, Structural, Debug)]
pub enum IpAddress {
    V4(u32),
    V6(u128),
}

/// A transport-level peer address: an IP address and a port.
#[derive(Clone, Copy, PartialEq, Eq, Hash, Structural, Debug)]
pub struct SocketAddress {
    pub ip: IpAddress,
    pub port: u16,
}

/// Equality of two socket addresses, decided on their fields.
pub fn socket_addr_eq(a: &SocketAddress, b: &SocketAddress) -> (r: bool)
    ensures
        r == (a == b),
{
    let ip_eq = match (&a.ip, &b.ip) {
        (IpAddress::V4(x), IpAddress::V4(y)) => *x == *y,
        (IpAddress::V6(x), IpAddress::V6(y)) => *x == *y,
        _ => false,
    };
    ip_eq && a.port == b.port
}

} // verus!

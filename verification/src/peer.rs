//! Network addresses as plain numbers.
use vstd::prelude::*;

verus! {

/// An IP address.
#[derive(Clone, Copy, Debug, PartialEq, Eq, Structural)]
pub enum Ip {
    /// The four octets of an IPv4 address as one big-endian number.
    V4(u32),
    /// The sixteen octets of an IPv6 address as one big-endian number.
    V6(u128),
}

/// An address and port that packets come from and go to. Two transfers of one
/// machine differ in the port.
#[derive(Clone, Copy, Debug, PartialEq, Eq, Structural)]
pub struct Endpoint {
    pub ip: Ip,
    pub port: u16,
    /// Flow label and scope of an IPv6 address; zero for IPv4.
    pub flow: u32,
    pub scope: u32,
}

impl Ip {
    /// Whether this is an IPv4 address.
    pub fn is_ipv4(&self) -> (r: bool)
        ensures
            r == (self is V4),
    {
        match self {
            Ip::V4(_) => true,
            Ip::V6(_) => false,
        }
    }

    /// Whether this is the address that stands for "any interface".
    pub fn is_unspecified(&self) -> (r: bool)
        ensures
            r == (*self == Ip::V4(0) || *self == Ip::V6(0)),
    {
        match self {
            Ip::V4(a) => *a == 0,
            Ip::V6(a) => *a == 0,
        }
    }
}

} // verus!

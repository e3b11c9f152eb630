use vstd::prelude::*;

verus! {

/// An IP address as a plain value: an IPv4 address as its 32-bit big-endian
/// number, an IPv6 address as its 128-bit big-endian number.
#[derive(Clone, Copy, Debug, PartialEq, Eq, Structural, Hash)]
pub enum IpAddress {
    V4(u32),
    V6(u128),
}

impl IpAddress {
    /// Whether this is an IPv4 address.
    pub fn is_v4(&self) -> (r: bool)
        ensures
            r == (*self is V4),
    {
        match self {
            IpAddress::V4(_) => true,
            IpAddress::V6(_) => false,
        }
    }
}

} // verus!

//! Client addresses.
use vstd::prelude::*;

verus! {

/// The IP address of a client, as the number that its octets form, the first
/// octet being the most significant.
#[derive(Clone, Copy, PartialEq, Eq, Structural, Debug, Hash)]
pub enum ClientIp {
    /// An IPv4 address
    V4(u32),
    /// An IPv6 address
    V6(u128),
}

/// What stands for an address in a table: whether it is an IPv6 address, and
/// its number.
pub type IpKey = (bool, u128);

impl ClientIp {
    /// What stands for this address in a table.
    pub open spec fn spec_key(self) -> IpKey {
        match self {
            ClientIp::V4(n) => (false, n as u128),
            ClientIp::V6(n) => (true, n),
        }
    }

    /// What stands for this address in a table.
    pub fn key(&self) -> (k: IpKey)
        ensures
            k == self.spec_key(),
    {
        match self {
            ClientIp::V4(n) => (false, *n as u128),
            ClientIp::V6(n) => (true, *n),
        }
    }

    /// The number that picks a client's backend: the four octets of an IPv4
    /// address, the last four of an IPv6 address.
    pub open spec fn spec_hash(self) -> nat {
        match self {
            ClientIp::V4(n) => n as nat,
            ClientIp::V6(n) => (n % 0x1_0000_0000) as nat,
        }
    }

    /// The number that picks a client's backend.
    pub fn slot_hash(&self) -> (h: u32)
        ensures
            h == self.spec_hash(),
    {
        match self {
            ClientIp::V4(n) => *n,
            ClientIp::V6(n) => (*n % 0x1_0000_0000) as u32,
        }
    }
}

/// Different addresses have different keys, so one client never touches the
/// table entry of another.
pub proof fn law_keys_tell_clients_apart(a: ClientIp, b: ClientIp)
    ensures
        a.spec_key() == b.spec_key() <==> a == b,
{
}

/// The number that picks a client's backend is that of the four octets of an IPv4 address,
/// and that of the last four of an IPv6 address, whatever the others are.
pub proof fn law_last_four_octets_count(n: u32, before: u128)
    requires
        before < 0x1_0000_0000_0000_0000_0000_0000,
    ensures
        ClientIp::V4(n).spec_hash() == n,
        ClientIp::V6((before * 0x1_0000_0000 + n) as u128).spec_hash() == n,
{
}

}

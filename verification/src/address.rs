//! Transport addresses as plain values.

use vstd::prelude::*;

verus! {

/// An IP address of either family, held as its big-endian integer.
#[derive(Clone, Copy, Debug, PartialEq, Eq, Hash, Structural)]
pub enum IpAddress {
    V4(u32),
    V6(u128),
}

impl IpAddress {
    /// The address `a.b.c.d` of the older family.
    pub fn v4(a: u8, b: u8, c: u8, d: u8) -> (ip: IpAddress)
        ensures
            ip == IpAddress::V4((a * 0x100_0000 + b * 0x1_0000 + c * 0x100 + d) as u32),
    {
        IpAddress::V4(a as u32 * 0x100_0000 + b as u32 * 0x1_0000 + c as u32 * 0x100 + d as u32)
    }
}

/// A transport address: an IP address and a port.
#[derive(Clone, Copy, Debug, PartialEq, Eq, Hash, Structural)]
pub struct Address {
    pub ip: IpAddress,
    pub port: u16,
}

/// The place of an IP address among all IP addresses: those of the older
/// family first, each family by its number.
pub open spec fn ip_rank(ip: IpAddress) -> int {
    match ip {
        IpAddress::V4(v) => v as int,
        IpAddress::V6(v) => 0x1_0000_0000 + v as int,
    }
}

/// The place of a transport address among all of them: by IP address first,
/// then by port.
pub open spec fn addr_rank(addr: Address) -> int {
    ip_rank(addr.ip) * 0x1_0000 + addr.port as int
}

/// `a` comes strictly before `b`.
pub open spec fn addr_before(a: Address, b: Address) -> bool {
    addr_rank(a) < addr_rank(b)
}

/// Two addresses hold the same place only if they are the same address.
pub(crate) proof fn lemma_rank_tells_apart(a: Address, b: Address)
    requires
        addr_rank(a) == addr_rank(b),
    ensures
        a == b,
{
}

/// An address as three numbers: 4 or 6 for the family, the IP address, the
/// port. Hash collections are keyed by these.
pub type AddrKey = (u8, u128, u16);

/// The three numbers of an address.
pub open spec fn key_of(addr: Address) -> AddrKey {
    match addr.ip {
        IpAddress::V4(v) => (4u8, v as u128, addr.port),
        IpAddress::V6(v) => (6u8, v, addr.port),
    }
}

/// Whether three numbers are those of an address.
pub open spec fn is_key(key: AddrKey) -> bool {
    (key.0 == 4 && key.1 <= u32::MAX) || key.0 == 6
}

/// The address that three numbers stand for.
pub open spec fn addr_of(key: AddrKey) -> Address {
    if key.0 == 4 {
        Address { ip: IpAddress::V4(key.1 as u32), port: key.2 }
    } else {
        Address { ip: IpAddress::V6(key.1), port: key.2 }
    }
}

/// Addresses and their numbers stand for each other, one for one.
pub(crate) proof fn lemma_keys(addr: Address, key: AddrKey)
    ensures
        is_key(key_of(addr)),
        addr_of(key_of(addr)) == addr,
        is_key(key) ==> key_of(addr_of(key)) == key,
{
}

impl Address {
    /// The three numbers of the address.
    pub fn key(&self) -> (key: AddrKey)
        ensures
            key == key_of(*self),
    {
        match self.ip {
            IpAddress::V4(v) => (4, v as u128, self.port),
            IpAddress::V6(v) => (6, v, self.port),
        }
    }

    /// The address that `key` stands for, where it stands for one.
    pub fn from_key(key: AddrKey) -> (addr: Option<Address>)
        ensures
            addr == if is_key(key) {
                Some(addr_of(key))
            } else {
                None
            },
    {
        if key.0 == 4 {
            if key.1 <= 0xFFFF_FFFF {
                Some(Address { ip: IpAddress::V4(key.1 as u32), port: key.2 })
            } else {
                None
            }
        } else if key.0 == 6 {
            Some(Address { ip: IpAddress::V6(key.1), port: key.2 })
        } else {
            None
        }
    }

    /// Builds the address `ip:port`.
    pub fn new(ip: IpAddress, port: u16) -> (addr: Address)
        ensures
            addr.ip == ip,
            addr.port == port,
    {
        Address { ip, port }
    }

    /// Whether `self` and `other` name the same host, whatever their ports.
    pub fn same_ip(&self, other: &Address) -> (same: bool)
        ensures
            same == (self.ip == other.ip),
    {
        self.ip == other.ip
    }

    /// Whether `self` comes strictly before `other`.
    pub fn is_before(&self, other: &Address) -> (before: bool)
        ensures
            before == addr_before(*self, *other),
    {
        match (self.ip, other.ip) {
            (IpAddress::V4(x), IpAddress::V4(y)) => x < y || (x == y && self.port < other.port),
            (IpAddress::V4(_), IpAddress::V6(_)) => true,
            (IpAddress::V6(_), IpAddress::V4(_)) => false,
            (IpAddress::V6(x), IpAddress::V6(y)) => x < y || (x == y && self.port < other.port),
        }
    }
}

/// The addresses that the numbers of `keys` stand for, in their order.
pub fn from_keys(keys: &Vec<AddrKey>) -> (addrs: Vec<Address>)
    requires
        keys@.no_duplicates(),
        forall|i: int| 0 <= i < keys@.len() ==> is_key(#[trigger] keys@[i]),
    ensures
        addrs@.no_duplicates(),
        forall|addr: Address| addrs@.contains(addr) <==> keys@.contains(key_of(addr)),
{
    let mut addrs: Vec<Address> = Vec::new();
    let mut i: usize = 0;
    while i < keys.len()
        invariant
            i <= keys@.len(),
            addrs@.len() == i,
            forall|k: int| 0 <= k < keys@.len() ==> is_key(#[trigger] keys@[k]),
            forall|k: int| 0 <= k < i ==> #[trigger] addrs@[k] == addr_of(keys@[k]),
        decreases keys.len() - i,
    {
        match Address::from_key(keys[i]) {
            Some(addr) => {
                addrs.push(addr);
            },
            None => {
                // Cannot happen: every key is that of an address.
                assert(false);
            },
        }
        i += 1;
    }
    proof {
        assert forall|a: int, b: int|
            0 <= a < addrs@.len() && 0 <= b < addrs@.len() && a != b implies addrs@[a]
            != addrs@[b] by {
            lemma_keys(addrs@[a], keys@[a]);
            lemma_keys(addrs@[b], keys@[b]);
        }
        assert forall|addr: Address| addrs@.contains(addr) <==> keys@.contains(key_of(addr)) by {
            if addrs@.contains(addr) {
                let k = choose|k: int| 0 <= k < addrs@.len() && addrs@[k] == addr;
                lemma_keys(addr, keys@[k]);
                assert(keys@[k] == key_of(addr));
            }
            if keys@.contains(key_of(addr)) {
                let k = choose|k: int| 0 <= k < keys@.len() && keys@[k] == key_of(addr);
                lemma_keys(addr, keys@[k]);
                assert(addrs@[k] == addr);
            }
        }
    }
    addrs
}

} // verus!

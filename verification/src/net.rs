//! Network stack descriptors: addresses, subnets, socket domains and types, socket addresses and
//! packet buffer lists.
use crate::errno::Errno;
use crate::path::Path;
use crate::perm::{AccessProfile, ROOT_GID, ROOT_UID};
use vstd::prelude::*;
use vstd::slice::slice_subrange;

verus! {

/// An enumeration of network address types.
#[derive(Clone, Copy, Debug, PartialEq, Eq)]
pub enum Address {
    /// Internet Protocol version 4.
    IPv4([u8; 4]),
    /// Internet Protocol version 6.
    IPv6([u8; 16]),
}

/// An address/subnet mask pair to be bound to an interface.
#[derive(Clone, Copy, Debug)]
pub struct BindAddress {
    /// The bound address.
    pub addr: Address,
    /// Subnet mask/prefix length, in bits.
    pub subnet_mask: u8,
}

/// The number of leading bits of byte `j` of an address that lie within a prefix of `mask` bits.
pub open spec fn prefix_bits_in_byte(mask: int, j: int) -> int {
    if mask - 8 * j <= 0 {
        0
    } else if mask - 8 * j >= 8 {
        8
    } else {
        mask - 8 * j
    }
}

/// Whether the `n` leading (most significant) bits of bytes `x` and `y` are equal.
pub open spec fn leading_bits_equal(x: u8, y: u8, n: int) -> bool {
    n <= 0 || (x ^ y) >> ((8 - n) as u8) == 0
}

/// Whether the byte strings `a` and `b` share their first `mask` bits, bytes being read in
/// order and bits from the most significant.
pub open spec fn prefix_equal(a: Seq<u8>, b: Seq<u8>, mask: int) -> bool {
    &&& a.len() == b.len()
    &&& forall|j: int|
        0 <= j < a.len() ==> #[trigger] leading_bits_equal(
            a[j],
            b[j],
            prefix_bits_in_byte(mask, j),
        )
}

/// Whether a bind address `bind` of prefix length `mask` is suitable for transmission to the
/// address `dst`: both are of the same protocol and share the network prefix.
pub open spec fn bind_matches(bind: Address, mask: u8, dst: Address) -> bool {
    match (bind, dst) {
        (Address::IPv4(a), Address::IPv4(b)) => prefix_equal(a@, b@, mask as int),
        (Address::IPv6(a), Address::IPv6(b)) => prefix_equal(a@, b@, mask as int),
        _ => false,
    }
}

/// The IPv4 address `a` as a 32-bit number, its first byte the most significant.
pub open spec fn ipv4_value(a: [u8; 4]) -> u32 {
    ((a@[0] as u32) << 24u32) | ((a@[1] as u32) << 16u32) | ((a@[2] as u32) << 8u32) | (a@[3] as u32)
}

/// Comparing the leading bits of the numbers of two IPv4 addresses is comparing the leading bits
/// of their bytes, in order.
proof fn lemma_prefix_bits(a0: u8, a1: u8, a2: u8, a3: u8, b0: u8, b1: u8, b2: u8, b3: u8, m: u8)
    by (bit_vector)
    ensures
        ({
            let x = (((a0 as u32) << 24u32) | ((a1 as u32) << 16u32) | ((a2 as u32) << 8u32) | (a3
                as u32)) ^ (((b0 as u32) << 24u32) | ((b1 as u32) << 16u32) | ((b2 as u32) << 8u32) | (b3
                as u32));
            &&& 1 <= m <= 8 ==> ((x >> ((32 - m) as u32) == 0) == ((a0 ^ b0) >> ((8 - m) as u8)
                == 0))
            &&& 8 < m <= 16 ==> ((x >> ((32 - m) as u32) == 0) == (a0 == b0 && (a1 ^ b1) >> ((16
                - m) as u8) == 0))
            &&& 16 < m <= 24 ==> ((x >> ((32 - m) as u32) == 0) == (a0 == b0 && a1 == b1 && (a2
                ^ b2) >> ((24 - m) as u8) == 0))
            &&& 24 < m < 32 ==> ((x >> ((32 - m) as u32) == 0) == (a0 == b0 && a1 == b1 && a2
                == b2 && (a3 ^ b3) >> ((32 - m) as u8) == 0))
            &&& (x == 0) == (a0 == b0 && a1 == b1 && a2 == b2 && a3 == b3)
            &&& (x == 0) == ((((a0 as u32) << 24u32) | ((a1 as u32) << 16u32) | ((a2 as u32) << 8u32)
                | (a3 as u32)) == (((b0 as u32) << 24u32) | ((b1 as u32) << 16u32) | ((b2 as u32)
                << 8u32) | (b3 as u32)))
            &&& ((a0 ^ b0) >> 0u8 == 0) == (a0 == b0)
            &&& ((a1 ^ b1) >> 0u8 == 0) == (a1 == b1)
            &&& ((a2 ^ b2) >> 0u8 == 0) == (a2 == b2)
            &&& ((a3 ^ b3) >> 0u8 == 0) == (a3 == b3)
        }),
{
}

/// An IPv4 bind address with prefix length `m` matches exactly the addresses that share its
/// first `m` bits, the address being read as a 32-bit number from its first byte: with no
/// prefix every address matches, and with a prefix of 32 bits or more only the address itself.
pub proof fn lemma_ipv4_prefix(a: [u8; 4], b: [u8; 4], m: u8)
    ensures
        bind_matches(Address::IPv4(a), m, Address::IPv4(b)) == if m == 0 {
            true
        } else if m < 32 {
            (ipv4_value(a) ^ ipv4_value(b)) >> ((32 - m) as u32) == 0
        } else {
            ipv4_value(a) == ipv4_value(b)
        },
{
    lemma_prefix_bits(a@[0], a@[1], a@[2], a@[3], b@[0], b@[1], b@[2], b@[3], m);
    let l0 = leading_bits_equal(a@[0], b@[0], prefix_bits_in_byte(m as int, 0));
    let l1 = leading_bits_equal(a@[1], b@[1], prefix_bits_in_byte(m as int, 1));
    let l2 = leading_bits_equal(a@[2], b@[2], prefix_bits_in_byte(m as int, 2));
    let l3 = leading_bits_equal(a@[3], b@[3], prefix_bits_in_byte(m as int, 3));
    assert(prefix_equal(a@, b@, m as int) == (l0 && l1 && l2 && l3)) by {
        if l0 && l1 && l2 && l3 {
            assert forall|j: int| 0 <= j < a@.len() implies #[trigger] leading_bits_equal(
                a@[j],
                b@[j],
                prefix_bits_in_byte(m as int, j),
            ) by {
                assert(j == 0 || j == 1 || j == 2 || j == 3);
            }
        }
    }
    let z0 = (a@[0] ^ b@[0]) >> 0u8 == 0;
    let z1 = (a@[1] ^ b@[1]) >> 0u8 == 0;
    let z2 = (a@[2] ^ b@[2]) >> 0u8 == 0;
    let z3 = (a@[3] ^ b@[3]) >> 0u8 == 0;
    assert(bind_matches(Address::IPv4(a), m, Address::IPv4(b)) == (l0 && l1 && l2 && l3));
    if m == 0 {
    } else if m <= 8 {
        assert(l0 == ((a@[0] ^ b@[0]) >> ((8 - m) as u8) == 0));
        assert(l1 && l2 && l3);
    } else if m <= 16 {
        assert(l0 == z0);
        assert(l1 == ((a@[1] ^ b@[1]) >> ((16 - m) as u8) == 0));
        assert(l2 && l3);
    } else if m <= 24 {
        assert(l0 == z0);
        assert(l1 == z1);
        assert(l2 == ((a@[2] ^ b@[2]) >> ((24 - m) as u8) == 0));
        assert(l3);
    } else if m < 32 {
        assert(l0 == z0);
        assert(l1 == z1);
        assert(l2 == z2);
        assert(l3 == ((a@[3] ^ b@[3]) >> ((32 - m) as u8) == 0));
    } else {
        assert(l0 == z0);
        assert(l1 == z1);
        assert(l2 == z2);
        assert(l3 == z3);
    }
}

/// The extremes of prefix matching, for addresses of any length: with no prefix bit any two
/// addresses share their prefix, and with a prefix covering all their bits only equal addresses
/// do.
pub proof fn lemma_prefix_extremes(a: Seq<u8>, b: Seq<u8>, m: int)
    requires
        a.len() == b.len(),
    ensures
        m <= 0 ==> prefix_equal(a, b, m),
        m >= 8 * a.len() ==> (prefix_equal(a, b, m) <==> a == b),
{
    if m >= 8 * a.len() {
        assert forall|j: int| 0 <= j < a.len() implies (#[trigger] leading_bits_equal(
            a[j],
            b[j],
            prefix_bits_in_byte(m, j),
        ) <==> a[j] == b[j]) by {
            lemma_prefix_bits(a[j], 0, 0, 0, b[j], 0, 0, 0, 0);
        }
        if prefix_equal(a, b, m) {
            assert forall|j: int| 0 <= j < a.len() implies a[j] == b[j] by {
                assert(leading_bits_equal(a[j], b[j], prefix_bits_in_byte(m, j)));
            }
            assert(a =~= b);
        }
    }
}

/// Tells whether the byte strings `a` and `b` share their first `mask` bits.
fn check_prefix(a: &[u8], b: &[u8], mask: u8) -> (r: bool)
    requires
        a@.len() == b@.len(),
        a@.len() <= 16,
    ensures
        r == prefix_equal(a@, b@, mask as int),
{
    let mut j: usize = 0;
    let mut remaining: u8 = mask;
    while j < a.len()
        invariant
            a@.len() == b@.len(),
            a@.len() <= 16,
            j <= a@.len(),
            remaining as int == if mask as int - 8 * j <= 0 {
                0
            } else {
                mask as int - 8 * j
            },
            forall|i: int|
                0 <= i < j ==> #[trigger] leading_bits_equal(
                    a@[i],
                    b@[i],
                    prefix_bits_in_byte(mask as int, i),
                ),
        decreases a@.len() - j,
    {
        let n: u8 = if remaining >= 8 {
            8
        } else {
            remaining
        };
        assert(n as int == prefix_bits_in_byte(mask as int, j as int));
        if n > 0 {
            let x = a[j] ^ b[j];
            let shift: u8 = 8 - n;
            if x >> shift != 0 {
                assert(!leading_bits_equal(a@[j as int], b@[j as int], n as int));
                return false;
            }
        }
        remaining = remaining - n;
        j += 1;
    }
    true
}

impl BindAddress {
    /// Tells whether the bind address is suitable for transmission to the given destination
    /// address: both are of the same protocol and share the first `subnet_mask` bits.
    pub fn is_matching(&self, addr: &Address) -> (b: bool)
        ensures
            b == bind_matches(self.addr, self.subnet_mask, *addr),
    {
        match (&self.addr, addr) {
            (Address::IPv4(a), Address::IPv4(b)) => check_prefix(a.as_slice(), b.as_slice(), self.subnet_mask),
            (Address::IPv6(a), Address::IPv6(b)) => check_prefix(a.as_slice(), b.as_slice(), self.subnet_mask),
            _ => false,
        }
    }
}

/// Compares two addresses.
pub fn address_eq(a: &Address, b: &Address) -> (r: bool)
    ensures
        r == (*a == *b),
{
    match (a, b) {
        (Address::IPv4(x), Address::IPv4(y)) => {
            let r = bytes_eq(x.as_slice(), y.as_slice());
            proof {
                if r {
                    assert(*x =~= *y);
                }
            }
            r
        },
        (Address::IPv6(x), Address::IPv6(y)) => {
            let r = bytes_eq(x.as_slice(), y.as_slice());
            proof {
                if r {
                    assert(*x =~= *y);
                }
            }
            r
        },
        _ => false,
    }
}

pub(crate) fn bytes_eq(a: &[u8], b: &[u8]) -> (r: bool)
    ensures
        r == (a@ == b@),
{
    if a.len() != b.len() {
        return false;
    }
    let mut i: usize = 0;
    while i < a.len()
        invariant
            a@.len() == b@.len(),
            i <= a@.len(),
            forall|j: int| 0 <= j < i ==> a@[j] == b@[j],
        decreases a@.len() - i,
    {
        if a[i] != b[i] {
            assert(a@[i as int] != b@[i as int]);
            return false;
        }
        i += 1;
    }
    assert(a@ =~= b@);
    true
}

/// Enumeration of socket domains.
#[derive(Clone, Copy, Debug, PartialEq, Eq, Structural)]
pub enum SocketDomain {
    /// Local communication.
    AfUnix,
    /// IPv4 Internet Protocols.
    AfInet,
    /// IPv6 Internet Protocols.
    AfInet6,
    /// Kernel user interface device.
    AfNetlink,
    /// Low level packet interface.
    AfPacket,
}

impl SocketDomain {
    /// The ID of the domain.
    pub open spec fn id(self) -> u32 {
        match self {
            SocketDomain::AfUnix => 1,
            SocketDomain::AfInet => 2,
            SocketDomain::AfInet6 => 10,
            SocketDomain::AfNetlink => 16,
            SocketDomain::AfPacket => 17,
        }
    }

    /// The domain with ID `id`, if any.
    pub open spec fn of_id(id: u32) -> Option<SocketDomain> {
        if id == 1 {
            Some(SocketDomain::AfUnix)
        } else if id == 2 {
            Some(SocketDomain::AfInet)
        } else if id == 10 {
            Some(SocketDomain::AfInet6)
        } else if id == 16 {
            Some(SocketDomain::AfNetlink)
        } else if id == 17 {
            Some(SocketDomain::AfPacket)
        } else {
            None
        }
    }

    /// Returns the domain with the given ID.
    ///
    /// If no domain has this ID, the function returns [`Errno::EAFNOSUPPORT`].
    pub fn try_from_id(id: u32) -> (r: Result<Self, Errno>)
        ensures
            r == match Self::of_id(id) {
                Some(d) => Ok::<Self, Errno>(d),
                None => Err::<Self, Errno>(Errno::EAFNOSUPPORT),
            },
    {
        match id {
            1 => Ok(SocketDomain::AfUnix),
            2 => Ok(SocketDomain::AfInet),
            10 => Ok(SocketDomain::AfInet6),
            16 => Ok(SocketDomain::AfNetlink),
            17 => Ok(SocketDomain::AfPacket),
            _ => Err(Errno::EAFNOSUPPORT),
        }
    }

    /// Returns the associated ID.
    pub fn get_id(&self) -> (id: u32)
        ensures
            id == self.id(),
    {
        match self {
            SocketDomain::AfUnix => 1,
            SocketDomain::AfInet => 2,
            SocketDomain::AfInet6 => 10,
            SocketDomain::AfNetlink => 16,
            SocketDomain::AfPacket => 17,
        }
    }

    /// Returns the size of the sockaddr structure for the domain: that of [`SockAddrIn`] for
    /// IPv4, of [`SockAddrIn6`] for IPv6, zero otherwise.
    pub fn get_sockaddr_len(&self) -> (n: usize)
        ensures
            n == match self {
                SocketDomain::AfInet => SOCKADDR_IN_SIZE,
                SocketDomain::AfInet6 => SOCKADDR_IN6_SIZE,
                _ => 0,
            },
    {
        match self {
            SocketDomain::AfInet => SOCKADDR_IN_SIZE,
            SocketDomain::AfInet6 => SOCKADDR_IN6_SIZE,
            _ => 0,
        }
    }
}

/// Enumeration of socket types.
#[derive(Clone, Copy, Debug, PartialEq, Eq, Structural)]
pub enum SocketType {
    /// Sequenced, reliable, two-way, connection-based byte streams.
    SockStream,
    /// Datagrams.
    SockDgram,
    /// Sequenced, reliable, two-way connection-based data transmission path for datagrams of
    /// fixed maximum length.
    SockSeqpacket,
    /// Raw network protocol access.
    SockRaw,
}

impl SocketType {
    /// The ID of the type.
    pub open spec fn id(self) -> u32 {
        match self {
            SocketType::SockStream => 1,
            SocketType::SockDgram => 2,
            SocketType::SockSeqpacket => 5,
            SocketType::SockRaw => 3,
        }
    }

    /// The type with ID `id`, if any.
    pub open spec fn of_id(id: u32) -> Option<SocketType> {
        if id == 1 {
            Some(SocketType::SockStream)
        } else if id == 2 {
            Some(SocketType::SockDgram)
        } else if id == 5 {
            Some(SocketType::SockSeqpacket)
        } else if id == 3 {
            Some(SocketType::SockRaw)
        } else {
            None
        }
    }

    /// Returns the type with the given ID.
    ///
    /// If no type has this ID, the function returns [`Errno::EPROTONOSUPPORT`].
    pub fn try_from_id(id: u32) -> (r: Result<Self, Errno>)
        ensures
            r == match Self::of_id(id) {
                Some(t) => Ok::<Self, Errno>(t),
                None => Err::<Self, Errno>(Errno::EPROTONOSUPPORT),
            },
    {
        match id {
            1 => Ok(SocketType::SockStream),
            2 => Ok(SocketType::SockDgram),
            5 => Ok(SocketType::SockSeqpacket),
            3 => Ok(SocketType::SockRaw),
            _ => Err(Errno::EPROTONOSUPPORT),
        }
    }

    /// Returns the associated ID.
    pub fn get_id(&self) -> (id: u32)
        ensures
            id == self.id(),
    {
        match self {
            SocketType::SockStream => 1,
            SocketType::SockDgram => 2,
            SocketType::SockSeqpacket => 5,
            SocketType::SockRaw => 3,
        }
    }

    /// Tells whether the socket type is using stream communications.
    pub fn is_stream(&self) -> (b: bool)
        ensures
            b == (*self == SocketType::SockStream || *self == SocketType::SockSeqpacket),
    {
        match self {
            SocketType::SockStream | SocketType::SockSeqpacket => true,
            _ => false,
        }
    }
}

/// Reading a domain back from its ID gives the same domain, and every ID that names a domain is
/// that domain's ID; likewise for socket types.
pub proof fn lemma_ids_round_trip(d: SocketDomain, t: SocketType, id: u32)
    ensures
        SocketDomain::of_id(d.id()) == Some(d),
        SocketType::of_id(t.id()) == Some(t),
        SocketDomain::of_id(id) matches Some(e) ==> e.id() == id,
        SocketType::of_id(id) matches Some(u) ==> u.id() == id,
{
}

impl AccessProfile {
    /// Tells whether the agent has the permission to use the socket domain: raw packet access
    /// requires root (by effective user or group).
    pub fn can_use_sock_domain(&self, domain: &SocketDomain) -> (b: bool)
        ensures
            b == (*domain != SocketDomain::AfPacket || self.euid == ROOT_UID || self.egid
                == ROOT_GID),
    {
        match domain {
            SocketDomain::AfPacket => self.euid == ROOT_UID || self.egid == ROOT_GID,
            _ => true,
        }
    }

    /// Tells whether the agent has the permission to use the socket type: raw sockets require
    /// root (by effective user or group).
    pub fn can_use_sock_type(&self, sock_type: &SocketType) -> (b: bool)
        ensures
            b == (*sock_type != SocketType::SockRaw || self.euid == ROOT_UID || self.egid
                == ROOT_GID),
    {
        match sock_type {
            SocketType::SockRaw => self.euid == ROOT_UID || self.egid == ROOT_GID,
            _ => true,
        }
    }
}

/// Socket network stack descriptor.
#[derive(Clone, Copy, Debug)]
pub struct SocketDesc {
    /// The socket's domain.
    pub domain: SocketDomain,
    /// The socket's type.
    pub type_: SocketType,
    /// The socket's protocol. `0` means using the default protocol for the domain/type pair.
    pub protocol: i32,
}

/// The size in bytes of [`SockAddrIn`].
pub const SOCKADDR_IN_SIZE: usize = 16;
/// The size in bytes of [`SockAddrIn6`].
pub const SOCKADDR_IN6_SIZE: usize = 28;

/// POSIX's `sa_family`
pub type SaFamily = u16;

/// Unix domain socket address
#[derive(Clone, Copy, Debug)]
pub struct SockAddrUn {
    /// Socket family
    pub sun_family: SaFamily,
    /// Unix socket path
    pub sun_path: [u8; 108],
}

impl SockAddrUn {
    /// Returns the socket's path: the bytes of `sun_path` up to its first null byte, or all of
    /// them if it has none.
    pub fn get_path(&self) -> (p: Path<'_>)
        ensures
            p@.len() <= 108,
            p@ == self.sun_path@.subrange(0, p@.len() as int),
            forall|i: int| 0 <= i < p@.len() ==> self.sun_path@[i] != 0,
            p@.len() == 108 || self.sun_path@[p@.len() as int] == 0,
    {
        let path = self.sun_path.as_slice();
        let mut n: usize = 0;
        while n < path.len() && path[n] != 0
            invariant
                path@ == self.sun_path@,
                path@.len() == 108,
                n <= 108,
                forall|i: int| 0 <= i < n ==> path@[i] != 0,
            decreases 108 - n,
        {
            n += 1;
        }
        let p = Path::new_unchecked(slice_subrange(path, 0, n));
        assert(n == 108 || self.sun_path@[n as int] == 0);
        assert(p@ == self.sun_path@.subrange(0, n as int));
        p
    }
}

/// IPv4 socket address
#[derive(Clone, Copy, Debug)]
pub struct SockAddrIn {
    /// Socket family
    pub sin_family: SaFamily,
    /// Port
    pub sin_port: i16,
    /// Address
    pub sin_addr: u32,
    /// Padding
    pub sin_zero: [u8; 8],
}

/// IPv6 socket address
#[derive(Clone, Copy, Debug)]
pub struct SockAddrIn6 {
    /// Socket family
    pub sin6_family: SaFamily,
    /// Port
    pub sin6_port: i16,
    /// Flow information
    pub sin6_flowinfo: u32,
    /// Address
    pub sin6_addr: [u8; 16],
    /// Scope ID
    pub sin6_scope_id: u32,
}

/// Link-layer socket address
#[derive(Clone, Copy, Debug)]
pub struct SockAddrLl {
    /// Socket family
    pub sll_family: SaFamily,
    /// Physical-layer protocol
    pub sll_protocol: u16,
    /// Interface index
    pub sll_ifindex: u32,
    /// ARP hardware type
    pub sll_hatype: u16,
    /// Packet type
    pub sll_pkttype: u8,
    /// Length of the address
    pub sll_halen: u8,
    /// Physical-layer address
    pub sll_addr: [u8; 8],
}

/// Socket address
#[derive(Clone, Copy, Debug)]
pub enum SockAddr {
    /// Unix domain socket address
    Unix(SockAddrUn),
    /// IPv4 socket address
    Inet(SockAddrIn),
    /// IPv6 socket address
    Inet6(SockAddrIn6),
    /// Link-layer socket address
    Link(SockAddrLl),
}

/// Local loopback interfaces allows the system to write data to itself.
#[derive(Clone, Copy, Debug)]
pub struct LocalLoopback {}

impl LocalLoopback {
    /// Returns the name of the interface.
    pub fn get_name(&self) -> (n: Vec<u8>)
        ensures
            n@ == seq![108u8, 111u8],
    {
        let mut n = Vec::new();
        n.push(108u8);
        n.push(111u8);
        n
    }

    /// Tells whether the interface is UP, which it always is.
    pub fn is_up(&self) -> (b: bool)
        ensures
            b,
    {
        true
    }

    /// Returns the mac address of the interface, made of zeros.
    pub fn get_mac(&self) -> (m: [u8; 6])
        ensures
            forall|i: int| 0 <= i < 6 ==> m@[i] == 0,
    {
        [0u8; 6]
    }

    /// Returns the list of addresses bound to the interface: `127.0.0.1/8` and `::1/128`.
    pub fn get_addresses(&self) -> (a: Vec<BindAddress>)
        ensures
            a@.len() == 2,
            a@[0].addr == Address::IPv4([127u8, 0u8, 0u8, 1u8]),
            a@[0].subnet_mask == 8,
            a@[1].addr == Address::IPv6(
                [0u8, 0u8, 0u8, 0u8, 0u8, 0u8, 0u8, 0u8, 0u8, 0u8, 0u8, 0u8, 0u8, 0u8, 0u8, 1u8],
            ),
            a@[1].subnet_mask == 128,
    {
        let mut a = Vec::new();
        a.push(BindAddress { addr: Address::IPv4([127u8, 0u8, 0u8, 1u8]), subnet_mask: 8 });
        a.push(
            BindAddress {
                addr: Address::IPv6(
                    [0u8, 0u8, 0u8, 0u8, 0u8, 0u8, 0u8, 0u8, 0u8, 0u8, 0u8, 0u8, 0u8, 0u8, 0u8, 1u8],
                ),
                subnet_mask: 128,
            },
        );
        a
    }
}

/// A linked-list of buffers representing a packet being built.
pub struct BufList<'b> {
    /// The buffer.
    pub data: &'b [u8],
    /// The next buffer in the list.
    next: Option<Box<BufList<'b>>>,
    /// The length of following buffers combined.
    next_len: usize,
}

/// The total length of a sequence of buffers.
pub open spec fn total_len(bufs: Seq<Seq<u8>>) -> int
    decreases bufs.len(),
{
    if bufs.len() == 0 {
        0
    } else {
        bufs[0].len() + total_len(bufs.drop_first())
    }
}

impl<'b> BufList<'b> {
    /// The buffers of the list, in order.
    pub closed spec fn buffers(&self) -> Seq<Seq<u8>>
        decreases self,
    {
        match &self.next {
            None => seq![self.data@],
            Some(n) => seq![self.data@].add(n.buffers()),
        }
    }

    /// The first buffer of the list.
    pub closed spec fn head(&self) -> Seq<u8> {
        self.data@
    }

    /// The list of the buffers after the first one, if any.
    pub closed spec fn next_list(&self) -> Option<BufList<'b>> {
        match &self.next {
            None => None,
            Some(n) => Some(**n),
        }
    }

    /// The length of the following buffers is recorded correctly all along the list.
    pub closed spec fn wf(&self) -> bool
        decreases self,
    {
        match &self.next {
            None => self.next_len == 0,
            Some(n) => n.wf() && self.next_len == total_len(n.buffers()),
        }
    }

    proof fn lemma_buffers_first(&self)
        ensures
            self.buffers().len() >= 1,
            self.buffers()[0] == self.data@,
            self.buffers().drop_first() == match &self.next {
                None => Seq::<Seq<u8>>::empty(),
                Some(n) => n.buffers(),
            },
    {
        match &self.next {
            None => {
                assert(self.buffers().drop_first() =~= Seq::<Seq<u8>>::empty());
            },
            Some(n) => {
                assert(self.buffers().drop_first() =~= n.buffers());
            },
        }
    }

    /// Creates a list made of a single buffer.
    pub fn from_slice(b: &'b [u8]) -> (l: Self)
        ensures
            l.wf(),
            l.buffers() == seq![b@],
            l.head() == b@,
            l.next_list() is None,
    {
        BufList { data: b, next: None, next_len: 0 }
    }

    /// Returns the length of the buffer, plus following buffers.
    pub fn len(&self) -> (n: usize)
        requires
            self.wf(),
            total_len(self.buffers()) <= usize::MAX,
        ensures
            n == total_len(self.buffers()),
    {
        proof {
            self.lemma_buffers_first();
            assert(total_len(self.buffers()) == self.data@.len() + total_len(
                self.buffers().drop_first(),
            ));
            if self.next is None {
                assert(total_len(Seq::<Seq<u8>>::empty()) == 0);
            }
        }
        self.data.len() + self.next_len
    }

    /// Pushes another buffer at the front of the current list.
    ///
    /// The function returns the new head of the list, holding `front` followed by the buffers of
    /// the current list.
    pub fn push_front(self, front: &'b [u8]) -> (l: BufList<'b>)
        requires
            self.wf(),
            total_len(self.buffers()) <= usize::MAX,
        ensures
            l.wf(),
            l.buffers() == seq![front@].add(self.buffers()),
            l.head() == front@,
            l.next_list() == Some(self),
    {
        let next_len = self.len();
        let l = BufList { data: front, next: Some(Box::new(self)), next_len };
        l
    }

    /// Returns the next buffer.
    pub fn next(&self) -> (n: Option<&BufList<'b>>)
        requires
            self.wf(),
        ensures
            match n {
                None => self.buffers().len() == 1 && self.next_list() is None,
                Some(n) => n.wf() && n.buffers() == self.buffers().drop_first() && self.next_list()
                    == Some(*n),
            },
    {
        proof {
            self.lemma_buffers_first();
        }
        match &self.next {
            None => None,
            Some(n) => Some(&**n),
        }
    }
}

/// A sequence of buffers made of one buffer followed by others is as long as both together.
pub proof fn lemma_total_len_push_front(front: Seq<u8>, rest: Seq<Seq<u8>>)
    ensures
        total_len(seq![front].add(rest)) == front.len() + total_len(rest),
{
    assert(seq![front].add(rest).drop_first() =~= rest);
}

} // verus!

//! Addresses, prefixes and address families.

use crate::ordmap::Key;
use crate::value::Value;
use vstd::prelude::*;

verus! {

/// An IP address, as the integer its octets spell in network order.
#[derive(Clone, Copy, Debug, PartialEq, Eq, Structural)]
pub enum IpAddr {
    V4(u32),
    V6(u128),
}

/// An address with a prefix length.
#[derive(Clone, Copy, Debug, PartialEq, Eq, Structural)]
pub struct Prefix {
    pub addr: IpAddr,
    pub prefix_len: u8,
}

/// An address family and its subsequent identifier.
#[derive(Clone, Copy, Debug, PartialEq, Eq, Structural)]
pub struct NlriFamily {
    pub afi: u16,
    pub safi: u8,
}

impl NlriFamily {
    /// IPv4 unicast.
    #[verifier::allow_in_spec]
    pub fn ipv4_unicast() -> NlriFamily
        returns
            (NlriFamily { afi: 1, safi: 1 }),
    {
        NlriFamily { afi: 1, safi: 1 }
    }

    /// IPv6 unicast.
    #[verifier::allow_in_spec]
    pub fn ipv6_unicast() -> NlriFamily
        returns
            (NlriFamily { afi: 2, safi: 1 }),
    {
        NlriFamily { afi: 2, safi: 1 }
    }
}

/// The subsequent identifier of labelled unicast.
pub const SAFI_LABELED: u8 = 4;

/// The network mask of a 32-bit prefix length.
pub open spec fn mask_v4(len: u8) -> u32 {
    if len == 0 {
        0
    } else if len >= 32 {
        0xffff_ffff
    } else {
        0xffff_ffffu32 << (32 - len) as u32
    }
}

/// The network mask of a 128-bit prefix length.
pub open spec fn mask_v6(len: u8) -> u128 {
    if len == 0 {
        0
    } else if len >= 128 {
        0xffff_ffff_ffff_ffff_ffff_ffff_ffff_ffff
    } else {
        0xffff_ffff_ffff_ffff_ffff_ffff_ffff_ffffu128 << (128 - len) as u128
    }
}

/// The network mask of an IPv4 prefix length.
pub fn prefix_len_to_mask(len: u8) -> (m: u32)
    ensures
        m == mask_v4(len),
{
    if len == 0 {
        0
    } else if len >= 32 {
        0xffff_ffff
    } else {
        0xffff_ffffu32 << (32 - len) as u32
    }
}

fn v6_mask(len: u8) -> (m: u128)
    ensures
        m == mask_v6(len),
{
    if len == 0 {
        0
    } else if len >= 128 {
        0xffff_ffff_ffff_ffff_ffff_ffff_ffff_ffff
    } else {
        0xffff_ffff_ffff_ffff_ffff_ffff_ffff_ffffu128 << (128 - len) as u128
    }
}

impl IpAddr {
    /// Whether the address is IPv4.
    pub fn is_v4(&self) -> (b: bool)
        ensures
            b == (*self is V4),
    {
        match self {
            IpAddr::V4(_) => true,
            IpAddr::V6(_) => false,
        }
    }
}

impl Prefix {
    /// An IPv4 prefix.
    pub fn new_v4(addr: u32, prefix_len: u8) -> (p: Prefix)
        ensures
            p == (Prefix { addr: IpAddr::V4(addr), prefix_len }),
    {
        Prefix { addr: IpAddr::V4(addr), prefix_len }
    }

    /// An IPv6 prefix.
    pub fn new_v6(addr: u128, prefix_len: u8) -> (p: Prefix)
        ensures
            p == (Prefix { addr: IpAddr::V6(addr), prefix_len }),
    {
        Prefix { addr: IpAddr::V6(addr), prefix_len }
    }

    /// The address with the host bits cleared.
    pub open spec fn network_of(self) -> IpAddr {
        match self.addr {
            IpAddr::V4(a) => IpAddr::V4(a & mask_v4(self.prefix_len)),
            IpAddr::V6(a) => IpAddr::V6(a & mask_v6(self.prefix_len)),
        }
    }

    /// The address with the host bits cleared.
    pub fn network(&self) -> (n: IpAddr)
        ensures
            n == self.network_of(),
    {
        match self.addr {
            IpAddr::V4(a) => IpAddr::V4(a & prefix_len_to_mask(self.prefix_len)),
            IpAddr::V6(a) => IpAddr::V6(a & v6_mask(self.prefix_len)),
        }
    }

    /// Whether every address of `other` is an address of `self`.
    pub open spec fn covers(self, other: Prefix) -> bool {
        &&& self.prefix_len <= other.prefix_len
        &&& (Prefix { addr: other.addr, prefix_len: self.prefix_len }).network_of()
            == self.network_of()
    }

    /// Whether `other` lies inside `self`.
    pub fn contains_prefix(&self, other: &Prefix) -> (b: bool)
        ensures
            b == self.covers(*other),
    {
        let cut = Prefix { addr: other.addr, prefix_len: self.prefix_len };
        self.prefix_len <= other.prefix_len && cut.network() == self.network()
    }
}

impl Value for IpAddr {
    fn dup(&self) -> (r: Self) {
        *self
    }

    fn same(&self, other: &Self) -> (b: bool) {
        *self == *other
    }
}

impl Value for Prefix {
    fn dup(&self) -> (r: Self) {
        *self
    }

    fn same(&self, other: &Self) -> (b: bool) {
        *self == *other
    }
}

impl Value for NlriFamily {
    fn dup(&self) -> (r: Self) {
        *self
    }

    fn same(&self, other: &Self) -> (b: bool) {
        *self == *other
    }
}

impl Key for IpAddr {
    open spec fn code(self) -> int {
        match self {
            IpAddr::V4(a) => a as int,
            IpAddr::V6(a) => 0x1_0000_0000 + a as int,
        }
    }

    open spec fn bound() -> int {
        0x1_0000_0000int + 0x1_0000_0000_0000_0000_0000_0000_0000_0000int
    }

    proof fn code_in_range(self) {
    }

    proof fn code_injective(self, other: Self) {
    }

    fn precedes(&self, other: &Self) -> (b: bool) {
        match (self, other) {
            (IpAddr::V4(a), IpAddr::V4(b)) => *a < *b,
            (IpAddr::V4(_), IpAddr::V6(_)) => true,
            (IpAddr::V6(_), IpAddr::V4(_)) => false,
            (IpAddr::V6(a), IpAddr::V6(b)) => *a < *b,
        }
    }
}

impl Key for Prefix {
    open spec fn code(self) -> int {
        self.addr.code() * 0x100 + self.prefix_len as int
    }

    open spec fn bound() -> int {
        <IpAddr as Key>::bound() * 0x100
    }

    proof fn code_in_range(self) {
        self.addr.code_in_range();
    }

    proof fn code_injective(self, other: Self) {
        self.addr.code_injective(other.addr);
    }

    fn precedes(&self, other: &Self) -> (b: bool) {
        if self.addr.precedes(&other.addr) {
            true
        } else if other.addr.precedes(&self.addr) {
            false
        } else {
            self.prefix_len < other.prefix_len
        }
    }
}

impl Key for NlriFamily {
    open spec fn code(self) -> int {
        self.afi as int * 0x100 + self.safi as int
    }

    open spec fn bound() -> int {
        0x100_0000
    }

    proof fn code_in_range(self) {
    }

    proof fn code_injective(self, other: Self) {
    }

    fn precedes(&self, other: &Self) -> (b: bool) {
        self.afi < other.afi || (self.afi == other.afi && self.safi < other.safi)
    }
}

/// A prefix that contains another contains everything inside it.
pub proof fn covers_is_transitive(a: Prefix, b: Prefix, c: Prefix)
    requires
        a.covers(b),
        b.covers(c),
    ensures
        a.covers(c),
{
    match (a.addr, b.addr, c.addr) {
        (IpAddr::V4(x), IpAddr::V4(y), IpAddr::V4(z)) => {
            let m = mask_v4(a.prefix_len);
            let n = mask_v4(b.prefix_len);
            let l = a.prefix_len;
            let k = b.prefix_len;
            assert(m & n == m) by {
                if l != 0 && k < 32 {
                    let p = (32 - l) as u32;
                    let q = (32 - k) as u32;
                    assert((0xffff_ffffu32 << p) & (0xffff_ffffu32 << q) == 0xffff_ffffu32 << p)
                        by (bit_vector)
                        requires
                            q <= p < 32,
                    ;
                }
                assert(0u32 & n == 0) by (bit_vector);
                assert(m & 0xffff_ffffu32 == m) by (bit_vector);
            }
            assert(z & m == x & m) by (bit_vector)
                requires
                    m & n == m,
                    y & m == x & m,
                    z & n == y & n,
            ;
        },
        (IpAddr::V6(x), IpAddr::V6(y), IpAddr::V6(z)) => {
            let m = mask_v6(a.prefix_len);
            let n = mask_v6(b.prefix_len);
            let l = a.prefix_len;
            let k = b.prefix_len;
            assert(m & n == m) by {
                if l != 0 && k < 128 {
                    let p = (128 - l) as u128;
                    let q = (128 - k) as u128;
                    assert((0xffff_ffff_ffff_ffff_ffff_ffff_ffff_ffffu128 << p)
                        & (0xffff_ffff_ffff_ffff_ffff_ffff_ffff_ffffu128 << q)
                        == 0xffff_ffff_ffff_ffff_ffff_ffff_ffff_ffffu128 << p) by (bit_vector)
                        requires
                            q <= p < 128,
                    ;
                }
                assert(0u128 & n == 0) by (bit_vector);
                assert(m & 0xffff_ffff_ffff_ffff_ffff_ffff_ffff_ffffu128 == m) by (bit_vector);
            }
            assert(z & m == x & m) by (bit_vector)
                requires
                    m & n == m,
                    y & m == x & m,
                    z & n == y & n,
            ;
        },
        _ => {},
    }
}

/// A mask has its leading bits set, as many as the prefix is long, and no
/// others.
pub proof fn masks_keep_the_leading_bits(len: u8, bit: u32, bit6: u128)
    ensures
        bit < 32 ==> ((mask_v4(len) >> (31 - bit) as u32) & 1 == 1 <==> bit < len),
        bit6 < 128 ==> ((mask_v6(len) >> (127 - bit6) as u128) & 1 == 1 <==> bit6 < len),
{
    if bit < 32 {
        let k = (31 - bit) as u32;
        assert(0u32 >> k & 1 == 0) by (bit_vector);
        assert(0xffff_ffffu32 >> k & 1 == 1) by (bit_vector)
            requires
                k < 32,
        ;
        if 0 < len < 32 {
            let s = (32 - len) as u32;
            assert((0xffff_ffffu32 << s) >> k & 1 == 1 <==> s <= k) by (bit_vector)
                requires
                    k < 32,
                    0 < s < 32,
            ;
        }
    }
    if bit6 < 128 {
        let k = (127 - bit6) as u128;
        assert(0u128 >> k & 1 == 0) by (bit_vector);
        assert(0xffff_ffff_ffff_ffff_ffff_ffff_ffff_ffffu128 >> k & 1 == 1) by (bit_vector)
            requires
                k < 128,
        ;
        if 0 < len < 128 {
            let s = (128 - len) as u128;
            assert((0xffff_ffff_ffff_ffff_ffff_ffff_ffff_ffffu128 << s) >> k & 1 == 1 <==> s <= k)
                by (bit_vector)
                requires
                    k < 128,
                    0 < s < 128,
            ;
        }
    }
}

/// An IPv4 prefix covers another when it is no longer and the two agree in
/// all bits that it fixes; prefixes of different versions never cover each
/// other.
pub proof fn prefixes_cover_by_leading_bits(a: u32, b: u32, len: u8, longer: u8)
    requires
        0 < len <= 32,
    ensures
        (Prefix { addr: IpAddr::V4(a), prefix_len: len }).covers(
            Prefix { addr: IpAddr::V4(b), prefix_len: longer },
        ) <==> len <= longer && a >> (32 - len) as u32 == b >> (32 - len) as u32,
        (Prefix { addr: IpAddr::V4(a), prefix_len: 0 }).covers(
            Prefix { addr: IpAddr::V4(b), prefix_len: longer },
        ),
        !(Prefix { addr: IpAddr::V4(a), prefix_len: len }).covers(
            Prefix { addr: IpAddr::V6(b as u128), prefix_len: longer },
        ),
{
    let s = (32 - len) as u32;
    assert(a & 0 == b & 0) by (bit_vector);
    if s == 0 {
        assert((a & 0xffff_ffff == b & 0xffff_ffff) <==> a >> 0u32 == b >> 0u32) by (bit_vector);
    } else {
        assert((b & (0xffff_ffffu32 << s) == a & (0xffff_ffffu32 << s)) <==> a >> s == b >> s)
            by (bit_vector)
            requires
                0 < s < 32,
        ;
    }
}

proof fn lemma_cleared_v6(x: u128, s: u128)
    requires
        0 < s < 128,
    ensures
        x & (0xffff_ffff_ffff_ffff_ffff_ffff_ffff_ffffu128 << s) == (x >> s) << s,
        ((x >> s) << s) >> s == x >> s,
{
    assert(x & (0xffff_ffff_ffff_ffff_ffff_ffff_ffff_ffffu128 << s) == (x >> s) << s)
        by (bit_vector)
        requires
            0 < s < 128,
    ;
    assert(((x >> s) << s) >> s == x >> s) by (bit_vector)
        requires
            0 < s < 128,
    ;
}

/// An IPv6 prefix covers another when it is no longer and the two agree in
/// all bits that it fixes.
pub proof fn v6_prefixes_cover_by_leading_bits(a: u128, b: u128, len: u8, longer: u8)
    requires
        0 < len <= 128,
    ensures
        (Prefix { addr: IpAddr::V6(a), prefix_len: len }).covers(
            Prefix { addr: IpAddr::V6(b), prefix_len: longer },
        ) <==> len <= longer && a >> (128 - len) as u128 == b >> (128 - len) as u128,
        (Prefix { addr: IpAddr::V6(a), prefix_len: 0 }).covers(
            Prefix { addr: IpAddr::V6(b), prefix_len: longer },
        ),
{
    let s = (128 - len) as u128;
    assert(a & 0 == b & 0) by (bit_vector);
    if s == 0 {
        assert((a & 0xffff_ffff_ffff_ffff_ffff_ffff_ffff_ffff == b
            & 0xffff_ffff_ffff_ffff_ffff_ffff_ffff_ffff) <==> a >> 0u128 == b >> 0u128)
            by (bit_vector);
    } else {
        lemma_cleared_v6(a, s);
        lemma_cleared_v6(b, s);
    }
}

/// IPv4 addresses come before IPv6 addresses, and each by value; prefixes by
/// address, then by length; families by address family, then by subsequent
/// one.
pub proof fn addresses_are_ordered(
    a: u32,
    b: u32,
    c: u128,
    d: u128,
    p: Prefix,
    q: Prefix,
    f: NlriFamily,
    g: NlriFamily,
)
    ensures
        a < b ==> IpAddr::V4(a).code() < IpAddr::V4(b).code(),
        c < d ==> IpAddr::V6(c).code() < IpAddr::V6(d).code(),
        IpAddr::V4(a).code() < IpAddr::V6(c).code(),
        p.addr.code() < q.addr.code() ==> p.code() < q.code(),
        p.addr == q.addr && p.prefix_len < q.prefix_len ==> p.code() < q.code(),
        f.afi < g.afi ==> f.code() < g.code(),
        f.afi == g.afi && f.safi < g.safi ==> f.code() < g.code(),
{
}

} // verus!

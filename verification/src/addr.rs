//! IP addresses as plain integers, and prefix masking.
//!
//! A v4 address is its 32-bit value, a v6 address its 128-bit value, both in
//! the usual most-significant-byte-first reading.  Masking to `n` bits keeps
//! the high `n` bits and clears the rest; `n = 0` yields the all-zeros
//! address.

use vstd::prelude::*;

verus! {

/// An IPv4 or IPv6 address as a plain integer.
#[derive(Clone, Copy, PartialEq, Eq, Structural, Hash, Debug)]
pub enum IpAddress {
    V4(u32),
    V6(u128),
}

/// A socket address: an IP address and a port.
#[derive(Clone, Copy, PartialEq, Eq, Structural, Hash, Debug)]
pub struct SocketAddress {
    pub ip: IpAddress,
    pub port: u16,
}

impl IpAddress {
    pub open spec fn spec_is_ipv4(&self) -> bool {
        *self is V4
    }

    #[verifier::when_used_as_spec(spec_is_ipv4)]
    pub fn is_ipv4(&self) -> (r: bool)
        ensures
            r == self.spec_is_ipv4(),
    {
        match self {
            IpAddress::V4(_) => true,
            IpAddress::V6(_) => false,
        }
    }

    /// The width of the address in bits: 32 for v4, 128 for v6.
    pub open spec fn spec_width(&self) -> u8 {
        if *self is V4 {
            32
        } else {
            128
        }
    }

    #[verifier::when_used_as_spec(spec_width)]
    pub fn width(&self) -> (r: u8)
        ensures
            r == self.spec_width(),
    {
        match self {
            IpAddress::V4(_) => 32,
            IpAddress::V6(_) => 128,
        }
    }
}

/// The v4 address `ip` masked to its high `masklen` bits.
pub open spec fn spec_mask_v4(ip: u32, masklen: u8) -> u32 {
    if masklen == 0 {
        0
    } else if masklen >= 32 {
        ip
    } else {
        ip & (!0u32 << ((32 - masklen) as u32))
    }
}

/// The v6 address `ip` masked to its high `masklen` bits.
pub open spec fn spec_mask_v6(ip: u128, masklen: u8) -> u128 {
    if masklen == 0 {
        0
    } else if masklen >= 128 {
        ip
    } else {
        ip & (!0u128 << ((128 - masklen) as u32))
    }
}

/// `addr` masked to its high `masklen` bits, within its own family.
pub open spec fn spec_mask_ip(addr: IpAddress, masklen: u8) -> IpAddress {
    match addr {
        IpAddress::V4(ip) => IpAddress::V4(spec_mask_v4(ip, masklen)),
        IpAddress::V6(ip) => IpAddress::V6(spec_mask_v6(ip, masklen)),
    }
}

/// Masking is idempotent: masking an already-masked v4 address changes nothing.
pub proof fn lemma_mask_v4_idempotent(ip: u32, masklen: u8)
    ensures
        spec_mask_v4(spec_mask_v4(ip, masklen), masklen) == spec_mask_v4(ip, masklen),
{
    if masklen == 0 {
    } else if masklen >= 32 {
    } else {
        let s = (32 - masklen) as u32;
        assert((ip & (!0u32 << s)) & (!0u32 << s) == ip & (!0u32 << s)) by (bit_vector);
    }
}

/// Masking is idempotent: masking an already-masked v6 address changes nothing.
pub proof fn lemma_mask_v6_idempotent(ip: u128, masklen: u8)
    ensures
        spec_mask_v6(spec_mask_v6(ip, masklen), masklen) == spec_mask_v6(ip, masklen),
{
    if masklen == 0 {
    } else if masklen >= 128 {
    } else {
        let s = (128 - masklen) as u32;
        assert((ip & (!0u128 << s)) & (!0u128 << s) == ip & (!0u128 << s)) by (bit_vector);
    }
}

/// Masking is idempotent for both families: `mask(mask(a, n), n) == mask(a, n)`.
pub proof fn lemma_mask_ip_idempotent(addr: IpAddress, masklen: u8)
    ensures
        spec_mask_ip(spec_mask_ip(addr, masklen), masklen) == spec_mask_ip(addr, masklen),
{
    match addr {
        IpAddress::V4(ip) => lemma_mask_v4_idempotent(ip, masklen),
        IpAddress::V6(ip) => lemma_mask_v6_idempotent(ip, masklen),
    }
}

/// The `i`th nibble (4-bit group, most significant first) of a v4 address.
pub open spec fn spec_nibble_v4(ip: u32, i: int) -> u8 {
    ((ip >> ((28 - 4 * i) as u32)) & 0xf) as u8
}

/// The `i`th nibble (4-bit group, most significant first) of a v6 address.
pub open spec fn spec_nibble_v6(ip: u128, i: int) -> u8 {
    ((ip >> ((124 - 4 * i) as u32)) & 0xf) as u8
}

/// An address type that can be masked to a prefix and split into nibbles.
pub trait Address: Copy + Sized {
    /// How `mask` reads the address, stated abstractly per implementor.
    spec fn spec_masked(self, masklen: u8) -> Self;

    /// The number of nibbles `nibbles` yields.
    spec fn spec_nibble_count() -> int;

    /// The `i`th nibble of the address.
    spec fn spec_nibble(self, i: int) -> u8;

    /// Returns self masked to its high `masklen` bits.
    fn mask(self, masklen: u8) -> (r: Self)
        ensures
            r == self.spec_masked(masklen),
    ;

    /// The address as nibbles, most significant first.
    fn nibbles(self) -> (r: Vec<u8>)
        ensures
            r@.len() == Self::spec_nibble_count(),
            forall|i: int| 0 <= i < r@.len() ==> r@[i] == self.spec_nibble(i),
            forall|i: int| 0 <= i < r@.len() ==> r@[i] < 16,
    ;

    /// The address reassembled from nibbles, most significant first.
    fn from_nibbles(nibbles: &[u8]) -> (r: Self)
        requires
            nibbles@.len() == Self::spec_nibble_count(),
            forall|i: int| 0 <= i < nibbles@.len() ==> nibbles@[i] < 16,
        ensures
            forall|i: int| 0 <= i < nibbles@.len() ==> r.spec_nibble(i) == nibbles@[i],
    ;
}

impl Address for u32 {
    open spec fn spec_masked(self, masklen: u8) -> u32 {
        spec_mask_v4(self, masklen)
    }

    open spec fn spec_nibble_count() -> int {
        8
    }

    open spec fn spec_nibble(self, i: int) -> u8 {
        spec_nibble_v4(self, i)
    }

    fn mask(self, masklen: u8) -> (r: u32) {
        if masklen == 0 {
            0
        } else if masklen >= 32 {
            self
        } else {
            self & (!0u32 << ((32 - masklen) as u32))
        }
    }

    fn nibbles(self) -> (r: Vec<u8>) {
        let mut r: Vec<u8> = Vec::new();
        let mut i: usize = 0;
        while i < 8
            invariant
                i <= 8,
                r@.len() == i,
                forall|j: int| 0 <= j < i ==> r@[j] == spec_nibble_v4(self, j),
                forall|j: int| 0 <= j < i ==> r@[j] < 16,
            decreases 8 - i,
        {
            let shift: u32 = 28 - 4 * (i as u32);
            let nib: u8 = ((self >> shift) & 0xf) as u8;
            assert(((self >> shift) & 0xf) < 16) by (bit_vector);
            r.push(nib);
            i = i + 1;
        }
        r
    }

    fn from_nibbles(nibbles: &[u8]) -> (r: u32) {
        let mut r: u32 = 0;
        proof {
            assert forall|j: int| 0 <= j < 8 implies spec_nibble_v4(0u32, j) == 0 by {
                let t = ((28 - 4 * j) as u32);
                assert((0u32 >> t) & 0xf == 0) by (bit_vector);
            }
        }
        let mut i: usize = 0;
        while i < 8
            invariant
                i <= 8,
                nibbles@.len() == 8,
                forall|j: int| 0 <= j < 8 ==> nibbles@[j] < 16,
                forall|j: int| 0 <= j < i ==> spec_nibble_v4(r, j) == nibbles@[j],
                forall|j: int| i <= j < 8 ==> spec_nibble_v4(r, j) == 0,
            decreases 8 - i,
        {
            let shift: u32 = 28 - 4 * (i as u32);
            let nib: u8 = nibbles[i];
            let prev = r;
            r = r | ((nib as u32) << shift);
            proof {
                let n = nib;
                let ii = i as u32;
                assert(spec_nibble_v4(prev, ii as int) == 0);
                assert((prev >> ((28 - 4 * ii) as u32)) & 0xf < 16) by (bit_vector)
                    requires ii < 8;
                assert((prev >> ((28 - 4 * ii) as u32)) & 0xf == 0);
                assert forall|j: int| 0 <= j < 8 implies #[trigger] spec_nibble_v4(
                    prev | ((n as u32) << shift),
                    j,
                ) == (if j == ii as int {
                    n
                } else {
                    spec_nibble_v4(prev, j)
                }) by {
                    let jj = j as u32;
                    assert(shift == 28 - 4 * ii);
                    assert(((prev | ((n as u32) << ((28 - 4 * ii) as u32))) >> ((28 - 4 * jj)
                        as u32)) & 0xf == (if jj == ii {
                        n as u32
                    } else {
                        (prev >> ((28 - 4 * jj) as u32)) & 0xf
                    })) by (bit_vector)
                        requires
                            n < 16,
                            ii < 8,
                            jj < 8,
                            (prev >> ((28 - 4 * ii) as u32)) & 0xf == 0,
                    ;
                    assert(((prev | ((n as u32) << ((28 - 4 * ii) as u32))) >> ((28 - 4 * jj)
                        as u32)) & 0xf < 16) by (bit_vector);
                    assert((prev >> ((28 - 4 * jj) as u32)) & 0xf < 16) by (bit_vector);
                }
            }
            i = i + 1;
        }
        r
    }
}

impl Address for u128 {
    open spec fn spec_masked(self, masklen: u8) -> u128 {
        spec_mask_v6(self, masklen)
    }

    open spec fn spec_nibble_count() -> int {
        32
    }

    open spec fn spec_nibble(self, i: int) -> u8 {
        spec_nibble_v6(self, i)
    }

    fn mask(self, masklen: u8) -> (r: u128) {
        if masklen == 0 {
            0
        } else if masklen >= 128 {
            self
        } else {
            self & (!0u128 << ((128 - masklen) as u32))
        }
    }

    fn nibbles(self) -> (r: Vec<u8>) {
        let mut r: Vec<u8> = Vec::new();
        let mut i: usize = 0;
        while i < 32
            invariant
                i <= 32,
                r@.len() == i,
                forall|j: int| 0 <= j < i ==> r@[j] == spec_nibble_v6(self, j),
                forall|j: int| 0 <= j < i ==> r@[j] < 16,
            decreases 32 - i,
        {
            let shift: u32 = 124 - 4 * (i as u32);
            let nib: u8 = ((self >> shift) & 0xf) as u8;
            assert(((self >> shift) & 0xf) < 16) by (bit_vector);
            r.push(nib);
            i = i + 1;
        }
        r
    }

    fn from_nibbles(nibbles: &[u8]) -> (r: u128) {
        let mut r: u128 = 0;
        proof {
            assert forall|j: int| 0 <= j < 32 implies spec_nibble_v6(0u128, j) == 0 by {
                let t = ((124 - 4 * j) as u32);
                assert((0u128 >> t) & 0xf == 0) by (bit_vector);
            }
        }
        let mut i: usize = 0;
        while i < 32
            invariant
                i <= 32,
                nibbles@.len() == 32,
                forall|j: int| 0 <= j < 32 ==> nibbles@[j] < 16,
                forall|j: int| 0 <= j < i ==> spec_nibble_v6(r, j) == nibbles@[j],
                forall|j: int| i <= j < 32 ==> spec_nibble_v6(r, j) == 0,
            decreases 32 - i,
        {
            let shift: u32 = 124 - 4 * (i as u32);
            let nib: u8 = nibbles[i];
            let prev = r;
            r = r | ((nib as u128) << shift);
            proof {
                let n = nib;
                let ii = i as u32;
                assert(spec_nibble_v6(prev, ii as int) == 0);
                assert((prev >> ((124 - 4 * ii) as u32)) & 0xf < 16) by (bit_vector)
                    requires ii < 32;
                assert((prev >> ((124 - 4 * ii) as u32)) & 0xf == 0);
                assert forall|j: int| 0 <= j < 32 implies #[trigger] spec_nibble_v6(
                    prev | ((n as u128) << shift),
                    j,
                ) == (if j == ii as int {
                    n
                } else {
                    spec_nibble_v6(prev, j)
                }) by {
                    let jj = j as u32;
                    assert(shift == 124 - 4 * ii);
                    assert(((prev | ((n as u128) << ((124 - 4 * ii) as u32))) >> ((124 - 4 * jj)
                        as u32)) & 0xf == (if jj == ii {
                        n as u128
                    } else {
                        (prev >> ((124 - 4 * jj) as u32)) & 0xf
                    })) by (bit_vector)
                        requires
                            n < 16,
                            ii < 32,
                            jj < 32,
                            (prev >> ((124 - 4 * ii) as u32)) & 0xf == 0,
                    ;
                    assert(((prev | ((n as u128) << ((124 - 4 * ii) as u32))) >> ((124 - 4 * jj)
                        as u32)) & 0xf < 16) by (bit_vector);
                    assert((prev >> ((124 - 4 * jj) as u32)) & 0xf < 16) by (bit_vector);
                }
            }
            i = i + 1;
        }
        r
    }
}

/// Masks an address to its high `masklen` bits, within its own family.
pub fn mask_ip(addr: IpAddress, masklen: u8) -> (r: IpAddress)
    ensures
        r == spec_mask_ip(addr, masklen),
{
    match addr {
        IpAddress::V4(ip) => IpAddress::V4(ip.mask(masklen)),
        IpAddress::V6(ip) => IpAddress::V6(ip.mask(masklen)),
    }
}

} // verus!

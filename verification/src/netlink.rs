//! The socket-diag codec: the kernel query for "which socket owns this
//! 4-tuple", and the scan of its reply.
//!
//! The surrounding process owns the netlink socket and moves the bytes; this
//! module builds the request message and reads the reply chunks.  Multi-byte
//! header fields are in the byte order of the host, taken here to be least
//! significant first, as on the machines this daemon runs on; ports and
//! addresses inside the socket id are on the wire most significant first.

use vstd::prelude::*;

use crate::addr::{IpAddress, SocketAddress};
use crate::bytes::{
    push_u128_be, push_u16_be, push_u16_le, push_u32_be, push_u32_le, spec_u128_be, spec_u16_be,
    spec_u16_le, spec_u32_be, spec_u32_le, u16_from_be, u32_from_le,
};
use crate::rules::Proto;

verus! {

/// The netlink message type of a socket-diag query.
pub const SOCK_DIAG_BY_FAMILY: u16 = 20;

/// The netlink message type closing a dump.
pub const NLMSG_DONE: u16 = 3;

/// The netlink message type reporting an error.
pub const NLMSG_ERROR: u16 = 2;

/// A 16-bit port as it stands on the wire: most significant byte first.
#[derive(Clone, Copy, Debug)]
pub struct Port(pub [u8; 2]);

impl View for Port {
    type V = Seq<u8>;

    open spec fn view(&self) -> Seq<u8> {
        self.0@
    }
}

impl From<u16> for Port {
    /// The wire form of a port value.
    fn from(port: u16) -> (r: Port) {
        Port([(port >> 8u16) as u8, port as u8])
    }
}

impl vstd::std_specs::convert::FromSpecImpl<u16> for Port {
    open spec fn obeys_from_spec() -> bool {
        true
    }

    open spec fn from_spec(port: u16) -> Port {
        Port([(port >> 8u16) as u8, port as u8])
    }
}

impl From<Port> for u16 {
    /// The port value a wire-form port names.
    fn from(port: Port) -> (r: u16) {
        ((port.0[0] as u16) << 8u16) | (port.0[1] as u16)
    }
}

impl vstd::std_specs::convert::FromSpecImpl<Port> for u16 {
    open spec fn obeys_from_spec() -> bool {
        true
    }

    open spec fn from_spec(port: Port) -> u16 {
        crate::bytes::spec_u16_from_be(port.0[0], port.0[1])
    }
}

/// A port's wire form reads back as the port itself.
pub proof fn lemma_port_round_trip(port: u16)
    ensures
        <u16 as vstd::std_specs::convert::FromSpec<Port>>::from_spec(
            <Port as vstd::std_specs::convert::FromSpec<u16>>::from_spec(port),
        ) == port,
{
    crate::bytes::lemma_u16_be_round_trip(port);
}

/// An address as it stands in a socket id: sixteen wire bytes, a v4 address
/// in the first four with the rest zero.
#[derive(Clone, Copy, Debug)]
pub struct Ipv4or6(pub [u8; 16]);

impl View for Ipv4or6 {
    type V = Seq<u8>;

    open spec fn view(&self) -> Seq<u8> {
        self.0@
    }
}

/// The wire bytes of an address inside a socket id.
pub open spec fn spec_ip_wire_bytes(ip: IpAddress) -> Seq<u8> {
    match ip {
        IpAddress::V4(x) => spec_u32_be(x) + seq![
            0u8, 0u8, 0u8, 0u8, 0u8, 0u8, 0u8, 0u8, 0u8, 0u8, 0u8, 0u8,
        ],
        IpAddress::V6(x) => spec_u128_be(x),
    }
}

/// Lays an address out as its sixteen wire bytes.
pub fn ip_wire_bytes(ip: IpAddress) -> (r: Vec<u8>)
    ensures
        r@ == spec_ip_wire_bytes(ip),
        r@.len() == 16,
{
    let mut v: Vec<u8> = Vec::new();
    match ip {
        IpAddress::V4(x) => {
            push_u32_be(&mut v, x);
            let mut i: usize = 0;
            while i < 12
                invariant
                    i <= 12,
                    v@.len() == 4 + i,
                    v@.take(4) == spec_u32_be(x),
                    forall|j: int| 4 <= j < v@.len() ==> v@[j] == 0u8,
                decreases 12 - i,
            {
                v.push(0u8);
                proof {
                    assert(v@.take(4) =~= spec_u32_be(x));
                }
                i = i + 1;
            }
            proof {
                assert(v@ =~= spec_ip_wire_bytes(ip));
            }
        },
        IpAddress::V6(x) => {
            push_u128_be(&mut v, x);
            proof {
                assert(v@ =~= spec_ip_wire_bytes(ip));
            }
        },
    }
    v
}

/// The address family byte of a query: 2 for v4, 10 for v6.
pub open spec fn spec_family_byte(ip: IpAddress) -> u8 {
    if ip is V4 {
        2
    } else {
        10
    }
}

/// The flags word of a query: request, and match-all for datagram sockets so
/// the kernel enumerates listeners.
pub open spec fn spec_diag_flags(protocol: Proto) -> u16 {
    if protocol.spec_is_udp() {
        0x201
    } else {
        0x1
    }
}

/// The socket-diag request for `(protocol, local, remote)`: a 16-byte
/// netlink header and a 56-byte socket-diag payload asking for any state,
/// any cookie, with the socket id carrying the pair on the wire.
pub open spec fn spec_diag_request(
    protocol: Proto,
    local: SocketAddress,
    remote: SocketAddress,
) -> Seq<u8> {
    spec_u32_le(72) + spec_u16_le(SOCK_DIAG_BY_FAMILY) + spec_u16_le(spec_diag_flags(protocol))
        + spec_u32_le(0) + spec_u32_le(0) + seq![
        spec_family_byte(local.ip),
        protocol.spec_number(),
        0u8,
        0u8,
    ] + spec_u32_le(0xffff_ffff) + spec_u16_be(local.port) + spec_u16_be(remote.port)
        + spec_ip_wire_bytes(local.ip) + spec_ip_wire_bytes(remote.ip) + spec_u32_le(0)
        + spec_u32_le(0xffff_ffff) + spec_u32_le(0xffff_ffff)
}

/// Builds the socket-diag request for `(protocol, local, remote)`.  Both
/// endpoints must be of one family.
pub fn build_diag_request(protocol: Proto, local: SocketAddress, remote: SocketAddress) -> (r: Vec<
    u8,
>)
    requires
        local.ip.spec_is_ipv4() == remote.ip.spec_is_ipv4(),
    ensures
        r@ == spec_diag_request(protocol, local, remote),
        r@.len() == 72,
{
    let mut v: Vec<u8> = Vec::new();
    push_u32_le(&mut v, 72);
    push_u16_le(&mut v, SOCK_DIAG_BY_FAMILY);
    push_u16_le(&mut v, if protocol.is_udp() { 0x201 } else { 0x1 });
    push_u32_le(&mut v, 0);
    push_u32_le(&mut v, 0);
    v.push(if local.ip.is_ipv4() { 2 } else { 10 });
    v.push(protocol.number());
    v.push(0u8);
    v.push(0u8);
    push_u32_le(&mut v, 0xffff_ffff);
    push_u16_be(&mut v, local.port);
    push_u16_be(&mut v, remote.port);
    let mut lb = ip_wire_bytes(local.ip);
    let mut rb = ip_wire_bytes(remote.ip);
    let mut i: usize = 0;
    while i < lb.len()
        invariant
            i <= lb@.len(),
            v@ == old_v_prefix(protocol, local, remote) + lb@.take(i as int),
            lb@ == spec_ip_wire_bytes(local.ip),
        decreases lb@.len() - i,
    {
        v.push(lb[i]);
        proof {
            assert(v@ =~= old_v_prefix(protocol, local, remote) + lb@.take(i + 1));
        }
        i = i + 1;
    }
    let mut i: usize = 0;
    while i < rb.len()
        invariant
            i <= rb@.len(),
            v@ == old_v_prefix(protocol, local, remote) + spec_ip_wire_bytes(local.ip) + rb@.take(
                i as int,
            ),
            rb@ == spec_ip_wire_bytes(remote.ip),
        decreases rb@.len() - i,
    {
        v.push(rb[i]);
        proof {
            assert(v@ =~= old_v_prefix(protocol, local, remote) + spec_ip_wire_bytes(local.ip)
                + rb@.take(i + 1));
        }
        i = i + 1;
    }
    push_u32_le(&mut v, 0);
    push_u32_le(&mut v, 0xffff_ffff);
    push_u32_le(&mut v, 0xffff_ffff);
    proof {
        assert(v@ =~= spec_diag_request(protocol, local, remote));
    }
    v
}

/// The request bytes up to the socket id's addresses.
spec fn old_v_prefix(protocol: Proto, local: SocketAddress, remote: SocketAddress) -> Seq<u8> {
    spec_u32_le(72) + spec_u16_le(SOCK_DIAG_BY_FAMILY) + spec_u16_le(spec_diag_flags(protocol))
        + spec_u32_le(0) + spec_u32_le(0) + seq![
        spec_family_byte(local.ip),
        protocol.spec_number(),
        0u8,
        0u8,
    ] + spec_u32_le(0xffff_ffff) + spec_u16_be(local.port) + spec_u16_be(remote.port)
}

/// The socket id inside a kernel reply.
#[derive(Clone, Copy, Debug)]
pub struct InetDiagSockId {
    pub idiag_sport: Port,
    pub idiag_dport: Port,
    pub idiag_src: Ipv4or6,
    pub idiag_dst: Ipv4or6,
    pub idiag_if: u32,
    pub idiag_cookie: [u32; 2],
}

/// One socket-diag reply record.
#[derive(Clone, Copy, Debug)]
pub struct InetDiagMsg {
    pub idiag_family: u8,
    pub idiag_state: u8,
    pub idiag_timer: u8,
    pub idiag_retrans: u8,
    pub id: InetDiagSockId,
    pub idiag_expires: u32,
    pub idiag_rqueue: u32,
    pub idiag_wqueue: u32,
    pub idiag_uid: u32,
    pub idiag_inode: u32,
}

/// The inode field read from a reply record starting at `off`.
pub open spec fn spec_msg_inode(b: Seq<u8>, off: int) -> u32 {
    crate::bytes::spec_u32_from_le(b[off + 52], b[off + 53], b[off + 54], b[off + 55])
}

/// Whether the reply record starting at `off` carries exactly the requested
/// pair, byte for byte.
pub open spec fn spec_msg_matches(
    b: Seq<u8>,
    off: int,
    local: SocketAddress,
    remote: SocketAddress,
) -> bool {
    &&& b.subrange(off + 4, off + 6) == spec_u16_be(local.port)
    &&& b.subrange(off + 6, off + 8) == spec_u16_be(remote.port)
    &&& b.subrange(off + 8, off + 24) == spec_ip_wire_bytes(local.ip)
    &&& b.subrange(off + 24, off + 40) == spec_ip_wire_bytes(remote.ip)
}

/// What a scan of one reply chunk concludes.
#[derive(Clone, Copy, PartialEq, Eq, Structural, Debug)]
pub enum DiagScanOutcome {
    /// A record carrying the requested pair; its socket inode.
    Found(u32),
    /// The kernel closed the dump without a match.
    Done,
    /// The kernel reported an error.
    Error,
    /// The chunk ended; further chunks may follow.
    Continue,
}

/// The scan of a reply chunk from `off` on: walk netlink messages until an
/// error or done message, and report the first record carrying the requested
/// pair.
pub open spec fn spec_scan_chunk(
    b: Seq<u8>,
    off: int,
    local: SocketAddress,
    remote: SocketAddress,
) -> DiagScanOutcome
    decreases b.len() - off,
{
    if off < 0 || off + 16 > b.len() {
        DiagScanOutcome::Continue
    } else {
        let mlen = crate::bytes::spec_u32_from_le(b[off], b[off + 1], b[off + 2], b[off + 3]);
        let mtype = crate::bytes::spec_u16_from_be(b[off + 5], b[off + 4]);
        if mtype == NLMSG_ERROR {
            DiagScanOutcome::Error
        } else if mtype == NLMSG_DONE {
            DiagScanOutcome::Done
        } else if mlen < 16 || off + mlen > b.len() {
            DiagScanOutcome::Continue
        } else if mlen >= 72 && spec_msg_matches(b, off + 16, local, remote) {
            DiagScanOutcome::Found(spec_msg_inode(b, off + 16))
        } else {
            let step = if mlen % 4 == 0 {
                mlen as int
            } else {
                mlen + 4 - mlen % 4
            };
            if off + step >= b.len() {
                DiagScanOutcome::Continue
            } else {
                spec_scan_chunk(b, off + step, local, remote)
            }
        }
    }
}

/// Compares sixteen bytes of the chunk with an address's wire bytes.
fn wire_bytes_match(b: &[u8], off: usize, ip: IpAddress) -> (r: bool)
    requires
        off + 16 <= b@.len(),
    ensures
        r == (b@.subrange(off as int, off + 16) == spec_ip_wire_bytes(ip)),
{
    let blen = b.len();
    let w = ip_wire_bytes(ip);
    let mut i: usize = 0;
    while i < 16
        invariant
            i <= 16,
            blen == b@.len(),
            off + 16 <= b@.len(),
            w@ == spec_ip_wire_bytes(ip),
            w@.len() == 16,
            forall|j: int| 0 <= j < i ==> b@[off + j] == w@[j],
        decreases 16 - i,
    {
        if b[off + i] != w[i] {
            proof {
                assert(b@.subrange(off as int, off + 16)[i as int] != w@[i as int]);
            }
            return false;
        }
        i = i + 1;
    }
    proof {
        assert(b@.subrange(off as int, off + 16) =~= w@);
    }
    true
}

/// Compares two bytes of the chunk with a port's wire bytes.
fn port_bytes_match(b: &[u8], off: usize, port: u16) -> (r: bool)
    requires
        off + 2 <= b@.len(),
    ensures
        r == (b@.subrange(off as int, off + 2) == spec_u16_be(port)),
{
    let blen = b.len();
    let hi = (port >> 8u16) as u8;
    let lo = port as u8;
    if b[off] == hi && b[off + 1] == lo {
        proof {
            assert(b@.subrange(off as int, off + 2) =~= spec_u16_be(port));
        }
        true
    } else {
        proof {
            if b@[off as int] != hi {
                assert(b@.subrange(off as int, off + 2)[0] != spec_u16_be(port)[0]);
            } else {
                assert(b@.subrange(off as int, off + 2)[1] != spec_u16_be(port)[1]);
            }
        }
        false
    }
}

/// Scans one reply chunk for the requested pair: walks the netlink messages
/// until an error or done message, and reports the first record whose socket
/// id equals the pair byte for byte, as its inode.
pub fn scan_diag_chunk(b: &[u8], local: SocketAddress, remote: SocketAddress) -> (r:
    DiagScanOutcome)
    ensures
        r == spec_scan_chunk(b@, 0, local, remote),
{
    scan_diag_chunk_from(b, 0, local, remote)
}

/// Scans the chunk from byte `off` on.
fn scan_diag_chunk_from(b: &[u8], off: usize, local: SocketAddress, remote: SocketAddress) -> (r:
    DiagScanOutcome)
    ensures
        r == spec_scan_chunk(b@, off as int, local, remote),
    decreases b@.len() - off,
{
    let blen = b.len();
    if off > blen || blen - off < 16 {
        return DiagScanOutcome::Continue;
    }
    let mlen = u32_from_le(b[off], b[off + 1], b[off + 2], b[off + 3]);
    let mtype = u16_from_be(b[off + 5], b[off + 4]);
    if mtype == NLMSG_ERROR {
        return DiagScanOutcome::Error;
    }
    if mtype == NLMSG_DONE {
        return DiagScanOutcome::Done;
    }
    if mlen < 16 || mlen as u64 > (blen - off) as u64 {
        return DiagScanOutcome::Continue;
    }
    if mlen >= 72 {
        let payload = off + 16;
        let sport_ok = port_bytes_match(b, payload + 4, local.port);
        let dport_ok = port_bytes_match(b, payload + 6, remote.port);
        let src_ok = wire_bytes_match(b, payload + 8, local.ip);
        let dst_ok = wire_bytes_match(b, payload + 24, remote.ip);
        if sport_ok && dport_ok && src_ok && dst_ok {
            let inode = u32_from_le(
                b[payload + 52],
                b[payload + 53],
                b[payload + 54],
                b[payload + 55],
            );
            return DiagScanOutcome::Found(inode);
        }
    }
    let remaining = blen - off;
    let step64: u64 = if mlen % 4 == 0 {
        mlen as u64
    } else {
        mlen as u64 + 4 - (mlen % 4) as u64
    };
    if step64 >= remaining as u64 {
        return DiagScanOutcome::Continue;
    }
    scan_diag_chunk_from(b, off + step64 as usize, local, remote)
}

/// Reads the socket-diag record at `off` into its fields, as the kernel
/// laid them out: four leading bytes, the socket id with ports and
/// addresses on the wire, then six host-order words.
pub fn parse_inet_diag_msg(b: &[u8], off: usize) -> (r: Option<InetDiagMsg>)
    ensures
        (r is Some) == (off + 72 <= b@.len()),
        r matches Some(m) ==> {
            &&& m.idiag_family == b@[off as int]
            &&& m.idiag_state == b@[off + 1]
            &&& m.idiag_timer == b@[off + 2]
            &&& m.idiag_retrans == b@[off + 3]
            &&& m.id.idiag_sport@ == b@.subrange(off + 4, off + 6)
            &&& m.id.idiag_dport@ == b@.subrange(off + 6, off + 8)
            &&& m.id.idiag_src@ == b@.subrange(off + 8, off + 24)
            &&& m.id.idiag_dst@ == b@.subrange(off + 24, off + 40)
            &&& m.id.idiag_if == crate::bytes::spec_u32_from_le(
                b@[off + 40],
                b@[off + 41],
                b@[off + 42],
                b@[off + 43],
            )
            &&& m.idiag_inode == spec_msg_inode(b@, off as int)
        },
{
    let blen = b.len();
    if blen < 72 || off > blen - 72 {
        return None;
    }
    let sport = Port([b[off + 4], b[off + 5]]);
    let dport = Port([b[off + 6], b[off + 7]]);
    let src = Ipv4or6(
        [
            b[off + 8],
            b[off + 9],
            b[off + 10],
            b[off + 11],
            b[off + 12],
            b[off + 13],
            b[off + 14],
            b[off + 15],
            b[off + 16],
            b[off + 17],
            b[off + 18],
            b[off + 19],
            b[off + 20],
            b[off + 21],
            b[off + 22],
            b[off + 23],
        ],
    );
    let dst = Ipv4or6(
        [
            b[off + 24],
            b[off + 25],
            b[off + 26],
            b[off + 27],
            b[off + 28],
            b[off + 29],
            b[off + 30],
            b[off + 31],
            b[off + 32],
            b[off + 33],
            b[off + 34],
            b[off + 35],
            b[off + 36],
            b[off + 37],
            b[off + 38],
            b[off + 39],
        ],
    );
    let msg = InetDiagMsg {
        idiag_family: b[off],
        idiag_state: b[off + 1],
        idiag_timer: b[off + 2],
        idiag_retrans: b[off + 3],
        id: InetDiagSockId {
            idiag_sport: sport,
            idiag_dport: dport,
            idiag_src: src,
            idiag_dst: dst,
            idiag_if: u32_from_le(b[off + 40], b[off + 41], b[off + 42], b[off + 43]),
            idiag_cookie: [
                u32_from_le(b[off + 44], b[off + 45], b[off + 46], b[off + 47]),
                u32_from_le(b[off + 48], b[off + 49], b[off + 50], b[off + 51]),
            ],
        },
        idiag_expires: u32_from_le(b[off + 56], b[off + 57], b[off + 58], b[off + 59]),
        idiag_rqueue: u32_from_le(b[off + 60], b[off + 61], b[off + 62], b[off + 63]),
        idiag_wqueue: u32_from_le(b[off + 64], b[off + 65], b[off + 66], b[off + 67]),
        idiag_uid: u32_from_le(b[off + 68], b[off + 69], b[off + 70], b[off + 71]),
        idiag_inode: u32_from_le(b[off + 52], b[off + 53], b[off + 54], b[off + 55]),
    };
    proof {
        assert(msg.id.idiag_sport@ =~= b@.subrange(off + 4, off + 6));
        assert(msg.id.idiag_dport@ =~= b@.subrange(off + 6, off + 8));
        assert(msg.id.idiag_src@ =~= b@.subrange(off + 8, off + 24));
        assert(msg.id.idiag_dst@ =~= b@.subrange(off + 24, off + 40));
    }
    Some(msg)
}

} // verus!

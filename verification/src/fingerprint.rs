//! Fingerprints: 64-bit keys for the match-result and flow caches.
//!
//! A fingerprint is the standard hasher's digest of a fixed byte encoding of
//! the hashed fields.  Within one process the digest is a function of the
//! bytes written, so equal inputs give equal keys.

use vstd::prelude::*;
use vstd::string::StringSliceAdditionalSpecFns;
use vstd::std_specs::hash::DefaultHasherAdditionalSpecFns;

use std::collections::hash_map::DefaultHasher;
use std::hash::Hasher;

use crate::addr::{IpAddress, SocketAddress};
use crate::bytes::{push_u128_be, push_u16_be, push_u32_be, spec_u128_be, spec_u16_be, spec_u32_be};
use crate::rules::{Device, Proto};

verus! {

/// The byte naming a device in a fingerprint.
pub open spec fn spec_device_byte(d: Device) -> u8 {
    match d {
        Device::Input => 0,
        Device::Output => 1,
    }
}

/// The byte naming a protocol in a fingerprint: its IANA number.
pub open spec fn spec_proto_byte(p: Proto) -> u8 {
    p.spec_number()
}

/// The bytes naming an address: a family tag, then the address bytes.
pub open spec fn spec_ip_bytes(ip: IpAddress) -> Seq<u8> {
    match ip {
        IpAddress::V4(x) => seq![4u8] + spec_u32_be(x),
        IpAddress::V6(x) => seq![6u8] + spec_u128_be(x),
    }
}

/// The bytes naming a socket address: the address, then the port.
pub open spec fn spec_sockaddr_bytes(a: SocketAddress) -> Seq<u8> {
    spec_ip_bytes(a.ip) + spec_u16_be(a.port)
}

/// The match-cache key of a packet `(device, protocol, address, executable)`.
pub open spec fn spec_fingerprint(
    device: Device,
    protocol: Proto,
    addr: SocketAddress,
    exe: Seq<char>,
) -> u64 {
    DefaultHasher::spec_finish(
        seq![
            seq![spec_device_byte(device)],
            seq![spec_proto_byte(protocol)],
            spec_sockaddr_bytes(addr),
            vstd::utf8::encode_utf8(exe),
        ],
    )
}

/// The flow-cache key of a flow `(device, protocol, source, destination)`.
pub open spec fn spec_flow_fingerprint(
    device: Device,
    protocol: Proto,
    src: SocketAddress,
    dst: SocketAddress,
) -> u64 {
    DefaultHasher::spec_finish(
        seq![
            seq![spec_device_byte(device)],
            seq![spec_proto_byte(protocol)],
            spec_sockaddr_bytes(src),
            spec_sockaddr_bytes(dst),
        ],
    )
}

/// The device's fingerprint byte.
fn device_byte(d: Device) -> (r: u8)
    ensures
        r == spec_device_byte(d),
{
    match d {
        Device::Input => 0,
        Device::Output => 1,
    }
}

/// The byte encoding of a socket address for hashing.
fn sockaddr_bytes(a: SocketAddress) -> (r: Vec<u8>)
    ensures
        r@ == spec_sockaddr_bytes(a),
{
    let mut v: Vec<u8> = Vec::new();
    match a.ip {
        IpAddress::V4(x) => {
            v.push(4u8);
            proof {
                assert(v@ =~= seq![4u8]);
            }
            push_u32_be(&mut v, x);
        },
        IpAddress::V6(x) => {
            v.push(6u8);
            proof {
                assert(v@ =~= seq![6u8]);
            }
            push_u128_be(&mut v, x);
        },
    }
    push_u16_be(&mut v, a.port);
    proof {
        assert(v@ =~= spec_sockaddr_bytes(a));
    }
    v
}

/// The match-cache key of a packet.
pub fn fingerprint(device: Device, protocol: Proto, addr: SocketAddress, exe: &str) -> (r: u64)
    ensures
        r == spec_fingerprint(device, protocol, addr, exe@),
{
    let mut h = DefaultHasher::new();
    let mut db: Vec<u8> = Vec::new();
    db.push(device_byte(device));
    let mut pb: Vec<u8> = Vec::new();
    pb.push(protocol.number());
    let ab = sockaddr_bytes(addr);
    h.write(db.as_slice());
    h.write(pb.as_slice());
    h.write(ab.as_slice());
    h.write(exe.as_bytes());
    proof {
        assert(db@ =~= seq![spec_device_byte(device)]);
        assert(pb@ =~= seq![spec_proto_byte(protocol)]);
        assert(h@ =~= seq![
            seq![spec_device_byte(device)],
            seq![spec_proto_byte(protocol)],
            spec_sockaddr_bytes(addr),
            vstd::utf8::encode_utf8(exe@),
        ]);
    }
    h.finish()
}

/// The flow-cache key of a flow.
pub fn flow_fingerprint(device: Device, protocol: Proto, src: SocketAddress, dst: SocketAddress) -> (r:
    u64)
    ensures
        r == spec_flow_fingerprint(device, protocol, src, dst),
{
    let mut h = DefaultHasher::new();
    let mut db: Vec<u8> = Vec::new();
    db.push(device_byte(device));
    let mut pb: Vec<u8> = Vec::new();
    pb.push(protocol.number());
    let sb = sockaddr_bytes(src);
    let tb = sockaddr_bytes(dst);
    h.write(db.as_slice());
    h.write(pb.as_slice());
    h.write(sb.as_slice());
    h.write(tb.as_slice());
    proof {
        assert(db@ =~= seq![spec_device_byte(device)]);
        assert(pb@ =~= seq![spec_proto_byte(protocol)]);
        assert(h@ =~= seq![
            seq![spec_device_byte(device)],
            seq![spec_proto_byte(protocol)],
            spec_sockaddr_bytes(src),
            spec_sockaddr_bytes(dst),
        ]);
    }
    h.finish()
}

} // verus!

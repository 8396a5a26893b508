//! The packet path: parsing the queued packet's headers, choosing the
//! socket-diag probes for its flow, the flow cache, and the verdict.
//!
//! The surrounding process receives packets from the kernel queue and sets
//! verdicts; everything it decides in between stands here.

use vstd::prelude::*;

use crate::addr::{IpAddress, SocketAddress};
use crate::bytes::{spec_u16_from_be, spec_u32_from_be, u128_from_be_slice, u16_from_be, u32_from_be};
use crate::cache::{
    flow_cache_bounded, flow_cache_get, flow_cache_insert, flow_cache_new, flow_cache_view,
    flow_cache_capacity, FlowLru,
};
use crate::fingerprint::{flow_fingerprint, spec_flow_fingerprint};
use crate::index::{spec_apply_target, spec_match_result, spec_decode_verdict, IndexedRules};
use crate::proc::{Process, ProcessV};
use crate::rules::{Device, PackageReport, Proto};

verus! {

/// What the headers of a queued packet say.
#[derive(Clone, Copy, PartialEq, Eq, Structural, Debug)]
pub struct PacketMeta {
    pub device: Device,
    pub protocol: Proto,
    pub src: SocketAddress,
    pub dst: SocketAddress,
    pub len: usize,
}

/// The direction of a queued packet: inbound when an input device index is
/// set, outbound when an output device index is set.
pub open spec fn spec_packet_device(indev: u32, outdev: u32) -> Option<Device> {
    if indev != 0 {
        Some(Device::Input)
    } else if outdev != 0 {
        Some(Device::Output)
    } else {
        None
    }
}

/// The protocol an IP next-protocol byte names, when the daemon classifies
/// it.
pub open spec fn spec_l4_protocol(p: u8) -> Option<Proto> {
    if p == 6 {
        Some(Proto::Tcp)
    } else if p == 17 {
        Some(Proto::Udp)
    } else if p == 136 {
        Some(Proto::UdpLite)
    } else {
        None
    }
}

/// What a queued packet's headers parse to: the direction, the addresses of
/// the fixed v4 or v6 header, the protocol, and the ports of the minimal
/// transport header.  Anything else is not classified: a missing direction,
/// another IP version, v6 extension headers reaching another protocol, a
/// transport the daemon does not filter, or a truncated header.
pub open spec fn spec_classify(b: Seq<u8>, indev: u32, outdev: u32) -> Option<PacketMeta> {
    match spec_packet_device(indev, outdev) {
        None => None,
        Some(device) => {
            if b.len() < 1 {
                None
            } else {
                let version = b[0] >> 4;
                if version == 4 && b.len() >= 20 {
                    spec_classify_l4(
                        b,
                        device,
                        b[9],
                        IpAddress::V4(spec_u32_from_be(b[12], b[13], b[14], b[15])),
                        IpAddress::V4(spec_u32_from_be(b[16], b[17], b[18], b[19])),
                        20,
                    )
                } else if version == 6 && b.len() >= 40 {
                    spec_classify_l4(
                        b,
                        device,
                        b[6],
                        IpAddress::V6(crate::bytes::spec_u128_from_be(b.subrange(8, 24))),
                        IpAddress::V6(crate::bytes::spec_u128_from_be(b.subrange(24, 40))),
                        40,
                    )
                } else {
                    None
                }
            }
        },
    }
}

/// The transport-layer step of classification: the ports of the minimal
/// header at `off`.
pub open spec fn spec_classify_l4(
    b: Seq<u8>,
    device: Device,
    proto_byte: u8,
    src_ip: IpAddress,
    dst_ip: IpAddress,
    off: int,
) -> Option<PacketMeta> {
    match spec_l4_protocol(proto_byte) {
        None => None,
        Some(protocol) => {
            let need: int = if protocol is Tcp {
                20
            } else {
                8
            };
            if b.len() < off + need {
                None
            } else {
                Some(
                    PacketMeta {
                        device,
                        protocol,
                        src: SocketAddress {
                            ip: src_ip,
                            port: spec_u16_from_be(b[off], b[off + 1]),
                        },
                        dst: SocketAddress {
                            ip: dst_ip,
                            port: spec_u16_from_be(b[off + 2], b[off + 3]),
                        },
                        len: b.len() as usize,
                    },
                )
            }
        },
    }
}

/// Parses a queued packet: direction from the device indexes, addresses and
/// protocol from the fixed IP header, ports from the minimal transport
/// header.  Nothing to classify yields nothing, and the packet passes.
pub fn classify_packet(payload: &[u8], indev: u32, outdev: u32) -> (r: Option<PacketMeta>)
    ensures
        r == spec_classify(payload@, indev, outdev),
{
    let device = if indev != 0 {
        Device::Input
    } else if outdev != 0 {
        Device::Output
    } else {
        return None;
    };
    let n = payload.len();
    if n < 1 {
        return None;
    }
    let version = payload[0] >> 4u8;
    let (proto_byte, src_ip, dst_ip, off): (u8, IpAddress, IpAddress, usize) = if version == 4 && n
        >= 20 {
        (
            payload[9],
            IpAddress::V4(u32_from_be(payload[12], payload[13], payload[14], payload[15])),
            IpAddress::V4(u32_from_be(payload[16], payload[17], payload[18], payload[19])),
            20,
        )
    } else if version == 6 && n >= 40 {
        (
            payload[6],
            IpAddress::V6(u128_from_be_slice(payload, 8)),
            IpAddress::V6(u128_from_be_slice(payload, 24)),
            40,
        )
    } else {
        return None;
    };
    let protocol = if proto_byte == 6 {
        Proto::Tcp
    } else if proto_byte == 17 {
        Proto::Udp
    } else if proto_byte == 136 {
        Proto::UdpLite
    } else {
        return None;
    };
    let need: usize = match protocol {
        Proto::Tcp => 20,
        _ => 8,
    };
    if n < off + need {
        return None;
    }
    let sport = u16_from_be(payload[off], payload[off + 1]);
    let dport = u16_from_be(payload[off + 2], payload[off + 3]);
    Some(
        PacketMeta {
            device,
            protocol,
            src: SocketAddress { ip: src_ip, port: sport },
            dst: SocketAddress { ip: dst_ip, port: dport },
            len: n,
        },
    )
}

/// The all-zeros address of the same family, with port zero.
pub open spec fn spec_unspecified(ip: IpAddress) -> SocketAddress {
    match ip {
        IpAddress::V4(_) => SocketAddress { ip: IpAddress::V4(0), port: 0 },
        IpAddress::V6(_) => SocketAddress { ip: IpAddress::V6(0), port: 0 },
    }
}

/// The `(local, remote)` socket-diag probes for a flow, in order: TCP gets
/// the exact pair; datagram protocols then retry with an unspecified remote
/// (a bound listener) and with the unspecified local address on the local
/// port (a dual-stack listener).
pub open spec fn spec_possible_sockets(
    device: Device,
    protocol: Proto,
    src: SocketAddress,
    dst: SocketAddress,
) -> Seq<(SocketAddress, SocketAddress)> {
    let local = if device.spec_is_input() {
        dst
    } else {
        src
    };
    let remote = if device.spec_is_input() {
        src
    } else {
        dst
    };
    let unspec = spec_unspecified(local.ip);
    if protocol.spec_is_udp() {
        seq![
            (local, remote),
            (local, unspec),
            (SocketAddress { ip: unspec.ip, port: local.port }, unspec),
        ]
    } else {
        seq![(local, remote)]
    }
}

/// Builds the socket-diag probe list for a flow.
pub fn possible_sockets(device: Device, protocol: Proto, src: SocketAddress, dst: SocketAddress) -> (r:
    Vec<(SocketAddress, SocketAddress)>)
    ensures
        r@ == spec_possible_sockets(device, protocol, src, dst),
{
    let local = if device.is_input() {
        dst
    } else {
        src
    };
    let remote = if device.is_input() {
        src
    } else {
        dst
    };
    let unspec = match local.ip {
        IpAddress::V4(_) => SocketAddress { ip: IpAddress::V4(0), port: 0 },
        IpAddress::V6(_) => SocketAddress { ip: IpAddress::V6(0), port: 0 },
    };
    let mut r: Vec<(SocketAddress, SocketAddress)> = Vec::new();
    r.push((local, remote));
    if protocol.is_udp() {
        r.push((local, unspec));
        r.push((SocketAddress { ip: unspec.ip, port: local.port }, unspec));
    }
    proof {
        assert(r@ =~= spec_possible_sockets(device, protocol, src, dst));
    }
    r
}

/// The flow cache: flow fingerprint to attributed process, capacity 2048.
pub struct FlowCache {
    cache: FlowLru,
}

/// The capacity of the flow cache.
pub const FLOW_CACHE_CAPACITY: usize = 2048;

impl FlowCache {
    /// The cached attributions.
    pub closed spec fn spec_entries(&self) -> Map<u64, ProcessV> {
        flow_cache_view(&self.cache)
    }

    /// The cache inside is one the constructor built (bounded, no expiry).
    pub closed spec fn wf(&self) -> bool {
        flow_cache_bounded(&self.cache)
    }

    /// An empty flow cache.
    pub fn new() -> (r: FlowCache)
        ensures
            r.wf(),
            r.spec_entries() == crate::cache::flow_map_empty(),
    {
        FlowCache { cache: flow_cache_new(FLOW_CACHE_CAPACITY) }
    }

    /// Looks the flow up; a hit hands back a clone of the attribution stored
    /// under the flow's fingerprint.
    pub fn lookup(
        &mut self,
        device: Device,
        protocol: Proto,
        src: SocketAddress,
        dst: SocketAddress,
    ) -> (r: Option<Process>)
        requires
            old(self).wf(),
        ensures
            final(self).wf(),
            final(self).spec_entries() == old(self).spec_entries(),
            r matches Some(p) ==> old(self).spec_entries().dom().contains(
                spec_flow_fingerprint(device, protocol, src, dst),
            ) && p@ == old(self).spec_entries()[spec_flow_fingerprint(device, protocol, src, dst)],
            r is None ==> !old(self).spec_entries().dom().contains(
                spec_flow_fingerprint(device, protocol, src, dst),
            ),
    {
        let h = flow_fingerprint(device, protocol, src, dst);
        flow_cache_get(&mut self.cache, h)
    }

    /// Stores an attribution under the flow's fingerprint.
    pub fn store(
        &mut self,
        device: Device,
        protocol: Proto,
        src: SocketAddress,
        dst: SocketAddress,
        p: Process,
    )
        requires
            old(self).wf(),
        ensures
            final(self).wf(),
            final(self).spec_entries().dom().contains(
                spec_flow_fingerprint(device, protocol, src, dst),
            ),
            final(self).spec_entries()[spec_flow_fingerprint(device, protocol, src, dst)] == p@,
            forall|k2: u64|
                final(self).spec_entries().dom().contains(k2) ==> k2 == spec_flow_fingerprint(
                    device,
                    protocol,
                    src,
                    dst,
                ) || (old(self).spec_entries().dom().contains(k2) && final(self).spec_entries()[k2]
                    == old(self).spec_entries()[k2]),
    {
        let h = flow_fingerprint(device, protocol, src, dst);
        let ghost pre = flow_cache_view(&self.cache);
        flow_cache_insert(&mut self.cache, h, p);
        proof {
            assert forall|k2: u64|
                self.spec_entries().dom().contains(k2) && k2 != h implies pre.dom().contains(k2)
                    && self.spec_entries()[k2] == pre[k2] by {
                assert(flow_cache_view(&self.cache).dom().contains(k2));
            }
        }
    }
}

/// Classifies an attributed packet against the rules and writes its log
/// record: the rule address is the remote end (the source for inbound, the
/// destination for outbound), the verdict comes from the indexed match with
/// its rate buckets, and the record carries the packet and what became of
/// it.
pub fn dispatch_verdict(
    rules: &mut IndexedRules,
    meta: &PacketMeta,
    exe: &str,
    now_ms: u64,
) -> (r: (bool, PackageReport))
    requires
        old(rules).wf(),
    ensures
        final(rules).wf(),
        final(rules).spec_rules() == old(rules).spec_rules(),
        final(rules).spec_default() == old(rules).spec_default(),
        r.1.device == meta.device,
        r.1.protocol == meta.protocol,
        r.1.addr == (if meta.device.spec_is_input() {
            meta.src
        } else {
            meta.dst
        }),
        r.1.len == meta.len,
        r.1.exe@ == exe@,
        r.1.dropped == !r.0,
        ({
            let rule_addr = if meta.device.spec_is_input() {
                meta.src
            } else {
                meta.dst
            };
            let h = crate::fingerprint::spec_fingerprint(
                meta.device,
                meta.protocol,
                rule_addr,
                exe@,
            );
            let m = spec_match_result(
                old(rules).spec_rules(),
                old(rules).spec_default(),
                meta.device,
                meta.protocol,
                rule_addr,
                exe@,
            );
            &&& (!old(rules).spec_cache().dom().contains(h) ==> r.1.matched_rule == m.0 && (
            r.0, final(rules).spec_rate()) == spec_apply_target(
                old(rules).spec_rate(),
                m.1,
                meta.len,
                now_ms,
            ))
            &&& (old(rules).spec_cache().dom().contains(h) ==> {
                let c = spec_decode_verdict(old(rules).spec_cache()[h]);
                &&& c is Some
                &&& r.1.matched_rule == c.unwrap().0
                &&& (r.0, final(rules).spec_rate()) == spec_apply_target(
                    old(rules).spec_rate(),
                    c.unwrap().1,
                    meta.len,
                    now_ms,
                )
            })
        }),
{
    let rule_addr = if meta.device.is_input() {
        meta.src
    } else {
        meta.dst
    };
    let (rule_id, accept) = rules.is_acceptable(
        meta.device,
        meta.protocol,
        rule_addr,
        meta.len,
        exe,
        now_ms,
    );
    let report = PackageReport {
        device: meta.device,
        protocol: meta.protocol,
        addr: rule_addr,
        len: meta.len,
        exe: exe.to_owned(),
        dropped: !accept,
        matched_rule: rule_id,
    };
    (accept, report)
}

} // verus!

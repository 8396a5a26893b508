use gleipnird::addr::{IpAddress, SocketAddress};
use gleipnird::fingerprint::{fingerprint, flow_fingerprint};
use gleipnird::index::IndexedRules;
use gleipnird::packet::{classify_packet, dispatch_verdict, possible_sockets, FlowCache, PacketMeta};
use gleipnird::proc::Process;
use gleipnird::rules::{
    Device, Proto, RangeInclusiveOwned, RateLimitRule, Rule, RuleTarget, Rules,
};

fn v4(a: u8, b: u8, c: u8, d: u8) -> IpAddress {
    IpAddress::V4(u32::from_be_bytes([a, b, c, d]))
}

fn sock(ip: IpAddress, port: u16) -> SocketAddress {
    SocketAddress { ip, port }
}

fn any_rule(target: RuleTarget) -> Rule {
    Rule { device: None, proto: None, exe: None, port: None, subnet: (v4(0, 0, 0, 0), 0), target }
}

#[test]
fn default_drop_match() {
    let rules = Rules {
        default_target: RuleTarget::Drop,
        rules: vec![],
        rate_rules: vec![],
    };
    let mut idx = IndexedRules::from_rules(&rules).unwrap();
    let r = idx.is_acceptable(
        Device::Output,
        Proto::Tcp,
        sock(v4(8, 8, 8, 8), 80),
        60,
        "/usr/bin/curl",
        0,
    );
    assert_eq!(r, (None, false));
}

#[test]
fn first_match_wins() {
    let mut tcp_rule = any_rule(RuleTarget::Accept);
    tcp_rule.proto = Some(Proto::Tcp);
    let mut port_rule = any_rule(RuleTarget::Drop);
    port_rule.port = Some(RangeInclusiveOwned { start: 443, end: 443 });
    let rules = Rules {
        default_target: RuleTarget::Accept,
        rules: vec![tcp_rule, port_rule],
        rate_rules: vec![],
    };
    let mut idx = IndexedRules::from_rules(&rules).unwrap();
    let r = idx.is_acceptable(Device::Output, Proto::Tcp, sock(v4(1, 2, 3, 4), 443), 100, "", 0);
    assert_eq!(r, (Some(0), true));
}

#[test]
fn longest_prefix_does_not_override_user_order() {
    let mut wide = any_rule(RuleTarget::Accept);
    wide.subnet = (v4(10, 0, 0, 0), 8);
    let mut narrow = any_rule(RuleTarget::Drop);
    narrow.subnet = (v4(10, 1, 0, 0), 16);
    let rules = Rules {
        default_target: RuleTarget::Drop,
        rules: vec![wide, narrow],
        rate_rules: vec![],
    };
    let mut idx = IndexedRules::from_rules(&rules).unwrap();
    let r = idx.is_acceptable(Device::Output, Proto::Tcp, sock(v4(10, 1, 2, 3), 80), 100, "", 0);
    assert_eq!(r, (Some(0), true));
}

#[test]
fn rules_indexing() {
    let raw_rules = vec![
        Rule {
            device: Some(Device::Input),
            proto: None,
            exe: None,
            port: None,
            subnet: (v4(1, 1, 1, 1), 32),
            target: RuleTarget::Accept,
        },
        Rule {
            device: Some(Device::Input),
            proto: Some(Proto::Tcp),
            exe: None,
            port: None,
            subnet: (v4(1, 1, 1, 1), 32),
            target: RuleTarget::Accept,
        },
        Rule {
            device: Some(Device::Input),
            proto: Some(Proto::Tcp),
            exe: None,
            port: None,
            subnet: (v4(2, 2, 2, 2), 30),
            target: RuleTarget::Accept,
        },
        Rule {
            device: Some(Device::Input),
            proto: None,
            exe: Some(String::new()),
            port: Some(RangeInclusiveOwned { start: 10, end: 200 }),
            subnet: (v4(2, 2, 2, 2), 32),
            target: RuleTarget::Accept,
        },
        Rule {
            device: Some(Device::Input),
            proto: None,
            exe: Some(String::new()),
            port: Some(RangeInclusiveOwned { start: 100, end: 100 }),
            subnet: (v4(0, 0, 0, 0), 0),
            target: RuleTarget::Accept,
        },
    ];
    let mut idx = IndexedRules::new(RuleTarget::Drop, raw_rules, vec![]);
    let r = idx.is_acceptable(Device::Input, Proto::Tcp, sock(v4(2, 2, 2, 2), 100), 0, "", 0);
    assert_eq!(r, (Some(3), true));
}

#[test]
fn match_target_equals_linear_scan() {
    let mut a = any_rule(RuleTarget::Accept);
    a.port = Some(RangeInclusiveOwned { start: 1000, end: 2000 });
    let mut b = any_rule(RuleTarget::Drop);
    b.proto = Some(Proto::Udp);
    let mut c = any_rule(RuleTarget::Accept);
    c.exe = Some(String::from("/bin/dig"));
    let rules = Rules {
        default_target: RuleTarget::Drop,
        rules: vec![a, b, c],
        rate_rules: vec![],
    };
    let idx = IndexedRules::from_rules(&rules).unwrap();
    let cases = [
        (Device::Output, Proto::Udp, sock(v4(5, 5, 5, 5), 1500), "/bin/dig", (Some(0), RuleTarget::Accept)),
        (Device::Output, Proto::Udp, sock(v4(5, 5, 5, 5), 53), "/bin/dig", (Some(1), RuleTarget::Drop)),
        (Device::Output, Proto::Tcp, sock(v4(5, 5, 5, 5), 53), "/bin/dig", (Some(2), RuleTarget::Accept)),
        (Device::Output, Proto::Tcp, sock(v4(5, 5, 5, 5), 53), "/bin/ssh", (None, RuleTarget::Drop)),
    ];
    for (device, protocol, addr, exe, expected) in cases {
        let got = idx.match_target(device, protocol, addr, exe);
        assert_eq!(got, expected);
        // the linear scan, spelled out
        let mut scan = (None, rules.default_target);
        for (i, rule) in rules.rules.iter().enumerate() {
            if let Some(t) = rule.match_target(device, protocol, addr, exe) {
                scan = (Some(i), t);
                break;
            }
        }
        assert_eq!(got, scan);
    }
}

#[test]
fn rate_limiting_three_packets() {
    let mut limited = any_rule(RuleTarget::RateLimit(0));
    limited.proto = Some(Proto::Tcp);
    let rules = Rules {
        default_target: RuleTarget::Accept,
        rules: vec![limited],
        rate_rules: vec![RateLimitRule { name: String::from("slow"), limit: 1000 }],
    };
    let mut idx = IndexedRules::from_rules(&rules).unwrap();
    let addr = sock(v4(4, 4, 4, 4), 443);
    // buckets start with their window at the epoch, so the first charge at a
    // late clock opens a fresh window
    let t0 = 1_000_000u64;
    assert_eq!(idx.is_acceptable(Device::Output, Proto::Tcp, addr, 600, "", t0), (Some(0), true));
    assert_eq!(
        idx.is_acceptable(Device::Output, Proto::Tcp, addr, 600, "", t0 + 100),
        (Some(0), false)
    );
    assert_eq!(
        idx.is_acceptable(Device::Output, Proto::Tcp, addr, 600, "", t0 + 600),
        (Some(0), true)
    );
}

#[test]
fn refresh_local_resets_buckets() {
    let mut limited = any_rule(RuleTarget::RateLimit(0));
    limited.proto = Some(Proto::Tcp);
    let rules = Rules {
        default_target: RuleTarget::Accept,
        rules: vec![limited],
        rate_rules: vec![RateLimitRule { name: String::from("slow"), limit: 1000 }],
    };
    let mut idx = IndexedRules::from_rules(&rules).unwrap();
    let addr = sock(v4(4, 4, 4, 4), 443);
    let t0 = 1_000_000u64;
    assert_eq!(idx.is_acceptable(Device::Output, Proto::Tcp, addr, 600, "", t0), (Some(0), true));
    assert_eq!(
        idx.is_acceptable(Device::Output, Proto::Tcp, addr, 600, "", t0 + 1),
        (Some(0), false)
    );
    idx.refresh_local(vec![1000]);
    assert_eq!(
        idx.is_acceptable(Device::Output, Proto::Tcp, addr, 600, "", t0 + 2),
        (Some(0), true)
    );
}

#[test]
fn from_rules_rejects_invalid() {
    let rules = Rules {
        default_target: RuleTarget::RateLimit(3),
        rules: vec![],
        rate_rules: vec![],
    };
    assert!(IndexedRules::from_rules(&rules).is_none());
}

#[test]
fn fingerprint_deterministic() {
    let a = fingerprint(Device::Input, Proto::Tcp, sock(v4(1, 2, 3, 4), 80), "/bin/sh");
    let b = fingerprint(Device::Input, Proto::Tcp, sock(v4(1, 2, 3, 4), 80), "/bin/sh");
    assert_eq!(a, b);
    let f1 = flow_fingerprint(Device::Input, Proto::Udp, sock(v4(1, 1, 1, 1), 1), sock(v4(2, 2, 2, 2), 2));
    let f2 = flow_fingerprint(Device::Input, Proto::Udp, sock(v4(1, 1, 1, 1), 1), sock(v4(2, 2, 2, 2), 2));
    assert_eq!(f1, f2);
}

#[test]
fn classify_v4_tcp() {
    let mut pkt = vec![0u8; 40];
    pkt[0] = 0x45;
    pkt[9] = 6;
    pkt[12..16].copy_from_slice(&[10, 0, 0, 1]);
    pkt[16..20].copy_from_slice(&[10, 0, 0, 2]);
    pkt[20..22].copy_from_slice(&4242u16.to_be_bytes());
    pkt[22..24].copy_from_slice(&443u16.to_be_bytes());
    let meta = classify_packet(&pkt, 0, 3).unwrap();
    assert_eq!(
        meta,
        PacketMeta {
            device: Device::Output,
            protocol: Proto::Tcp,
            src: sock(v4(10, 0, 0, 1), 4242),
            dst: sock(v4(10, 0, 0, 2), 443),
            len: 40,
        }
    );
}

#[test]
fn classify_v6_udp() {
    let mut pkt = vec![0u8; 48];
    pkt[0] = 0x60;
    pkt[6] = 17;
    pkt[8] = 0xfe;
    pkt[23] = 0x01;
    pkt[24] = 0xfe;
    pkt[39] = 0x02;
    pkt[40..42].copy_from_slice(&5353u16.to_be_bytes());
    pkt[42..44].copy_from_slice(&5353u16.to_be_bytes());
    let meta = classify_packet(&pkt, 7, 0).unwrap();
    assert_eq!(meta.device, Device::Input);
    assert_eq!(meta.protocol, Proto::Udp);
    assert_eq!(meta.src.port, 5353);
    assert_eq!(meta.src.ip, IpAddress::V6(0xfe00_0000_0000_0000_0000_0000_0000_0001));
    assert_eq!(meta.dst.ip, IpAddress::V6(0xfe00_0000_0000_0000_0000_0000_0000_0002));
}

#[test]
fn classify_rejects_malformed() {
    assert!(classify_packet(&[], 1, 0).is_none());
    assert!(classify_packet(&[0x45], 0, 0).is_none());
    let mut short = vec![0u8; 10];
    short[0] = 0x45;
    assert!(classify_packet(&short, 1, 0).is_none());
    let mut other_proto = vec![0u8; 40];
    other_proto[0] = 0x45;
    other_proto[9] = 1;
    assert!(classify_packet(&other_proto, 1, 0).is_none());
    let mut truncated_tcp = vec![0u8; 30];
    truncated_tcp[0] = 0x45;
    truncated_tcp[9] = 6;
    assert!(classify_packet(&truncated_tcp, 1, 0).is_none());
}

#[test]
fn possible_sockets_tcp_and_udp() {
    let src = sock(v4(9, 9, 9, 9), 1111);
    let dst = sock(v4(192, 168, 1, 5), 5353);
    let tcp_in = possible_sockets(Device::Input, Proto::Tcp, src, dst);
    assert_eq!(tcp_in, vec![(dst, src)]);
    let tcp_out = possible_sockets(Device::Output, Proto::Tcp, src, dst);
    assert_eq!(tcp_out, vec![(src, dst)]);
    let unspec = sock(v4(0, 0, 0, 0), 0);
    let udp_in = possible_sockets(Device::Input, Proto::Udp, src, dst);
    assert_eq!(
        udp_in,
        vec![(dst, src), (dst, unspec), (sock(v4(0, 0, 0, 0), 5353), unspec)]
    );
}

#[test]
fn udp_listener_attribution() {
    // inbound UDP to a local listener bound on the wildcard address: the
    // exact-pair probe finds nothing, the wildcard-remote probe names a
    // socket inode owned by a known process
    let src = sock(v4(9, 9, 9, 9), 1111);
    let dst = sock(v4(192, 168, 1, 5), 5353);
    let probes = possible_sockets(Device::Input, Proto::Udp, src, dst);
    assert_eq!(probes.len(), 3);

    let mut procs = gleipnird::proc::ProcIndex::new();
    procs.insert_process(Process {
        pid: 4242,
        ppid: 1,
        pgrp: 4242,
        exe: String::from("/usr/bin/avahi-daemon"),
        inodes: vec![777_001],
    });

    let fake_diag = |local: SocketAddress, _remote: SocketAddress| -> Option<u32> {
        if local == dst {
            None
        } else {
            Some(777_001)
        }
    };
    let mut found = None;
    for (local, remote) in probes {
        if let Some(inode) = fake_diag(local, remote) {
            found = Some(inode);
            break;
        }
    }
    let inode = found.unwrap();
    let proc = procs.get_proc_by_inode(inode).unwrap();
    assert_eq!(proc.exe, "/usr/bin/avahi-daemon");
}

#[test]
fn flow_cache_round_trip() {
    let mut cache = FlowCache::new();
    let src = sock(v4(1, 1, 1, 1), 1);
    let dst = sock(v4(2, 2, 2, 2), 2);
    assert!(cache.lookup(Device::Input, Proto::Tcp, src, dst).is_none());
    cache.store(
        Device::Input,
        Proto::Tcp,
        src,
        dst,
        Process { pid: 7, ppid: 1, pgrp: 7, exe: String::from("/bin/x"), inodes: vec![] },
    );
    let hit = cache.lookup(Device::Input, Proto::Tcp, src, dst).unwrap();
    assert_eq!(hit.pid, 7);
    assert_eq!(hit.exe, "/bin/x");
    assert!(cache.lookup(Device::Output, Proto::Tcp, src, dst).is_none());
}

#[test]
fn dispatch_verdict_builds_report() {
    let rules = Rules {
        default_target: RuleTarget::Drop,
        rules: vec![],
        rate_rules: vec![],
    };
    let mut idx = IndexedRules::from_rules(&rules).unwrap();
    let meta = PacketMeta {
        device: Device::Output,
        protocol: Proto::Tcp,
        src: sock(v4(10, 0, 0, 1), 4242),
        dst: sock(v4(8, 8, 8, 8), 80),
        len: 60,
    };
    let (accept, report) = dispatch_verdict(&mut idx, &meta, "/usr/bin/curl", 0);
    assert!(!accept);
    assert!(report.dropped);
    assert_eq!(report.matched_rule, None);
    assert_eq!(report.addr, meta.dst);
    assert_eq!(report.exe, "/usr/bin/curl");
    assert_eq!(report.len, 60);
    let meta_in = PacketMeta { device: Device::Input, ..meta };
    let (_, report_in) = dispatch_verdict(&mut idx, &meta_in, "/usr/bin/curl", 0);
    assert_eq!(report_in.addr, meta.src);
}

use gleipnird::ablock::AbLock;
use gleipnird::addr::{mask_ip, IpAddress, SocketAddress};
use gleipnird::bucket::Bucket;
use gleipnird::rules::{
    default_rules, Device, Proto, RangeInclusiveOwned, RateLimitRule, Rule, RuleTarget, Rules,
};

fn v4(a: u8, b: u8, c: u8, d: u8) -> IpAddress {
    IpAddress::V4(u32::from_be_bytes([a, b, c, d]))
}

fn sock(ip: IpAddress, port: u16) -> SocketAddress {
    SocketAddress { ip, port }
}

#[test]
fn device_is_input() {
    assert!(Device::Input.is_input());
    assert!(!Device::Output.is_input());
}

#[test]
fn proto_numbers_and_udp() {
    assert_eq!(Proto::Tcp.number(), 6);
    assert_eq!(Proto::Udp.number(), 17);
    assert_eq!(Proto::UdpLite.number(), 136);
    assert!(!Proto::Tcp.is_udp());
    assert!(Proto::Udp.is_udp());
    assert!(Proto::UdpLite.is_udp());
}

#[test]
fn mask_v4_basics() {
    assert_eq!(mask_ip(v4(255, 255, 255, 255), 8), v4(255, 0, 0, 0));
    assert_eq!(mask_ip(v4(10, 1, 2, 3), 8), v4(10, 0, 0, 0));
    assert_eq!(mask_ip(v4(10, 1, 2, 3), 16), v4(10, 1, 0, 0));
    assert_eq!(mask_ip(v4(10, 1, 2, 3), 0), v4(0, 0, 0, 0));
    assert_eq!(mask_ip(v4(10, 1, 2, 3), 32), v4(10, 1, 2, 3));
}

#[test]
fn mask_idempotent_concrete() {
    for n in 0..=32u8 {
        let a = v4(172, 217, 4, 46);
        assert_eq!(mask_ip(mask_ip(a, n), n), mask_ip(a, n));
    }
    let a6 = IpAddress::V6(0x2001_0db8_0000_0000_0000_ff00_0042_8329u128);
    for n in [0u8, 1, 63, 64, 65, 127, 128] {
        assert_eq!(mask_ip(mask_ip(a6, n), n), mask_ip(a6, n));
    }
}

#[test]
fn mask_v6_boundaries() {
    let a6 = IpAddress::V6(u128::MAX);
    assert_eq!(mask_ip(a6, 0), IpAddress::V6(0));
    assert_eq!(mask_ip(a6, 128), a6);
    assert_eq!(mask_ip(a6, 64), IpAddress::V6(0xffff_ffff_ffff_ffff_0000_0000_0000_0000));
}

#[test]
fn rule_match_target_axes() {
    let rule = Rule {
        device: Some(Device::Output),
        proto: Some(Proto::Tcp),
        exe: Some(String::from("/usr/bin/curl")),
        port: Some(RangeInclusiveOwned { start: 80, end: 443 }),
        subnet: (v4(8, 8, 0, 0), 16),
        target: RuleTarget::Accept,
    };
    let addr = sock(v4(8, 8, 8, 8), 80);
    assert_eq!(
        rule.match_target(Device::Output, Proto::Tcp, addr, "/usr/bin/curl"),
        Some(RuleTarget::Accept)
    );
    assert_eq!(rule.match_target(Device::Input, Proto::Tcp, addr, "/usr/bin/curl"), None);
    assert_eq!(rule.match_target(Device::Output, Proto::Udp, addr, "/usr/bin/curl"), None);
    assert_eq!(rule.match_target(Device::Output, Proto::Tcp, addr, "/usr/bin/wget"), None);
    let bad_port = sock(v4(8, 8, 8, 8), 53);
    assert_eq!(rule.match_target(Device::Output, Proto::Tcp, bad_port, "/usr/bin/curl"), None);
    let bad_net = sock(v4(9, 9, 9, 9), 80);
    assert_eq!(rule.match_target(Device::Output, Proto::Tcp, bad_net, "/usr/bin/curl"), None);
    let v6_addr = sock(IpAddress::V6(1), 80);
    assert_eq!(rule.match_target(Device::Output, Proto::Tcp, v6_addr, "/usr/bin/curl"), None);
}

#[test]
fn rule_absent_fields_match_anything() {
    let rule = Rule {
        device: None,
        proto: None,
        exe: None,
        port: None,
        subnet: (v4(0, 0, 0, 0), 0),
        target: RuleTarget::Drop,
    };
    let addr = sock(v4(203, 0, 113, 9), 65535);
    assert_eq!(
        rule.match_target(Device::Input, Proto::UdpLite, addr, "anything"),
        Some(RuleTarget::Drop)
    );
}

#[test]
fn rules_validate() {
    let mut r = default_rules();
    assert!(r.validate());
    r.default_target = RuleTarget::RateLimit(0);
    assert!(!r.validate());
    r.rate_rules.push(RateLimitRule { name: String::from("slow"), limit: 1000 });
    assert!(r.validate());
    r.rules.push(Rule {
        device: None,
        proto: None,
        exe: None,
        port: None,
        subnet: (v4(0, 0, 0, 0), 0),
        target: RuleTarget::RateLimit(1),
    });
    assert!(!r.validate());
}

#[test]
fn rules_clone_equal_shape() {
    let r = Rules {
        default_target: RuleTarget::Accept,
        rules: vec![Rule {
            device: Some(Device::Input),
            proto: None,
            exe: Some(String::from("/bin/a")),
            port: Some(RangeInclusiveOwned { start: 1, end: 2 }),
            subnet: (v4(1, 2, 3, 4), 24),
            target: RuleTarget::Drop,
        }],
        rate_rules: vec![RateLimitRule { name: String::from("x"), limit: 7 }],
    };
    let c = r.clone();
    assert_eq!(c.rules.len(), 1);
    assert_eq!(c.rules[0].exe.as_deref(), Some("/bin/a"));
    assert_eq!(c.rate_rules[0].limit, 7);
}

#[test]
fn bucket_window_accumulates_and_resets() {
    let mut b = Bucket::new(1000, 0);
    assert!(b.stuff(600, 0));
    assert!(!b.stuff(600, 100));
    assert!(b.stuff(600, 600));
}

#[test]
fn bucket_strictly_below_limit() {
    let mut b = Bucket::new(1000, 0);
    assert!(!b.stuff(1000, 0));
    assert!(b.stuff(999, 0));
    assert!(!b.stuff(1, 1));
    assert_eq!(b.bytes(1), 999);
}

#[test]
fn bucket_zero_limit_rejects() {
    let mut b = Bucket::new(0, 0);
    assert!(!b.stuff(0, 0));
    assert!(!b.stuff(1, 0));
}

#[test]
fn bucket_reset_after_window() {
    let mut b = Bucket::new(100, 0);
    assert!(b.stuff(50, 0));
    assert_eq!(b.bytes(499), 50);
    assert_eq!(b.bytes(500), 0);
}

#[test]
fn ablock() {
    let mut l = AbLock::new(0);
    assert_eq!(*l.read(), 0);
    l.set(1);
    assert_eq!(*l.read(), 1);
    l.set(2);
    assert_eq!(*l.read(), 2);
}

#[test]
fn snapshot_swap_many_sets() {
    let mut l = AbLock::new(0usize);
    for i in 1..=10_000usize {
        l.set(i);
        assert_eq!(*l.read(), i);
        assert_eq!(*l.read(), i);
    }
}

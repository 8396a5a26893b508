use gleipnird::addr::IpAddress;
use gleipnird::codec::{from_json, to_json};
use gleipnird::rules::{
    Device, Proto, RangeInclusiveOwned, RateLimitRule, Rule, RuleTarget, Rules,
};

fn v4(a: u8, b: u8, c: u8, d: u8) -> IpAddress {
    IpAddress::V4(u32::from_be_bytes([a, b, c, d]))
}

fn assert_rules_eq(a: &Rules, b: &Rules) {
    assert_eq!(a.default_target, b.default_target);
    assert_eq!(a.rules.len(), b.rules.len());
    for (x, y) in a.rules.iter().zip(b.rules.iter()) {
        assert_eq!(x.device, y.device);
        assert_eq!(x.proto, y.proto);
        assert_eq!(x.exe, y.exe);
        assert_eq!(x.port, y.port);
        assert_eq!(x.subnet, y.subnet);
        assert_eq!(x.target, y.target);
    }
    assert_eq!(a.rate_rules.len(), b.rate_rules.len());
    for (x, y) in a.rate_rules.iter().zip(b.rate_rules.iter()) {
        assert_eq!(x.name, y.name);
        assert_eq!(x.limit, y.limit);
    }
}

#[test]
fn json_empty_rules_exact_text() {
    let r = Rules {
        default_target: RuleTarget::Accept,
        rules: vec![],
        rate_rules: vec![],
    };
    let text = to_json(&r);
    assert_eq!(
        String::from_utf8(text).unwrap(),
        "{\"default_target\":\"Accept\",\"rules\":[],\"rate_rules\":[]}"
    );
}

#[test]
fn json_round_trip_full() {
    let r = Rules {
        default_target: RuleTarget::Drop,
        rules: vec![
            Rule {
                device: Some(Device::Output),
                proto: Some(Proto::Tcp),
                exe: Some(String::from("/usr/bin/curl")),
                port: Some(RangeInclusiveOwned { start: 80, end: 443 }),
                subnet: (v4(10, 0, 0, 0), 8),
                target: RuleTarget::Accept,
            },
            Rule {
                device: None,
                proto: Some(Proto::UdpLite),
                exe: None,
                port: None,
                subnet: (IpAddress::V6(0x2001_0db8_0000_0000_0000_0000_0000_0001), 64),
                target: RuleTarget::RateLimit(0),
            },
        ],
        rate_rules: vec![RateLimitRule { name: String::from("slow"), limit: 1000 }],
    };
    let text = to_json(&r);
    let back = from_json(&text).unwrap();
    assert_rules_eq(&r, &back);
}

#[test]
fn json_round_trip_escapes() {
    let r = Rules {
        default_target: RuleTarget::Accept,
        rules: vec![Rule {
            device: None,
            proto: None,
            exe: Some(String::from("/odd path/\"quoted\"\\back\nnewline\ttab")),
            port: None,
            subnet: (v4(0, 0, 0, 0), 0),
            target: RuleTarget::Drop,
        }],
        rate_rules: vec![RateLimitRule { name: String::from("na\u{e9}me\u{1F512}"), limit: 7 }],
    };
    let text = to_json(&r);
    let back = from_json(&text).unwrap();
    assert_rules_eq(&r, &back);
}

#[test]
fn json_round_trip_extremes() {
    let r = Rules {
        default_target: RuleTarget::RateLimit(0),
        rules: vec![Rule {
            device: Some(Device::Input),
            proto: Some(Proto::Udp),
            exe: Some(String::new()),
            port: Some(RangeInclusiveOwned { start: 0, end: 65535 }),
            subnet: (IpAddress::V6(u128::MAX), 128),
            target: RuleTarget::RateLimit(usize::MAX),
        }],
        rate_rules: vec![RateLimitRule { name: String::new(), limit: usize::MAX }],
    };
    let text = to_json(&r);
    let back = from_json(&text).unwrap();
    assert_rules_eq(&r, &back);
}

#[test]
fn json_rejects_garbage() {
    assert!(from_json(b"").is_none());
    assert!(from_json(b"{}").is_none());
    assert!(from_json(b"not json").is_none());
    assert!(from_json(b"{\"default_target\":\"Accept\",\"rules\":[],\"rate_rules\":[]} ").is_some());
    assert!(from_json(b"{\"default_target\":\"Accept\",\"rules\":[],\"rate_rules\":[]}x").is_none());
    assert!(from_json(b"{\"default_target\":\"Maybe\",\"rules\":[],\"rate_rules\":[]}").is_none());
}

#[test]
fn json_tolerates_whitespace_between_tokens() {
    let text = "{\n  \"default_target\": \"Drop\",\n  \"rules\": [\n    {\n      \"device\": \"Output\",\n      \"proto\": \"Tcp\",\n      \"exe\": \"/usr/bin/curl with space\",\n      \"port\": { \"start\": 80, \"end\": 443 },\n      \"subnet\": [ { \"V4\": 167772160 }, 8 ],\n      \"target\": { \"RateLimit\": 0 }\n    }\n  ],\n  \"rate_rules\": [ { \"name\": \"slow lane\", \"limit\": 1000 } ]\n}\n";
    let r = from_json(text.as_bytes()).unwrap();
    assert_eq!(r.default_target, RuleTarget::Drop);
    assert_eq!(r.rules.len(), 1);
    let rule = &r.rules[0];
    assert_eq!(rule.device, Some(Device::Output));
    assert_eq!(rule.proto, Some(Proto::Tcp));
    // blanks inside strings are content, not separators
    assert_eq!(rule.exe.as_deref(), Some("/usr/bin/curl with space"));
    assert_eq!(rule.port, Some(RangeInclusiveOwned { start: 80, end: 443 }));
    assert_eq!(rule.subnet, (IpAddress::V4(167772160), 8));
    assert_eq!(rule.target, RuleTarget::RateLimit(0));
    assert_eq!(r.rate_rules[0].name, "slow lane");
    assert_eq!(r.rate_rules[0].limit, 1000);

    // and the reprint round-trips through the parser again
    let back = from_json(&to_json(&r)).unwrap();
    assert_rules_eq(&r, &back);
}

#[test]
fn json_whitespace_only_where_insignificant() {
    assert!(from_json(b" { \"default_target\" : \"Accept\" , \"rules\" : [ ] , \"rate_rules\" : [ ] } ").is_some());
    // a blank inside a keyword still fails
    assert!(from_json(b"{\"default_target\":\"Acc ept\",\"rules\":[],\"rate_rules\":[]}").is_none());
}

//! The rule model: devices, protocols, targets, rules and rule sets.
//!
//! A packet is classified by `(device, protocol, address, executable)`.  A
//! rule constrains any subset of those axes plus a port range and an IP
//! subnet; a rule with no constraint on an axis matches every value there.

use vstd::prelude::*;

use crate::addr::{spec_mask_ip, mask_ip, IpAddress, SocketAddress};
use vstd::string::StringSliceAdditionalSpecFns;

verus! {

/// The direction a packet travels: into or out of the host.
#[derive(Clone, Copy, PartialEq, Eq, Structural, Hash, Debug)]
pub enum Device {
    Input,
    Output,
}

impl Device {
    pub open spec fn spec_is_input(&self) -> bool {
        *self is Input
    }

    #[verifier::when_used_as_spec(spec_is_input)]
    pub fn is_input(&self) -> (r: bool)
        ensures
            r == self.spec_is_input(),
    {
        match self {
            Device::Input => true,
            Device::Output => false,
        }
    }
}

/// The transport protocols the daemon classifies.
#[derive(Clone, Copy, PartialEq, Eq, Structural, Hash, Debug)]
pub enum Proto {
    Tcp,
    Udp,
    UdpLite,
}

impl Proto {
    pub open spec fn spec_is_udp(&self) -> bool {
        *self is Udp || *self is UdpLite
    }

    /// Whether the protocol is datagram-style (UDP or UDP-Lite).
    #[verifier::when_used_as_spec(spec_is_udp)]
    pub fn is_udp(&self) -> (r: bool)
        ensures
            r == self.spec_is_udp(),
    {
        match self {
            Proto::Tcp => false,
            Proto::Udp => true,
            Proto::UdpLite => true,
        }
    }

    /// The IANA protocol number carried in IP headers.
    pub open spec fn spec_number(&self) -> u8 {
        match *self {
            Proto::Tcp => 6,
            Proto::Udp => 17,
            Proto::UdpLite => 136,
        }
    }

    #[verifier::when_used_as_spec(spec_number)]
    pub fn number(&self) -> (r: u8)
        ensures
            r == self.spec_number(),
    {
        match self {
            Proto::Tcp => 6,
            Proto::Udp => 17,
            Proto::UdpLite => 136,
        }
    }
}

/// What a matched rule does with the packet.
#[derive(Clone, Copy, PartialEq, Eq, Structural, Hash, Debug)]
pub enum RuleTarget {
    Accept,
    Drop,
    /// Charge the packet to the rate rule at this index.
    RateLimit(usize),
}

/// A named byte budget per 500 ms window.
#[derive(Debug)]
pub struct RateLimitRule {
    pub name: String,
    pub limit: usize,
}

impl Clone for RateLimitRule {
    fn clone(&self) -> (res: Self)
        ensures
            res.name@ == self.name@,
            res.limit == self.limit,
    {
        RateLimitRule { name: self.name.clone(), limit: self.limit }
    }
}

impl RateLimitRule {
    pub open spec fn view_name(&self) -> Seq<char> {
        self.name@
    }
}

/// An inclusive range, by its two endpoints.
#[derive(Clone, Copy, PartialEq, Eq, Structural, Hash, Debug)]
pub struct RangeInclusiveOwned<Idx> {
    pub start: Idx,
    pub end: Idx,
}

/// An inclusive range borrowing its two endpoints.
#[derive(Clone, Copy, Debug)]
pub struct RangeInclusiveRef<'a, Idx> {
    pub start: &'a Idx,
    pub end: &'a Idx,
}

impl RangeInclusiveOwned<u16> {
    pub open spec fn spec_contains(&self, p: u16) -> bool {
        self.start <= p <= self.end
    }

    #[verifier::when_used_as_spec(spec_contains)]
    pub fn contains(&self, p: u16) -> (r: bool)
        ensures
            r == self.spec_contains(p),
    {
        self.start <= p && p <= self.end
    }
}

/// One classification rule.  An absent field matches anything on its axis.
#[derive(Debug)]
pub struct Rule {
    pub device: Option<Device>,
    pub proto: Option<Proto>,
    pub exe: Option<String>,
    pub port: Option<RangeInclusiveOwned<u16>>,
    /// The subnet as `(address, mask_bits)`; the packet address must agree on
    /// the high `mask_bits` bits and on the family.
    pub subnet: (IpAddress, u8),
    pub target: RuleTarget,
}

/// The abstract value of a `Rule`: the same fields with strings as character
/// sequences.
pub struct RuleV {
    pub device: Option<Device>,
    pub proto: Option<Proto>,
    pub exe: Option<Seq<char>>,
    pub port: Option<RangeInclusiveOwned<u16>>,
    pub subnet: (IpAddress, u8),
    pub target: RuleTarget,
}

impl Clone for Rule {
    fn clone(&self) -> (res: Self)
        ensures
            res@ == self@,
    {
        let res = Rule {
            device: self.device,
            proto: self.proto,
            exe: match self.exe {
                Option::Some(ref s) => Option::Some(s.clone()),
                Option::None => Option::None,
            },
            port: self.port,
            subnet: self.subnet,
            target: self.target,
        };
        res
    }
}

impl View for Rule {
    type V = RuleV;

    open spec fn view(&self) -> RuleV {
        RuleV {
            device: self.device,
            proto: self.proto,
            exe: match self.exe {
                Option::Some(ref s) => Option::Some(s@),
                Option::None => Option::None,
            },
            port: self.port,
            subnet: self.subnet,
            target: self.target,
        }
    }
}

/// Whether the rule matches the packet: every present predicate equals the
/// packet's field, the address family agrees, and the packet address masked
/// to the rule's prefix length equals the rule's subnet address.
pub open spec fn spec_rule_matches(
    r: RuleV,
    device: Device,
    protocol: Proto,
    addr: SocketAddress,
    exe: Seq<char>,
) -> bool {
    &&& (r.device is None || r.device == Some(device))
    &&& (r.proto is None || r.proto == Some(protocol))
    &&& (r.exe is None || r.exe == Some(exe))
    &&& (r.port is None || r.port.unwrap().spec_contains(addr.port))
    &&& addr.ip.spec_is_ipv4() == r.subnet.0.spec_is_ipv4()
    &&& spec_mask_ip(addr.ip, r.subnet.1) == r.subnet.0
}

/// The rule's answer for a packet: its target when it matches, absent when not.
pub open spec fn spec_rule_match_target(
    r: RuleV,
    device: Device,
    protocol: Proto,
    addr: SocketAddress,
    exe: Seq<char>,
) -> Option<RuleTarget> {
    if spec_rule_matches(r, device, protocol, addr, exe) {
        Some(r.target)
    } else {
        None
    }
}

/// Compares two strings by value.
pub fn str_eq(a: &str, b: &str) -> (r: bool)
    ensures
        r == (a@ == b@),
{
    let ab = a.as_bytes();
    let bb = b.as_bytes();
    proof {
        vstd::utf8::encode_utf8_decode_utf8(a@);
        vstd::utf8::encode_utf8_decode_utf8(b@);
    }
    if ab.len() != bb.len() {
        assert(a@ != b@) by {
            if a@ == b@ {
                assert(ab@ == bb@);
            }
        }
        return false;
    }
    let n = ab.len();
    let mut i: usize = 0;
    while i < n
        invariant
            n == ab@.len() == bb@.len(),
            i <= n,
            ab@ == a.spec_bytes(),
            bb@ == b.spec_bytes(),
            vstd::utf8::decode_utf8(a.spec_bytes()) == a@,
            vstd::utf8::decode_utf8(b.spec_bytes()) == b@,
            forall|j: int| 0 <= j < i ==> ab@[j] == bb@[j],
        decreases n - i,
    {
        if ab[i] != bb[i] {
            assert(a@ != b@) by {
                if a@ == b@ {
                    assert(ab@ == bb@);
                }
            }
            return false;
        }
        i = i + 1;
    }
    proof {
        assert(ab@ =~= bb@);
        assert(vstd::utf8::decode_utf8(ab@) == vstd::utf8::decode_utf8(bb@));
    }
    true
}

impl Rule {
    /// The rule's target when every present predicate matches the packet,
    /// absent otherwise.
    pub fn match_target(
        &self,
        device: Device,
        protocol: Proto,
        addr: SocketAddress,
        exe: &str,
    ) -> (r: Option<RuleTarget>)
        ensures
            r == spec_rule_match_target(self@, device, protocol, addr, exe@),
    {
        let device_ok = match self.device {
            Option::None => true,
            Option::Some(d) => d == device,
        };
        let proto_ok = match self.proto {
            Option::None => true,
            Option::Some(p) => p == protocol,
        };
        let exe_ok = match self.exe {
            Option::None => true,
            Option::Some(ref s) => str_eq(s.as_str(), exe),
        };
        let port_ok = match self.port {
            Option::None => true,
            Option::Some(range) => range.contains(addr.port),
        };
        let family_ok = addr.ip.is_ipv4() == self.subnet.0.is_ipv4();
        let subnet_ok = family_ok && mask_ip(addr.ip, self.subnet.1) == self.subnet.0;
        if device_ok && proto_ok && exe_ok && port_ok && subnet_ok {
            Some(self.target)
        } else {
            None
        }
    }
}

/// The abstract value of a rule set.
pub struct RulesV {
    pub default_target: RuleTarget,
    pub rules: Seq<RuleV>,
    pub rate_rules: Seq<(Seq<char>, usize)>,
}

/// The control payload: a default target, an ordered rule list, and the rate
/// rules the `RateLimit` targets refer to.
#[derive(Debug)]
pub struct Rules {
    pub default_target: RuleTarget,
    pub rules: Vec<Rule>,
    pub rate_rules: Vec<RateLimitRule>,
}

impl Clone for Rules {
    fn clone(&self) -> (res: Self)
        ensures
            res@ == self@,
    {
        let mut rules: Vec<Rule> = Vec::new();
        let mut i: usize = 0;
        while i < self.rules.len()
            invariant
                i <= self.rules@.len(),
                rules@.len() == i,
                forall|j: int| 0 <= j < i ==> rules@[j]@ == self.rules@[j]@,
            decreases self.rules@.len() - i,
        {
            rules.push(self.rules[i].clone());
            i = i + 1;
        }
        let mut rate_rules: Vec<RateLimitRule> = Vec::new();
        let mut k: usize = 0;
        while k < self.rate_rules.len()
            invariant
                k <= self.rate_rules@.len(),
                rate_rules@.len() == k,
                forall|j: int|
                    0 <= j < k ==> rate_rules@[j].name@ == self.rate_rules@[j].name@
                        && rate_rules@[j].limit == self.rate_rules@[j].limit,
            decreases self.rate_rules@.len() - k,
        {
            rate_rules.push(self.rate_rules[k].clone());
            k = k + 1;
        }
        let res = Rules { default_target: self.default_target, rules, rate_rules };
        proof {
            assert(res@.rules =~= self@.rules);
            assert(res@.rate_rules =~= self@.rate_rules);
        }
        res
    }
}

impl View for Rules {
    type V = RulesV;

    open spec fn view(&self) -> RulesV {
        RulesV {
            default_target: self.default_target,
            rules: Seq::new(self.rules@.len(), |i: int| self.rules@[i]@),
            rate_rules: Seq::new(
                self.rate_rules@.len(),
                |i: int| (self.rate_rules@[i].name@, self.rate_rules@[i].limit),
            ),
        }
    }
}

/// Whether a target is structurally valid against `n_rate` rate rules.
pub open spec fn spec_target_valid(t: RuleTarget, n_rate: int) -> bool {
    match t {
        RuleTarget::RateLimit(k) => k < n_rate,
        _ => true,
    }
}

/// Whether a rule is structurally valid: its port range is ordered, its mask
/// length fits the family, and its target refers to an existing rate rule.
pub open spec fn spec_rule_valid(r: RuleV, n_rate: int) -> bool {
    &&& (r.port is Some ==> r.port.unwrap().start <= r.port.unwrap().end)
    &&& r.subnet.1 <= r.subnet.0.spec_width()
    &&& spec_target_valid(r.target, n_rate)
}

/// Whether a rule set satisfies the structural invariants of the model.
pub open spec fn spec_rules_valid(r: RulesV) -> bool {
    &&& spec_target_valid(r.default_target, r.rate_rules.len() as int)
    &&& forall|i: int|
        0 <= i < r.rules.len() ==> spec_rule_valid(#[trigger] r.rules[i], r.rate_rules.len() as int)
}

impl Rules {
    /// Checks the structural invariants: every `RateLimit` index refers to an
    /// existing rate rule, every port range is ordered, and every mask length
    /// fits its address family.
    pub fn validate(&self) -> (r: bool)
        ensures
            r == spec_rules_valid(self@),
    {
        let n_rate = self.rate_rules.len();
        let default_ok = match self.default_target {
            RuleTarget::RateLimit(k) => k < n_rate,
            _ => true,
        };
        if !default_ok {
            return false;
        }
        let n = self.rules.len();
        let mut i: usize = 0;
        while i < n
            invariant
                n == self.rules@.len(),
                n_rate == self.rate_rules@.len(),
                i <= n,
                spec_target_valid(self@.default_target, n_rate as int),
                forall|j: int| 0 <= j < i ==> spec_rule_valid(#[trigger] self@.rules[j], n_rate as int),
            decreases n - i,
        {
            let rule = &self.rules[i];
            let port_ok = match rule.port {
                Option::None => true,
                Option::Some(range) => range.start <= range.end,
            };
            let mask_ok = rule.subnet.1 <= rule.subnet.0.width();
            let target_ok = match rule.target {
                RuleTarget::RateLimit(k) => k < n_rate,
                _ => true,
            };
            if !(port_ok && mask_ok && target_ok) {
                assert(!spec_rule_valid(self@.rules[i as int], n_rate as int));
                return false;
            }
            assert(spec_rule_valid(self@.rules[i as int], n_rate as int));
            i = i + 1;
        }
        true
    }
}

/// The rule set used when no configuration exists: accept everything.
pub fn default_rules() -> (r: Rules)
    ensures
        r@.default_target == RuleTarget::Accept,
        r@.rules.len() == 0,
        r@.rate_rules.len() == 0,
        spec_rules_valid(r@),
{
    Rules { default_target: RuleTarget::Accept, rules: Vec::new(), rate_rules: Vec::new() }
}

/// A packet log record: what was classified and what became of it.
#[derive(Debug)]
pub struct PackageReport {
    pub device: Device,
    pub protocol: Proto,
    pub addr: SocketAddress,
    pub len: usize,
    pub exe: String,
    pub dropped: bool,
    /// The matched rule's index; absent when only the default target fired.
    pub matched_rule: Option<usize>,
}

impl Clone for PackageReport {
    fn clone(&self) -> (res: Self)
        ensures
            res.device == self.device,
            res.protocol == self.protocol,
            res.addr == self.addr,
            res.len == self.len,
            res.exe@ == self.exe@,
            res.dropped == self.dropped,
            res.matched_rule == self.matched_rule,
    {
        PackageReport {
            device: self.device,
            protocol: self.protocol,
            addr: self.addr,
            len: self.len,
            exe: self.exe.clone(),
            dropped: self.dropped,
            matched_rule: self.matched_rule,
        }
    }
}

} // verus!

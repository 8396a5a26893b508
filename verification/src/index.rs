//! The indexed matcher: per-axis indexes over a rule list, a match-result
//! cache, and the per-rate-rule token buckets.
//!
//! The index partitions rule indices along five axes (device, protocol,
//! executable, port, IP subnet).  A match picks the most selective axis for
//! the packet, unions that axis's exact bucket with its any-list, verifies
//! each candidate against the rule itself, and takes the lowest-numbered
//! match: exactly what a linear scan of the rule list returns, which is what
//! `match_target` ensures.

use vstd::prelude::*;
use vstd::seq_lib::*;

use crate::addr::{spec_mask_v4, spec_mask_v6, Address, IpAddress, SocketAddress};
use crate::bucket::{spec_bucket_wf, spec_charge, spec_charge_ok, Bucket};
use crate::cache::{
    verdict_cache_bounded, verdict_cache_get, verdict_cache_insert, verdict_cache_new,
    verdict_cache_view, verdict_cache_capacity, VerdictLru,
};
use crate::fingerprint::{fingerprint, spec_fingerprint};
use crate::rules::{
    spec_rule_matches, spec_target_valid, str_eq, Device, Proto, Rule, RuleTarget, RuleV, Rules,
};

verus! {

/// The capacity of the match-result cache.
pub const MATCH_CACHE_CAPACITY: usize = 2048;

/// The abstract value of a rule list.
pub open spec fn spec_rules_view(rules: Seq<Rule>) -> Seq<RuleV> {
    Seq::new(rules.len(), |i: int| rules[i]@)
}

/// The linear scan from rule `i` on: the first matching rule wins; when none
/// matches, the default target stands with no rule index.
pub open spec fn spec_scan(
    rules: Seq<RuleV>,
    default_target: RuleTarget,
    i: int,
    device: Device,
    protocol: Proto,
    addr: SocketAddress,
    exe: Seq<char>,
) -> (Option<usize>, RuleTarget)
    decreases rules.len() - i,
{
    if i < 0 || i >= rules.len() {
        (None::<usize>, default_target)
    } else if spec_rule_matches(rules[i], device, protocol, addr, exe) {
        (Some(i as usize), rules[i].target)
    } else {
        spec_scan(rules, default_target, i + 1, device, protocol, addr, exe)
    }
}

/// What a packet's classification returns: the linear scan from the top.
pub open spec fn spec_match_result(
    rules: Seq<RuleV>,
    default_target: RuleTarget,
    device: Device,
    protocol: Proto,
    addr: SocketAddress,
    exe: Seq<char>,
) -> (Option<usize>, RuleTarget) {
    spec_scan(rules, default_target, 0, device, protocol, addr, exe)
}

/// When `m` is the first matching rule at or after `i`, the scan from `i`
/// returns it.
proof fn lemma_scan_finds_min(
    rules: Seq<RuleV>,
    default_target: RuleTarget,
    i: int,
    device: Device,
    protocol: Proto,
    addr: SocketAddress,
    exe: Seq<char>,
    m: int,
)
    requires
        0 <= i <= m < rules.len(),
        spec_rule_matches(rules[m], device, protocol, addr, exe),
        forall|j: int|
            i <= j < m ==> !spec_rule_matches(#[trigger] rules[j], device, protocol, addr, exe),
    ensures
        spec_scan(rules, default_target, i, device, protocol, addr, exe) == (
            Some(m as usize),
            rules[m].target,
        ),
    decreases m - i,
{
    if i < m {
        lemma_scan_finds_min(rules, default_target, i + 1, device, protocol, addr, exe, m);
    }
}

/// When no rule at or after `i` matches, the scan falls through to the
/// default target.
proof fn lemma_scan_finds_none(
    rules: Seq<RuleV>,
    default_target: RuleTarget,
    i: int,
    device: Device,
    protocol: Proto,
    addr: SocketAddress,
    exe: Seq<char>,
)
    requires
        0 <= i,
        forall|j: int|
            i <= j < rules.len() ==> !spec_rule_matches(
                #[trigger] rules[j],
                device,
                protocol,
                addr,
                exe,
            ),
    ensures
        spec_scan(rules, default_target, i, device, protocol, addr, exe) == (
            None::<usize>,
            default_target,
        ),
    decreases rules.len() - i,
{
    if i < rules.len() {
        lemma_scan_finds_none(rules, default_target, i + 1, device, protocol, addr, exe);
    }
}

/// An executable-axis posting: this rule index under this exact path.
struct ExeEntry {
    key: String,
    id: usize,
}

/// A port-axis posting: this rule index under this exact port value.
struct PortEntry {
    port: u16,
    id: usize,
}

/// A v4 subnet posting: this rule index under this masked prefix.
struct Net4Entry {
    prefix: u32,
    masklen: u8,
    id: usize,
}

/// A v6 subnet posting: this rule index under this masked prefix.
struct Net6Entry {
    prefix: u128,
    masklen: u8,
    id: usize,
}

/// Whether the port index holds a posting of rule `id` under port `p`.
spec fn spec_port_has(entries: Seq<PortEntry>, p: u16, id: int) -> bool {
    exists|e: int|
        0 <= e < entries.len() && (#[trigger] entries[e]).port == p && entries[e].id == id
}

/// Whether the executable index holds a posting of rule `id` under `key`.
spec fn spec_exe_has(entries: Seq<ExeEntry>, key: Seq<char>, id: int) -> bool {
    exists|e: int|
        0 <= e < entries.len() && (#[trigger] entries[e]).key@ == key && entries[e].id == id
}

/// Whether the v4 table holds a posting of rule `id` under the prefix.
spec fn spec_v4_has(entries: Seq<Net4Entry>, prefix: u32, masklen: u8, id: int) -> bool {
    exists|e: int|
        0 <= e < entries.len() && (#[trigger] entries[e]).prefix == prefix && entries[e].masklen
            == masklen && entries[e].id == id
}

/// Whether the v6 table holds a posting of rule `id` under the prefix.
spec fn spec_v6_has(entries: Seq<Net6Entry>, prefix: u128, masklen: u8, id: int) -> bool {
    exists|e: int|
        0 <= e < entries.len() && (#[trigger] entries[e]).prefix == prefix && entries[e].masklen
            == masklen && entries[e].id == id
}

/// Every element of the sequence is a rule index below `n`.
pub open spec fn spec_all_below(s: Seq<usize>, n: int) -> bool {
    forall|k: int| 0 <= k < s.len() ==> (#[trigger] s[k]) < n
}

/// The encoded form of a match result, as the cache stores it: the rule
/// index shifted by one (zero meaning none), a target tag, and the rate rule
/// index.
pub open spec fn spec_encode_verdict(pair: (Option<usize>, RuleTarget)) -> (u64, u64, u64) {
    (
        match pair.0 {
            Some(i) => (i + 1) as u64,
            None => 0u64,
        },
        match pair.1 {
            RuleTarget::Accept => 0u64,
            RuleTarget::Drop => 1u64,
            RuleTarget::RateLimit(_) => 2u64,
        },
        match pair.1 {
            RuleTarget::RateLimit(k) => k as u64,
            _ => 0u64,
        },
    )
}

/// The match result read back from its encoded form, when it is one.
pub open spec fn spec_decode_verdict(v: (u64, u64, u64)) -> Option<(Option<usize>, RuleTarget)> {
    if v.0 > usize::MAX as u64 || (v.0 > 0 && v.0 - 1 > usize::MAX as u64) || v.2 > usize::MAX
        as u64 {
        None
    } else {
        let id = if v.0 == 0 {
            None::<usize>
        } else {
            Some((v.0 - 1) as usize)
        };
        if v.1 == 0 {
            Some((id, RuleTarget::Accept))
        } else if v.1 == 1 {
            Some((id, RuleTarget::Drop))
        } else if v.1 == 2 {
            Some((id, RuleTarget::RateLimit(v.2 as usize)))
        } else {
            None
        }
    }
}

/// Encoding a match result and reading it back gives the result.
pub proof fn lemma_verdict_round_trip(pair: (Option<usize>, RuleTarget))
    requires
        pair.0 matches Some(i) ==> i < usize::MAX,
    ensures
        spec_decode_verdict(spec_encode_verdict(pair)) == Some(pair),
{
}

/// Reads a cached triple back into a match result.
fn decode_verdict(v: (u64, u64, u64)) -> (r: Option<(Option<usize>, RuleTarget)>)
    ensures
        r == spec_decode_verdict(v),
{
    if v.0 > usize::MAX as u64 || v.2 > usize::MAX as u64 {
        return None;
    }
    let id = if v.0 == 0 {
        None
    } else {
        Some((v.0 - 1) as usize)
    };
    if v.1 == 0 {
        Some((id, RuleTarget::Accept))
    } else if v.1 == 1 {
        Some((id, RuleTarget::Drop))
    } else if v.1 == 2 {
        Some((id, RuleTarget::RateLimit(v.2 as usize)))
    } else {
        None
    }
}

/// Encodes a match result for the cache.
fn encode_verdict(rule_id: Option<usize>, target: RuleTarget) -> (r: (u64, u64, u64))
    requires
        rule_id matches Some(i) ==> i < usize::MAX,
    ensures
        r == spec_encode_verdict((rule_id, target)),
{
    (
        match rule_id {
            Some(i) => i as u64 + 1,
            None => 0u64,
        },
        match target {
            RuleTarget::Accept => 0u64,
            RuleTarget::Drop => 1u64,
            RuleTarget::RateLimit(_) => 2u64,
        },
        match target {
            RuleTarget::RateLimit(k) => k as u64,
            _ => 0u64,
        },
    )
}

/// The rate verdict and bucket change a target causes for a packet of `len`
/// bytes at `now_ms`: plain accept or drop leave the buckets alone; a rate
/// limit target charges its bucket.
pub open spec fn spec_apply_target(
    rate: Seq<Bucket>,
    target: RuleTarget,
    len: usize,
    now_ms: u64,
) -> (bool, Seq<Bucket>) {
    match target {
        RuleTarget::Accept => (true, rate),
        RuleTarget::Drop => (false, rate),
        RuleTarget::RateLimit(k) => (
            spec_charge_ok(rate[k as int], len, now_ms),
            rate.update(k as int, spec_charge(rate[k as int], len, now_ms)),
        ),
    }
}

/// The indexed form of a rule list, with its result cache and rate buckets.
pub struct IndexedRules {
    device_input: Vec<usize>,
    device_output: Vec<usize>,
    any_device: Vec<usize>,
    proto_tcp: Vec<usize>,
    proto_udp: Vec<usize>,
    proto_udplite: Vec<usize>,
    any_proto: Vec<usize>,
    exe: Vec<ExeEntry>,
    any_exe: Vec<usize>,
    port: Vec<PortEntry>,
    any_port: Vec<usize>,
    v4_table: Vec<Net4Entry>,
    any_v4: Vec<usize>,
    v6_table: Vec<Net6Entry>,
    any_v6: Vec<usize>,
    raw: Vec<Rule>,
    default_target: RuleTarget,
    rate_state: Vec<Bucket>,
    cache: VerdictLru,
}

impl IndexedRules {
    /// The rule list the index was built from.
    pub closed spec fn spec_rules(&self) -> Seq<RuleV> {
        spec_rules_view(self.raw@)
    }

    /// The default target.
    pub closed spec fn spec_default(&self) -> RuleTarget {
        self.default_target
    }

    /// The rate buckets, one per rate rule.
    pub closed spec fn spec_rate(&self) -> Seq<Bucket> {
        self.rate_state@
    }

    /// The match-result cache entries.
    pub closed spec fn spec_cache(&self) -> Map<u64, (u64, u64, u64)> {
        verdict_cache_view(&self.cache)
    }

    /// The capacity of the match-result cache.
    pub closed spec fn spec_cache_capacity(&self) -> usize {
        verdict_cache_capacity(&self.cache)
    }

    /// Device-axis soundness of storage: every rule stands in the bucket its
    /// device predicate names.
    spec fn wf_device(&self) -> bool {
        &&& spec_all_below(self.device_input@, self.raw@.len() as int)
        &&& spec_all_below(self.device_output@, self.raw@.len() as int)
        &&& spec_all_below(self.any_device@, self.raw@.len() as int)
        &&& forall|r: int|
            0 <= r < self.raw@.len() ==> match (#[trigger] self.raw@[r])@.device {
                Option::None => self.any_device@.contains(r as usize),
                Option::Some(Device::Input) => self.device_input@.contains(r as usize),
                Option::Some(Device::Output) => self.device_output@.contains(r as usize),
            }
    }

    /// Protocol-axis completeness.
    spec fn wf_proto(&self) -> bool {
        &&& spec_all_below(self.proto_tcp@, self.raw@.len() as int)
        &&& spec_all_below(self.proto_udp@, self.raw@.len() as int)
        &&& spec_all_below(self.proto_udplite@, self.raw@.len() as int)
        &&& spec_all_below(self.any_proto@, self.raw@.len() as int)
        &&& forall|r: int|
            0 <= r < self.raw@.len() ==> match (#[trigger] self.raw@[r])@.proto {
                Option::None => self.any_proto@.contains(r as usize),
                Option::Some(Proto::Tcp) => self.proto_tcp@.contains(r as usize),
                Option::Some(Proto::Udp) => self.proto_udp@.contains(r as usize),
                Option::Some(Proto::UdpLite) => self.proto_udplite@.contains(r as usize),
            }
    }

    /// Executable-axis completeness: a rule with an exact path has a posting
    /// under that path.
    spec fn wf_exe(&self) -> bool {
        &&& spec_all_below(self.any_exe@, self.raw@.len() as int)
        &&& forall|e: int| 0 <= e < self.exe@.len() ==> (#[trigger] self.exe@[e]).id < self.raw@.len()
        &&& forall|r: int|
            0 <= r < self.raw@.len() ==> match (#[trigger] self.raw@[r])@.exe {
                Option::None => self.any_exe@.contains(r as usize),
                Option::Some(s) => spec_exe_has(self.exe@, s, r),
            }
    }

    /// Port-axis completeness: a rule with a port range has a posting under
    /// every port in the range.

    spec fn wf_port(&self) -> bool {
        &&& spec_all_below(self.any_port@, self.raw@.len() as int)
        &&& forall|e: int|
            0 <= e < self.port@.len() ==> (#[trigger] self.port@[e]).id < self.raw@.len()
        &&& forall|r: int|
            0 <= r < self.raw@.len() ==> match (#[trigger] self.raw@[r])@.port {
                Option::None => self.any_port@.contains(r as usize),
                Option::Some(range) => forall|p: u16|
                    range.start <= p <= range.end ==> #[trigger] spec_port_has(self.port@, p, r),
            }
    }

    /// Subnet-axis completeness: a rule has a posting under its masked
    /// prefix, in its family's table.
    spec fn wf_subnet(&self) -> bool {
        &&& spec_all_below(self.any_v4@, self.raw@.len() as int)
        &&& spec_all_below(self.any_v6@, self.raw@.len() as int)
        &&& forall|e: int|
            0 <= e < self.v4_table@.len() ==> (#[trigger] self.v4_table@[e]).id < self.raw@.len()
        &&& forall|e: int|
            0 <= e < self.v6_table@.len() ==> (#[trigger] self.v6_table@[e]).id < self.raw@.len()
        &&& forall|r: int|
            0 <= r < self.raw@.len() ==> match (#[trigger] self.raw@[r])@.subnet.0 {
                IpAddress::V4(s) => spec_v4_has(
                    self.v4_table@,
                    spec_mask_v4(s, self.raw@[r]@.subnet.1),
                    self.raw@[r]@.subnet.1,
                    r,
                ),
                IpAddress::V6(s) => spec_v6_has(
                    self.v6_table@,
                    spec_mask_v6(s, self.raw@[r]@.subnet.1),
                    self.raw@[r]@.subnet.1,
                    r,
                ),
            }
    }

    /// The targets stored in the index refer only to existing rate buckets.
    spec fn wf_targets(&self) -> bool {
        &&& spec_target_valid(self.default_target, self.rate_state@.len() as int)
        &&& forall|r: int|
            0 <= r < self.raw@.len() ==> spec_target_valid(
                (#[trigger] self.raw@[r])@.target,
                self.rate_state@.len() as int,
            )
    }

    /// Every bucket respects its byte bound.
    spec fn wf_rate(&self) -> bool {
        forall|k: int| 0 <= k < self.rate_state@.len() ==> spec_bucket_wf(#[trigger] self.rate_state@[k])
    }

    /// The cache is one our constructor built (bounded, no expiry), and
    /// every cache entry decodes to the match result of some packet with
    /// that fingerprint.
    spec fn wf_cache(&self) -> bool {
        &&& verdict_cache_bounded(&self.cache)
        &&& self.spec_cache().dom().finite()
        &&& forall|h: u64|
            #[trigger] self.spec_cache().dom().contains(h) ==> exists|
                d2: Device,
                p2: Proto,
                a2: SocketAddress,
                e2: Seq<char>,
            |
                spec_fingerprint(d2, p2, a2, e2) == h && spec_decode_verdict(self.spec_cache()[h])
                    == Some(
                    spec_match_result(
                        self.spec_rules(),
                        self.spec_default(),
                        d2,
                        p2,
                        a2,
                        e2,
                    ),
                )
    }

    /// The index is well formed.
    pub closed spec fn wf(&self) -> bool {
        &&& self.wf_device()
        &&& self.wf_proto()
        &&& self.wf_exe()
        &&& self.wf_port()
        &&& self.wf_subnet()
        &&& self.wf_targets()
        &&& self.wf_rate()
        &&& self.wf_cache()
    }
}


/// Pushing onto a sequence keeps every element it already contains.
proof fn lemma_push_contains(s: Seq<usize>, x: usize)
    ensures
        forall|y: usize| s.contains(y) ==> #[trigger] s.push(x).contains(y),
        s.push(x).contains(x),
{
    assert forall|y: usize| s.contains(y) implies #[trigger] s.push(x).contains(y) by {
        let i = choose|i: int| 0 <= i < s.len() && s[i] == y;
        assert(s.push(x)[i] == y);
    }
    assert(s.push(x)[s.len() as int] == x);
}

/// Appends one posting per port of the inclusive range, all for rule `id`.
fn port_add_range(port_index: &mut Vec<PortEntry>, lo: u16, hi: u16, id: usize)
    ensures
        final(port_index)@.len() >= old(port_index)@.len(),
        forall|e: int|
            0 <= e < old(port_index)@.len() ==> final(port_index)@[e] == old(port_index)@[e],
        forall|e: int|
            old(port_index)@.len() <= e < final(port_index)@.len()
                ==> (#[trigger] final(port_index)@[e]).id == id,
        forall|p: u16| lo <= p <= hi ==> #[trigger] spec_port_has(final(port_index)@, p, id as int),
{
    if lo > hi {
        return ;
    }
    let mut p: u16 = lo;
    loop
        invariant
            lo <= p <= hi,
            port_index@.len() >= old(port_index)@.len(),
            forall|e: int|
                0 <= e < old(port_index)@.len() ==> port_index@[e] == old(port_index)@[e],
            forall|e: int|
                old(port_index)@.len() <= e < port_index@.len() ==> (#[trigger] port_index@[e]).id
                    == id,
            forall|q: u16| lo <= q < p ==> #[trigger] spec_port_has(port_index@, q, id as int),
        ensures
            port_index@.len() >= old(port_index)@.len(),
            forall|e: int|
                0 <= e < old(port_index)@.len() ==> port_index@[e] == old(port_index)@[e],
            forall|e: int|
                old(port_index)@.len() <= e < port_index@.len() ==> (#[trigger] port_index@[e]).id
                    == id,
            forall|q: u16| lo <= q <= hi ==> #[trigger] spec_port_has(port_index@, q, id as int),
        decreases hi - p + 1,
    {
        let ghost before = port_index@;
        port_index.push(PortEntry { port: p, id });
        proof {
            assert(port_index@ == before.push(PortEntry { port: p, id }));
            assert(before.push(PortEntry { port: p, id })[before.len() as int] == PortEntry {
                port: p,
                id,
            });
            assert(spec_port_has(port_index@, p, id as int)) by {
                assert(port_index@[before.len() as int].port == p && port_index@[before.len()
                    as int].id == id);
            }
            assert forall|q: u16| lo <= q < p implies #[trigger] spec_port_has(
                port_index@,
                q,
                id as int,
            ) by {
                assert(spec_port_has(before, q, id as int));
                let e = choose|e: int|
                    0 <= e < before.len() && (#[trigger] before[e]).port == q && before[e].id
                        == id as int;
                assert(before.push(PortEntry { port: p, id })[e] == before[e]);
                assert(port_index@[e].port == q && port_index@[e].id == id);
            }
        }
        if p == hi {
            break ;
        }
        p = p + 1;
    }
}

impl IndexedRules {
    /// Builds the index from a rule list: partitions every rule along each
    /// axis, sizes the rate buckets to the given limits, and starts with an
    /// empty result cache.  Targets must refer only to the given rate rules.
    pub fn new(default_target: RuleTarget, rules: Vec<Rule>, rate_rules: Vec<usize>) -> (r:
        IndexedRules)
        requires
            spec_target_valid(default_target, rate_rules@.len() as int),
            forall|i: int|
                0 <= i < rules@.len() ==> spec_target_valid(
                    (#[trigger] rules@[i])@.target,
                    rate_rules@.len() as int,
                ),
        ensures
            r.wf(),
            r.spec_rules() == spec_rules_view(rules@),
            r.spec_default() == default_target,
            r.spec_rate().len() == rate_rules@.len(),
            forall|k: int|
                0 <= k < rate_rules@.len() ==> r.spec_rate()[k] == (Bucket {
                    bytes: 0,
                    timestamp_ms: 0,
                    limit: rate_rules@[k],
                }),
            r.spec_cache() == crate::cache::verdict_map_empty(),
            r.spec_cache_capacity() == MATCH_CACHE_CAPACITY,
    {
        let mut rate_state: Vec<Bucket> = Vec::new();
        let mut k: usize = 0;
        while k < rate_rules.len()
            invariant
                k <= rate_rules@.len(),
                rate_state@.len() == k,
                forall|j: int|
                    0 <= j < k ==> rate_state@[j] == (Bucket {
                        bytes: 0,
                        timestamp_ms: 0,
                        limit: rate_rules@[j],
                    }),
            decreases rate_rules@.len() - k,
        {
            rate_state.push(Bucket::new(rate_rules[k], 0));
            k = k + 1;
        }

        let mut device_input: Vec<usize> = Vec::new();
        let mut device_output: Vec<usize> = Vec::new();
        let mut any_device: Vec<usize> = Vec::new();
        let mut proto_tcp: Vec<usize> = Vec::new();
        let mut proto_udp: Vec<usize> = Vec::new();
        let mut proto_udplite: Vec<usize> = Vec::new();
        let mut any_proto: Vec<usize> = Vec::new();
        let mut exe_index: Vec<ExeEntry> = Vec::new();
        let mut any_exe: Vec<usize> = Vec::new();
        let mut port_index: Vec<PortEntry> = Vec::new();
        let mut any_port: Vec<usize> = Vec::new();
        let mut v4_table: Vec<Net4Entry> = Vec::new();
        let mut any_v4: Vec<usize> = Vec::new();
        let mut v6_table: Vec<Net6Entry> = Vec::new();
        let mut any_v6: Vec<usize> = Vec::new();

        let n = rules.len();
        let mut i: usize = 0;
        while i < n
            invariant
                n == rules@.len(),
                i <= n,
                spec_all_below(device_input@, i as int),
                spec_all_below(device_output@, i as int),
                spec_all_below(any_device@, i as int),
                spec_all_below(proto_tcp@, i as int),
                spec_all_below(proto_udp@, i as int),
                spec_all_below(proto_udplite@, i as int),
                spec_all_below(any_proto@, i as int),
                spec_all_below(any_exe@, i as int),
                spec_all_below(any_port@, i as int),
                spec_all_below(any_v4@, i as int),
                spec_all_below(any_v6@, i as int),
                forall|e: int| 0 <= e < exe_index@.len() ==> (#[trigger] exe_index@[e]).id < i,
                forall|e: int| 0 <= e < port_index@.len() ==> (#[trigger] port_index@[e]).id < i,
                forall|e: int| 0 <= e < v4_table@.len() ==> (#[trigger] v4_table@[e]).id < i,
                forall|e: int| 0 <= e < v6_table@.len() ==> (#[trigger] v6_table@[e]).id < i,
                forall|r: int|
                    0 <= r < i ==> match (#[trigger] rules@[r])@.device {
                        Option::None => any_device@.contains(r as usize),
                        Option::Some(Device::Input) => device_input@.contains(r as usize),
                        Option::Some(Device::Output) => device_output@.contains(r as usize),
                    },
                forall|r: int|
                    0 <= r < i ==> match (#[trigger] rules@[r])@.proto {
                        Option::None => any_proto@.contains(r as usize),
                        Option::Some(Proto::Tcp) => proto_tcp@.contains(r as usize),
                        Option::Some(Proto::Udp) => proto_udp@.contains(r as usize),
                        Option::Some(Proto::UdpLite) => proto_udplite@.contains(r as usize),
                    },
                forall|r: int|
                    0 <= r < i && ((#[trigger] rules@[r])@.exe is None) ==> any_exe@.contains(
                        r as usize,
                    ),
                forall|r: int|
                    0 <= r < i && ((#[trigger] rules@[r])@.exe is Some) ==> exists|e: int|
                        0 <= e < exe_index@.len() && (#[trigger] exe_index@[e]).key@
                            == rules@[r]@.exe.unwrap() && exe_index@[e].id == r,
                forall|r: int|
                    0 <= r < i && ((#[trigger] rules@[r])@.port is None) ==> any_port@.contains(
                        r as usize,
                    ),
                forall|r: int, p: u16|
                    0 <= r < i && ((#[trigger] rules@[r])@.port is Some)
                        && rules@[r]@.port.unwrap().start <= p && p <= rules@[r]@.port.unwrap().end
                        ==> #[trigger] spec_port_has(port_index@, p, r),
                forall|r: int|
                    0 <= r < i ==> match (#[trigger] rules@[r])@.subnet.0 {
                        IpAddress::V4(sn) => exists|e: int|
                            0 <= e < v4_table@.len() && (#[trigger] v4_table@[e]).prefix
                                == spec_mask_v4(sn, rules@[r]@.subnet.1) && v4_table@[e].masklen
                                == rules@[r]@.subnet.1 && v4_table@[e].id == r,
                        IpAddress::V6(sn) => exists|e: int|
                            0 <= e < v6_table@.len() && (#[trigger] v6_table@[e]).prefix
                                == spec_mask_v6(sn, rules@[r]@.subnet.1) && v6_table@[e].masklen
                                == rules@[r]@.subnet.1 && v6_table@[e].id == r,
                    },
            decreases n - i,
        {
            let ghost g_any_device = any_device@;
            let ghost g_device_input = device_input@;
            let ghost g_device_output = device_output@;
            match rules[i].device {
                Option::None => any_device.push(i),
                Option::Some(Device::Input) => device_input.push(i),
                Option::Some(Device::Output) => device_output.push(i),
            }
            proof {
                lemma_push_contains(g_any_device, i);
                lemma_push_contains(g_device_input, i);
                lemma_push_contains(g_device_output, i);
            }

            let ghost g_any_proto = any_proto@;
            let ghost g_tcp = proto_tcp@;
            let ghost g_udp = proto_udp@;
            let ghost g_udplite = proto_udplite@;
            match rules[i].proto {
                Option::None => any_proto.push(i),
                Option::Some(Proto::Tcp) => proto_tcp.push(i),
                Option::Some(Proto::Udp) => proto_udp.push(i),
                Option::Some(Proto::UdpLite) => proto_udplite.push(i),
            }
            proof {
                lemma_push_contains(g_any_proto, i);
                lemma_push_contains(g_tcp, i);
                lemma_push_contains(g_udp, i);
                lemma_push_contains(g_udplite, i);
            }

            let ghost g_any_exe = any_exe@;
            let ghost g_exe = exe_index@;
            match rules[i].exe {
                Option::None => any_exe.push(i),
                Option::Some(ref s) => {
                    let key = s.clone();
                    exe_index.push(ExeEntry { key, id: i });
                },
            }
            proof {
                lemma_push_contains(g_any_exe, i);
                assert forall|r: int|
                    0 <= r <= i && ((#[trigger] rules@[r])@.exe is Some) implies exists|e: int|
                    0 <= e < exe_index@.len() && (#[trigger] exe_index@[e]).key@
                        == rules@[r]@.exe.unwrap() && exe_index@[e].id == r by {
                    let sv = rules@[r]@.exe.unwrap();
                    if r < i {
                        let e = choose|e: int|
                            0 <= e < g_exe.len() && (#[trigger] g_exe[e]).key@ == sv && g_exe[e].id
                                == r;
                        assert(exe_index@[e].key@ == sv && exe_index@[e].id == r);
                    } else {
                        let e = exe_index@.len() - 1;
                        assert(exe_index@[e].key@ == sv && exe_index@[e].id == r);
                    }
                }
            }

            let ghost g_any_port = any_port@;
            let ghost g_port = port_index@;
            let port_opt = rules[i].port;
            match port_opt {
                Option::None => any_port.push(i),
                Option::Some(range) => port_add_range(&mut port_index, range.start, range.end, i),
            }
            proof {
                lemma_push_contains(g_any_port, i);
                assert forall|r: int, p: u16|
                    0 <= r <= i && ((#[trigger] rules@[r])@.port is Some)
                        && rules@[r]@.port.unwrap().start <= p && p <= rules@[r]@.port.unwrap().end
                        implies #[trigger] spec_port_has(port_index@, p, r) by {
                    if r < i {
                        assert(spec_port_has(g_port, p, r));
                        let e = choose|e: int|
                            0 <= e < g_port.len() && (#[trigger] g_port[e]).port == p
                                && g_port[e].id == r;
                        assert(port_index@[e] == g_port[e]);
                        assert(port_index@[e].port == p && port_index@[e].id == r);
                    } else {
                        assert(spec_port_has(port_index@, p, i as int));
                    }
                }
            }

            let ghost g_v4 = v4_table@;
            let ghost g_v6 = v6_table@;
            let masklen = rules[i].subnet.1;
            match rules[i].subnet.0 {
                IpAddress::V4(sn) => {
                    let prefix = sn.mask(masklen);
                    v4_table.push(Net4Entry { prefix, masklen, id: i });
                },
                IpAddress::V6(sn) => {
                    let prefix = sn.mask(masklen);
                    v6_table.push(Net6Entry { prefix, masklen, id: i });
                },
            }
            proof {
                assert forall|r: int| 0 <= r <= i implies match (#[trigger] rules@[r])@.subnet.0 {
                    IpAddress::V4(sn) => exists|e: int|
                        0 <= e < v4_table@.len() && (#[trigger] v4_table@[e]).prefix
                            == spec_mask_v4(sn, rules@[r]@.subnet.1) && v4_table@[e].masklen
                            == rules@[r]@.subnet.1 && v4_table@[e].id == r,
                    IpAddress::V6(sn) => exists|e: int|
                        0 <= e < v6_table@.len() && (#[trigger] v6_table@[e]).prefix
                            == spec_mask_v6(sn, rules@[r]@.subnet.1) && v6_table@[e].masklen
                            == rules@[r]@.subnet.1 && v6_table@[e].id == r,
                } by {
                    if r < i {
                        match rules@[r]@.subnet.0 {
                            IpAddress::V4(sn) => {
                                let e = choose|e: int|
                                    0 <= e < g_v4.len() && (#[trigger] g_v4[e]).prefix
                                        == spec_mask_v4(sn, rules@[r]@.subnet.1)
                                        && g_v4[e].masklen == rules@[r]@.subnet.1 && g_v4[e].id
                                        == r;
                                assert(v4_table@[e] == g_v4[e]);
                            },
                            IpAddress::V6(sn) => {
                                let e = choose|e: int|
                                    0 <= e < g_v6.len() && (#[trigger] g_v6[e]).prefix
                                        == spec_mask_v6(sn, rules@[r]@.subnet.1)
                                        && g_v6[e].masklen == rules@[r]@.subnet.1 && g_v6[e].id
                                        == r;
                                assert(v6_table@[e] == g_v6[e]);
                            },
                        }
                    } else {
                        match rules@[r]@.subnet.0 {
                            IpAddress::V4(sn) => {
                                assert(v4_table@[v4_table@.len() - 1].id == r);
                            },
                            IpAddress::V6(sn) => {
                                assert(v6_table@[v6_table@.len() - 1].id == r);
                            },
                        }
                    }
                }
            }

            i = i + 1;
        }

        let ghost g_rules = rules@;
        let ghost g_exe = exe_index@;
        let ghost g_v4 = v4_table@;
        let ghost g_v6 = v6_table@;
        let idx = IndexedRules {
            device_input,
            device_output,
            any_device,
            proto_tcp,
            proto_udp,
            proto_udplite,
            any_proto,
            exe: exe_index,
            any_exe,
            port: port_index,
            any_port,
            v4_table,
            any_v4,
            v6_table,
            any_v6,
            raw: rules,
            default_target,
            rate_state,
            cache: verdict_cache_new(MATCH_CACHE_CAPACITY),
        };
        proof {
            assert(idx.spec_rules() =~= spec_rules_view(idx.raw@));
            assert(idx.raw@ == g_rules);
            assert(idx.exe@ == g_exe);
            assert(idx.v4_table@ == g_v4);
            assert(idx.v6_table@ == g_v6);
            assert(idx.wf_device());
            assert(idx.wf_proto());
            assert forall|r: int|
                0 <= r < idx.raw@.len() && ((#[trigger] idx.raw@[r])@.exe is Some) implies exists|
                e: int,
            |
                0 <= e < idx.exe@.len() && (#[trigger] idx.exe@[e]).key@
                    == idx.raw@[r]@.exe.unwrap() && idx.exe@[e].id == r by {
                assert(g_rules[r]@.exe is Some);
                let e = choose|e: int|
                    0 <= e < g_exe.len() && (#[trigger] g_exe[e]).key@ == g_rules[r]@.exe.unwrap()
                        && g_exe[e].id == r;
                assert(idx.exe@[e].key@ == idx.raw@[r]@.exe.unwrap() && idx.exe@[e].id == r);
            }
            assert(idx.wf_exe());
            assert(idx.wf_port());
            assert forall|r: int| 0 <= r < idx.raw@.len() implies match (
            #[trigger] idx.raw@[r])@.subnet.0 {
                IpAddress::V4(sn) => exists|e: int|
                    0 <= e < idx.v4_table@.len() && (#[trigger] idx.v4_table@[e]).prefix
                        == spec_mask_v4(sn, idx.raw@[r]@.subnet.1) && idx.v4_table@[e].masklen
                        == idx.raw@[r]@.subnet.1 && idx.v4_table@[e].id == r,
                IpAddress::V6(sn) => exists|e: int|
                    0 <= e < idx.v6_table@.len() && (#[trigger] idx.v6_table@[e]).prefix
                        == spec_mask_v6(sn, idx.raw@[r]@.subnet.1) && idx.v6_table@[e].masklen
                        == idx.raw@[r]@.subnet.1 && idx.v6_table@[e].id == r,
            } by {
                match g_rules[r]@.subnet.0 {
                    IpAddress::V4(sn) => {
                        let e = choose|e: int|
                            0 <= e < g_v4.len() && (#[trigger] g_v4[e]).prefix == spec_mask_v4(
                                sn,
                                g_rules[r]@.subnet.1,
                            ) && g_v4[e].masklen == g_rules[r]@.subnet.1 && g_v4[e].id == r;
                        assert(idx.v4_table@[e].prefix == spec_mask_v4(sn, idx.raw@[r]@.subnet.1)
                            && idx.v4_table@[e].masklen == idx.raw@[r]@.subnet.1
                            && idx.v4_table@[e].id == r);
                    },
                    IpAddress::V6(sn) => {
                        let e = choose|e: int|
                            0 <= e < g_v6.len() && (#[trigger] g_v6[e]).prefix == spec_mask_v6(
                                sn,
                                g_rules[r]@.subnet.1,
                            ) && g_v6[e].masklen == g_rules[r]@.subnet.1 && g_v6[e].id == r;
                        assert(idx.v6_table@[e].prefix == spec_mask_v6(sn, idx.raw@[r]@.subnet.1)
                            && idx.v6_table@[e].masklen == idx.raw@[r]@.subnet.1
                            && idx.v6_table@[e].id == r);
                    },
                }
            }
            assert(idx.wf_subnet());
            assert(idx.wf_targets());
            assert(idx.wf_rate());
            assert(idx.wf_cache());
            assert(idx.wf());
        }
        idx
    }
}

impl IndexedRules {
    /// Rule `r` exists and matches the packet.
    spec fn spec_hit(
        &self,
        r: int,
        device: Device,
        protocol: Proto,
        addr: SocketAddress,
        exe: Seq<char>,
    ) -> bool {
        0 <= r < self.spec_rules().len() && spec_rule_matches(
            self.spec_rules()[r],
            device,
            protocol,
            addr,
            exe,
        )
    }

    /// The pair `(exact, any)` covers the packet: both hold only real rule
    /// indices, and every rule that matches the packet is in one of them.
    spec fn spec_covers(
        &self,
        exact: Seq<usize>,
        any: Seq<usize>,
        device: Device,
        protocol: Proto,
        addr: SocketAddress,
        exe: Seq<char>,
    ) -> bool {
        &&& spec_all_below(exact, self.raw@.len() as int)
        &&& spec_all_below(any, self.raw@.len() as int)
        &&& forall|j: int|
            #[trigger] self.spec_hit(j, device, protocol, addr, exe) ==> exact.contains(j as usize)
                || any.contains(j as usize)
    }

    /// The lowest-numbered rule that matches the packet, with its target;
    /// otherwise the default target: exactly what a linear scan of the rule
    /// list in user order returns.
    pub fn match_target(
        &self,
        device: Device,
        protocol: Proto,
        addr: SocketAddress,
        exe: &str,
    ) -> (r: (Option<usize>, RuleTarget))
        requires
            self.wf(),
        ensures
            r == spec_match_result(
                self.spec_rules(),
                self.spec_default(),
                device,
                protocol,
                addr,
                exe@,
            ),
    {
        let n = self.raw.len();

        let exact_device: &Vec<usize> = match device {
            Device::Input => &self.device_input,
            Device::Output => &self.device_output,
        };
        let exact_proto: &Vec<usize> = match protocol {
            Proto::Tcp => &self.proto_tcp,
            Proto::Udp => &self.proto_udp,
            Proto::UdpLite => &self.proto_udplite,
        };

        let mut exact_exe: Vec<usize> = Vec::new();
        let mut e: usize = 0;
        while e < self.exe.len()
            invariant
                self.wf(),
                n == self.raw@.len(),
                e <= self.exe@.len(),
                spec_all_below(exact_exe@, n as int),
                forall|k: int|
                    0 <= k < e && (#[trigger] self.exe@[k]).key@ == exe@ ==> exact_exe@.contains(
                        self.exe@[k].id,
                    ),
            decreases self.exe@.len() - e,
        {
            let ghost g_exact = exact_exe@;
            if str_eq(self.exe[e].key.as_str(), exe) {
                exact_exe.push(self.exe[e].id);
                proof {
                    lemma_push_contains(g_exact, self.exe@[e as int].id);
                }
            }
            e = e + 1;
        }

        let mut exact_port: Vec<usize> = Vec::new();
        let mut e: usize = 0;
        while e < self.port.len()
            invariant
                self.wf(),
                n == self.raw@.len(),
                e <= self.port@.len(),
                spec_all_below(exact_port@, n as int),
                forall|k: int|
                    0 <= k < e && (#[trigger] self.port@[k]).port == addr.port
                        ==> exact_port@.contains(self.port@[k].id),
            decreases self.port@.len() - e,
        {
            let ghost g_exact = exact_port@;
            if self.port[e].port == addr.port {
                exact_port.push(self.port[e].id);
                proof {
                    lemma_push_contains(g_exact, self.port@[e as int].id);
                }
            }
            e = e + 1;
        }

        let mut exact_ip: Vec<usize> = Vec::new();
        match addr.ip {
            IpAddress::V4(a) => {
                let mut e: usize = 0;
                while e < self.v4_table.len()
                    invariant
                        self.wf(),
                        n == self.raw@.len(),
                        e <= self.v4_table@.len(),
                        spec_all_below(exact_ip@, n as int),
                        forall|k: int|
                            0 <= k < e && spec_mask_v4(a, (#[trigger] self.v4_table@[k]).masklen)
                                == self.v4_table@[k].prefix ==> exact_ip@.contains(
                                self.v4_table@[k].id,
                            ),
                    decreases self.v4_table@.len() - e,
                {
                    let ghost g_exact = exact_ip@;
                    if a.mask(self.v4_table[e].masklen) == self.v4_table[e].prefix {
                        exact_ip.push(self.v4_table[e].id);
                        proof {
                            lemma_push_contains(g_exact, self.v4_table@[e as int].id);
                        }
                    }
                    e = e + 1;
                }
            },
            IpAddress::V6(a) => {
                let mut e: usize = 0;
                while e < self.v6_table.len()
                    invariant
                        self.wf(),
                        n == self.raw@.len(),
                        e <= self.v6_table@.len(),
                        spec_all_below(exact_ip@, n as int),
                        forall|k: int|
                            0 <= k < e && spec_mask_v6(a, (#[trigger] self.v6_table@[k]).masklen)
                                == self.v6_table@[k].prefix ==> exact_ip@.contains(
                                self.v6_table@[k].id,
                            ),
                    decreases self.v6_table@.len() - e,
                {
                    let ghost g_exact = exact_ip@;
                    if a.mask(self.v6_table[e].masklen) == self.v6_table[e].prefix {
                        exact_ip.push(self.v6_table[e].id);
                        proof {
                            lemma_push_contains(g_exact, self.v6_table@[e as int].id);
                        }
                    }
                    e = e + 1;
                }
            },
        }
        let any_ip: &Vec<usize> = match addr.ip {
            IpAddress::V4(_) => &self.any_v4,
            IpAddress::V6(_) => &self.any_v6,
        };

        proof {
            self.lemma_axis_covers_device(exact_device@, device, protocol, addr, exe@);
            self.lemma_axis_covers_proto(exact_proto@, device, protocol, addr, exe@);
            self.lemma_axis_covers_exe(exact_exe@, device, protocol, addr, exe@);
            self.lemma_axis_covers_port(exact_port@, device, protocol, addr, exe@);
            self.lemma_axis_covers_ip(exact_ip@, any_ip@, device, protocol, addr, exe@);
        }

        let s_dev: u128 = exact_device.len() as u128 + self.any_device.len() as u128;
        let s_proto: u128 = exact_proto.len() as u128 + self.any_proto.len() as u128;
        let s_exe: u128 = exact_exe.len() as u128 + self.any_exe.len() as u128;
        let s_port: u128 = exact_port.len() as u128 + self.any_port.len() as u128;
        let s_ip: u128 = exact_ip.len() as u128 + any_ip.len() as u128;

        let mut exact_sel: &Vec<usize> = exact_device;
        let mut any_sel: &Vec<usize> = &self.any_device;
        let mut best_size: u128 = s_dev;
        if s_proto < best_size {
            exact_sel = exact_proto;
            any_sel = &self.any_proto;
            best_size = s_proto;
        }
        if s_exe < best_size {
            exact_sel = &exact_exe;
            any_sel = &self.any_exe;
            best_size = s_exe;
        }
        if s_port < best_size {
            exact_sel = &exact_port;
            any_sel = &self.any_port;
            best_size = s_port;
        }
        if s_ip < best_size {
            exact_sel = &exact_ip;
            any_sel = any_ip;
            best_size = s_ip;
        }
        assert(self.spec_covers(exact_sel@, any_sel@, device, protocol, addr, exe@));

        let mut have: bool = false;
        let mut best_id: usize = 0;
        let mut best_t: RuleTarget = RuleTarget::Accept;

        let mut k: usize = 0;
        while k < exact_sel.len()
            invariant
                self.wf(),
                n == self.raw@.len(),
                k <= exact_sel@.len(),
                spec_all_below(exact_sel@, n as int),
                have ==> self.spec_hit(best_id as int, device, protocol, addr, exe@) && best_t
                    == self.spec_rules()[best_id as int].target,
                forall|j: int|
                    0 <= j < k && self.spec_hit((#[trigger] exact_sel@[j]) as int, device, protocol, addr, exe@)
                        ==> have && best_id <= exact_sel@[j],
            decreases exact_sel@.len() - k,
        {
            let id = exact_sel[k];
            let rt = self.raw[id].match_target(device, protocol, addr, exe);
            match rt {
                Option::Some(t) => {
                    if !have || id < best_id {
                        have = true;
                        best_id = id;
                        best_t = t;
                    }
                },
                Option::None => {},
            }
            k = k + 1;
        }

        let mut k: usize = 0;
        while k < any_sel.len()
            invariant
                self.wf(),
                n == self.raw@.len(),
                k <= any_sel@.len(),
                spec_all_below(exact_sel@, n as int),
                spec_all_below(any_sel@, n as int),
                have ==> self.spec_hit(best_id as int, device, protocol, addr, exe@) && best_t
                    == self.spec_rules()[best_id as int].target,
                forall|j: int|
                    0 <= j < exact_sel@.len() && self.spec_hit(
                        (#[trigger] exact_sel@[j]) as int,
                        device,
                        protocol,
                        addr,
                        exe@,
                    ) ==> have && best_id <= exact_sel@[j],
                forall|j: int|
                    0 <= j < k && self.spec_hit((#[trigger] any_sel@[j]) as int, device, protocol, addr, exe@)
                        ==> have && best_id <= any_sel@[j],
            decreases any_sel@.len() - k,
        {
            let id = any_sel[k];
            let rt = self.raw[id].match_target(device, protocol, addr, exe);
            match rt {
                Option::Some(t) => {
                    if !have || id < best_id {
                        have = true;
                        best_id = id;
                        best_t = t;
                    }
                },
                Option::None => {},
            }
            k = k + 1;
        }

        if have {
            proof {
                assert forall|j: int| 0 <= j < best_id implies !spec_rule_matches(
                    #[trigger] self.spec_rules()[j],
                    device,
                    protocol,
                    addr,
                    exe@,
                ) by {
                    if spec_rule_matches(self.spec_rules()[j], device, protocol, addr, exe@) {
                        assert(self.spec_hit(j, device, protocol, addr, exe@));
                        if exact_sel@.contains(j as usize) {
                            let e = choose|e: int|
                                0 <= e < exact_sel@.len() && exact_sel@[e] == j as usize;
                            assert(self.spec_hit(exact_sel@[e] as int, device, protocol, addr, exe@));
                        } else {
                            let e = choose|e: int|
                                0 <= e < any_sel@.len() && any_sel@[e] == j as usize;
                            assert(self.spec_hit(any_sel@[e] as int, device, protocol, addr, exe@));
                        }
                    }
                }
                lemma_scan_finds_min(
                    self.spec_rules(),
                    self.default_target,
                    0,
                    device,
                    protocol,
                    addr,
                    exe@,
                    best_id as int,
                );
            }
            (Some(best_id), best_t)
        } else {
            proof {
                assert forall|j: int| 0 <= j < self.spec_rules().len() implies !spec_rule_matches(
                    #[trigger] self.spec_rules()[j],
                    device,
                    protocol,
                    addr,
                    exe@,
                ) by {
                    if spec_rule_matches(self.spec_rules()[j], device, protocol, addr, exe@) {
                        assert(self.spec_hit(j, device, protocol, addr, exe@));
                        if exact_sel@.contains(j as usize) {
                            let e = choose|e: int|
                                0 <= e < exact_sel@.len() && exact_sel@[e] == j as usize;
                            assert(self.spec_hit(exact_sel@[e] as int, device, protocol, addr, exe@));
                        } else {
                            let e = choose|e: int|
                                0 <= e < any_sel@.len() && any_sel@[e] == j as usize;
                            assert(self.spec_hit(any_sel@[e] as int, device, protocol, addr, exe@));
                        }
                    }
                }
                lemma_scan_finds_none(
                    self.spec_rules(),
                    self.default_target,
                    0,
                    device,
                    protocol,
                    addr,
                    exe@,
                );
            }
            (None, self.default_target)
        }
    }

    /// The device axis covers the packet.
    proof fn lemma_axis_covers_device(
        &self,
        exact: Seq<usize>,
        device: Device,
        protocol: Proto,
        addr: SocketAddress,
        exe: Seq<char>,
    )
        requires
            self.wf(),
            exact == (match device {
                Device::Input => self.device_input@,
                Device::Output => self.device_output@,
            }),
        ensures
            self.spec_covers(exact, self.any_device@, device, protocol, addr, exe),
    {
        assert forall|j: int| #[trigger] self.spec_hit(j, device, protocol, addr, exe) implies exact.contains(
            j as usize,
        ) || self.any_device@.contains(j as usize) by {
            assert(self.spec_rules()[j] == self.raw@[j]@);
            assert(spec_rule_matches(self.raw@[j]@, device, protocol, addr, exe));
        }
    }

    /// The protocol axis covers the packet.
    proof fn lemma_axis_covers_proto(
        &self,
        exact: Seq<usize>,
        device: Device,
        protocol: Proto,
        addr: SocketAddress,
        exe: Seq<char>,
    )
        requires
            self.wf(),
            exact == (match protocol {
                Proto::Tcp => self.proto_tcp@,
                Proto::Udp => self.proto_udp@,
                Proto::UdpLite => self.proto_udplite@,
            }),
        ensures
            self.spec_covers(exact, self.any_proto@, device, protocol, addr, exe),
    {
        assert forall|j: int| #[trigger] self.spec_hit(j, device, protocol, addr, exe) implies exact.contains(
            j as usize,
        ) || self.any_proto@.contains(j as usize) by {
            assert(self.spec_rules()[j] == self.raw@[j]@);
            assert(spec_rule_matches(self.raw@[j]@, device, protocol, addr, exe));
        }
    }

    /// The executable axis covers the packet, with the collected exact list.
    proof fn lemma_axis_covers_exe(
        &self,
        exact: Seq<usize>,
        device: Device,
        protocol: Proto,
        addr: SocketAddress,
        exe: Seq<char>,
    )
        requires
            self.wf(),
            spec_all_below(exact, self.raw@.len() as int),
            forall|k: int|
                0 <= k < self.exe@.len() && (#[trigger] self.exe@[k]).key@ == exe ==> exact.contains(
                    self.exe@[k].id,
                ),
        ensures
            self.spec_covers(exact, self.any_exe@, device, protocol, addr, exe),
    {
        assert forall|j: int| #[trigger] self.spec_hit(j, device, protocol, addr, exe) implies exact.contains(
            j as usize,
        ) || self.any_exe@.contains(j as usize) by {
            assert(self.spec_rules()[j] == self.raw@[j]@);
            assert(spec_rule_matches(self.raw@[j]@, device, protocol, addr, exe));
            match self.raw@[j]@.exe {
                Option::None => {},
                Option::Some(sv) => {
                    assert(sv == exe);
                    let k = choose|k: int|
                        0 <= k < self.exe@.len() && (#[trigger] self.exe@[k]).key@ == sv
                            && self.exe@[k].id == j;
                    assert(exact.contains(self.exe@[k].id));
                },
            }
        }
    }

    /// The port axis covers the packet, with the collected exact list.
    proof fn lemma_axis_covers_port(
        &self,
        exact: Seq<usize>,
        device: Device,
        protocol: Proto,
        addr: SocketAddress,
        exe: Seq<char>,
    )
        requires
            self.wf(),
            spec_all_below(exact, self.raw@.len() as int),
            forall|k: int|
                0 <= k < self.port@.len() && (#[trigger] self.port@[k]).port == addr.port
                    ==> exact.contains(self.port@[k].id),
        ensures
            self.spec_covers(exact, self.any_port@, device, protocol, addr, exe),
    {
        assert forall|j: int| #[trigger] self.spec_hit(j, device, protocol, addr, exe) implies exact.contains(
            j as usize,
        ) || self.any_port@.contains(j as usize) by {
            assert(self.spec_rules()[j] == self.raw@[j]@);
            assert(spec_rule_matches(self.raw@[j]@, device, protocol, addr, exe));
            match self.raw@[j]@.port {
                Option::None => {},
                Option::Some(range) => {
                    assert(range.start <= addr.port <= range.end);
                    assert(spec_port_has(self.port@, addr.port, j));
                    let k = choose|k: int|
                        0 <= k < self.port@.len() && (#[trigger] self.port@[k]).port == addr.port
                            && self.port@[k].id == j;
                    assert(exact.contains(self.port@[k].id));
                },
            }
        }
    }

    /// The subnet axis covers the packet, with the collected exact list.
    proof fn lemma_axis_covers_ip(
        &self,
        exact: Seq<usize>,
        any: Seq<usize>,
        device: Device,
        protocol: Proto,
        addr: SocketAddress,
        exe: Seq<char>,
    )
        requires
            self.wf(),
            spec_all_below(exact, self.raw@.len() as int),
            addr.ip is V4 ==> any == self.any_v4@ && forall|k: int|
                0 <= k < self.v4_table@.len() && spec_mask_v4(
                    addr.ip->V4_0,
                    (#[trigger] self.v4_table@[k]).masklen,
                ) == self.v4_table@[k].prefix ==> exact.contains(self.v4_table@[k].id),
            addr.ip is V6 ==> any == self.any_v6@ && forall|k: int|
                0 <= k < self.v6_table@.len() && spec_mask_v6(
                    addr.ip->V6_0,
                    (#[trigger] self.v6_table@[k]).masklen,
                ) == self.v6_table@[k].prefix ==> exact.contains(self.v6_table@[k].id),
        ensures
            self.spec_covers(exact, any, device, protocol, addr, exe),
    {
        assert forall|j: int| #[trigger] self.spec_hit(j, device, protocol, addr, exe) implies exact.contains(
            j as usize,
        ) || any.contains(j as usize) by {
            assert(self.spec_rules()[j] == self.raw@[j]@);
            assert(spec_rule_matches(self.raw@[j]@, device, protocol, addr, exe));
            let masklen = self.raw@[j]@.subnet.1;
            match self.raw@[j]@.subnet.0 {
                IpAddress::V4(sn) => {
                    let a = addr.ip->V4_0;
                    assert(spec_mask_v4(a, masklen) == sn);
                    crate::addr::lemma_mask_v4_idempotent(a, masklen);
                    let k = choose|k: int|
                        0 <= k < self.v4_table@.len() && (#[trigger] self.v4_table@[k]).prefix
                            == spec_mask_v4(sn, masklen) && self.v4_table@[k].masklen == masklen
                            && self.v4_table@[k].id == j;
                    assert(spec_mask_v4(a, self.v4_table@[k].masklen) == self.v4_table@[k].prefix);
                    assert(exact.contains(self.v4_table@[k].id));
                },
                IpAddress::V6(sn) => {
                    let a = addr.ip->V6_0;
                    assert(spec_mask_v6(a, masklen) == sn);
                    crate::addr::lemma_mask_v6_idempotent(a, masklen);
                    let k = choose|k: int|
                        0 <= k < self.v6_table@.len() && (#[trigger] self.v6_table@[k]).prefix
                            == spec_mask_v6(sn, masklen) && self.v6_table@[k].masklen == masklen
                            && self.v6_table@[k].id == j;
                    assert(spec_mask_v6(a, self.v6_table@[k].masklen) == self.v6_table@[k].prefix);
                    assert(exact.contains(self.v6_table@[k].id));
                },
            }
        }
    }
}

/// The scan's result names a real rule and carries that rule's target, or
/// carries the default target with no rule index.
proof fn lemma_scan_shape(
    rules: Seq<RuleV>,
    default_target: RuleTarget,
    i: int,
    device: Device,
    protocol: Proto,
    addr: SocketAddress,
    exe: Seq<char>,
)
    requires
        0 <= i,
        rules.len() <= usize::MAX,
    ensures
        ({
            let r = spec_scan(rules, default_target, i, device, protocol, addr, exe);
            &&& (r.0 matches Some(m) ==> i <= m < rules.len() && r.1 == rules[m as int].target)
            &&& (r.0 is None ==> r.1 == default_target)
        }),
    decreases rules.len() - i,
{
    if i < rules.len() && !spec_rule_matches(rules[i], device, protocol, addr, exe) {
        lemma_scan_shape(rules, default_target, i + 1, device, protocol, addr, exe);
    }
}

/// Classification is deterministic: two indexes over the same rule list and
/// default target answer every packet alike, whatever their cache or bucket
/// state.
pub proof fn lemma_match_deterministic(
    a: &IndexedRules,
    b: &IndexedRules,
    device: Device,
    protocol: Proto,
    addr: SocketAddress,
    exe: Seq<char>,
)
    requires
        a.spec_rules() == b.spec_rules(),
        a.spec_default() == b.spec_default(),
    ensures
        spec_match_result(a.spec_rules(), a.spec_default(), device, protocol, addr, exe)
            == spec_match_result(b.spec_rules(), b.spec_default(), device, protocol, addr, exe),
{
}

impl IndexedRules {
    /// Decides one packet: the cached pair under its fingerprint when
    /// present, a fresh match otherwise (then recorded), and the rate charge
    /// for a rate-limit target.  The caller supplies the clock as
    /// milliseconds from a monotonic epoch.
    pub fn is_acceptable(
        &mut self,
        device: Device,
        protocol: Proto,
        addr: SocketAddress,
        len: usize,
        exe: &str,
        now_ms: u64,
    ) -> (r: (Option<usize>, bool))
        requires
            old(self).wf(),
        ensures
            final(self).wf(),
            final(self).spec_rules() == old(self).spec_rules(),
            final(self).spec_default() == old(self).spec_default(),
            final(self).spec_rate().len() == old(self).spec_rate().len(),
            final(self).spec_cache_capacity() == old(self).spec_cache_capacity(),
            ({
                let h = spec_fingerprint(device, protocol, addr, exe@);
                let m = spec_match_result(
                    old(self).spec_rules(),
                    old(self).spec_default(),
                    device,
                    protocol,
                    addr,
                    exe@,
                );
                &&& (!old(self).spec_cache().dom().contains(h) ==> {
                    &&& r.0 == m.0
                    &&& (r.1, final(self).spec_rate()) == spec_apply_target(
                        old(self).spec_rate(),
                        m.1,
                        len,
                        now_ms,
                    )
                    &&& final(self).spec_cache().dom().contains(h)
                    &&& spec_decode_verdict(final(self).spec_cache()[h]) == Some(m)
                    &&& forall|h2: u64|
                        #[trigger] final(self).spec_cache().dom().contains(h2) ==> h2 == h || (old(
                        self).spec_cache().dom().contains(h2) && final(self).spec_cache()[h2]
                            == old(self).spec_cache()[h2])
                    &&& (old(self).spec_cache().dom().len() < old(self).spec_cache_capacity()
                        ==> final(self).spec_cache() == old(self).spec_cache().insert(
                        h,
                        spec_encode_verdict(m),
                    ))
                })
                &&& (old(self).spec_cache().dom().contains(h) ==> {
                    let c = spec_decode_verdict(old(self).spec_cache()[h]);
                    &&& c is Some
                    &&& r.0 == c.unwrap().0
                    &&& (r.1, final(self).spec_rate()) == spec_apply_target(
                        old(self).spec_rate(),
                        c.unwrap().1,
                        len,
                        now_ms,
                    )
                    &&& final(self).spec_cache() == old(self).spec_cache()
                })
                &&& exists|d2: Device, p2: Proto, a2: SocketAddress, e2: Seq<char>|
                    {
                        let m2 = spec_match_result(
                            old(self).spec_rules(),
                            old(self).spec_default(),
                            d2,
                            p2,
                            a2,
                            e2,
                        );
                        &&& #[trigger] spec_fingerprint(d2, p2, a2, e2) == h
                        &&& r.0 == m2.0
                        &&& (r.1, final(self).spec_rate()) == spec_apply_target(
                            old(self).spec_rate(),
                            m2.1,
                            len,
                            now_ms,
                        )
                    }
            }),
    {
        let rlen = self.raw.len();
        let h = fingerprint(device, protocol, addr, exe);
        let cached = verdict_cache_get(&mut self.cache, h);
        proof {
            assert(self.wf_device());
            assert(self.wf_proto());
            assert(self.wf_exe());
            assert(self.wf_port());
            assert(self.wf_subnet());
            assert(self.wf_targets());
            assert(self.wf_rate());
            assert(self.wf_cache()) by {
                assert(self.spec_cache() == old(self).spec_cache());
                assert forall|h2: u64| #[trigger] self.spec_cache().dom().contains(h2) implies exists|
                    d2: Device,
                    p2: Proto,
                    a2: SocketAddress,
                    e2: Seq<char>,
                |
                    spec_fingerprint(d2, p2, a2, e2) == h2 && spec_decode_verdict(
                        self.spec_cache()[h2],
                    ) == Some(
                        spec_match_result(
                            self.spec_rules(),
                            self.spec_default(),
                            d2,
                            p2,
                            a2,
                            e2,
                        ),
                    ) by {
                    assert(old(self).spec_cache().dom().contains(h2));
                    let (d2, p2, a2, e2) = choose|
                        d2: Device,
                        p2: Proto,
                        a2: SocketAddress,
                        e2: Seq<char>,
                    |
                        spec_fingerprint(d2, p2, a2, e2) == h2 && spec_decode_verdict(
                            old(self).spec_cache()[h2],
                        ) == Some(
                            spec_match_result(
                                old(self).spec_rules(),
                                old(self).spec_default(),
                                d2,
                                p2,
                                a2,
                                e2,
                            ),
                        );
                    assert(spec_fingerprint(d2, p2, a2, e2) == h2);
                }
            }
            assert(self.wf());
        }
        let ghost m_g = spec_match_result(
            self.spec_rules(),
            self.spec_default(),
            device,
            protocol,
            addr,
            exe@,
        );
        let (rule_id, target): (Option<usize>, RuleTarget) = match cached {
            Option::Some(v) => {
                match decode_verdict(v) {
                    Option::Some(pair) => {
                        proof {
                            let (d2, p2, a2, e2) = choose|
                                d2: Device,
                                p2: Proto,
                                a2: SocketAddress,
                                e2: Seq<char>,
                            |
                                spec_fingerprint(d2, p2, a2, e2) == h && spec_decode_verdict(
                                    self.spec_cache()[h],
                                ) == Some(
                                    spec_match_result(
                                        self.spec_rules(),
                                        self.spec_default(),
                                        d2,
                                        p2,
                                        a2,
                                        e2,
                                    ),
                                );
                            lemma_scan_shape(
                                self.spec_rules(),
                                self.spec_default(),
                                0,
                                d2,
                                p2,
                                a2,
                                e2,
                            );
                        }
                        pair
                    },
                    Option::None => {
                        proof {
                            assert(false);
                        }
                        (None, RuleTarget::Accept)
                    },
                }
            },
            Option::None => {
                let m = self.match_target(device, protocol, addr, exe);
                proof {
                    lemma_scan_shape(
                        self.spec_rules(),
                        self.spec_default(),
                        0,
                        device,
                        protocol,
                        addr,
                        exe@,
                    );
                    lemma_verdict_round_trip(m_g);
                }
                let ghost pre_cache = self.spec_cache();
                verdict_cache_insert(&mut self.cache, h, encode_verdict(m.0, m.1));
                proof {
                    assert forall|h2: u64| #[trigger] self.spec_cache().dom().contains(h2) implies exists|
                        d2: Device,
                        p2: Proto,
                        a2: SocketAddress,
                        e2: Seq<char>,
                    |
                        spec_fingerprint(d2, p2, a2, e2) == h2 && spec_decode_verdict(
                            self.spec_cache()[h2],
                        ) == Some(
                            spec_match_result(
                                self.spec_rules(),
                                self.spec_default(),
                                d2,
                                p2,
                                a2,
                                e2,
                            ),
                        ) by {
                        if h2 == h {
                            assert(spec_fingerprint(device, protocol, addr, exe@) == h
                                && spec_decode_verdict(self.spec_cache()[h]) == Some(m_g));
                        } else {
                            assert(pre_cache.dom().contains(h2) && self.spec_cache()[h2]
                                == pre_cache[h2]);
                            let (d2, p2, a2, e2) = choose|
                                d2: Device,
                                p2: Proto,
                                a2: SocketAddress,
                                e2: Seq<char>,
                            |
                                spec_fingerprint(d2, p2, a2, e2) == h2 && spec_decode_verdict(
                                    pre_cache[h2],
                                ) == Some(
                                    spec_match_result(
                                        self.spec_rules(),
                                        self.spec_default(),
                                        d2,
                                        p2,
                                        a2,
                                        e2,
                                    ),
                                );
                            assert(spec_fingerprint(d2, p2, a2, e2) == h2);
                        }
                    }
                }
                m
            },
        };
        let accept = match target {
            RuleTarget::Accept => true,
            RuleTarget::Drop => false,
            RuleTarget::RateLimit(k) => {
                let ghost pre_rate = self.rate_state@;
                let charged = self.rate_state[k].stuff(len, now_ms);
                proof {
                    crate::bucket::lemma_charge_preserves_bound(pre_rate[k as int], len, now_ms);
                }
                charged
            },
        };
        (rule_id, accept)
    }
}

impl IndexedRules {
    /// Builds the index from a control payload after checking its structural
    /// invariants; a payload whose targets point outside its rate rules (or
    /// whose ranges and masks are malformed) is rejected and nothing changes.
    pub fn from_rules(r: &Rules) -> (res: Option<IndexedRules>)
        ensures
            res is Some <==> crate::rules::spec_rules_valid(r@),
            res matches Some(idx) ==> {
                &&& idx.wf()
                &&& idx.spec_rules() == r@.rules
                &&& idx.spec_default() == r@.default_target
                &&& idx.spec_rate().len() == r@.rate_rules.len()
                &&& forall|k: int|
                    0 <= k < r@.rate_rules.len() ==> idx.spec_rate()[k] == (Bucket {
                        bytes: 0,
                        timestamp_ms: 0,
                        limit: r@.rate_rules[k].1,
                    })
                &&& idx.spec_cache() == crate::cache::verdict_map_empty()
                &&& idx.spec_cache_capacity() == MATCH_CACHE_CAPACITY
            },
    {
        if !r.validate() {
            return None;
        }
        let c = r.clone();
        let mut limits: Vec<usize> = Vec::new();
        let mut k: usize = 0;
        while k < c.rate_rules.len()
            invariant
                k <= c.rate_rules@.len(),
                limits@.len() == k,
                forall|j: int| 0 <= j < k ==> limits@[j] == (#[trigger] c.rate_rules@[j]).limit,
            decreases c.rate_rules@.len() - k,
        {
            limits.push(c.rate_rules[k].limit);
            k = k + 1;
        }
        proof {
            assert(c@ == r@);
            assert(c@.rules =~= spec_rules_view(c.rules@));
            assert forall|i: int| 0 <= i < c.rules@.len() implies spec_target_valid(
                (#[trigger] c.rules@[i])@.target,
                limits@.len() as int,
            ) by {
                assert(crate::rules::spec_rule_valid(c@.rules[i], c@.rate_rules.len() as int));
            }
        }
        let idx = IndexedRules::new(c.default_target, c.rules, limits);
        proof {
            assert(idx.spec_rules() =~= r@.rules);
        }
        Some(idx)
    }

    /// Resets the rate buckets to the given limits and empties the result
    /// cache, as a rule update does before the new snapshot goes live.  The
    /// stored targets must refer only to the new rate rules.
    pub fn refresh_local(&mut self, qos_rules: Vec<usize>)
        requires
            old(self).wf(),
            spec_target_valid(old(self).spec_default(), qos_rules@.len() as int),
            forall|r: int|
                0 <= r < old(self).spec_rules().len() ==> spec_target_valid(
                    (#[trigger] old(self).spec_rules()[r]).target,
                    qos_rules@.len() as int,
                ),
        ensures
            final(self).wf(),
            final(self).spec_rules() == old(self).spec_rules(),
            final(self).spec_default() == old(self).spec_default(),
            final(self).spec_rate().len() == qos_rules@.len(),
            forall|k: int|
                0 <= k < qos_rules@.len() ==> final(self).spec_rate()[k] == (Bucket {
                    bytes: 0,
                    timestamp_ms: 0,
                    limit: qos_rules@[k],
                }),
            final(self).spec_cache() == crate::cache::verdict_map_empty(),
            final(self).spec_cache_capacity() == old(self).spec_cache_capacity(),
    {
        let mut rate_state: Vec<Bucket> = Vec::new();
        let mut k: usize = 0;
        while k < qos_rules.len()
            invariant
                k <= qos_rules@.len(),
                rate_state@.len() == k,
                forall|j: int|
                    0 <= j < k ==> rate_state@[j] == (Bucket {
                        bytes: 0,
                        timestamp_ms: 0,
                        limit: qos_rules@[j],
                    }),
            decreases qos_rules@.len() - k,
        {
            rate_state.push(Bucket::new(qos_rules[k], 0));
            k = k + 1;
        }
        self.rate_state = rate_state;
        crate::cache::verdict_cache_clear(&mut self.cache);
        proof {
            assert forall|r: int| 0 <= r < self.raw@.len() implies spec_target_valid(
                (#[trigger] self.raw@[r])@.target,
                self.rate_state@.len() as int,
            ) by {
                assert(old(self).spec_rules()[r] == self.raw@[r]@);
            }
            assert(self.wf());
        }
    }
}

} // verus!
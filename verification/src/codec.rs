//! The JSON form of the persisted rule set.
//!
//! `to_json` prints a `Rules` value in one canonical shape; `from_json`
//! reads that shape back, tolerating blanks between tokens, so a
//! pretty-printed or hand-edited file of the same structure still loads.
//! Reading what was printed gives the value back, which is proved in
//! `lemma_json_round_trip`.

use vstd::prelude::*;
use vstd::string::StringSliceAdditionalSpecFns;

use crate::addr::IpAddress;
use crate::proc::{lemma_dec_value_nonneg, spec_dec_value, spec_is_digits};
use crate::index::spec_rules_view;
use crate::rules::{
    Device, Proto, RangeInclusiveOwned, RateLimitRule, Rule, RuleTarget, RuleV, Rules, RulesV,
};

verus! {

/// The decimal digits of `n`, most significant first, no leading zero.
pub open spec fn spec_dec_bytes(n: u128) -> Seq<u8>
    decreases n,
{
    if n < 10 {
        seq![(48 + n) as u8]
    } else {
        spec_dec_bytes(n / 10).push((48 + n % 10) as u8)
    }
}

/// The decimal digits of `n` read back as `n`.
pub proof fn lemma_dec_bytes_value(n: u128)
    ensures
        spec_is_digits(spec_dec_bytes(n)),
        spec_dec_value(spec_dec_bytes(n)) == n,
    decreases n,
{
    if n < 10 {
        let s = spec_dec_bytes(n);
        assert(s.drop_last() =~= Seq::<u8>::empty());
        assert(spec_dec_value(Seq::<u8>::empty()) == 0);
        assert(s.last() == (48 + n) as u8);
        assert(spec_dec_value(s) == spec_dec_value(s.drop_last()) * 10 + (s.last() - 48));
        assert(48 <= s[0] <= 57);
    } else {
        lemma_dec_bytes_value(n / 10);
        let s = spec_dec_bytes(n);
        assert(s.drop_last() =~= spec_dec_bytes(n / 10));
        assert((n / 10) * 10 + n % 10 == n) by (nonlinear_arith);
        assert(s.last() == (48 + n % 10) as u8);
        assert(spec_dec_value(s) == spec_dec_value(spec_dec_bytes(n / 10)) * 10 + ((48 + n % 10)
            as u8 - 48));
        assert forall|i: int| 0 <= i < s.len() implies 48 <= #[trigger] s[i] <= 57 by {
            if i < s.len() - 1 {
                assert(s[i] == spec_dec_bytes(n / 10)[i]);
            } else {
                assert(s[i] == (48 + n % 10) as u8);
            }
        }
    }
}

/// Appends the decimal digits of `n`.
fn emit_dec(v: &mut Vec<u8>, n: u128)
    ensures
        final(v)@ == old(v)@ + spec_dec_bytes(n),
    decreases n,
{
    if n < 10 {
        v.push(48 + n as u8);
        proof {
            assert(v@ =~= old(v)@ + spec_dec_bytes(n));
        }
    } else {
        emit_dec(v, n / 10);
        v.push(48 + (n % 10) as u8);
        proof {
            assert(v@ =~= old(v)@ + spec_dec_bytes(n));
        }
    }
}

/// The hex digit of a value below sixteen, lower case.
pub open spec fn spec_hex_digit(d: u8) -> u8 {
    if d < 10 {
        (48 + d) as u8
    } else {
        (87 + d) as u8
    }
}

/// The JSON escape of one byte of string content: quote and backslash get a
/// backslash, control bytes a `\u00..` form, everything else stands as is.
pub open spec fn spec_escape_byte(c: u8) -> Seq<u8> {
    if c == 34 {
        seq![92u8, 34u8]
    } else if c == 92 {
        seq![92u8, 92u8]
    } else if c < 32 {
        seq![92u8, 117u8, 48u8, 48u8, spec_hex_digit(c / 16), spec_hex_digit(c % 16)]
    } else {
        seq![c]
    }
}

/// The JSON escape of string content bytes.
pub open spec fn spec_escape(b: Seq<u8>) -> Seq<u8>
    decreases b.len(),
{
    if b.len() == 0 {
        Seq::empty()
    } else {
        spec_escape_byte(b.first()) + spec_escape(b.drop_first())
    }
}

/// Escaping one more byte appends its escape.
pub proof fn lemma_escape_snoc(b: Seq<u8>, c: u8)
    ensures
        spec_escape(b.push(c)) == spec_escape(b) + spec_escape_byte(c),
    decreases b.len(),
{
    if b.len() == 0 {
        assert(b.push(c).first() == c);
        assert(b.push(c).drop_first() =~= Seq::<u8>::empty());
        assert(spec_escape(b.push(c)) == spec_escape_byte(c) + spec_escape(
            b.push(c).drop_first(),
        ));
        assert(spec_escape(Seq::<u8>::empty()) =~= Seq::<u8>::empty());
        assert(b =~= Seq::<u8>::empty());
        assert(spec_escape(b.push(c)) =~= spec_escape(b) + spec_escape_byte(c));
    } else {
        assert(b.push(c).first() == b.first());
        assert(b.push(c).drop_first() =~= b.drop_first().push(c));
        lemma_escape_snoc(b.drop_first(), c);
        assert(spec_escape(b.push(c)) =~= spec_escape(b) + spec_escape_byte(c));
    }
}

/// A JSON string: a quote, the escaped content bytes, a quote.
pub open spec fn spec_json_string(s: Seq<char>) -> Seq<u8> {
    seq![34u8] + spec_escape(vstd::utf8::encode_utf8(s)) + seq![34u8]
}

/// Appends the escape of one byte.
fn emit_escape_byte(v: &mut Vec<u8>, c: u8)
    ensures
        final(v)@ == old(v)@ + spec_escape_byte(c),
{
    if c == 34 {
        v.push(92);
        v.push(34);
    } else if c == 92 {
        v.push(92);
        v.push(92);
    } else if c < 32 {
        v.push(92);
        v.push(117);
        v.push(48);
        v.push(48);
        let hi = c / 16;
        let lo = c % 16;
        v.push(if hi < 10 { 48 + hi } else { 87 + hi });
        v.push(if lo < 10 { 48 + lo } else { 87 + lo });
    } else {
        v.push(c);
    }
    proof {
        assert(v@ =~= old(v)@ + spec_escape_byte(c));
    }
}

/// Appends a JSON string.
fn emit_string(v: &mut Vec<u8>, s: &str)
    ensures
        final(v)@ == old(v)@ + spec_json_string(s@),
{
    v.push(34);
    let b = s.as_bytes();
    let n = b.len();
    let mut i: usize = 0;
    while i < n
        invariant
            n == b@.len(),
            i <= n,
            b@ == s.spec_bytes(),
            v@ == old(v)@ + seq![34u8] + spec_escape(b@.take(i as int)),
        decreases n - i,
    {
        proof {
            assert(b@.take(i as int).push(b@[i as int]) =~= b@.take(i + 1));
            lemma_escape_snoc(b@.take(i as int), b@[i as int]);
        }
        emit_escape_byte(v, b[i]);
        proof {
            assert(v@ =~= old(v)@ + seq![34u8] + spec_escape(b@.take(i + 1)));
        }
        i = i + 1;
    }
    v.push(34);
    proof {
        assert(b@.take(n as int) =~= b@);
        assert(v@ =~= old(v)@ + spec_json_string(s@));
    }
}

/// The bytes of `\"Accept\"`.
#[verifier::opaque]
pub open spec fn spec_lit_accept() -> Seq<u8> {
    seq![34u8, 65u8, 99u8, 99u8, 101u8, 112u8, 116u8, 34u8]
}

/// Appends the bytes of `\"Accept\"`.
fn emit_lit_accept(v: &mut Vec<u8>)
    ensures
        final(v)@ == old(v)@ + spec_lit_accept(),
{
    v.push(34);
    v.push(65);
    v.push(99);
    v.push(99);
    v.push(101);
    v.push(112);
    v.push(116);
    v.push(34);
    proof {
        reveal(spec_lit_accept);
        assert(v@ =~= old(v)@ + spec_lit_accept());
    }
}

/// The bytes of `\"Drop\"`.
#[verifier::opaque]
pub open spec fn spec_lit_drop() -> Seq<u8> {
    seq![34u8, 68u8, 114u8, 111u8, 112u8, 34u8]
}

/// Appends the bytes of `\"Drop\"`.
fn emit_lit_drop(v: &mut Vec<u8>)
    ensures
        final(v)@ == old(v)@ + spec_lit_drop(),
{
    v.push(34);
    v.push(68);
    v.push(114);
    v.push(111);
    v.push(112);
    v.push(34);
    proof {
        reveal(spec_lit_drop);
        assert(v@ =~= old(v)@ + spec_lit_drop());
    }
}

/// The bytes of `{\"RateLimit\":`.
#[verifier::opaque]
pub open spec fn spec_lit_rl_open() -> Seq<u8> {
    seq![123u8, 34u8, 82u8, 97u8, 116u8, 101u8, 76u8, 105u8, 109u8, 105u8, 116u8, 34u8, 58u8]
}

/// Appends the bytes of `{\"RateLimit\":`.
fn emit_lit_rl_open(v: &mut Vec<u8>)
    ensures
        final(v)@ == old(v)@ + spec_lit_rl_open(),
{
    v.push(123);
    v.push(34);
    v.push(82);
    v.push(97);
    v.push(116);
    v.push(101);
    v.push(76);
    v.push(105);
    v.push(109);
    v.push(105);
    v.push(116);
    v.push(34);
    v.push(58);
    proof {
        reveal(spec_lit_rl_open);
        assert(v@ =~= old(v)@ + spec_lit_rl_open());
    }
}

/// The bytes of `\"Input\"`.
#[verifier::opaque]
pub open spec fn spec_lit_input() -> Seq<u8> {
    seq![34u8, 73u8, 110u8, 112u8, 117u8, 116u8, 34u8]
}

/// Appends the bytes of `\"Input\"`.
fn emit_lit_input(v: &mut Vec<u8>)
    ensures
        final(v)@ == old(v)@ + spec_lit_input(),
{
    v.push(34);
    v.push(73);
    v.push(110);
    v.push(112);
    v.push(117);
    v.push(116);
    v.push(34);
    proof {
        reveal(spec_lit_input);
        assert(v@ =~= old(v)@ + spec_lit_input());
    }
}

/// The bytes of `\"Output\"`.
#[verifier::opaque]
pub open spec fn spec_lit_output() -> Seq<u8> {
    seq![34u8, 79u8, 117u8, 116u8, 112u8, 117u8, 116u8, 34u8]
}

/// Appends the bytes of `\"Output\"`.
fn emit_lit_output(v: &mut Vec<u8>)
    ensures
        final(v)@ == old(v)@ + spec_lit_output(),
{
    v.push(34);
    v.push(79);
    v.push(117);
    v.push(116);
    v.push(112);
    v.push(117);
    v.push(116);
    v.push(34);
    proof {
        reveal(spec_lit_output);
        assert(v@ =~= old(v)@ + spec_lit_output());
    }
}

/// The bytes of `\"Tcp\"`.
#[verifier::opaque]
pub open spec fn spec_lit_tcp() -> Seq<u8> {
    seq![34u8, 84u8, 99u8, 112u8, 34u8]
}

/// Appends the bytes of `\"Tcp\"`.
fn emit_lit_tcp(v: &mut Vec<u8>)
    ensures
        final(v)@ == old(v)@ + spec_lit_tcp(),
{
    v.push(34);
    v.push(84);
    v.push(99);
    v.push(112);
    v.push(34);
    proof {
        reveal(spec_lit_tcp);
        assert(v@ =~= old(v)@ + spec_lit_tcp());
    }
}

/// The bytes of `\"Udp\"`.
#[verifier::opaque]
pub open spec fn spec_lit_udp() -> Seq<u8> {
    seq![34u8, 85u8, 100u8, 112u8, 34u8]
}

/// Appends the bytes of `\"Udp\"`.
fn emit_lit_udp(v: &mut Vec<u8>)
    ensures
        final(v)@ == old(v)@ + spec_lit_udp(),
{
    v.push(34);
    v.push(85);
    v.push(100);
    v.push(112);
    v.push(34);
    proof {
        reveal(spec_lit_udp);
        assert(v@ =~= old(v)@ + spec_lit_udp());
    }
}

/// The bytes of `\"UdpLite\"`.
#[verifier::opaque]
pub open spec fn spec_lit_udplite() -> Seq<u8> {
    seq![34u8, 85u8, 100u8, 112u8, 76u8, 105u8, 116u8, 101u8, 34u8]
}

/// Appends the bytes of `\"UdpLite\"`.
fn emit_lit_udplite(v: &mut Vec<u8>)
    ensures
        final(v)@ == old(v)@ + spec_lit_udplite(),
{
    v.push(34);
    v.push(85);
    v.push(100);
    v.push(112);
    v.push(76);
    v.push(105);
    v.push(116);
    v.push(101);
    v.push(34);
    proof {
        reveal(spec_lit_udplite);
        assert(v@ =~= old(v)@ + spec_lit_udplite());
    }
}

/// The bytes of `null`.
#[verifier::opaque]
pub open spec fn spec_lit_null() -> Seq<u8> {
    seq![110u8, 117u8, 108u8, 108u8]
}

/// Appends the bytes of `null`.
fn emit_lit_null(v: &mut Vec<u8>)
    ensures
        final(v)@ == old(v)@ + spec_lit_null(),
{
    v.push(110);
    v.push(117);
    v.push(108);
    v.push(108);
    proof {
        reveal(spec_lit_null);
        assert(v@ =~= old(v)@ + spec_lit_null());
    }
}

/// The bytes of `{\"V4\":`.
#[verifier::opaque]
pub open spec fn spec_lit_v4_open() -> Seq<u8> {
    seq![123u8, 34u8, 86u8, 52u8, 34u8, 58u8]
}

/// Appends the bytes of `{\"V4\":`.
fn emit_lit_v4_open(v: &mut Vec<u8>)
    ensures
        final(v)@ == old(v)@ + spec_lit_v4_open(),
{
    v.push(123);
    v.push(34);
    v.push(86);
    v.push(52);
    v.push(34);
    v.push(58);
    proof {
        reveal(spec_lit_v4_open);
        assert(v@ =~= old(v)@ + spec_lit_v4_open());
    }
}

/// The bytes of `{\"V6\":`.
#[verifier::opaque]
pub open spec fn spec_lit_v6_open() -> Seq<u8> {
    seq![123u8, 34u8, 86u8, 54u8, 34u8, 58u8]
}

/// Appends the bytes of `{\"V6\":`.
fn emit_lit_v6_open(v: &mut Vec<u8>)
    ensures
        final(v)@ == old(v)@ + spec_lit_v6_open(),
{
    v.push(123);
    v.push(34);
    v.push(86);
    v.push(54);
    v.push(34);
    v.push(58);
    proof {
        reveal(spec_lit_v6_open);
        assert(v@ =~= old(v)@ + spec_lit_v6_open());
    }
}

/// The bytes of `{\"start\":`.
#[verifier::opaque]
pub open spec fn spec_lit_range_open() -> Seq<u8> {
    seq![123u8, 34u8, 115u8, 116u8, 97u8, 114u8, 116u8, 34u8, 58u8]
}

/// Appends the bytes of `{\"start\":`.
fn emit_lit_range_open(v: &mut Vec<u8>)
    ensures
        final(v)@ == old(v)@ + spec_lit_range_open(),
{
    v.push(123);
    v.push(34);
    v.push(115);
    v.push(116);
    v.push(97);
    v.push(114);
    v.push(116);
    v.push(34);
    v.push(58);
    proof {
        reveal(spec_lit_range_open);
        assert(v@ =~= old(v)@ + spec_lit_range_open());
    }
}

/// The bytes of `,\"end\":`.
#[verifier::opaque]
pub open spec fn spec_lit_range_mid() -> Seq<u8> {
    seq![44u8, 34u8, 101u8, 110u8, 100u8, 34u8, 58u8]
}

/// Appends the bytes of `,\"end\":`.
fn emit_lit_range_mid(v: &mut Vec<u8>)
    ensures
        final(v)@ == old(v)@ + spec_lit_range_mid(),
{
    v.push(44);
    v.push(34);
    v.push(101);
    v.push(110);
    v.push(100);
    v.push(34);
    v.push(58);
    proof {
        reveal(spec_lit_range_mid);
        assert(v@ =~= old(v)@ + spec_lit_range_mid());
    }
}

/// The bytes of `{\"device\":`.
#[verifier::opaque]
pub open spec fn spec_lit_rule_open() -> Seq<u8> {
    seq![123u8, 34u8, 100u8, 101u8, 118u8, 105u8, 99u8, 101u8, 34u8, 58u8]
}

/// Appends the bytes of `{\"device\":`.
fn emit_lit_rule_open(v: &mut Vec<u8>)
    ensures
        final(v)@ == old(v)@ + spec_lit_rule_open(),
{
    v.push(123);
    v.push(34);
    v.push(100);
    v.push(101);
    v.push(118);
    v.push(105);
    v.push(99);
    v.push(101);
    v.push(34);
    v.push(58);
    proof {
        reveal(spec_lit_rule_open);
        assert(v@ =~= old(v)@ + spec_lit_rule_open());
    }
}

/// The bytes of `,\"proto\":`.
#[verifier::opaque]
pub open spec fn spec_lit_key_proto() -> Seq<u8> {
    seq![44u8, 34u8, 112u8, 114u8, 111u8, 116u8, 111u8, 34u8, 58u8]
}

/// Appends the bytes of `,\"proto\":`.
fn emit_lit_key_proto(v: &mut Vec<u8>)
    ensures
        final(v)@ == old(v)@ + spec_lit_key_proto(),
{
    v.push(44);
    v.push(34);
    v.push(112);
    v.push(114);
    v.push(111);
    v.push(116);
    v.push(111);
    v.push(34);
    v.push(58);
    proof {
        reveal(spec_lit_key_proto);
        assert(v@ =~= old(v)@ + spec_lit_key_proto());
    }
}

/// The bytes of `,\"exe\":`.
#[verifier::opaque]
pub open spec fn spec_lit_key_exe() -> Seq<u8> {
    seq![44u8, 34u8, 101u8, 120u8, 101u8, 34u8, 58u8]
}

/// Appends the bytes of `,\"exe\":`.
fn emit_lit_key_exe(v: &mut Vec<u8>)
    ensures
        final(v)@ == old(v)@ + spec_lit_key_exe(),
{
    v.push(44);
    v.push(34);
    v.push(101);
    v.push(120);
    v.push(101);
    v.push(34);
    v.push(58);
    proof {
        reveal(spec_lit_key_exe);
        assert(v@ =~= old(v)@ + spec_lit_key_exe());
    }
}

/// The bytes of `,\"port\":`.
#[verifier::opaque]
pub open spec fn spec_lit_key_port() -> Seq<u8> {
    seq![44u8, 34u8, 112u8, 111u8, 114u8, 116u8, 34u8, 58u8]
}

/// Appends the bytes of `,\"port\":`.
fn emit_lit_key_port(v: &mut Vec<u8>)
    ensures
        final(v)@ == old(v)@ + spec_lit_key_port(),
{
    v.push(44);
    v.push(34);
    v.push(112);
    v.push(111);
    v.push(114);
    v.push(116);
    v.push(34);
    v.push(58);
    proof {
        reveal(spec_lit_key_port);
        assert(v@ =~= old(v)@ + spec_lit_key_port());
    }
}

/// The bytes of `,\"subnet\":[`.
#[verifier::opaque]
pub open spec fn spec_lit_key_subnet() -> Seq<u8> {
    seq![44u8, 34u8, 115u8, 117u8, 98u8, 110u8, 101u8, 116u8, 34u8, 58u8, 91u8]
}

/// Appends the bytes of `,\"subnet\":[`.
fn emit_lit_key_subnet(v: &mut Vec<u8>)
    ensures
        final(v)@ == old(v)@ + spec_lit_key_subnet(),
{
    v.push(44);
    v.push(34);
    v.push(115);
    v.push(117);
    v.push(98);
    v.push(110);
    v.push(101);
    v.push(116);
    v.push(34);
    v.push(58);
    v.push(91);
    proof {
        reveal(spec_lit_key_subnet);
        assert(v@ =~= old(v)@ + spec_lit_key_subnet());
    }
}

/// The bytes of `,\"target\":`.
#[verifier::opaque]
pub open spec fn spec_lit_key_target() -> Seq<u8> {
    seq![44u8, 34u8, 116u8, 97u8, 114u8, 103u8, 101u8, 116u8, 34u8, 58u8]
}

/// Appends the bytes of `,\"target\":`.
fn emit_lit_key_target(v: &mut Vec<u8>)
    ensures
        final(v)@ == old(v)@ + spec_lit_key_target(),
{
    v.push(44);
    v.push(34);
    v.push(116);
    v.push(97);
    v.push(114);
    v.push(103);
    v.push(101);
    v.push(116);
    v.push(34);
    v.push(58);
    proof {
        reveal(spec_lit_key_target);
        assert(v@ =~= old(v)@ + spec_lit_key_target());
    }
}

/// The bytes of `{\"name\":`.
#[verifier::opaque]
pub open spec fn spec_lit_rate_open() -> Seq<u8> {
    seq![123u8, 34u8, 110u8, 97u8, 109u8, 101u8, 34u8, 58u8]
}

/// Appends the bytes of `{\"name\":`.
fn emit_lit_rate_open(v: &mut Vec<u8>)
    ensures
        final(v)@ == old(v)@ + spec_lit_rate_open(),
{
    v.push(123);
    v.push(34);
    v.push(110);
    v.push(97);
    v.push(109);
    v.push(101);
    v.push(34);
    v.push(58);
    proof {
        reveal(spec_lit_rate_open);
        assert(v@ =~= old(v)@ + spec_lit_rate_open());
    }
}

/// The bytes of `,\"limit\":`.
#[verifier::opaque]
pub open spec fn spec_lit_key_limit() -> Seq<u8> {
    seq![44u8, 34u8, 108u8, 105u8, 109u8, 105u8, 116u8, 34u8, 58u8]
}

/// Appends the bytes of `,\"limit\":`.
fn emit_lit_key_limit(v: &mut Vec<u8>)
    ensures
        final(v)@ == old(v)@ + spec_lit_key_limit(),
{
    v.push(44);
    v.push(34);
    v.push(108);
    v.push(105);
    v.push(109);
    v.push(105);
    v.push(116);
    v.push(34);
    v.push(58);
    proof {
        reveal(spec_lit_key_limit);
        assert(v@ =~= old(v)@ + spec_lit_key_limit());
    }
}

/// The bytes of `{\"default_target\":`.
#[verifier::opaque]
pub open spec fn spec_lit_rules_open() -> Seq<u8> {
    seq![123u8, 34u8, 100u8, 101u8, 102u8, 97u8, 117u8, 108u8, 116u8, 95u8, 116u8, 97u8, 114u8, 103u8, 101u8, 116u8, 34u8, 58u8]
}

/// Appends the bytes of `{\"default_target\":`.
fn emit_lit_rules_open(v: &mut Vec<u8>)
    ensures
        final(v)@ == old(v)@ + spec_lit_rules_open(),
{
    v.push(123);
    v.push(34);
    v.push(100);
    v.push(101);
    v.push(102);
    v.push(97);
    v.push(117);
    v.push(108);
    v.push(116);
    v.push(95);
    v.push(116);
    v.push(97);
    v.push(114);
    v.push(103);
    v.push(101);
    v.push(116);
    v.push(34);
    v.push(58);
    proof {
        reveal(spec_lit_rules_open);
        assert(v@ =~= old(v)@ + spec_lit_rules_open());
    }
}

/// The bytes of `,\"rules\":[`.
#[verifier::opaque]
pub open spec fn spec_lit_key_rules() -> Seq<u8> {
    seq![44u8, 34u8, 114u8, 117u8, 108u8, 101u8, 115u8, 34u8, 58u8, 91u8]
}

/// Appends the bytes of `,\"rules\":[`.
fn emit_lit_key_rules(v: &mut Vec<u8>)
    ensures
        final(v)@ == old(v)@ + spec_lit_key_rules(),
{
    v.push(44);
    v.push(34);
    v.push(114);
    v.push(117);
    v.push(108);
    v.push(101);
    v.push(115);
    v.push(34);
    v.push(58);
    v.push(91);
    proof {
        reveal(spec_lit_key_rules);
        assert(v@ =~= old(v)@ + spec_lit_key_rules());
    }
}

/// The bytes of `],\"rate_rules\":[`.
#[verifier::opaque]
pub open spec fn spec_lit_key_rate_rules() -> Seq<u8> {
    seq![93u8, 44u8, 34u8, 114u8, 97u8, 116u8, 101u8, 95u8, 114u8, 117u8, 108u8, 101u8, 115u8, 34u8, 58u8, 91u8]
}

/// Appends the bytes of `],\"rate_rules\":[`.
fn emit_lit_key_rate_rules(v: &mut Vec<u8>)
    ensures
        final(v)@ == old(v)@ + spec_lit_key_rate_rules(),
{
    v.push(93);
    v.push(44);
    v.push(34);
    v.push(114);
    v.push(97);
    v.push(116);
    v.push(101);
    v.push(95);
    v.push(114);
    v.push(117);
    v.push(108);
    v.push(101);
    v.push(115);
    v.push(34);
    v.push(58);
    v.push(91);
    proof {
        reveal(spec_lit_key_rate_rules);
        assert(v@ =~= old(v)@ + spec_lit_key_rate_rules());
    }
}

/// The bytes of `]}`.
#[verifier::opaque]
pub open spec fn spec_lit_rules_close() -> Seq<u8> {
    seq![93u8, 125u8]
}

/// Appends the bytes of `]}`.
fn emit_lit_rules_close(v: &mut Vec<u8>)
    ensures
        final(v)@ == old(v)@ + spec_lit_rules_close(),
{
    v.push(93);
    v.push(125);
    proof {
        reveal(spec_lit_rules_close);
        assert(v@ =~= old(v)@ + spec_lit_rules_close());
    }
}

/// The JSON form of a device.
pub open spec fn spec_json_device(d: Device) -> Seq<u8> {
    match d {
        Device::Input => spec_lit_input(),
        Device::Output => spec_lit_output(),
    }
}

/// The JSON form of a protocol.
pub open spec fn spec_json_proto(p: Proto) -> Seq<u8> {
    match p {
        Proto::Tcp => spec_lit_tcp(),
        Proto::Udp => spec_lit_udp(),
        Proto::UdpLite => spec_lit_udplite(),
    }
}

/// The JSON form of a target.
pub open spec fn spec_json_target(t: RuleTarget) -> Seq<u8> {
    match t {
        RuleTarget::Accept => spec_lit_accept(),
        RuleTarget::Drop => spec_lit_drop(),
        RuleTarget::RateLimit(k) => spec_lit_rl_open() + spec_dec_bytes(k as u128) + seq![125u8],
    }
}

/// The JSON form of an address.
pub open spec fn spec_json_ip(ip: IpAddress) -> Seq<u8> {
    match ip {
        IpAddress::V4(x) => spec_lit_v4_open() + spec_dec_bytes(x as u128) + seq![125u8],
        IpAddress::V6(x) => spec_lit_v6_open() + spec_dec_bytes(x as u128) + seq![125u8],
    }
}

/// The JSON form of a port range.
pub open spec fn spec_json_range(r: RangeInclusiveOwned<u16>) -> Seq<u8> {
    spec_lit_range_open() + spec_dec_bytes(r.start as u128) + spec_lit_range_mid()
        + spec_dec_bytes(r.end as u128) + seq![125u8]
}

/// The JSON form of one rule.
#[verifier::opaque]
pub open spec fn spec_json_rule(r: RuleV) -> Seq<u8> {
    spec_lit_rule_open() + (match r.device {
        Option::None => spec_lit_null(),
        Option::Some(d) => spec_json_device(d),
    }) + spec_lit_key_proto() + (match r.proto {
        Option::None => spec_lit_null(),
        Option::Some(p) => spec_json_proto(p),
    }) + spec_lit_key_exe() + (match r.exe {
        Option::None => spec_lit_null(),
        Option::Some(s) => spec_json_string(s),
    }) + spec_lit_key_port() + (match r.port {
        Option::None => spec_lit_null(),
        Option::Some(pr) => spec_json_range(pr),
    }) + spec_lit_key_subnet() + spec_json_ip(r.subnet.0) + seq![44u8] + spec_dec_bytes(
        r.subnet.1 as u128,
    ) + seq![93u8] + spec_lit_key_target() + spec_json_target(r.target) + seq![125u8]
}

/// The JSON form of a rule list's items, comma separated.
pub open spec fn spec_json_rule_items(rs: Seq<RuleV>) -> Seq<u8>
    decreases rs.len(),
{
    if rs.len() == 0 {
        Seq::empty()
    } else if rs.len() == 1 {
        spec_json_rule(rs.first())
    } else {
        spec_json_rule(rs.first()) + seq![44u8] + spec_json_rule_items(rs.drop_first())
    }
}

/// The JSON form of one rate rule.
pub open spec fn spec_json_rate(name: Seq<char>, limit: usize) -> Seq<u8> {
    spec_lit_rate_open() + spec_json_string(name) + spec_lit_key_limit() + spec_dec_bytes(
        limit as u128,
    ) + seq![125u8]
}

/// The JSON form of a rate rule list's items, comma separated.
pub open spec fn spec_json_rate_items(rs: Seq<(Seq<char>, usize)>) -> Seq<u8>
    decreases rs.len(),
{
    if rs.len() == 0 {
        Seq::empty()
    } else if rs.len() == 1 {
        spec_json_rate(rs.first().0, rs.first().1)
    } else {
        spec_json_rate(rs.first().0, rs.first().1) + seq![44u8] + spec_json_rate_items(
            rs.drop_first(),
        )
    }
}

/// The JSON form of a whole rule set.
pub open spec fn spec_json_rules(r: RulesV) -> Seq<u8> {
    spec_lit_rules_open() + spec_json_target(r.default_target) + spec_lit_key_rules()
        + spec_json_rule_items(r.rules) + spec_lit_key_rate_rules() + spec_json_rate_items(
        r.rate_rules,
    ) + spec_lit_rules_close()
}

/// Appends a target.
fn emit_target(v: &mut Vec<u8>, t: RuleTarget)
    ensures
        final(v)@ == old(v)@ + spec_json_target(t),
{
    match t {
        RuleTarget::Accept => emit_lit_accept(v),
        RuleTarget::Drop => emit_lit_drop(v),
        RuleTarget::RateLimit(k) => {
            emit_lit_rl_open(v);
            emit_dec(v, k as u128);
            v.push(125);
            proof {
                assert(v@ =~= old(v)@ + spec_json_target(t));
            }
        },
    }
}

/// Appends an address.
fn emit_ip(v: &mut Vec<u8>, ip: IpAddress)
    ensures
        final(v)@ == old(v)@ + spec_json_ip(ip),
{
    match ip {
        IpAddress::V4(x) => {
            emit_lit_v4_open(v);
            emit_dec(v, x as u128);
        },
        IpAddress::V6(x) => {
            emit_lit_v6_open(v);
            emit_dec(v, x as u128);
        },
    }
    v.push(125);
    proof {
        assert(v@ =~= old(v)@ + spec_json_ip(ip));
    }
}

/// Appends a device or `null`.
fn emit_opt_device(v: &mut Vec<u8>, d: &Option<Device>)
    ensures
        final(v)@ == old(v)@ + (match *d {
            Option::None => spec_lit_null(),
            Option::Some(dv) => spec_json_device(dv),
        }),
{
    match d {
        Option::None => emit_lit_null(v),
        Option::Some(Device::Input) => emit_lit_input(v),
        Option::Some(Device::Output) => emit_lit_output(v),
    }
}

/// Appends a protocol or `null`.
fn emit_opt_proto(v: &mut Vec<u8>, p: &Option<Proto>)
    ensures
        final(v)@ == old(v)@ + (match *p {
            Option::None => spec_lit_null(),
            Option::Some(pv) => spec_json_proto(pv),
        }),
{
    match p {
        Option::None => emit_lit_null(v),
        Option::Some(Proto::Tcp) => emit_lit_tcp(v),
        Option::Some(Proto::Udp) => emit_lit_udp(v),
        Option::Some(Proto::UdpLite) => emit_lit_udplite(v),
    }
}

/// Appends a path string or `null`.
fn emit_opt_exe(v: &mut Vec<u8>, e: &Option<String>)
    ensures
        final(v)@ == old(v)@ + (match *e {
            Option::None => spec_lit_null(),
            Option::Some(ref s) => spec_json_string(s@),
        }),
{
    match e {
        Option::None => emit_lit_null(v),
        Option::Some(s) => emit_string(v, s.as_str()),
    }
}

/// Appends a port range or `null`.
fn emit_opt_range(v: &mut Vec<u8>, r: &Option<RangeInclusiveOwned<u16>>)
    ensures
        final(v)@ == old(v)@ + (match *r {
            Option::None => spec_lit_null(),
            Option::Some(pr) => spec_json_range(pr),
        }),
{
    match r {
        Option::None => emit_lit_null(v),
        Option::Some(pr) => {
            emit_lit_range_open(v);
            emit_dec(v, pr.start as u128);
            emit_lit_range_mid(v);
            emit_dec(v, pr.end as u128);
            v.push(125);
            proof {
                assert(v@ =~= old(v)@ + spec_json_range(*pr));
            }
        },
    }
}

/// Appends the subnet pair `[ip,mask]` with the trailing target key.
fn emit_subnet(v: &mut Vec<u8>, subnet: (IpAddress, u8))
    ensures
        final(v)@ == old(v)@ + spec_json_ip(subnet.0) + seq![44u8] + spec_dec_bytes(
            subnet.1 as u128,
        ) + seq![93u8],
{
    emit_ip(v, subnet.0);
    v.push(44);
    emit_dec(v, subnet.1 as u128);
    v.push(93);
    proof {
        assert(v@ =~= old(v)@ + spec_json_ip(subnet.0) + seq![44u8] + spec_dec_bytes(
            subnet.1 as u128,
        ) + seq![93u8]);
    }
}

/// Appends one rule.
#[verifier::rlimit(100)]
#[verifier::spinoff_prover]
fn emit_rule(v: &mut Vec<u8>, r: &Rule)
    ensures
        final(v)@ == old(v)@ + spec_json_rule(r@),
{
    emit_lit_rule_open(v);
    emit_opt_device(v, &r.device);
    emit_lit_key_proto(v);
    emit_opt_proto(v, &r.proto);
    emit_lit_key_exe(v);
    emit_opt_exe(v, &r.exe);
    emit_lit_key_port(v);
    emit_opt_range(v, &r.port);
    emit_lit_key_subnet(v);
    emit_subnet(v, r.subnet);
    emit_lit_key_target(v);
    emit_target(v, r.target);
    v.push(125);
    proof {
        reveal(spec_json_rule);
        assert(v@ =~= old(v)@ + spec_json_rule(r@));
    }
}

/// Appends the rule items from index `i` on.
fn emit_rule_items(v: &mut Vec<u8>, rs: &Vec<Rule>, i: usize)
    requires
        i <= rs@.len(),
    ensures
        final(v)@ == old(v)@ + spec_json_rule_items(spec_rules_suffix(rs@, i as int)),
    decreases rs@.len() - i,
{
    if i < rs.len() {
        emit_rule(v, &rs[i]);
        if i + 1 < rs.len() {
            v.push(44);
            emit_rule_items(v, rs, i + 1);
        }
        proof {
            lemma_rules_suffix_unfold(rs@, i as int);
            assert(v@ =~= old(v)@ + spec_json_rule_items(spec_rules_suffix(rs@, i as int)));
        }
    } else {
        proof {
            assert(spec_rules_suffix(rs@, i as int) =~= Seq::<RuleV>::empty());
            assert(v@ =~= old(v)@ + spec_json_rule_items(spec_rules_suffix(rs@, i as int)));
        }
    }
}

/// The views of the rules from index `i` on.
pub open spec fn spec_rules_suffix(rs: Seq<Rule>, i: int) -> Seq<RuleV> {
    Seq::new(if i <= rs.len() { (rs.len() - i) as nat } else { 0 }, |j: int| rs[i + j]@)
}

/// One step of the suffix view.
proof fn lemma_rules_suffix_unfold(rs: Seq<Rule>, i: int)
    requires
        0 <= i < rs.len(),
    ensures
        spec_rules_suffix(rs, i).len() >= 1,
        spec_rules_suffix(rs, i).first() == rs[i]@,
        spec_rules_suffix(rs, i).drop_first() =~= spec_rules_suffix(rs, i + 1),
{
}

/// The name/limit views of the rate rules from index `i` on.
pub open spec fn spec_rate_suffix(rs: Seq<RateLimitRule>, i: int) -> Seq<(Seq<char>, usize)> {
    Seq::new(
        if i <= rs.len() { (rs.len() - i) as nat } else { 0 },
        |j: int| (rs[i + j].name@, rs[i + j].limit),
    )
}

/// One step of the rate suffix view.
proof fn lemma_rate_suffix_unfold(rs: Seq<RateLimitRule>, i: int)
    requires
        0 <= i < rs.len(),
    ensures
        spec_rate_suffix(rs, i).len() >= 1,
        spec_rate_suffix(rs, i).first() == (rs[i].name@, rs[i].limit),
        spec_rate_suffix(rs, i).drop_first() =~= spec_rate_suffix(rs, i + 1),
{
}

/// Appends the rate rule items from index `i` on.
fn emit_rate_items(v: &mut Vec<u8>, rs: &Vec<RateLimitRule>, i: usize)
    requires
        i <= rs@.len(),
    ensures
        final(v)@ == old(v)@ + spec_json_rate_items(spec_rate_suffix(rs@, i as int)),
    decreases rs@.len() - i,
{
    if i < rs.len() {
        emit_lit_rate_open(v);
        emit_string(v, rs[i].name.as_str());
        emit_lit_key_limit(v);
        emit_dec(v, rs[i].limit as u128);
        v.push(125);
        if i + 1 < rs.len() {
            v.push(44);
            emit_rate_items(v, rs, i + 1);
        }
        proof {
            lemma_rate_suffix_unfold(rs@, i as int);
            assert(v@ =~= old(v)@ + spec_json_rate_items(spec_rate_suffix(rs@, i as int)));
        }
    } else {
        proof {
            assert(spec_rate_suffix(rs@, i as int) =~= Seq::<(Seq<char>, usize)>::empty());
            assert(v@ =~= old(v)@ + spec_json_rate_items(spec_rate_suffix(rs@, i as int)));
        }
    }
}

/// Prints a rule set in its canonical JSON form.
pub fn to_json(r: &Rules) -> (out: Vec<u8>)
    ensures
        out@ == spec_json_rules(r@),
{
    let mut v: Vec<u8> = Vec::new();
    emit_lit_rules_open(&mut v);
    emit_target(&mut v, r.default_target);
    emit_lit_key_rules(&mut v);
    emit_rule_items(&mut v, &r.rules, 0);
    emit_lit_key_rate_rules(&mut v);
    emit_rate_items(&mut v, &r.rate_rules, 0);
    emit_lit_rules_close(&mut v);
    proof {
        assert(spec_rules_suffix(r.rules@, 0) =~= r@.rules);
        assert(spec_rate_suffix(r.rate_rules@, 0) =~= r@.rate_rules);
        assert(v@ =~= spec_json_rules(r@));
    }
    v
}

/// The bytes of `,\"rate_rules\":[`.
#[verifier::opaque]
pub open spec fn spec_lit_rate_tail() -> Seq<u8> {
    seq![44u8, 34u8, 114u8, 97u8, 116u8, 101u8, 95u8, 114u8, 117u8, 108u8, 101u8, 115u8, 34u8, 58u8, 91u8]
}

/// The JSON blanks: space, tab, line feed, carriage return.
pub open spec fn spec_is_ws(c: u8) -> bool {
    c == 32 || c == 9 || c == 10 || c == 13
}

/// The text with its leading blanks dropped.
pub open spec fn spec_skip_ws(b: Seq<u8>) -> Seq<u8>
    decreases b.len(),
{
    if b.len() > 0 && spec_is_ws(b[0]) {
        spec_skip_ws(b.drop_first())
    } else {
        b
    }
}

/// Skipping blanks changes nothing where none lead.
pub proof fn lemma_skip_ws_id(b: Seq<u8>)
    requires
        b.len() == 0 || !spec_is_ws(b[0]),
    ensures
        spec_skip_ws(b) == b,
{
}

/// Consumes a literal from byte `i` on, blanks allowed before every byte
/// that stands outside the literal's quotes.
pub open spec fn spec_parse_lit_rec(b: Seq<u8>, lit: Seq<u8>, i: int, inq: bool) -> Option<Seq<u8>>
    decreases lit.len() - i,
{
    if i < 0 || i >= lit.len() {
        Some(b)
    } else {
        let b2 = if inq {
            b
        } else {
            spec_skip_ws(b)
        };
        if b2.len() >= 1 && b2[0] == lit[i] {
            spec_parse_lit_rec(
                b2.drop_first(),
                lit,
                i + 1,
                if lit[i] == 34 {
                    !inq
                } else {
                    inq
                },
            )
        } else {
            None
        }
    }
}

/// Consumes an exact literal, blanks between its tokens allowed: outside the
/// literal's quoted parts any blanks in the text are skipped.
pub open spec fn spec_parse_lit(b: Seq<u8>, lit: Seq<u8>) -> Option<Seq<u8>> {
    spec_parse_lit_rec(b, lit, 0, false)
}

/// A blank-free literal suffix followed by anything parses to the rest.
proof fn lemma_parse_lit_rec_prepend(lit: Seq<u8>, i: int, inq: bool, rest: Seq<u8>)
    requires
        0 <= i <= lit.len(),
        forall|j: int| 0 <= j < lit.len() ==> !spec_is_ws(#[trigger] lit[j]),
    ensures
        spec_parse_lit_rec(lit.skip(i) + rest, lit, i, inq) == Some(rest),
    decreases lit.len() - i,
{
    let b = lit.skip(i) + rest;
    if i >= lit.len() {
        assert(b =~= rest);
    } else {
        assert(b[0] == lit[i]);
        if !inq {
            lemma_skip_ws_id(b);
        }
        assert(b.drop_first() =~= lit.skip(i + 1) + rest);
        lemma_parse_lit_rec_prepend(
            lit,
            i + 1,
            if lit[i] == 34 {
                !inq
            } else {
                inq
            },
            rest,
        );
    }
}

/// A literal prefix parses to the rest.
pub proof fn lemma_parse_lit_prepend(lit: Seq<u8>, rest: Seq<u8>)
    requires
        lit.len() >= 1,
        forall|j: int| 0 <= j < lit.len() ==> !spec_is_ws(#[trigger] lit[j]),
    ensures
        spec_parse_lit(lit + rest, lit) == Some(rest),
{
    assert(lit.skip(0) =~= lit);
    lemma_parse_lit_rec_prepend(lit, 0, false, rest);
}

/// The parse is stuck where the aligned text differs from the literal.
proof fn lemma_parse_lit_rec_stuck(b: Seq<u8>, lit: Seq<u8>, i: int, j: int, inq: bool)
    requires
        0 <= j <= i < lit.len(),
        forall|w: int| 0 <= w < lit.len() ==> !spec_is_ws(#[trigger] lit[w]),
        forall|u: int| 0 <= u && u < i - j && u < b.len() ==> #[trigger] b[u] == lit[u + j],
        b.len() <= i - j || (b[i - j] != lit[i] && !spec_is_ws(b[i - j])),
    ensures
        spec_parse_lit_rec(b, lit, j, inq) is None,
    decreases i - j,
{
    if b.len() == 0 {
    } else if j == i {
        if !inq {
            lemma_skip_ws_id(b);
        }
    } else {
        assert(b[0] == lit[0 + j]);
        if !inq {
            lemma_skip_ws_id(b);
        }
        assert forall|u: int|
            0 <= u && u < i - (j + 1) && u < b.drop_first().len() implies #[trigger] b.drop_first()[u]
                == lit[u + (j + 1)] by {
            assert(b[u + 1] == lit[(u + 1) + j]);
            assert(b.drop_first()[u] == b[u + 1]);
        }
        if i - j < b.len() {
            assert(b.drop_first()[i - (j + 1)] == b[i - j]);
        }
        lemma_parse_lit_rec_stuck(
            b.drop_first(),
            lit,
            i,
            j + 1,
            if lit[j] == 34 {
                !inq
            } else {
                inq
            },
        );
    }
}

/// How many leading decimal digits the text has.
pub open spec fn spec_digit_run(b: Seq<u8>) -> int
    decreases b.len(),
{
    if b.len() == 0 || !(48 <= b[0] <= 57) {
        0
    } else {
        1 + spec_digit_run(b.drop_first())
    }
}

/// Consumes a decimal number of at most `u128` range, blanks before it
/// allowed.
pub open spec fn spec_parse_dec(b: Seq<u8>) -> Option<(u128, Seq<u8>)> {
    let b2 = spec_skip_ws(b);
    let k = spec_digit_run(b2);
    if k == 0 {
        None
    } else if spec_dec_value(b2.take(k)) > u128::MAX {
        None
    } else {
        Some((spec_dec_value(b2.take(k)) as u128, b2.skip(k)))
    }
}

/// The digit run of digits followed by a non-digit is all the digits.
proof fn lemma_digit_run_exact(s: Seq<u8>, rest: Seq<u8>)
    requires
        forall|i: int| 0 <= i < s.len() ==> 48 <= #[trigger] s[i] <= 57,
        rest.len() == 0 || !(48 <= rest[0] <= 57),
    ensures
        spec_digit_run(s + rest) == s.len(),
    decreases s.len(),
{
    if s.len() == 0 {
        assert(s + rest =~= rest);
    } else {
        assert((s + rest)[0] == s[0]);
        assert((s + rest).drop_first() =~= s.drop_first() + rest);
        lemma_digit_run_exact(s.drop_first(), rest);
    }
}

/// A printed number followed by a non-digit reads back exactly.
pub proof fn lemma_parse_dec_inverts(n: u128, rest: Seq<u8>)
    requires
        rest.len() == 0 || !(48 <= rest[0] <= 57),
    ensures
        spec_parse_dec(spec_dec_bytes(n) + rest) == Some((n, rest)),
{
    lemma_dec_bytes_value(n);
    lemma_digit_run_exact(spec_dec_bytes(n), rest);
    let b = spec_dec_bytes(n) + rest;
    let k = spec_digit_run(b);
    assert(k == spec_dec_bytes(n).len());
    assert(b.take(k) =~= spec_dec_bytes(n));
    assert(b.skip(k) =~= rest);
}

/// Whether a byte is a lower-case hex digit, and its value.
pub open spec fn spec_is_hex(c: u8) -> bool {
    (48 <= c <= 57) || (97 <= c <= 102)
}

/// The value of a lower-case hex digit.
pub open spec fn spec_hex_value(c: u8) -> u8 {
    if 48 <= c <= 57 {
        (c - 48) as u8
    } else {
        (c - 87) as u8
    }
}

/// Consumes escaped string content up to and including the closing quote.
pub open spec fn spec_parse_str_body(b: Seq<u8>) -> Option<(Seq<u8>, Seq<u8>)>
    decreases b.len(),
{
    if b.len() == 0 {
        None
    } else if b[0] == 34 {
        Some((Seq::empty(), b.drop_first()))
    } else if b[0] == 92 {
        if b.len() < 2 {
            None
        } else if b[1] == 34 || b[1] == 92 {
            match spec_parse_str_body(b.skip(2)) {
                Some((content, rest)) => Some((seq![b[1]] + content, rest)),
                None => None,
            }
        } else if b[1] == 117 {
            if b.len() >= 6 && b[2] == 48 && b[3] == 48 && spec_is_hex(b[4]) && spec_is_hex(b[5]) {
                match spec_parse_str_body(b.skip(6)) {
                    Some((content, rest)) => Some(
                        (
                            seq![(spec_hex_value(b[4]) * 16 + spec_hex_value(b[5])) as u8]
                                + content,
                            rest,
                        ),
                    ),
                    None => None,
                }
            } else {
                None
            }
        } else {
            None
        }
    } else if b[0] < 32 {
        None
    } else {
        match spec_parse_str_body(b.drop_first()) {
            Some((content, rest)) => Some((seq![b[0]] + content, rest)),
            None => None,
        }
    }
}

/// Consumes a JSON string, yielding its characters; blanks before the
/// opening quote allowed, none inside touched.
pub open spec fn spec_parse_string(b: Seq<u8>) -> Option<(Seq<char>, Seq<u8>)> {
    let b = spec_skip_ws(b);
    if b.len() >= 1 && b[0] == 34 {
        match spec_parse_str_body(b.drop_first()) {
            Some((content, rest)) => if vstd::utf8::valid_utf8(content) {
                Some((vstd::utf8::decode_utf8(content), rest))
            } else {
                None
            },
            None => None,
        }
    } else {
        None
    }
}

/// Escaped content followed by the closing quote reads back exactly.
proof fn lemma_parse_str_body_inverts(content: Seq<u8>, rest: Seq<u8>)
    ensures
        spec_parse_str_body(spec_escape(content) + seq![34u8] + rest) == Some((content, rest)),
    decreases content.len(),
{
    let b = spec_escape(content) + seq![34u8] + rest;
    if content.len() == 0 {
        assert(spec_escape(content) =~= Seq::<u8>::empty());
        assert(b =~= seq![34u8] + rest);
        assert(b[0] == 34);
        assert(b.drop_first() =~= rest);
    } else {
        let c = content.first();
        let tail = content.drop_first();
        assert(spec_escape(content) == spec_escape_byte(c) + spec_escape(tail));
        lemma_parse_str_body_inverts(tail, rest);
        let sub = spec_escape(tail) + seq![34u8] + rest;
        if c == 34 {
            assert(b[0] == 92 && b[1] == 34);
            assert(b.skip(2) =~= sub);
            assert(seq![b[1]] + tail =~= content);
        } else if c == 92 {
            assert(b[0] == 92 && b[1] == 92);
            assert(b.skip(2) =~= sub);
            assert(seq![b[1]] + tail =~= content);
        } else if c < 32 {
            assert(b[0] == 92 && b[1] == 117 && b[2] == 48 && b[3] == 48);
            assert(b[4] == spec_hex_digit(c / 16) && b[5] == spec_hex_digit(c % 16));
            assert(spec_is_hex(spec_hex_digit(c / 16)) && spec_hex_value(spec_hex_digit(c / 16))
                == c / 16);
            assert(spec_is_hex(spec_hex_digit(c % 16)) && spec_hex_value(spec_hex_digit(c % 16))
                == c % 16);
            assert((c / 16) * 16 + c % 16 == c) by (nonlinear_arith);
            assert(b.skip(6) =~= sub);
            assert(seq![(spec_hex_value(b[4]) * 16 + spec_hex_value(b[5])) as u8] + tail
                =~= content);
        } else {
            assert(b[0] == c);
            assert(b[0] != 34 && b[0] != 92 && !(b[0] < 32));
            assert(b.drop_first() =~= sub);
            assert(seq![b[0]] + tail =~= content);
        }
    }
}

/// A printed string reads back exactly.
pub proof fn lemma_parse_string_inverts(s: Seq<char>, rest: Seq<u8>)
    ensures
        spec_parse_string(spec_json_string(s) + rest) == Some((s, rest)),
{
    let b = spec_json_string(s) + rest;
    assert(b[0] == 34);
    let enc = vstd::utf8::encode_utf8(s);
    assert(b.drop_first() =~= spec_escape(enc) + seq![34u8] + rest);
    lemma_parse_str_body_inverts(enc, rest);
    vstd::utf8::encode_utf8_valid_utf8(s);
    vstd::utf8::encode_utf8_decode_utf8(s);
}

/// Consumes a device name.
pub open spec fn spec_parse_device(b: Seq<u8>) -> Option<(Device, Seq<u8>)> {
    if spec_parse_lit(b, spec_lit_input()) is Some {
        Some((Device::Input, spec_parse_lit(b, spec_lit_input()).unwrap()))
    } else if spec_parse_lit(b, spec_lit_output()) is Some {
        Some((Device::Output, spec_parse_lit(b, spec_lit_output()).unwrap()))
    } else {
        None
    }
}

/// Consumes a protocol name.
pub open spec fn spec_parse_proto(b: Seq<u8>) -> Option<(Proto, Seq<u8>)> {
    if spec_parse_lit(b, spec_lit_tcp()) is Some {
        Some((Proto::Tcp, spec_parse_lit(b, spec_lit_tcp()).unwrap()))
    } else if spec_parse_lit(b, spec_lit_udplite()) is Some {
        Some((Proto::UdpLite, spec_parse_lit(b, spec_lit_udplite()).unwrap()))
    } else if spec_parse_lit(b, spec_lit_udp()) is Some {
        Some((Proto::Udp, spec_parse_lit(b, spec_lit_udp()).unwrap()))
    } else {
        None
    }
}

/// Consumes a target.
pub open spec fn spec_parse_target(b: Seq<u8>) -> Option<(RuleTarget, Seq<u8>)> {
    if spec_parse_lit(b, spec_lit_accept()) is Some {
        Some((RuleTarget::Accept, spec_parse_lit(b, spec_lit_accept()).unwrap()))
    } else if spec_parse_lit(b, spec_lit_drop()) is Some {
        Some((RuleTarget::Drop, spec_parse_lit(b, spec_lit_drop()).unwrap()))
    } else {
        match spec_parse_lit(b, spec_lit_rl_open()) {
            None => None,
            Some(b1) => match spec_parse_dec(b1) {
                None => None,
                Some((n, b2)) => {
                    let b3 = spec_skip_ws(b2);
                    if n <= usize::MAX as u128 && b3.len() >= 1 && b3[0] == 125 {
                        Some((RuleTarget::RateLimit(n as usize), b3.drop_first()))
                    } else {
                        None
                    }
                },
            },
        }
    }
}

/// Consumes an address.
pub open spec fn spec_parse_ip(b: Seq<u8>) -> Option<(IpAddress, Seq<u8>)> {
    match spec_parse_lit(b, spec_lit_v4_open()) {
        Some(b1) => match spec_parse_dec(b1) {
            None => None,
            Some((n, b2)) => {
                let b3 = spec_skip_ws(b2);
                if n <= u32::MAX as u128 && b3.len() >= 1 && b3[0] == 125 {
                    Some((IpAddress::V4(n as u32), b3.drop_first()))
                } else {
                    None
                }
            },
        },
        None => match spec_parse_lit(b, spec_lit_v6_open()) {
            None => None,
            Some(b1) => match spec_parse_dec(b1) {
                None => None,
                Some((n, b2)) => {
                    let b3 = spec_skip_ws(b2);
                    if b3.len() >= 1 && b3[0] == 125 {
                        Some((IpAddress::V6(n), b3.drop_first()))
                    } else {
                        None
                    }
                },
            },
        },
    }
}

/// Consumes a port range.
pub open spec fn spec_parse_range(b: Seq<u8>) -> Option<(RangeInclusiveOwned<u16>, Seq<u8>)> {
    match spec_parse_lit(b, spec_lit_range_open()) {
        None => None,
        Some(b1) => match spec_parse_dec(b1) {
            None => None,
            Some((lo, b2)) => if lo <= u16::MAX as u128 {
                match spec_parse_lit(b2, spec_lit_range_mid()) {
                    None => None,
                    Some(b3) => match spec_parse_dec(b3) {
                        None => None,
                        Some((hi, b4)) => {
                            let b5 = spec_skip_ws(b4);
                            if hi <= u16::MAX as u128 && b5.len() >= 1 && b5[0] == 125 {
                                Some(
                                    (
                                        RangeInclusiveOwned { start: lo as u16, end: hi as u16 },
                                        b5.drop_first(),
                                    ),
                                )
                            } else {
                                None
                            }
                        },
                    },
                }
            } else {
                None
            },
        },
    }
}

/// Consumes one rule.
pub open spec fn spec_parse_rule(b: Seq<u8>) -> Option<(RuleV, Seq<u8>)> {
    match spec_parse_lit(b, spec_lit_rule_open()) {
        None => None,
        Some(b1) => {
            let dev: Option<(Option<Device>, Seq<u8>)> = if spec_parse_lit(b1, spec_lit_null())
                is Some {
                Some((None, spec_parse_lit(b1, spec_lit_null()).unwrap()))
            } else {
                match spec_parse_device(b1) {
                    Some((d, r)) => Some((Some(d), r)),
                    None => None,
                }
            };
            match dev {
                None => None,
                Some((device, b2)) => match spec_parse_lit(b2, spec_lit_key_proto()) {
                    None => None,
                    Some(b3) => {
                        let pr: Option<(Option<Proto>, Seq<u8>)> = if spec_parse_lit(
                            b3,
                            spec_lit_null(),
                        ) is Some {
                            Some((None, spec_parse_lit(b3, spec_lit_null()).unwrap()))
                        } else {
                            match spec_parse_proto(b3) {
                                Some((p, r)) => Some((Some(p), r)),
                                None => None,
                            }
                        };
                        match pr {
                            None => None,
                            Some((proto, b4)) => match spec_parse_lit(b4, spec_lit_key_exe()) {
                                None => None,
                                Some(b5) => {
                                    let ex: Option<(Option<Seq<char>>, Seq<u8>)> = if
                                        spec_parse_lit(b5, spec_lit_null()) is Some {
                                        Some((None, spec_parse_lit(b5, spec_lit_null()).unwrap()))
                                    } else {
                                        match spec_parse_string(b5) {
                                            Some((s, r)) => Some((Some(s), r)),
                                            None => None,
                                        }
                                    };
                                    match ex {
                                        None => None,
                                        Some((exe, b6)) => spec_parse_rule_tail(
                                            b6,
                                            device,
                                            proto,
                                            exe,
                                        ),
                                    }
                                },
                            },
                        }
                    },
                },
            }
        },
    }
}

/// Consumes a rule's port, subnet and target fields.
pub open spec fn spec_parse_rule_tail(
    b: Seq<u8>,
    device: Option<Device>,
    proto: Option<Proto>,
    exe: Option<Seq<char>>,
) -> Option<(RuleV, Seq<u8>)> {
    match spec_parse_lit(b, spec_lit_key_port()) {
        None => None,
        Some(b1) => {
            let pt: Option<(Option<RangeInclusiveOwned<u16>>, Seq<u8>)> = if spec_parse_lit(
                b1,
                spec_lit_null(),
            ) is Some {
                Some((None, spec_parse_lit(b1, spec_lit_null()).unwrap()))
            } else {
                match spec_parse_range(b1) {
                    Some((r, rr)) => Some((Some(r), rr)),
                    None => None,
                }
            };
            match pt {
                None => None,
                Some((port, b2)) => match spec_parse_lit(b2, spec_lit_key_subnet()) {
                    None => None,
                    Some(b3) => match spec_parse_ip(b3) {
                        None => None,
                        Some((ip, b4r)) => {
                            let b4 = spec_skip_ws(b4r);
                            if b4.len() >= 1 && b4[0] == 44 {
                                match spec_parse_dec(b4.drop_first()) {
                                    None => None,
                                    Some((mask, b5r)) => {
                                        let b5 = spec_skip_ws(b5r);
                                        if mask <= u8::MAX as u128 && b5.len() >= 1 && b5[0]
                                            == 93 {
                                            match spec_parse_lit(
                                                b5.drop_first(),
                                                spec_lit_key_target(),
                                            ) {
                                                None => None,
                                                Some(b6) => match spec_parse_target(b6) {
                                                    None => None,
                                                    Some((target, b7r)) => {
                                                        let b7 = spec_skip_ws(b7r);
                                                        if b7.len() >= 1 && b7[0] == 125 {
                                                            Some(
                                                                (
                                                                    RuleV {
                                                                        device,
                                                                        proto,
                                                                        exe,
                                                                        port,
                                                                        subnet: (ip, mask as u8),
                                                                        target,
                                                                    },
                                                                    b7.drop_first(),
                                                                ),
                                                            )
                                                        } else {
                                                            None
                                                        }
                                                    },
                                                },
                                            }
                                        } else {
                                            None
                                        }
                                    },
                                }
                            } else {
                                None
                            }
                        },
                    },
                },
            }
        },
    }
}

/// Consumes rule items up to and including the closing bracket.
pub open spec fn spec_parse_rule_items(b: Seq<u8>, fuel: nat) -> Option<(Seq<RuleV>, Seq<u8>)>
    decreases fuel,
{
    let b0 = spec_skip_ws(b);
    if b0.len() >= 1 && b0[0] == 93 {
        Some((Seq::empty(), b0.drop_first()))
    } else if fuel == 0 {
        None
    } else {
        match spec_parse_rule(b0) {
            None => None,
            Some((r, b1r)) => {
                let b1 = spec_skip_ws(b1r);
                if b1.len() >= 1 && b1[0] == 44 {
                    match spec_parse_rule_items(b1.drop_first(), (fuel - 1) as nat) {
                        None => None,
                        Some((items, b2)) => if items.len() >= 1 {
                            Some((seq![r] + items, b2))
                        } else {
                            None
                        },
                    }
                } else if b1.len() >= 1 && b1[0] == 93 {
                    Some((seq![r], b1.drop_first()))
                } else {
                    None
                }
            },
        }
    }
}

/// Consumes rate rule items up to and including the closing bracket.
pub open spec fn spec_parse_rate_items(b: Seq<u8>, fuel: nat) -> Option<
    (Seq<(Seq<char>, usize)>, Seq<u8>),
>
    decreases fuel,
{
    let b0 = spec_skip_ws(b);
    if b0.len() >= 1 && b0[0] == 93 {
        Some((Seq::empty(), b0.drop_first()))
    } else if fuel == 0 {
        None
    } else {
        match spec_parse_rate(b0) {
            None => None,
            Some((r, b1r)) => {
                let b1 = spec_skip_ws(b1r);
                if b1.len() >= 1 && b1[0] == 44 {
                    match spec_parse_rate_items(b1.drop_first(), (fuel - 1) as nat) {
                        None => None,
                        Some((items, b2)) => if items.len() >= 1 {
                            Some((seq![r] + items, b2))
                        } else {
                            None
                        },
                    }
                } else if b1.len() >= 1 && b1[0] == 93 {
                    Some((seq![r], b1.drop_first()))
                } else {
                    None
                }
            },
        }
    }
}

/// Consumes one rate rule.
pub open spec fn spec_parse_rate(b: Seq<u8>) -> Option<((Seq<char>, usize), Seq<u8>)> {
    match spec_parse_lit(b, spec_lit_rate_open()) {
        None => None,
        Some(b1) => match spec_parse_string(b1) {
            None => None,
            Some((name, b2)) => match spec_parse_lit(b2, spec_lit_key_limit()) {
                None => None,
                Some(b3) => match spec_parse_dec(b3) {
                    None => None,
                    Some((n, b4r)) => {
                        let b4 = spec_skip_ws(b4r);
                        if n <= usize::MAX as u128 && b4.len() >= 1 && b4[0] == 125 {
                            Some(((name, n as usize), b4.drop_first()))
                        } else {
                            None
                        }
                    },
                },
            },
        },
    }
}

/// Consumes a whole rule set.
pub open spec fn spec_parse_rules(b: Seq<u8>) -> Option<(RulesV, Seq<u8>)> {
    match spec_parse_lit(b, spec_lit_rules_open()) {
        None => None,
        Some(b1) => match spec_parse_target(b1) {
            None => None,
            Some((default_target, b2)) => match spec_parse_lit(b2, spec_lit_key_rules()) {
                None => None,
                Some(b3) => match spec_parse_rule_items(b3, b3.len()) {
                    None => None,
                    Some((rules, b4)) => match spec_parse_lit(b4, spec_lit_rate_tail()) {
                        None => None,
                        Some(b5) => match spec_parse_rate_items(b5, b5.len()) {
                            None => None,
                            Some((rate_rules, b6r)) => {
                                let b6 = spec_skip_ws(b6r);
                                if b6.len() >= 1 && b6[0] == 125 {
                                    Some(
                                        (
                                            RulesV { default_target, rules, rate_rules },
                                            b6.drop_first(),
                                        ),
                                    )
                                } else {
                                    None
                                }
                            },
                        },
                    },
                },
            },
        },
    }
}

/// What `from_json` yields: the rule set a full canonical text names.
pub open spec fn spec_from_json(b: Seq<u8>) -> Option<RulesV> {
    match spec_parse_rules(b) {
        Some((r, rest)) => if spec_skip_ws(rest).len() == 0 {
            Some(r)
        } else {
            None
        },
        None => None,
    }
}

/// The lengths, bytes and blank-freeness of the literal tokens.
proof fn lemma_lit_facts()
    ensures
        spec_lit_accept().len() == 8,
        spec_lit_accept()[0] == 34,
        spec_lit_accept()[1] == 65,
        spec_lit_accept()[2] == 99,
        spec_lit_accept()[3] == 99,
        spec_lit_accept()[4] == 101,
        spec_lit_accept()[5] == 112,
        spec_lit_accept()[6] == 116,
        spec_lit_accept()[7] == 34,
        forall|j: int| 0 <= j < spec_lit_accept().len() ==> !spec_is_ws(#[trigger] spec_lit_accept()[j]),
        spec_lit_drop().len() == 6,
        spec_lit_drop()[0] == 34,
        spec_lit_drop()[1] == 68,
        spec_lit_drop()[2] == 114,
        spec_lit_drop()[3] == 111,
        spec_lit_drop()[4] == 112,
        spec_lit_drop()[5] == 34,
        forall|j: int| 0 <= j < spec_lit_drop().len() ==> !spec_is_ws(#[trigger] spec_lit_drop()[j]),
        spec_lit_rl_open().len() == 13,
        spec_lit_rl_open()[0] == 123,
        spec_lit_rl_open()[1] == 34,
        spec_lit_rl_open()[2] == 82,
        spec_lit_rl_open()[3] == 97,
        spec_lit_rl_open()[4] == 116,
        spec_lit_rl_open()[5] == 101,
        spec_lit_rl_open()[6] == 76,
        spec_lit_rl_open()[7] == 105,
        spec_lit_rl_open()[8] == 109,
        spec_lit_rl_open()[9] == 105,
        spec_lit_rl_open()[10] == 116,
        spec_lit_rl_open()[11] == 34,
        spec_lit_rl_open()[12] == 58,
        forall|j: int| 0 <= j < spec_lit_rl_open().len() ==> !spec_is_ws(#[trigger] spec_lit_rl_open()[j]),
        spec_lit_input().len() == 7,
        spec_lit_input()[0] == 34,
        spec_lit_input()[1] == 73,
        spec_lit_input()[2] == 110,
        spec_lit_input()[3] == 112,
        spec_lit_input()[4] == 117,
        spec_lit_input()[5] == 116,
        spec_lit_input()[6] == 34,
        forall|j: int| 0 <= j < spec_lit_input().len() ==> !spec_is_ws(#[trigger] spec_lit_input()[j]),
        spec_lit_output().len() == 8,
        spec_lit_output()[0] == 34,
        spec_lit_output()[1] == 79,
        spec_lit_output()[2] == 117,
        spec_lit_output()[3] == 116,
        spec_lit_output()[4] == 112,
        spec_lit_output()[5] == 117,
        spec_lit_output()[6] == 116,
        spec_lit_output()[7] == 34,
        forall|j: int| 0 <= j < spec_lit_output().len() ==> !spec_is_ws(#[trigger] spec_lit_output()[j]),
        spec_lit_tcp().len() == 5,
        spec_lit_tcp()[0] == 34,
        spec_lit_tcp()[1] == 84,
        spec_lit_tcp()[2] == 99,
        spec_lit_tcp()[3] == 112,
        spec_lit_tcp()[4] == 34,
        forall|j: int| 0 <= j < spec_lit_tcp().len() ==> !spec_is_ws(#[trigger] spec_lit_tcp()[j]),
        spec_lit_udp().len() == 5,
        spec_lit_udp()[0] == 34,
        spec_lit_udp()[1] == 85,
        spec_lit_udp()[2] == 100,
        spec_lit_udp()[3] == 112,
        spec_lit_udp()[4] == 34,
        forall|j: int| 0 <= j < spec_lit_udp().len() ==> !spec_is_ws(#[trigger] spec_lit_udp()[j]),
        spec_lit_udplite().len() == 9,
        spec_lit_udplite()[0] == 34,
        spec_lit_udplite()[1] == 85,
        spec_lit_udplite()[2] == 100,
        spec_lit_udplite()[3] == 112,
        spec_lit_udplite()[4] == 76,
        spec_lit_udplite()[5] == 105,
        spec_lit_udplite()[6] == 116,
        spec_lit_udplite()[7] == 101,
        spec_lit_udplite()[8] == 34,
        forall|j: int| 0 <= j < spec_lit_udplite().len() ==> !spec_is_ws(#[trigger] spec_lit_udplite()[j]),
        spec_lit_null().len() == 4,
        spec_lit_null()[0] == 110,
        spec_lit_null()[1] == 117,
        spec_lit_null()[2] == 108,
        spec_lit_null()[3] == 108,
        forall|j: int| 0 <= j < spec_lit_null().len() ==> !spec_is_ws(#[trigger] spec_lit_null()[j]),
        spec_lit_v4_open().len() == 6,
        spec_lit_v4_open()[0] == 123,
        spec_lit_v4_open()[1] == 34,
        spec_lit_v4_open()[2] == 86,
        spec_lit_v4_open()[3] == 52,
        spec_lit_v4_open()[4] == 34,
        spec_lit_v4_open()[5] == 58,
        forall|j: int| 0 <= j < spec_lit_v4_open().len() ==> !spec_is_ws(#[trigger] spec_lit_v4_open()[j]),
        spec_lit_v6_open().len() == 6,
        spec_lit_v6_open()[0] == 123,
        spec_lit_v6_open()[1] == 34,
        spec_lit_v6_open()[2] == 86,
        spec_lit_v6_open()[3] == 54,
        spec_lit_v6_open()[4] == 34,
        spec_lit_v6_open()[5] == 58,
        forall|j: int| 0 <= j < spec_lit_v6_open().len() ==> !spec_is_ws(#[trigger] spec_lit_v6_open()[j]),
        spec_lit_range_open().len() == 9,
        spec_lit_range_open()[0] == 123,
        spec_lit_range_open()[1] == 34,
        spec_lit_range_open()[2] == 115,
        spec_lit_range_open()[3] == 116,
        spec_lit_range_open()[4] == 97,
        spec_lit_range_open()[5] == 114,
        spec_lit_range_open()[6] == 116,
        spec_lit_range_open()[7] == 34,
        spec_lit_range_open()[8] == 58,
        forall|j: int| 0 <= j < spec_lit_range_open().len() ==> !spec_is_ws(#[trigger] spec_lit_range_open()[j]),
        spec_lit_range_mid().len() == 7,
        spec_lit_range_mid()[0] == 44,
        spec_lit_range_mid()[1] == 34,
        spec_lit_range_mid()[2] == 101,
        spec_lit_range_mid()[3] == 110,
        spec_lit_range_mid()[4] == 100,
        spec_lit_range_mid()[5] == 34,
        spec_lit_range_mid()[6] == 58,
        forall|j: int| 0 <= j < spec_lit_range_mid().len() ==> !spec_is_ws(#[trigger] spec_lit_range_mid()[j]),
        spec_lit_rule_open().len() == 10,
        spec_lit_rule_open()[0] == 123,
        spec_lit_rule_open()[1] == 34,
        spec_lit_rule_open()[2] == 100,
        spec_lit_rule_open()[3] == 101,
        spec_lit_rule_open()[4] == 118,
        spec_lit_rule_open()[5] == 105,
        spec_lit_rule_open()[6] == 99,
        spec_lit_rule_open()[7] == 101,
        spec_lit_rule_open()[8] == 34,
        spec_lit_rule_open()[9] == 58,
        forall|j: int| 0 <= j < spec_lit_rule_open().len() ==> !spec_is_ws(#[trigger] spec_lit_rule_open()[j]),
        spec_lit_key_proto().len() == 9,
        spec_lit_key_proto()[0] == 44,
        spec_lit_key_proto()[1] == 34,
        spec_lit_key_proto()[2] == 112,
        spec_lit_key_proto()[3] == 114,
        spec_lit_key_proto()[4] == 111,
        spec_lit_key_proto()[5] == 116,
        spec_lit_key_proto()[6] == 111,
        spec_lit_key_proto()[7] == 34,
        spec_lit_key_proto()[8] == 58,
        forall|j: int| 0 <= j < spec_lit_key_proto().len() ==> !spec_is_ws(#[trigger] spec_lit_key_proto()[j]),
        spec_lit_key_exe().len() == 7,
        spec_lit_key_exe()[0] == 44,
        spec_lit_key_exe()[1] == 34,
        spec_lit_key_exe()[2] == 101,
        spec_lit_key_exe()[3] == 120,
        spec_lit_key_exe()[4] == 101,
        spec_lit_key_exe()[5] == 34,
        spec_lit_key_exe()[6] == 58,
        forall|j: int| 0 <= j < spec_lit_key_exe().len() ==> !spec_is_ws(#[trigger] spec_lit_key_exe()[j]),
        spec_lit_key_port().len() == 8,
        spec_lit_key_port()[0] == 44,
        spec_lit_key_port()[1] == 34,
        spec_lit_key_port()[2] == 112,
        spec_lit_key_port()[3] == 111,
        spec_lit_key_port()[4] == 114,
        spec_lit_key_port()[5] == 116,
        spec_lit_key_port()[6] == 34,
        spec_lit_key_port()[7] == 58,
        forall|j: int| 0 <= j < spec_lit_key_port().len() ==> !spec_is_ws(#[trigger] spec_lit_key_port()[j]),
        spec_lit_key_subnet().len() == 11,
        spec_lit_key_subnet()[0] == 44,
        spec_lit_key_subnet()[1] == 34,
        spec_lit_key_subnet()[2] == 115,
        spec_lit_key_subnet()[3] == 117,
        spec_lit_key_subnet()[4] == 98,
        spec_lit_key_subnet()[5] == 110,
        spec_lit_key_subnet()[6] == 101,
        spec_lit_key_subnet()[7] == 116,
        spec_lit_key_subnet()[8] == 34,
        spec_lit_key_subnet()[9] == 58,
        spec_lit_key_subnet()[10] == 91,
        forall|j: int| 0 <= j < spec_lit_key_subnet().len() ==> !spec_is_ws(#[trigger] spec_lit_key_subnet()[j]),
        spec_lit_key_target().len() == 10,
        spec_lit_key_target()[0] == 44,
        spec_lit_key_target()[1] == 34,
        spec_lit_key_target()[2] == 116,
        spec_lit_key_target()[3] == 97,
        spec_lit_key_target()[4] == 114,
        spec_lit_key_target()[5] == 103,
        spec_lit_key_target()[6] == 101,
        spec_lit_key_target()[7] == 116,
        spec_lit_key_target()[8] == 34,
        spec_lit_key_target()[9] == 58,
        forall|j: int| 0 <= j < spec_lit_key_target().len() ==> !spec_is_ws(#[trigger] spec_lit_key_target()[j]),
        spec_lit_rate_open().len() == 8,
        spec_lit_rate_open()[0] == 123,
        spec_lit_rate_open()[1] == 34,
        spec_lit_rate_open()[2] == 110,
        spec_lit_rate_open()[3] == 97,
        spec_lit_rate_open()[4] == 109,
        spec_lit_rate_open()[5] == 101,
        spec_lit_rate_open()[6] == 34,
        spec_lit_rate_open()[7] == 58,
        forall|j: int| 0 <= j < spec_lit_rate_open().len() ==> !spec_is_ws(#[trigger] spec_lit_rate_open()[j]),
        spec_lit_key_limit().len() == 9,
        spec_lit_key_limit()[0] == 44,
        spec_lit_key_limit()[1] == 34,
        spec_lit_key_limit()[2] == 108,
        spec_lit_key_limit()[3] == 105,
        spec_lit_key_limit()[4] == 109,
        spec_lit_key_limit()[5] == 105,
        spec_lit_key_limit()[6] == 116,
        spec_lit_key_limit()[7] == 34,
        spec_lit_key_limit()[8] == 58,
        forall|j: int| 0 <= j < spec_lit_key_limit().len() ==> !spec_is_ws(#[trigger] spec_lit_key_limit()[j]),
        spec_lit_rules_open().len() == 18,
        spec_lit_rules_open()[0] == 123,
        spec_lit_rules_open()[1] == 34,
        spec_lit_rules_open()[2] == 100,
        spec_lit_rules_open()[3] == 101,
        spec_lit_rules_open()[4] == 102,
        spec_lit_rules_open()[5] == 97,
        spec_lit_rules_open()[6] == 117,
        spec_lit_rules_open()[7] == 108,
        spec_lit_rules_open()[8] == 116,
        spec_lit_rules_open()[9] == 95,
        spec_lit_rules_open()[10] == 116,
        spec_lit_rules_open()[11] == 97,
        spec_lit_rules_open()[12] == 114,
        spec_lit_rules_open()[13] == 103,
        spec_lit_rules_open()[14] == 101,
        spec_lit_rules_open()[15] == 116,
        spec_lit_rules_open()[16] == 34,
        spec_lit_rules_open()[17] == 58,
        forall|j: int| 0 <= j < spec_lit_rules_open().len() ==> !spec_is_ws(#[trigger] spec_lit_rules_open()[j]),
        spec_lit_key_rules().len() == 10,
        spec_lit_key_rules()[0] == 44,
        spec_lit_key_rules()[1] == 34,
        spec_lit_key_rules()[2] == 114,
        spec_lit_key_rules()[3] == 117,
        spec_lit_key_rules()[4] == 108,
        spec_lit_key_rules()[5] == 101,
        spec_lit_key_rules()[6] == 115,
        spec_lit_key_rules()[7] == 34,
        spec_lit_key_rules()[8] == 58,
        spec_lit_key_rules()[9] == 91,
        forall|j: int| 0 <= j < spec_lit_key_rules().len() ==> !spec_is_ws(#[trigger] spec_lit_key_rules()[j]),
        spec_lit_key_rate_rules().len() == 16,
        spec_lit_key_rate_rules()[0] == 93,
        spec_lit_key_rate_rules()[1] == 44,
        spec_lit_key_rate_rules()[2] == 34,
        spec_lit_key_rate_rules()[3] == 114,
        spec_lit_key_rate_rules()[4] == 97,
        spec_lit_key_rate_rules()[5] == 116,
        spec_lit_key_rate_rules()[6] == 101,
        spec_lit_key_rate_rules()[7] == 95,
        spec_lit_key_rate_rules()[8] == 114,
        spec_lit_key_rate_rules()[9] == 117,
        spec_lit_key_rate_rules()[10] == 108,
        spec_lit_key_rate_rules()[11] == 101,
        spec_lit_key_rate_rules()[12] == 115,
        spec_lit_key_rate_rules()[13] == 34,
        spec_lit_key_rate_rules()[14] == 58,
        spec_lit_key_rate_rules()[15] == 91,
        forall|j: int| 0 <= j < spec_lit_key_rate_rules().len() ==> !spec_is_ws(#[trigger] spec_lit_key_rate_rules()[j]),
        spec_lit_rules_close().len() == 2,
        spec_lit_rules_close()[0] == 93,
        spec_lit_rules_close()[1] == 125,
        forall|j: int| 0 <= j < spec_lit_rules_close().len() ==> !spec_is_ws(#[trigger] spec_lit_rules_close()[j]),
        spec_lit_rate_tail().len() == 15,
        spec_lit_rate_tail()[0] == 44,
        spec_lit_rate_tail()[1] == 34,
        spec_lit_rate_tail()[2] == 114,
        spec_lit_rate_tail()[3] == 97,
        spec_lit_rate_tail()[4] == 116,
        spec_lit_rate_tail()[5] == 101,
        spec_lit_rate_tail()[6] == 95,
        spec_lit_rate_tail()[7] == 114,
        spec_lit_rate_tail()[8] == 117,
        spec_lit_rate_tail()[9] == 108,
        spec_lit_rate_tail()[10] == 101,
        spec_lit_rate_tail()[11] == 115,
        spec_lit_rate_tail()[12] == 34,
        spec_lit_rate_tail()[13] == 58,
        spec_lit_rate_tail()[14] == 91,
        forall|j: int| 0 <= j < spec_lit_rate_tail().len() ==> !spec_is_ws(#[trigger] spec_lit_rate_tail()[j]),
        spec_lit_key_rate_rules() == seq![93u8] + spec_lit_rate_tail(),
        spec_lit_rules_close() == seq![93u8] + seq![125u8],
{
    reveal(spec_lit_accept);
    reveal(spec_lit_drop);
    reveal(spec_lit_rl_open);
    reveal(spec_lit_input);
    reveal(spec_lit_output);
    reveal(spec_lit_tcp);
    reveal(spec_lit_udp);
    reveal(spec_lit_udplite);
    reveal(spec_lit_null);
    reveal(spec_lit_v4_open);
    reveal(spec_lit_v6_open);
    reveal(spec_lit_range_open);
    reveal(spec_lit_range_mid);
    reveal(spec_lit_rule_open);
    reveal(spec_lit_key_proto);
    reveal(spec_lit_key_exe);
    reveal(spec_lit_key_port);
    reveal(spec_lit_key_subnet);
    reveal(spec_lit_key_target);
    reveal(spec_lit_rate_open);
    reveal(spec_lit_key_limit);
    reveal(spec_lit_rules_open);
    reveal(spec_lit_key_rules);
    reveal(spec_lit_key_rate_rules);
    reveal(spec_lit_rules_close);
    reveal(spec_lit_rate_tail);
    assert forall|j: int| 0 <= j < spec_lit_accept().len() implies !spec_is_ws(
        #[trigger] spec_lit_accept()[j],
    ) by {
        assert(spec_lit_accept().len() == 8);
    }
    assert forall|j: int| 0 <= j < spec_lit_drop().len() implies !spec_is_ws(
        #[trigger] spec_lit_drop()[j],
    ) by {
        assert(spec_lit_drop().len() == 6);
    }
    assert forall|j: int| 0 <= j < spec_lit_rl_open().len() implies !spec_is_ws(
        #[trigger] spec_lit_rl_open()[j],
    ) by {
        assert(spec_lit_rl_open().len() == 13);
    }
    assert forall|j: int| 0 <= j < spec_lit_input().len() implies !spec_is_ws(
        #[trigger] spec_lit_input()[j],
    ) by {
        assert(spec_lit_input().len() == 7);
    }
    assert forall|j: int| 0 <= j < spec_lit_output().len() implies !spec_is_ws(
        #[trigger] spec_lit_output()[j],
    ) by {
        assert(spec_lit_output().len() == 8);
    }
    assert forall|j: int| 0 <= j < spec_lit_tcp().len() implies !spec_is_ws(
        #[trigger] spec_lit_tcp()[j],
    ) by {
        assert(spec_lit_tcp().len() == 5);
    }
    assert forall|j: int| 0 <= j < spec_lit_udp().len() implies !spec_is_ws(
        #[trigger] spec_lit_udp()[j],
    ) by {
        assert(spec_lit_udp().len() == 5);
    }
    assert forall|j: int| 0 <= j < spec_lit_udplite().len() implies !spec_is_ws(
        #[trigger] spec_lit_udplite()[j],
    ) by {
        assert(spec_lit_udplite().len() == 9);
    }
    assert forall|j: int| 0 <= j < spec_lit_null().len() implies !spec_is_ws(
        #[trigger] spec_lit_null()[j],
    ) by {
        assert(spec_lit_null().len() == 4);
    }
    assert forall|j: int| 0 <= j < spec_lit_v4_open().len() implies !spec_is_ws(
        #[trigger] spec_lit_v4_open()[j],
    ) by {
        assert(spec_lit_v4_open().len() == 6);
    }
    assert forall|j: int| 0 <= j < spec_lit_v6_open().len() implies !spec_is_ws(
        #[trigger] spec_lit_v6_open()[j],
    ) by {
        assert(spec_lit_v6_open().len() == 6);
    }
    assert forall|j: int| 0 <= j < spec_lit_range_open().len() implies !spec_is_ws(
        #[trigger] spec_lit_range_open()[j],
    ) by {
        assert(spec_lit_range_open().len() == 9);
    }
    assert forall|j: int| 0 <= j < spec_lit_range_mid().len() implies !spec_is_ws(
        #[trigger] spec_lit_range_mid()[j],
    ) by {
        assert(spec_lit_range_mid().len() == 7);
    }
    assert forall|j: int| 0 <= j < spec_lit_rule_open().len() implies !spec_is_ws(
        #[trigger] spec_lit_rule_open()[j],
    ) by {
        assert(spec_lit_rule_open().len() == 10);
    }
    assert forall|j: int| 0 <= j < spec_lit_key_proto().len() implies !spec_is_ws(
        #[trigger] spec_lit_key_proto()[j],
    ) by {
        assert(spec_lit_key_proto().len() == 9);
    }
    assert forall|j: int| 0 <= j < spec_lit_key_exe().len() implies !spec_is_ws(
        #[trigger] spec_lit_key_exe()[j],
    ) by {
        assert(spec_lit_key_exe().len() == 7);
    }
    assert forall|j: int| 0 <= j < spec_lit_key_port().len() implies !spec_is_ws(
        #[trigger] spec_lit_key_port()[j],
    ) by {
        assert(spec_lit_key_port().len() == 8);
    }
    assert forall|j: int| 0 <= j < spec_lit_key_subnet().len() implies !spec_is_ws(
        #[trigger] spec_lit_key_subnet()[j],
    ) by {
        assert(spec_lit_key_subnet().len() == 11);
    }
    assert forall|j: int| 0 <= j < spec_lit_key_target().len() implies !spec_is_ws(
        #[trigger] spec_lit_key_target()[j],
    ) by {
        assert(spec_lit_key_target().len() == 10);
    }
    assert forall|j: int| 0 <= j < spec_lit_rate_open().len() implies !spec_is_ws(
        #[trigger] spec_lit_rate_open()[j],
    ) by {
        assert(spec_lit_rate_open().len() == 8);
    }
    assert forall|j: int| 0 <= j < spec_lit_key_limit().len() implies !spec_is_ws(
        #[trigger] spec_lit_key_limit()[j],
    ) by {
        assert(spec_lit_key_limit().len() == 9);
    }
    assert forall|j: int| 0 <= j < spec_lit_rules_open().len() implies !spec_is_ws(
        #[trigger] spec_lit_rules_open()[j],
    ) by {
        assert(spec_lit_rules_open().len() == 18);
    }
    assert forall|j: int| 0 <= j < spec_lit_key_rules().len() implies !spec_is_ws(
        #[trigger] spec_lit_key_rules()[j],
    ) by {
        assert(spec_lit_key_rules().len() == 10);
    }
    assert forall|j: int| 0 <= j < spec_lit_key_rate_rules().len() implies !spec_is_ws(
        #[trigger] spec_lit_key_rate_rules()[j],
    ) by {
        assert(spec_lit_key_rate_rules().len() == 16);
    }
    assert forall|j: int| 0 <= j < spec_lit_rules_close().len() implies !spec_is_ws(
        #[trigger] spec_lit_rules_close()[j],
    ) by {
        assert(spec_lit_rules_close().len() == 2);
    }
    assert forall|j: int| 0 <= j < spec_lit_rate_tail().len() implies !spec_is_ws(
        #[trigger] spec_lit_rate_tail()[j],
    ) by {
        assert(spec_lit_rate_tail().len() == 15);
    }
    assert(spec_lit_key_rate_rules() =~= seq![93u8] + spec_lit_rate_tail());
    assert(spec_lit_rules_close() =~= seq![93u8] + seq![125u8]);
}

/// A literal does not parse where the text, agreeing with it up to some
/// index, then differs by a byte that is no blank.
pub proof fn lemma_parse_lit_none_at(b: Seq<u8>, lit: Seq<u8>, i: int)
    requires
        0 <= i < lit.len(),
        forall|w: int| 0 <= w < lit.len() ==> !spec_is_ws(#[trigger] lit[w]),
        forall|w: int| 0 <= w < i && w < b.len() ==> #[trigger] b[w] == lit[w],
        b.len() <= i || (b[i] != lit[i] && !spec_is_ws(b[i])),
    ensures
        spec_parse_lit(b, lit) is None,
{
    assert forall|u: int|
        0 <= u && u < i - 0 && u < b.len() implies #[trigger] b[u] == lit[u + 0] by {
        assert(b[u] == lit[u]);
    }
    lemma_parse_lit_rec_stuck(b, lit, i, 0, false);
}

/// A printed device reads back exactly.
proof fn lemma_parse_device_inverts(d: Device, rest: Seq<u8>)
    ensures
        spec_parse_device(spec_json_device(d) + rest) == Some((d, rest)),
{
    lemma_lit_facts();
    let b = spec_json_device(d) + rest;
    match d {
        Device::Input => {
            lemma_parse_lit_prepend(spec_lit_input(), rest);
        },
        Device::Output => {
            assert(b[1] == spec_lit_output()[1]);
            lemma_parse_lit_none_at(b, spec_lit_input(), 1);
            lemma_parse_lit_prepend(spec_lit_output(), rest);
        },
    }
}

/// A printed protocol reads back exactly.
proof fn lemma_parse_proto_inverts(p: Proto, rest: Seq<u8>)
    ensures
        spec_parse_proto(spec_json_proto(p) + rest) == Some((p, rest)),
{
    lemma_lit_facts();
    let b = spec_json_proto(p) + rest;
    match p {
        Proto::Tcp => {
            lemma_parse_lit_prepend(spec_lit_tcp(), rest);
        },
        Proto::Udp => {
            assert(b[1] == spec_lit_udp()[1]);
            lemma_parse_lit_none_at(b, spec_lit_tcp(), 1);
            assert(b[4] == spec_lit_udp()[4]);
            lemma_parse_lit_none_at(b, spec_lit_udplite(), 4);
            lemma_parse_lit_prepend(spec_lit_udp(), rest);
        },
        Proto::UdpLite => {
            assert(b[1] == spec_lit_udplite()[1]);
            lemma_parse_lit_none_at(b, spec_lit_tcp(), 1);
            lemma_parse_lit_prepend(spec_lit_udplite(), rest);
        },
    }
}

/// A printed target reads back exactly.
proof fn lemma_parse_target_inverts(t: RuleTarget, rest: Seq<u8>)
    ensures
        spec_parse_target(spec_json_target(t) + rest) == Some((t, rest)),
{
    lemma_lit_facts();
    let b = spec_json_target(t) + rest;
    match t {
        RuleTarget::Accept => {
            lemma_parse_lit_prepend(spec_lit_accept(), rest);
        },
        RuleTarget::Drop => {
            assert(b[1] == spec_lit_drop()[1]);
            lemma_parse_lit_none_at(b, spec_lit_accept(), 1);
            lemma_parse_lit_prepend(spec_lit_drop(), rest);
        },
        RuleTarget::RateLimit(k) => {
            assert(b[0] == spec_lit_rl_open()[0]);
            lemma_parse_lit_none_at(b, spec_lit_accept(), 0);
            lemma_parse_lit_none_at(b, spec_lit_drop(), 0);
            assert(b =~= spec_lit_rl_open() + (spec_dec_bytes(k as u128) + seq![125u8] + rest));
            lemma_parse_lit_prepend(
                spec_lit_rl_open(),
                spec_dec_bytes(k as u128) + seq![125u8] + rest,
            );
            let after = spec_dec_bytes(k as u128) + seq![125u8] + rest;
            assert(after =~= spec_dec_bytes(k as u128) + (seq![125u8] + rest));
            lemma_parse_dec_inverts(k as u128, seq![125u8] + rest);
            let b2 = seq![125u8] + rest;
            assert(b2[0] == 125);
            assert(b2.drop_first() =~= rest);
        },
    }
}

/// A printed address reads back exactly.
proof fn lemma_parse_ip_inverts(ip: IpAddress, rest: Seq<u8>)
    ensures
        spec_parse_ip(spec_json_ip(ip) + rest) == Some((ip, rest)),
{
    lemma_lit_facts();
    let b = spec_json_ip(ip) + rest;
    match ip {
        IpAddress::V4(x) => {
            assert(b =~= spec_lit_v4_open() + (spec_dec_bytes(x as u128) + seq![125u8] + rest));
            lemma_parse_lit_prepend(
                spec_lit_v4_open(),
                spec_dec_bytes(x as u128) + seq![125u8] + rest,
            );
            assert(spec_dec_bytes(x as u128) + seq![125u8] + rest =~= spec_dec_bytes(x as u128) + (
            seq![125u8] + rest));
            lemma_parse_dec_inverts(x as u128, seq![125u8] + rest);
            let b2 = seq![125u8] + rest;
            assert(b2[0] == 125);
            assert(b2.drop_first() =~= rest);
        },
        IpAddress::V6(x) => {
            assert(b[3] == spec_lit_v6_open()[3]);
            lemma_parse_lit_none_at(b, spec_lit_v4_open(), 3);
            assert(b =~= spec_lit_v6_open() + (spec_dec_bytes(x) + seq![125u8] + rest));
            lemma_parse_lit_prepend(spec_lit_v6_open(), spec_dec_bytes(x) + seq![125u8] + rest);
            assert(spec_dec_bytes(x) + seq![125u8] + rest =~= spec_dec_bytes(x) + (seq![125u8]
                + rest));
            lemma_parse_dec_inverts(x, seq![125u8] + rest);
            let b2 = seq![125u8] + rest;
            assert(b2[0] == 125);
            assert(b2.drop_first() =~= rest);
        },
    }
}

/// A printed port range reads back exactly.
proof fn lemma_parse_range_inverts(r: RangeInclusiveOwned<u16>, rest: Seq<u8>)
    ensures
        spec_parse_range(spec_json_range(r) + rest) == Some((r, rest)),
{
    lemma_lit_facts();
    let b = spec_json_range(r) + rest;
    let lo = spec_dec_bytes(r.start as u128);
    let hi = spec_dec_bytes(r.end as u128);
    assert(b =~= spec_lit_range_open() + (lo + (spec_lit_range_mid() + (hi + (seq![125u8]
        + rest)))));
    lemma_parse_lit_prepend(
        spec_lit_range_open(),
        lo + (spec_lit_range_mid() + (hi + (seq![125u8] + rest))),
    );
    assert(spec_lit_range_mid()[0] == 44);
    lemma_parse_dec_inverts(r.start as u128, spec_lit_range_mid() + (hi + (seq![125u8] + rest)));
    lemma_parse_lit_prepend(spec_lit_range_mid(), hi + (seq![125u8] + rest));
    assert(hi + (seq![125u8] + rest) =~= hi + (seq![125u8] + rest));
    lemma_parse_dec_inverts(r.end as u128, seq![125u8] + rest);
    let b4 = seq![125u8] + rest;
    assert(b4[0] == 125);
    assert(b4.drop_first() =~= rest);
}

/// A printed rule tail reads back exactly.
#[verifier::rlimit(100)]
#[verifier::spinoff_prover]
proof fn lemma_parse_rule_tail_inverts(rv: RuleV, rest: Seq<u8>)
    ensures
        spec_parse_rule_tail(
            spec_lit_key_port() + (match rv.port {
                Option::None => spec_lit_null(),
                Option::Some(pr) => spec_json_range(pr),
            }) + spec_lit_key_subnet() + spec_json_ip(rv.subnet.0) + seq![44u8] + spec_dec_bytes(
                rv.subnet.1 as u128,
            ) + seq![93u8] + spec_lit_key_target() + spec_json_target(rv.target) + seq![125u8]
                + rest,
            rv.device,
            rv.proto,
            rv.exe,
        ) == Some((rv, rest)),
{
    lemma_lit_facts();
    let portpart = match rv.port {
        Option::None => spec_lit_null(),
        Option::Some(pr) => spec_json_range(pr),
    };
    let after_port = spec_lit_key_subnet() + spec_json_ip(rv.subnet.0) + seq![44u8]
        + spec_dec_bytes(rv.subnet.1 as u128) + seq![93u8] + spec_lit_key_target()
        + spec_json_target(rv.target) + seq![125u8] + rest;
    let b = spec_lit_key_port() + portpart + spec_lit_key_subnet() + spec_json_ip(rv.subnet.0)
        + seq![44u8] + spec_dec_bytes(rv.subnet.1 as u128) + seq![93u8] + spec_lit_key_target()
        + spec_json_target(rv.target) + seq![125u8] + rest;
    assert(b =~= spec_lit_key_port() + (portpart + after_port));
    lemma_parse_lit_prepend(spec_lit_key_port(), portpart + after_port);
    let b1 = portpart + after_port;
    match rv.port {
        Option::None => {
            assert(b1 =~= spec_lit_null() + after_port);
            lemma_parse_lit_prepend(spec_lit_null(), after_port);
        },
        Option::Some(pr) => {
            assert(b1[0] == 123);
            lemma_parse_lit_none_at(b1, spec_lit_null(), 0);
            assert(b1 =~= spec_json_range(pr) + after_port);
            lemma_parse_range_inverts(pr, after_port);
        },
    }
    let after_subnet = spec_json_ip(rv.subnet.0) + seq![44u8] + spec_dec_bytes(
        rv.subnet.1 as u128,
    ) + seq![93u8] + spec_lit_key_target() + spec_json_target(rv.target) + seq![125u8] + rest;
    assert(after_port =~= spec_lit_key_subnet() + after_subnet);
    lemma_parse_lit_prepend(spec_lit_key_subnet(), after_subnet);
    let after_ip = seq![44u8] + spec_dec_bytes(rv.subnet.1 as u128) + seq![93u8]
        + spec_lit_key_target() + spec_json_target(rv.target) + seq![125u8] + rest;
    assert(after_subnet =~= spec_json_ip(rv.subnet.0) + after_ip);
    lemma_parse_ip_inverts(rv.subnet.0, after_ip);
    assert(after_ip[0] == 44);
    let after_comma = spec_dec_bytes(rv.subnet.1 as u128) + (seq![93u8] + spec_lit_key_target()
        + spec_json_target(rv.target) + seq![125u8] + rest);
    assert(after_ip.drop_first() =~= after_comma);
    let after_mask = seq![93u8] + spec_lit_key_target() + spec_json_target(rv.target)
        + seq![125u8] + rest;
    assert(after_comma =~= spec_dec_bytes(rv.subnet.1 as u128) + after_mask);
    lemma_parse_dec_inverts(rv.subnet.1 as u128, after_mask);
    assert(after_mask[0] == 93);
    let after_bracket = spec_lit_key_target() + (spec_json_target(rv.target) + (seq![125u8]
        + rest));
    assert(after_mask.drop_first() =~= after_bracket);
    lemma_parse_lit_prepend(spec_lit_key_target(), spec_json_target(rv.target) + (seq![125u8]
        + rest));
    lemma_parse_target_inverts(rv.target, seq![125u8] + rest);
    let b7 = seq![125u8] + rest;
    assert(b7[0] == 125);
    assert(b7.drop_first() =~= rest);
    assert((RuleV {
        device: rv.device,
        proto: rv.proto,
        exe: rv.exe,
        port: rv.port,
        subnet: (rv.subnet.0, rv.subnet.1),
        target: rv.target,
    }) == rv);
}

/// A printed rule reads back exactly.
#[verifier::rlimit(100)]
#[verifier::spinoff_prover]
proof fn lemma_parse_rule_inverts(rv: RuleV, rest: Seq<u8>)
    ensures
        spec_parse_rule(spec_json_rule(rv) + rest) == Some((rv, rest)),
{
    reveal(spec_json_rule);
    lemma_lit_facts();
    let b = spec_json_rule(rv) + rest;
    let devpart = match rv.device {
        Option::None => spec_lit_null(),
        Option::Some(d) => spec_json_device(d),
    };
    let protpart = match rv.proto {
        Option::None => spec_lit_null(),
        Option::Some(p) => spec_json_proto(p),
    };
    let exepart = match rv.exe {
        Option::None => spec_lit_null(),
        Option::Some(s) => spec_json_string(s),
    };
    let tail = spec_lit_key_port() + (match rv.port {
        Option::None => spec_lit_null(),
        Option::Some(pr) => spec_json_range(pr),
    }) + spec_lit_key_subnet() + spec_json_ip(rv.subnet.0) + seq![44u8] + spec_dec_bytes(
        rv.subnet.1 as u128,
    ) + seq![93u8] + spec_lit_key_target() + spec_json_target(rv.target) + seq![125u8] + rest;
    assert(b =~= spec_lit_rule_open() + (devpart + (spec_lit_key_proto() + (protpart + (
    spec_lit_key_exe() + (exepart + tail))))));
    lemma_parse_lit_prepend(
        spec_lit_rule_open(),
        devpart + (spec_lit_key_proto() + (protpart + (spec_lit_key_exe() + (exepart + tail)))),
    );
    let b1 = devpart + (spec_lit_key_proto() + (protpart + (spec_lit_key_exe() + (exepart
        + tail))));
    match rv.device {
        Option::None => {
            lemma_parse_lit_prepend(
                spec_lit_null(),
                spec_lit_key_proto() + (protpart + (spec_lit_key_exe() + (exepart + tail))),
            );
        },
        Option::Some(d) => {
            assert(b1[0] == 34);
            lemma_parse_lit_none_at(b1, spec_lit_null(), 0);
            lemma_parse_device_inverts(
                d,
                spec_lit_key_proto() + (protpart + (spec_lit_key_exe() + (exepart + tail))),
            );
        },
    }
    let b2 = spec_lit_key_proto() + (protpart + (spec_lit_key_exe() + (exepart + tail)));
    lemma_parse_lit_prepend(spec_lit_key_proto(), protpart + (spec_lit_key_exe() + (exepart
        + tail)));
    let b3 = protpart + (spec_lit_key_exe() + (exepart + tail));
    match rv.proto {
        Option::None => {
            lemma_parse_lit_prepend(spec_lit_null(), spec_lit_key_exe() + (exepart + tail));
        },
        Option::Some(p) => {
            assert(b3[0] == 34);
            lemma_parse_lit_none_at(b3, spec_lit_null(), 0);
            lemma_parse_proto_inverts(p, spec_lit_key_exe() + (exepart + tail));
        },
    }
    let b4 = spec_lit_key_exe() + (exepart + tail);
    lemma_parse_lit_prepend(spec_lit_key_exe(), exepart + tail);
    let b5 = exepart + tail;
    match rv.exe {
        Option::None => {
            lemma_parse_lit_prepend(spec_lit_null(), tail);
        },
        Option::Some(s) => {
            assert(b5[0] == 34);
            lemma_parse_lit_none_at(b5, spec_lit_null(), 0);
            lemma_parse_string_inverts(s, tail);
        },
    }
    lemma_parse_rule_tail_inverts(rv, rest);
}

/// A rule print is never empty and never starts with a bracket.
proof fn lemma_rule_print_shape(rv: RuleV)
    ensures
        spec_json_rule(rv).len() >= 1,
        spec_json_rule(rv)[0] == 123,
{
    reveal(spec_json_rule);
    lemma_lit_facts();
}

/// Printed rule items followed by the closing bracket read back exactly.
#[verifier::rlimit(100)]
#[verifier::spinoff_prover]
proof fn lemma_parse_rule_items_inverts(rs: Seq<RuleV>, rest: Seq<u8>, fuel: nat)
    requires
        fuel >= rs.len(),
    ensures
        spec_parse_rule_items(spec_json_rule_items(rs) + seq![93u8] + rest, fuel) == Some(
            (rs, rest),
        ),
    decreases rs.len(),
{
    lemma_lit_facts();
    let b = spec_json_rule_items(rs) + seq![93u8] + rest;
    if rs.len() == 0 {
        assert(spec_json_rule_items(rs) =~= Seq::<u8>::empty());
        assert(b =~= seq![93u8] + rest);
        assert(b[0] == 93);
        assert(b.drop_first() =~= rest);
        assert(Seq::<RuleV>::empty() =~= rs);
    } else if rs.len() == 1 {
        lemma_rule_print_shape(rs.first());
        assert(b =~= spec_json_rule(rs.first()) + (seq![93u8] + rest));
        assert(b[0] == 123);
        lemma_parse_rule_inverts(rs.first(), seq![93u8] + rest);
        let b1 = seq![93u8] + rest;
        assert(b1[0] == 93);
        assert(b1.drop_first() =~= rest);
        assert(seq![rs.first()] =~= rs);
    } else {
        lemma_rule_print_shape(rs.first());
        let more = spec_json_rule_items(rs.drop_first()) + seq![93u8] + rest;
        assert(b =~= spec_json_rule(rs.first()) + (seq![44u8] + more));
        assert(b[0] == 123);
        lemma_parse_rule_inverts(rs.first(), seq![44u8] + more);
        let b1 = seq![44u8] + more;
        assert(b1[0] == 44);
        assert(b1.drop_first() =~= more);
        lemma_parse_rule_items_inverts(rs.drop_first(), rest, (fuel - 1) as nat);
        assert(seq![rs.first()] + rs.drop_first() =~= rs);
    }
}

/// A printed rate rule reads back exactly.
#[verifier::rlimit(100)]
#[verifier::spinoff_prover]
proof fn lemma_parse_rate_inverts(name: Seq<char>, limit: usize, rest: Seq<u8>)
    ensures
        spec_parse_rate(spec_json_rate(name, limit) + rest) == Some(((name, limit), rest)),
{
    lemma_lit_facts();
    let b = spec_json_rate(name, limit) + rest;
    assert(b =~= spec_lit_rate_open() + (spec_json_string(name) + (spec_lit_key_limit() + (
    spec_dec_bytes(limit as u128) + (seq![125u8] + rest)))));
    lemma_parse_lit_prepend(
        spec_lit_rate_open(),
        spec_json_string(name) + (spec_lit_key_limit() + (spec_dec_bytes(limit as u128) + (
        seq![125u8] + rest))),
    );
    lemma_parse_string_inverts(
        name,
        spec_lit_key_limit() + (spec_dec_bytes(limit as u128) + (seq![125u8] + rest)),
    );
    lemma_parse_lit_prepend(
        spec_lit_key_limit(),
        spec_dec_bytes(limit as u128) + (seq![125u8] + rest),
    );
    lemma_parse_dec_inverts(limit as u128, seq![125u8] + rest);
    let b4 = seq![125u8] + rest;
    assert(b4[0] == 125);
    assert(b4.drop_first() =~= rest);
}

/// Printed rate items followed by the closing bracket read back exactly.
#[verifier::rlimit(100)]
#[verifier::spinoff_prover]
proof fn lemma_parse_rate_items_inverts(rs: Seq<(Seq<char>, usize)>, rest: Seq<u8>, fuel: nat)
    requires
        fuel >= rs.len(),
    ensures
        spec_parse_rate_items(spec_json_rate_items(rs) + seq![93u8] + rest, fuel) == Some(
            (rs, rest),
        ),
    decreases rs.len(),
{
    lemma_lit_facts();
    let b = spec_json_rate_items(rs) + seq![93u8] + rest;
    if rs.len() == 0 {
        assert(spec_json_rate_items(rs) =~= Seq::<u8>::empty());
        assert(b =~= seq![93u8] + rest);
        assert(b[0] == 93);
        assert(b.drop_first() =~= rest);
        assert(Seq::<(Seq<char>, usize)>::empty() =~= rs);
    } else if rs.len() == 1 {
        assert(b =~= spec_json_rate(rs.first().0, rs.first().1) + (seq![93u8] + rest));
        assert(b[0] == 123);
        lemma_parse_rate_inverts(rs.first().0, rs.first().1, seq![93u8] + rest);
        let b1 = seq![93u8] + rest;
        assert(b1[0] == 93);
        assert(b1.drop_first() =~= rest);
        assert(seq![rs.first()] =~= rs);
        assert(rs.first() == (rs.first().0, rs.first().1));
    } else {
        let more = spec_json_rate_items(rs.drop_first()) + seq![93u8] + rest;
        assert(b =~= spec_json_rate(rs.first().0, rs.first().1) + (seq![44u8] + more));
        assert(b[0] == 123);
        lemma_parse_rate_inverts(rs.first().0, rs.first().1, seq![44u8] + more);
        let b1 = seq![44u8] + more;
        assert(b1[0] == 44);
        assert(b1.drop_first() =~= more);
        lemma_parse_rate_items_inverts(rs.drop_first(), rest, (fuel - 1) as nat);
        assert(rs.first() == (rs.first().0, rs.first().1));
        assert(seq![rs.first()] + rs.drop_first() =~= rs);
    }
}

/// Printing a rule set and reading the text back gives the same rule set:
/// the JSON round trip.
#[verifier::rlimit(100)]
#[verifier::spinoff_prover]
pub proof fn lemma_json_round_trip(r: RulesV)
    ensures
        spec_from_json(spec_json_rules(r)) == Some(r),
{
    lemma_lit_facts();
    let b = spec_json_rules(r);
    let items = spec_json_rule_items(r.rules);
    let rate_items = spec_json_rate_items(r.rate_rules);
    let after_target = spec_lit_key_rules() + (items + seq![93u8] + (spec_lit_rate_tail() + (
    rate_items + seq![93u8] + (seq![125u8]))));
    assert(spec_lit_key_rate_rules() =~= seq![93u8] + spec_lit_rate_tail());
    assert(spec_lit_rules_close() =~= seq![93u8] + seq![125u8]);
    assert(b =~= spec_lit_rules_open() + (spec_json_target(r.default_target) + after_target));
    lemma_parse_lit_prepend(
        spec_lit_rules_open(),
        spec_json_target(r.default_target) + after_target,
    );
    lemma_parse_target_inverts(r.default_target, after_target);
    let after_key_rules = items + seq![93u8] + (spec_lit_rate_tail() + (rate_items + seq![93u8] + (
    seq![125u8])));
    assert(after_target =~= spec_lit_key_rules() + after_key_rules);
    lemma_parse_lit_prepend(spec_lit_key_rules(), after_key_rules);
    let rest1 = spec_lit_rate_tail() + (rate_items + seq![93u8] + (seq![125u8]));
    assert(after_key_rules =~= items + seq![93u8] + rest1);
    lemma_items_len_bound(r.rules);
    assert(after_key_rules.len() >= r.rules.len());
    lemma_parse_rule_items_inverts(r.rules, rest1, after_key_rules.len());
    let rest2 = rate_items + seq![93u8] + (seq![125u8]);
    assert(rest1 =~= spec_lit_rate_tail() + rest2);
    lemma_parse_lit_prepend(spec_lit_rate_tail(), rest2);
    lemma_rate_items_len_bound(r.rate_rules);
    assert(rest2.len() >= r.rate_rules.len());
    lemma_parse_rate_items_inverts(r.rate_rules, seq![125u8], rest2.len());
    assert(rest2 =~= rate_items + seq![93u8] + seq![125u8]);
    let b6 = seq![125u8];
    assert(b6[0] == 125);
    assert(b6.drop_first() =~= Seq::<u8>::empty());
    assert((RulesV {
        default_target: r.default_target,
        rules: r.rules,
        rate_rules: r.rate_rules,
    }) == r);
}

/// The printed rule items are at least as many bytes as there are rules.
proof fn lemma_items_len_bound(rs: Seq<RuleV>)
    ensures
        spec_json_rule_items(rs).len() >= rs.len(),
    decreases rs.len(),
{
    if rs.len() == 1 {
        lemma_rule_print_shape(rs.first());
    } else if rs.len() > 1 {
        lemma_rule_print_shape(rs.first());
        lemma_items_len_bound(rs.drop_first());
    }
}

/// The printed rate items are at least as many bytes as there are rules.
proof fn lemma_rate_items_len_bound(rs: Seq<(Seq<char>, usize)>)
    ensures
        spec_json_rate_items(rs).len() >= rs.len(),
    decreases rs.len(),
{
    lemma_lit_facts();
    if rs.len() > 1 {
        lemma_rate_items_len_bound(rs.drop_first());
    }
}

/// The literal `\"Accept\"` as bytes.
fn lit_accept() -> (v: Vec<u8>)
    ensures
        v@ == spec_lit_accept(),
{
    let mut v: Vec<u8> = Vec::new();
    v.push(34);
    v.push(65);
    v.push(99);
    v.push(99);
    v.push(101);
    v.push(112);
    v.push(116);
    v.push(34);
    proof {
        reveal(spec_lit_accept);
        assert(v@ =~= spec_lit_accept());
    }
    v
}

/// The literal `\"Drop\"` as bytes.
fn lit_drop() -> (v: Vec<u8>)
    ensures
        v@ == spec_lit_drop(),
{
    let mut v: Vec<u8> = Vec::new();
    v.push(34);
    v.push(68);
    v.push(114);
    v.push(111);
    v.push(112);
    v.push(34);
    proof {
        reveal(spec_lit_drop);
        assert(v@ =~= spec_lit_drop());
    }
    v
}

/// The literal `{\"RateLimit\":` as bytes.
fn lit_rl_open() -> (v: Vec<u8>)
    ensures
        v@ == spec_lit_rl_open(),
{
    let mut v: Vec<u8> = Vec::new();
    v.push(123);
    v.push(34);
    v.push(82);
    v.push(97);
    v.push(116);
    v.push(101);
    v.push(76);
    v.push(105);
    v.push(109);
    v.push(105);
    v.push(116);
    v.push(34);
    v.push(58);
    proof {
        reveal(spec_lit_rl_open);
        assert(v@ =~= spec_lit_rl_open());
    }
    v
}

/// The literal `\"Input\"` as bytes.
fn lit_input() -> (v: Vec<u8>)
    ensures
        v@ == spec_lit_input(),
{
    let mut v: Vec<u8> = Vec::new();
    v.push(34);
    v.push(73);
    v.push(110);
    v.push(112);
    v.push(117);
    v.push(116);
    v.push(34);
    proof {
        reveal(spec_lit_input);
        assert(v@ =~= spec_lit_input());
    }
    v
}

/// The literal `\"Output\"` as bytes.
fn lit_output() -> (v: Vec<u8>)
    ensures
        v@ == spec_lit_output(),
{
    let mut v: Vec<u8> = Vec::new();
    v.push(34);
    v.push(79);
    v.push(117);
    v.push(116);
    v.push(112);
    v.push(117);
    v.push(116);
    v.push(34);
    proof {
        reveal(spec_lit_output);
        assert(v@ =~= spec_lit_output());
    }
    v
}

/// The literal `\"Tcp\"` as bytes.
fn lit_tcp() -> (v: Vec<u8>)
    ensures
        v@ == spec_lit_tcp(),
{
    let mut v: Vec<u8> = Vec::new();
    v.push(34);
    v.push(84);
    v.push(99);
    v.push(112);
    v.push(34);
    proof {
        reveal(spec_lit_tcp);
        assert(v@ =~= spec_lit_tcp());
    }
    v
}

/// The literal `\"Udp\"` as bytes.
fn lit_udp() -> (v: Vec<u8>)
    ensures
        v@ == spec_lit_udp(),
{
    let mut v: Vec<u8> = Vec::new();
    v.push(34);
    v.push(85);
    v.push(100);
    v.push(112);
    v.push(34);
    proof {
        reveal(spec_lit_udp);
        assert(v@ =~= spec_lit_udp());
    }
    v
}

/// The literal `\"UdpLite\"` as bytes.
fn lit_udplite() -> (v: Vec<u8>)
    ensures
        v@ == spec_lit_udplite(),
{
    let mut v: Vec<u8> = Vec::new();
    v.push(34);
    v.push(85);
    v.push(100);
    v.push(112);
    v.push(76);
    v.push(105);
    v.push(116);
    v.push(101);
    v.push(34);
    proof {
        reveal(spec_lit_udplite);
        assert(v@ =~= spec_lit_udplite());
    }
    v
}

/// The literal `null` as bytes.
fn lit_null() -> (v: Vec<u8>)
    ensures
        v@ == spec_lit_null(),
{
    let mut v: Vec<u8> = Vec::new();
    v.push(110);
    v.push(117);
    v.push(108);
    v.push(108);
    proof {
        reveal(spec_lit_null);
        assert(v@ =~= spec_lit_null());
    }
    v
}

/// The literal `{\"V4\":` as bytes.
fn lit_v4_open() -> (v: Vec<u8>)
    ensures
        v@ == spec_lit_v4_open(),
{
    let mut v: Vec<u8> = Vec::new();
    v.push(123);
    v.push(34);
    v.push(86);
    v.push(52);
    v.push(34);
    v.push(58);
    proof {
        reveal(spec_lit_v4_open);
        assert(v@ =~= spec_lit_v4_open());
    }
    v
}

/// The literal `{\"V6\":` as bytes.
fn lit_v6_open() -> (v: Vec<u8>)
    ensures
        v@ == spec_lit_v6_open(),
{
    let mut v: Vec<u8> = Vec::new();
    v.push(123);
    v.push(34);
    v.push(86);
    v.push(54);
    v.push(34);
    v.push(58);
    proof {
        reveal(spec_lit_v6_open);
        assert(v@ =~= spec_lit_v6_open());
    }
    v
}

/// The literal `{\"start\":` as bytes.
fn lit_range_open() -> (v: Vec<u8>)
    ensures
        v@ == spec_lit_range_open(),
{
    let mut v: Vec<u8> = Vec::new();
    v.push(123);
    v.push(34);
    v.push(115);
    v.push(116);
    v.push(97);
    v.push(114);
    v.push(116);
    v.push(34);
    v.push(58);
    proof {
        reveal(spec_lit_range_open);
        assert(v@ =~= spec_lit_range_open());
    }
    v
}

/// The literal `,\"end\":` as bytes.
fn lit_range_mid() -> (v: Vec<u8>)
    ensures
        v@ == spec_lit_range_mid(),
{
    let mut v: Vec<u8> = Vec::new();
    v.push(44);
    v.push(34);
    v.push(101);
    v.push(110);
    v.push(100);
    v.push(34);
    v.push(58);
    proof {
        reveal(spec_lit_range_mid);
        assert(v@ =~= spec_lit_range_mid());
    }
    v
}

/// The literal `{\"device\":` as bytes.
fn lit_rule_open() -> (v: Vec<u8>)
    ensures
        v@ == spec_lit_rule_open(),
{
    let mut v: Vec<u8> = Vec::new();
    v.push(123);
    v.push(34);
    v.push(100);
    v.push(101);
    v.push(118);
    v.push(105);
    v.push(99);
    v.push(101);
    v.push(34);
    v.push(58);
    proof {
        reveal(spec_lit_rule_open);
        assert(v@ =~= spec_lit_rule_open());
    }
    v
}

/// The literal `,\"proto\":` as bytes.
fn lit_key_proto() -> (v: Vec<u8>)
    ensures
        v@ == spec_lit_key_proto(),
{
    let mut v: Vec<u8> = Vec::new();
    v.push(44);
    v.push(34);
    v.push(112);
    v.push(114);
    v.push(111);
    v.push(116);
    v.push(111);
    v.push(34);
    v.push(58);
    proof {
        reveal(spec_lit_key_proto);
        assert(v@ =~= spec_lit_key_proto());
    }
    v
}

/// The literal `,\"exe\":` as bytes.
fn lit_key_exe() -> (v: Vec<u8>)
    ensures
        v@ == spec_lit_key_exe(),
{
    let mut v: Vec<u8> = Vec::new();
    v.push(44);
    v.push(34);
    v.push(101);
    v.push(120);
    v.push(101);
    v.push(34);
    v.push(58);
    proof {
        reveal(spec_lit_key_exe);
        assert(v@ =~= spec_lit_key_exe());
    }
    v
}

/// The literal `,\"port\":` as bytes.
fn lit_key_port() -> (v: Vec<u8>)
    ensures
        v@ == spec_lit_key_port(),
{
    let mut v: Vec<u8> = Vec::new();
    v.push(44);
    v.push(34);
    v.push(112);
    v.push(111);
    v.push(114);
    v.push(116);
    v.push(34);
    v.push(58);
    proof {
        reveal(spec_lit_key_port);
        assert(v@ =~= spec_lit_key_port());
    }
    v
}

/// The literal `,\"subnet\":[` as bytes.
fn lit_key_subnet() -> (v: Vec<u8>)
    ensures
        v@ == spec_lit_key_subnet(),
{
    let mut v: Vec<u8> = Vec::new();
    v.push(44);
    v.push(34);
    v.push(115);
    v.push(117);
    v.push(98);
    v.push(110);
    v.push(101);
    v.push(116);
    v.push(34);
    v.push(58);
    v.push(91);
    proof {
        reveal(spec_lit_key_subnet);
        assert(v@ =~= spec_lit_key_subnet());
    }
    v
}

/// The literal `,\"target\":` as bytes.
fn lit_key_target() -> (v: Vec<u8>)
    ensures
        v@ == spec_lit_key_target(),
{
    let mut v: Vec<u8> = Vec::new();
    v.push(44);
    v.push(34);
    v.push(116);
    v.push(97);
    v.push(114);
    v.push(103);
    v.push(101);
    v.push(116);
    v.push(34);
    v.push(58);
    proof {
        reveal(spec_lit_key_target);
        assert(v@ =~= spec_lit_key_target());
    }
    v
}

/// The literal `{\"name\":` as bytes.
fn lit_rate_open() -> (v: Vec<u8>)
    ensures
        v@ == spec_lit_rate_open(),
{
    let mut v: Vec<u8> = Vec::new();
    v.push(123);
    v.push(34);
    v.push(110);
    v.push(97);
    v.push(109);
    v.push(101);
    v.push(34);
    v.push(58);
    proof {
        reveal(spec_lit_rate_open);
        assert(v@ =~= spec_lit_rate_open());
    }
    v
}

/// The literal `,\"limit\":` as bytes.
fn lit_key_limit() -> (v: Vec<u8>)
    ensures
        v@ == spec_lit_key_limit(),
{
    let mut v: Vec<u8> = Vec::new();
    v.push(44);
    v.push(34);
    v.push(108);
    v.push(105);
    v.push(109);
    v.push(105);
    v.push(116);
    v.push(34);
    v.push(58);
    proof {
        reveal(spec_lit_key_limit);
        assert(v@ =~= spec_lit_key_limit());
    }
    v
}

/// The literal `{\"default_target\":` as bytes.
fn lit_rules_open() -> (v: Vec<u8>)
    ensures
        v@ == spec_lit_rules_open(),
{
    let mut v: Vec<u8> = Vec::new();
    v.push(123);
    v.push(34);
    v.push(100);
    v.push(101);
    v.push(102);
    v.push(97);
    v.push(117);
    v.push(108);
    v.push(116);
    v.push(95);
    v.push(116);
    v.push(97);
    v.push(114);
    v.push(103);
    v.push(101);
    v.push(116);
    v.push(34);
    v.push(58);
    proof {
        reveal(spec_lit_rules_open);
        assert(v@ =~= spec_lit_rules_open());
    }
    v
}

/// The literal `,\"rules\":[` as bytes.
fn lit_key_rules() -> (v: Vec<u8>)
    ensures
        v@ == spec_lit_key_rules(),
{
    let mut v: Vec<u8> = Vec::new();
    v.push(44);
    v.push(34);
    v.push(114);
    v.push(117);
    v.push(108);
    v.push(101);
    v.push(115);
    v.push(34);
    v.push(58);
    v.push(91);
    proof {
        reveal(spec_lit_key_rules);
        assert(v@ =~= spec_lit_key_rules());
    }
    v
}

/// The literal `]}` as bytes.
fn lit_rules_close() -> (v: Vec<u8>)
    ensures
        v@ == spec_lit_rules_close(),
{
    let mut v: Vec<u8> = Vec::new();
    v.push(93);
    v.push(125);
    proof {
        reveal(spec_lit_rules_close);
        assert(v@ =~= spec_lit_rules_close());
    }
    v
}

/// The literal `,\"rate_rules\":[` as bytes.
fn lit_rate_tail() -> (v: Vec<u8>)
    ensures
        v@ == spec_lit_rate_tail(),
{
    let mut v: Vec<u8> = Vec::new();
    v.push(44);
    v.push(34);
    v.push(114);
    v.push(97);
    v.push(116);
    v.push(101);
    v.push(95);
    v.push(114);
    v.push(117);
    v.push(108);
    v.push(101);
    v.push(115);
    v.push(34);
    v.push(58);
    v.push(91);
    proof {
        reveal(spec_lit_rate_tail);
        assert(v@ =~= spec_lit_rate_tail());
    }
    v
}

/// Relies on `String::from_utf8`: it yields the string of exactly the given
/// bytes when they are valid UTF-8, and refuses them otherwise.
#[verifier::external_body]
fn string_from_utf8(v: Vec<u8>) -> (r: Option<String>)
    ensures
        (r is Some) == vstd::utf8::valid_utf8(v@),
        r matches Some(s) ==> vstd::utf8::encode_utf8(s@) == v@,
{
    String::from_utf8(v).ok()
}

/// Moves the cursor past any blanks.
fn skip_ws_from(b: &[u8], pos: usize) -> (r: usize)
    requires
        pos <= b@.len(),
    ensures
        pos <= r <= b@.len(),
        b@.skip(r as int) == spec_skip_ws(b@.skip(pos as int)),
{
    let blen = b.len();
    let mut p = pos;
    while p < blen && (b[p] == 32 || b[p] == 9 || b[p] == 10 || b[p] == 13)
        invariant
            pos <= p <= blen,
            blen == b@.len(),
            spec_skip_ws(b@.skip(pos as int)) == spec_skip_ws(b@.skip(p as int)),
        decreases blen - p,
    {
        proof {
            assert(b@.skip(p as int)[0] == b@[p as int]);
            assert(b@.skip(p as int).drop_first() =~= b@.skip(p + 1));
        }
        p = p + 1;
    }
    proof {
        if p < blen {
            assert(b@.skip(p as int)[0] == b@[p as int]);
        }
        assert(spec_skip_ws(b@.skip(p as int)) == b@.skip(p as int));
    }
    p
}

/// Blanks already skipped stay skipped.
proof fn lemma_skip_ws_idem(b: Seq<u8>)
    ensures
        spec_skip_ws(spec_skip_ws(b)) == spec_skip_ws(b),
    decreases b.len(),
{
    if b.len() > 0 && spec_is_ws(b[0]) {
        lemma_skip_ws_idem(b.drop_first());
    }
}

/// Consumes an exact literal at the cursor, blanks between its tokens
/// allowed.
fn p_lit(b: &[u8], pos: usize, lit: &Vec<u8>) -> (r: Option<usize>)
    requires
        pos <= b@.len(),
    ensures
        r is None ==> spec_parse_lit(b@.skip(pos as int), lit@) is None,
        r matches Some(p2) ==> pos <= p2 <= b@.len() && spec_parse_lit(b@.skip(pos as int), lit@)
            == Some(b@.skip(p2 as int)),
{
    let blen = b.len();
    let n = lit.len();
    let mut i: usize = 0;
    let mut p = pos;
    let mut inq = false;
    while i < n
        invariant
            blen == b@.len(),
            n == lit@.len(),
            pos <= p <= blen,
            i <= n,
            spec_parse_lit(b@.skip(pos as int), lit@) == spec_parse_lit_rec(
                b@.skip(p as int),
                lit@,
                i as int,
                inq,
            ),
        decreases n - i,
    {
        if !inq {
            let ghost pre = b@.skip(p as int);
            p = skip_ws_from(b, p);
            proof {
                lemma_skip_ws_idem(pre);
                assert(spec_skip_ws(b@.skip(p as int)) == b@.skip(p as int));
            }
        }
        if p >= blen || b[p] != lit[i] {
            proof {
                if p < blen {
                    assert(b@.skip(p as int)[0] == b@[p as int]);
                }
            }
            return None;
        }
        proof {
            assert(b@.skip(p as int)[0] == b@[p as int]);
            assert(b@.skip(p as int).drop_first() =~= b@.skip(p + 1));
        }
        if lit[i] == 34 {
            inq = !inq;
        }
        p = p + 1;
        i = i + 1;
    }
    Some(p)
}

/// Consumes a decimal number at the cursor.
fn p_dec(b: &[u8], pos: usize) -> (r: Option<(u128, usize)>)
    requires
        pos <= b@.len(),
    ensures
        r is None ==> spec_parse_dec(b@.skip(pos as int)) is None,
        r matches Some((v, p2)) ==> pos <= p2 <= b@.len() && spec_parse_dec(b@.skip(pos as int))
            == Some((v, b@.skip(p2 as int))),
{
    let blen = b.len();
    let start = skip_ws_from(b, pos);
    let ghost s = b@.skip(start as int);
    if start >= blen || b[start] < 48 || b[start] > 57 {
        proof {
            assert(spec_digit_run(s) == 0);
        }
        return None;
    }
    let ghost k = spec_digit_run(s);
    proof {
        lemma_digit_run_front(s);
    }
    let mut v: u128 = 0;
    let mut i: usize = 0;
    while start + i < blen && b[start + i] >= 48 && b[start + i] <= 57
        invariant
            blen == b@.len(),
            start <= blen,
            s == b@.skip(start as int),
            s == spec_skip_ws(b@.skip(pos as int)),
            k == spec_digit_run(s),
            0 <= k <= s.len(),
            forall|j: int| 0 <= j < k ==> 48 <= #[trigger] s[j] <= 57,
            k < s.len() ==> !(48 <= s[k] <= 57),
            i <= k,
            v == spec_dec_value(s.take(i as int)),
            spec_dec_value(s.take(i as int)) <= u128::MAX,
        decreases blen - start - i,
    {
        let c = b[start + i];
        proof {
            assert(s[i as int] == b@[start + i]);
            assert(i < k) by {
                if i >= k {
                    assert(k < s.len() && s[k] == b@[start + k]);
                }
            }
        }
        let d = (c - 48) as u128;
        if v > (u128::MAX - d) / 10 {
            proof {
                let cur = s.take(i + 1);
                assert(cur.drop_last() =~= s.take(i as int));
                assert(cur.last() == c);
                assert(spec_dec_value(cur) == v * 10 + d);
                assert(v * 10 + d > u128::MAX) by (nonlinear_arith)
                    requires
                        v > (u128::MAX - d) / 10,
                        0 <= d <= 9,
                ;
                assert(cur =~= s.take(k).take(i + 1));
                lemma_dec_value_monotonic_digits(cur, s.take(k));
                lemma_dec_value_nonneg(cur);
            }
            return None;
        }
        v = v * 10 + d;
        proof {
            let cur = s.take(i + 1);
            assert(cur.drop_last() =~= s.take(i as int));
            assert(cur.last() == c);
        }
        i = i + 1;
    }
    proof {
        assert(i == k) by {
            if i < k {
                assert(48 <= s[i as int] <= 57);
                assert(s[i as int] == b@[start + i]);
            }
        }
        assert(b@.skip(start as int).skip(k) =~= b@.skip(start + i));
    }
    Some((v, start + i))
}

/// The digits of a run are digits, and the run ends at a non-digit.
proof fn lemma_digit_run_front(s: Seq<u8>)
    ensures
        0 <= spec_digit_run(s) <= s.len(),
        forall|j: int| 0 <= j < spec_digit_run(s) ==> 48 <= #[trigger] s[j] <= 57,
        spec_digit_run(s) < s.len() ==> !(48 <= s[spec_digit_run(s)] <= 57),
    decreases s.len(),
{
    if s.len() > 0 && 48 <= s[0] <= 57 {
        lemma_digit_run_front(s.drop_first());
        assert forall|j: int| 0 <= j < spec_digit_run(s) implies 48 <= #[trigger] s[j] <= 57 by {
            if j > 0 {
                assert(s.drop_first()[j - 1] == s[j]);
            }
        }
        if spec_digit_run(s) < s.len() {
            assert(s.drop_first()[spec_digit_run(s) - 1] == s[spec_digit_run(s)]);
        }
    }
}

/// A digit prefix names a value no larger than the whole run.
proof fn lemma_dec_value_monotonic_digits(prefix: Seq<u8>, s: Seq<u8>)
    requires
        prefix.len() <= s.len(),
        prefix =~= s.take(prefix.len() as int),
        forall|i: int| 0 <= i < s.len() ==> 48 <= #[trigger] s[i] <= 57,
    ensures
        spec_dec_value(prefix) <= spec_dec_value(s),
    decreases s.len(),
{
    if prefix.len() < s.len() {
        assert(s.drop_last().take(prefix.len() as int) =~= prefix);
        lemma_dec_value_monotonic_digits(prefix, s.drop_last());
        lemma_dec_value_nonneg(s.drop_last());
        assert(spec_dec_value(s.drop_last()) <= spec_dec_value(s.drop_last()) * 10 + (s.last()
            - 48)) by (nonlinear_arith)
            requires
                spec_dec_value(s.drop_last()) >= 0,
                s.last() >= 48,
        ;
    } else {
        assert(prefix =~= s);
    }
}

/// Consumes escaped string content up to and including the closing quote.
fn p_str_body(b: &[u8], pos: usize) -> (r: Option<(Vec<u8>, usize)>)
    requires
        pos <= b@.len(),
    ensures
        r is None ==> spec_parse_str_body(b@.skip(pos as int)) is None,
        r matches Some((content, p2)) ==> pos <= p2 <= b@.len() && spec_parse_str_body(
            b@.skip(pos as int),
        ) == Some((content@, b@.skip(p2 as int))),
    decreases b@.len() - pos,
{
    let blen = b.len();
    let ghost s = b@.skip(pos as int);
    if pos >= blen {
        return None;
    }
    let c = b[pos];
    proof {
        assert(s[0] == c);
    }
    if c == 34 {
        proof {
            assert(s.drop_first() =~= b@.skip(pos + 1));
        }
        return Some((Vec::new(), pos + 1));
    }
    if c == 92 {
        if blen - pos < 2 {
            return None;
        }
        let e = b[pos + 1];
        proof {
            assert(s[1] == e);
        }
        if e == 34 || e == 92 {
            proof {
                assert(s.skip(2) =~= b@.skip(pos + 2));
            }
            match p_str_body(b, pos + 2) {
                Option::Some((mut content, p2)) => {
                    let ghost tail = content@;
                    content.insert(0, e);
                    proof {
                        assert(content@ =~= seq![e] + tail);
                    }
                    return Some((content, p2));
                },
                Option::None => {
                    return None;
                },
            }
        }
        if e == 117 {
            if blen - pos >= 6 && b[pos + 2] == 48 && b[pos + 3] == 48 && is_hex(b[pos + 4])
                && is_hex(b[pos + 5]) {
                proof {
                    assert(s[2] == b@[pos + 2] && s[3] == b@[pos + 3] && s[4] == b@[pos + 4] && s[5]
                        == b@[pos + 5]);
                    assert(s.skip(6) =~= b@.skip(pos + 6));
                }
                let byte = hex_value(b[pos + 4]) * 16 + hex_value(b[pos + 5]);
                match p_str_body(b, pos + 6) {
                    Option::Some((mut content, p2)) => {
                        let ghost tail = content@;
                        content.insert(0, byte);
                        proof {
                            assert(content@ =~= seq![byte] + tail);
                        }
                        return Some((content, p2));
                    },
                    Option::None => {
                        return None;
                    },
                }
            } else {
                proof {
                    if blen - pos >= 6 {
                        assert(s[2] == b@[pos + 2] && s[3] == b@[pos + 3] && s[4] == b@[pos + 4]
                            && s[5] == b@[pos + 5]);
                    }
                }
                return None;
            }
        }
        return None;
    }
    if c < 32 {
        return None;
    }
    proof {
        assert(s.drop_first() =~= b@.skip(pos + 1));
    }
    match p_str_body(b, pos + 1) {
        Option::Some((mut content, p2)) => {
            let ghost tail = content@;
            content.insert(0, c);
            proof {
                assert(content@ =~= seq![c] + tail);
            }
            Some((content, p2))
        },
        Option::None => None,
    }
}

/// Whether a byte is a lower-case hex digit.
fn is_hex(c: u8) -> (r: bool)
    ensures
        r == spec_is_hex(c),
{
    (48 <= c && c <= 57) || (97 <= c && c <= 102)
}

/// The value of a lower-case hex digit.
fn hex_value(c: u8) -> (r: u8)
    requires
        spec_is_hex(c),
    ensures
        r == spec_hex_value(c),
        r < 16,
{
    if 48 <= c && c <= 57 {
        c - 48
    } else {
        c - 87
    }
}

/// Consumes a JSON string at the cursor.
fn p_string(b: &[u8], pos: usize) -> (r: Option<(String, usize)>)
    requires
        pos <= b@.len(),
    ensures
        r is None ==> spec_parse_string(b@.skip(pos as int)) is None,
        r matches Some((st, p2)) ==> pos <= p2 <= b@.len() && spec_parse_string(
            b@.skip(pos as int),
        ) == Some((st@, b@.skip(p2 as int))),
{
    let blen = b.len();
    let start = skip_ws_from(b, pos);
    let ghost s = b@.skip(start as int);
    if start >= blen || b[start] != 34 {
        proof {
            if s.len() >= 1 {
                assert(s[0] == b@[start as int]);
            }
        }
        return None;
    }
    proof {
        assert(s[0] == 34);
        assert(s.drop_first() =~= b@.skip(start + 1));
    }
    match p_str_body(b, start + 1) {
        Option::Some((content, p2)) => {
            let ghost cbytes = content@;
            match string_from_utf8(content) {
                Option::Some(st) => {
                    proof {
                        vstd::utf8::encode_utf8_decode_utf8(st@);
                    }
                    Some((st, p2))
                },
                Option::None => None,
            }
        },
        Option::None => None,
    }
}

/// Consumes a device name at the cursor.
fn p_device(b: &[u8], pos: usize) -> (r: Option<(Device, usize)>)
    requires
        pos <= b@.len(),
    ensures
        r is None ==> spec_parse_device(b@.skip(pos as int)) is None,
        r matches Some((d, p2)) ==> pos <= p2 <= b@.len() && spec_parse_device(
            b@.skip(pos as int),
        ) == Some((d, b@.skip(p2 as int))),
{
    let li = lit_input();
    match p_lit(b, pos, &li) {
        Option::Some(p2) => Some((Device::Input, p2)),
        Option::None => {
            let lo = lit_output();
            match p_lit(b, pos, &lo) {
                Option::Some(p2) => Some((Device::Output, p2)),
                Option::None => None,
            }
        },
    }
}

/// Consumes a protocol name at the cursor.
fn p_proto(b: &[u8], pos: usize) -> (r: Option<(Proto, usize)>)
    requires
        pos <= b@.len(),
    ensures
        r is None ==> spec_parse_proto(b@.skip(pos as int)) is None,
        r matches Some((p, p2)) ==> pos <= p2 <= b@.len() && spec_parse_proto(b@.skip(pos as int))
            == Some((p, b@.skip(p2 as int))),
{
    let lt = lit_tcp();
    match p_lit(b, pos, &lt) {
        Option::Some(p2) => Some((Proto::Tcp, p2)),
        Option::None => {
            let ll = lit_udplite();
            match p_lit(b, pos, &ll) {
                Option::Some(p2) => Some((Proto::UdpLite, p2)),
                Option::None => {
                    let lu = lit_udp();
                    match p_lit(b, pos, &lu) {
                        Option::Some(p2) => Some((Proto::Udp, p2)),
                        Option::None => None,
                    }
                },
            }
        },
    }
}

/// Consumes a target at the cursor.
fn p_target(b: &[u8], pos: usize) -> (r: Option<(RuleTarget, usize)>)
    requires
        pos <= b@.len(),
    ensures
        r is None ==> spec_parse_target(b@.skip(pos as int)) is None,
        r matches Some((t, p2)) ==> pos <= p2 <= b@.len() && spec_parse_target(
            b@.skip(pos as int),
        ) == Some((t, b@.skip(p2 as int))),
{
    let blen = b.len();
    let la = lit_accept();
    match p_lit(b, pos, &la) {
        Option::Some(p2) => Some((RuleTarget::Accept, p2)),
        Option::None => {
            let ld = lit_drop();
            match p_lit(b, pos, &ld) {
                Option::Some(p2) => Some((RuleTarget::Drop, p2)),
                Option::None => {
                    let lr = lit_rl_open();
                    match p_lit(b, pos, &lr) {
                        Option::None => None,
                        Option::Some(p1) => match p_dec(b, p1) {
                            Option::None => None,
                            Option::Some((n, p2r)) => {
                                let p2 = skip_ws_from(b, p2r);
                                if n <= usize::MAX as u128 && p2 < blen && b[p2] == 125 {
                                    proof {
                                        assert(b@.skip(p2 as int)[0] == b@[p2 as int]);
                                        assert(b@.skip(p2 as int).drop_first() =~= b@.skip(
                                            p2 + 1,
                                        ));
                                    }
                                    Some((RuleTarget::RateLimit(n as usize), p2 + 1))
                                } else {
                                    proof {
                                        if p2 < blen {
                                            assert(b@.skip(p2 as int)[0] == b@[p2 as int]);
                                        }
                                    }
                                    None
                                }
                            },
                        },
                    }
                },
            }
        },
    }
}

/// Consumes an address at the cursor.
fn p_ip(b: &[u8], pos: usize) -> (r: Option<(IpAddress, usize)>)
    requires
        pos <= b@.len(),
    ensures
        r is None ==> spec_parse_ip(b@.skip(pos as int)) is None,
        r matches Some((ip, p2)) ==> pos <= p2 <= b@.len() && spec_parse_ip(b@.skip(pos as int))
            == Some((ip, b@.skip(p2 as int))),
{
    let blen = b.len();
    let l4 = lit_v4_open();
    match p_lit(b, pos, &l4) {
        Option::Some(p1) => match p_dec(b, p1) {
            Option::None => None,
            Option::Some((n, p2r)) => {
                let p2 = skip_ws_from(b, p2r);
                if n <= u32::MAX as u128 && p2 < blen && b[p2] == 125 {
                    proof {
                        assert(b@.skip(p2 as int)[0] == b@[p2 as int]);
                        assert(b@.skip(p2 as int).drop_first() =~= b@.skip(p2 + 1));
                    }
                    Some((IpAddress::V4(n as u32), p2 + 1))
                } else {
                    proof {
                        if p2 < blen {
                            assert(b@.skip(p2 as int)[0] == b@[p2 as int]);
                        }
                    }
                    None
                }
            },
        },
        Option::None => {
            let l6 = lit_v6_open();
            match p_lit(b, pos, &l6) {
                Option::None => None,
                Option::Some(p1) => match p_dec(b, p1) {
                    Option::None => None,
                    Option::Some((n, p2r)) => {
                        let p2 = skip_ws_from(b, p2r);
                        if p2 < blen && b[p2] == 125 {
                            proof {
                                assert(b@.skip(p2 as int)[0] == b@[p2 as int]);
                                assert(b@.skip(p2 as int).drop_first() =~= b@.skip(p2 + 1));
                            }
                            Some((IpAddress::V6(n), p2 + 1))
                        } else {
                            proof {
                                if p2 < blen {
                                    assert(b@.skip(p2 as int)[0] == b@[p2 as int]);
                                }
                            }
                            None
                        }
                    },
                },
            }
        },
    }
}

/// Consumes a port range at the cursor.
fn p_range(b: &[u8], pos: usize) -> (r: Option<(RangeInclusiveOwned<u16>, usize)>)
    requires
        pos <= b@.len(),
    ensures
        r is None ==> spec_parse_range(b@.skip(pos as int)) is None,
        r matches Some((pr, p2)) ==> pos <= p2 <= b@.len() && spec_parse_range(
            b@.skip(pos as int),
        ) == Some((pr, b@.skip(p2 as int))),
{
    let blen = b.len();
    let lo_lit = lit_range_open();
    let mid_lit = lit_range_mid();
    match p_lit(b, pos, &lo_lit) {
        Option::None => None,
        Option::Some(p1) => match p_dec(b, p1) {
            Option::None => None,
            Option::Some((lo, p2)) => {
                if lo > u16::MAX as u128 {
                    return None;
                }
                match p_lit(b, p2, &mid_lit) {
                    Option::None => None,
                    Option::Some(p3) => match p_dec(b, p3) {
                        Option::None => None,
                        Option::Some((hi, p4r)) => {
                            let p4 = skip_ws_from(b, p4r);
                            if hi <= u16::MAX as u128 && p4 < blen && b[p4] == 125 {
                                proof {
                                    assert(b@.skip(p4 as int)[0] == b@[p4 as int]);
                                    assert(b@.skip(p4 as int).drop_first() =~= b@.skip(p4 + 1));
                                }
                                Some(
                                    (
                                        RangeInclusiveOwned {
                                            start: lo as u16,
                                            end: hi as u16,
                                        },
                                        p4 + 1,
                                    ),
                                )
                            } else {
                                proof {
                                    if p4 < blen {
                                        assert(b@.skip(p4 as int)[0] == b@[p4 as int]);
                                    }
                                }
                                None
                            }
                        },
                    },
                }
            },
        },
    }
}

/// Consumes one rule at the cursor.
#[verifier::rlimit(100)]
#[verifier::spinoff_prover]
fn p_rule(b: &[u8], pos: usize) -> (r: Option<(Rule, usize)>)
    requires
        pos <= b@.len(),
    ensures
        r is None ==> spec_parse_rule(b@.skip(pos as int)) is None,
        r matches Some((rv, p2)) ==> pos <= p2 <= b@.len() && spec_parse_rule(b@.skip(pos as int))
            == Some((rv@, b@.skip(p2 as int))),
{
    let blen = b.len();
    let l_open = lit_rule_open();
    let l_null = lit_null();
    let p1 = match p_lit(b, pos, &l_open) {
        Option::Some(p1) => p1,
        Option::None => {
            return None;
        },
    };
    let (device, p2): (Option<Device>, usize) = match p_lit(b, p1, &l_null) {
        Option::Some(p2) => (None, p2),
        Option::None => match p_device(b, p1) {
            Option::Some((d, p2)) => (Some(d), p2),
            Option::None => {
                return None;
            },
        },
    };
    let l_proto = lit_key_proto();
    let p3 = match p_lit(b, p2, &l_proto) {
        Option::Some(p3) => p3,
        Option::None => {
            return None;
        },
    };
    let (proto, p4): (Option<Proto>, usize) = match p_lit(b, p3, &l_null) {
        Option::Some(p4) => (None, p4),
        Option::None => match p_proto(b, p3) {
            Option::Some((p, p4)) => (Some(p), p4),
            Option::None => {
                return None;
            },
        },
    };
    let l_exe = lit_key_exe();
    let p5 = match p_lit(b, p4, &l_exe) {
        Option::Some(p5) => p5,
        Option::None => {
            return None;
        },
    };
    let (exe, p6): (Option<String>, usize) = match p_lit(b, p5, &l_null) {
        Option::Some(p6) => (None, p6),
        Option::None => match p_string(b, p5) {
            Option::Some((s, p6)) => (Some(s), p6),
            Option::None => {
                return None;
            },
        },
    };
    let l_port = lit_key_port();
    let p7 = match p_lit(b, p6, &l_port) {
        Option::Some(p7) => p7,
        Option::None => {
            return None;
        },
    };
    let (port, p8): (Option<RangeInclusiveOwned<u16>>, usize) = match p_lit(b, p7, &l_null) {
        Option::Some(p8) => (None, p8),
        Option::None => match p_range(b, p7) {
            Option::Some((pr, p8)) => (Some(pr), p8),
            Option::None => {
                return None;
            },
        },
    };
    let l_subnet = lit_key_subnet();
    let p9 = match p_lit(b, p8, &l_subnet) {
        Option::Some(p9) => p9,
        Option::None => {
            return None;
        },
    };
    let (ip, p10r) = match p_ip(b, p9) {
        Option::Some(v) => v,
        Option::None => {
            return None;
        },
    };
    let p10 = skip_ws_from(b, p10r);
    if !(p10 < blen && b[p10] == 44) {
        proof {
            if p10 < blen {
                assert(b@.skip(p10 as int)[0] == b@[p10 as int]);
            }
        }
        return None;
    }
    proof {
        assert(b@.skip(p10 as int)[0] == b@[p10 as int]);
        assert(b@.skip(p10 as int).drop_first() =~= b@.skip(p10 + 1));
    }
    let (mask, p11r) = match p_dec(b, p10 + 1) {
        Option::Some(v) => v,
        Option::None => {
            return None;
        },
    };
    let p11 = skip_ws_from(b, p11r);
    if !(mask <= u8::MAX as u128 && p11 < blen && b[p11] == 93) {
        proof {
            if p11 < blen {
                assert(b@.skip(p11 as int)[0] == b@[p11 as int]);
            }
        }
        return None;
    }
    proof {
        assert(b@.skip(p11 as int)[0] == b@[p11 as int]);
        assert(b@.skip(p11 as int).drop_first() =~= b@.skip(p11 + 1));
    }
    let l_target = lit_key_target();
    let p12 = match p_lit(b, p11 + 1, &l_target) {
        Option::Some(p12) => p12,
        Option::None => {
            return None;
        },
    };
    let (target, p13r) = match p_target(b, p12) {
        Option::Some(v) => v,
        Option::None => {
            return None;
        },
    };
    let p13 = skip_ws_from(b, p13r);
    if !(p13 < blen && b[p13] == 125) {
        proof {
            if p13 < blen {
                assert(b@.skip(p13 as int)[0] == b@[p13 as int]);
            }
        }
        return None;
    }
    proof {
        assert(b@.skip(p13 as int)[0] == b@[p13 as int]);
        assert(b@.skip(p13 as int).drop_first() =~= b@.skip(p13 + 1));
    }
    let rule = Rule { device, proto, exe, port, subnet: (ip, mask as u8), target };
    Some((rule, p13 + 1))
}

/// Consumes rule items up to and including the closing bracket.
fn p_rule_items(b: &[u8], pos: usize, fuel: usize) -> (r: Option<(Vec<Rule>, usize)>)
    requires
        pos <= b@.len(),
    ensures
        r is None ==> spec_parse_rule_items(b@.skip(pos as int), fuel as nat) is None,
        r matches Some((items, p2)) ==> pos <= p2 <= b@.len() && spec_parse_rule_items(
            b@.skip(pos as int),
            fuel as nat,
        ) == Some((spec_rules_view(items@), b@.skip(p2 as int))),
    decreases fuel,
{
    let blen = b.len();
    let pos0 = skip_ws_from(b, pos);
    if pos0 < blen && b[pos0] == 93 {
        proof {
            assert(b@.skip(pos0 as int)[0] == b@[pos0 as int]);
            assert(b@.skip(pos0 as int).drop_first() =~= b@.skip(pos0 + 1));
            assert(spec_rules_view(Seq::<Rule>::empty()) =~= Seq::<RuleV>::empty());
        }
        let empty: Vec<Rule> = Vec::new();
        return Some((empty, pos0 + 1));
    }
    proof {
        if pos0 < blen {
            assert(b@.skip(pos0 as int)[0] == b@[pos0 as int]);
        }
    }
    if fuel == 0 {
        return None;
    }
    let (first, p1r) = match p_rule(b, pos0) {
        Option::Some(v) => v,
        Option::None => {
            return None;
        },
    };
    let p1 = skip_ws_from(b, p1r);
    if p1 < blen && b[p1] == 44 {
        proof {
            assert(b@.skip(p1 as int)[0] == b@[p1 as int]);
            assert(b@.skip(p1 as int).drop_first() =~= b@.skip(p1 + 1));
        }
        match p_rule_items(b, p1 + 1, fuel - 1) {
            Option::Some((mut items, p2)) => {
                if items.len() == 0 {
                    return None;
                }
                let ghost tail = items@;
                items.insert(0, first);
                proof {
                    assert(items@ =~= seq![items@[0]] + tail);
                    assert(spec_rules_view(items@) =~= seq![first@] + spec_rules_view(tail));
                }
                Some((items, p2))
            },
            Option::None => None,
        }
    } else if p1 < blen && b[p1] == 93 {
        proof {
            assert(b@.skip(p1 as int)[0] == b@[p1 as int]);
            assert(b@.skip(p1 as int).drop_first() =~= b@.skip(p1 + 1));
        }
        let mut items: Vec<Rule> = Vec::new();
        items.push(first);
        proof {
            assert(spec_rules_view(items@) =~= seq![first@]);
        }
        Some((items, p1 + 1))
    } else {
        proof {
            if p1 < blen {
                assert(b@.skip(p1 as int)[0] == b@[p1 as int]);
            }
        }
        None
    }
}

/// Consumes one rate rule at the cursor.
fn p_rate(b: &[u8], pos: usize) -> (r: Option<(RateLimitRule, usize)>)
    requires
        pos <= b@.len(),
    ensures
        r is None ==> spec_parse_rate(b@.skip(pos as int)) is None,
        r matches Some((rr, p2)) ==> pos <= p2 <= b@.len() && spec_parse_rate(b@.skip(pos as int))
            == Some(((rr.name@, rr.limit), b@.skip(p2 as int))),
{
    let blen = b.len();
    let l_open = lit_rate_open();
    let p1 = match p_lit(b, pos, &l_open) {
        Option::Some(p1) => p1,
        Option::None => {
            return None;
        },
    };
    let (name, p2) = match p_string(b, p1) {
        Option::Some(v) => v,
        Option::None => {
            return None;
        },
    };
    let l_limit = lit_key_limit();
    let p3 = match p_lit(b, p2, &l_limit) {
        Option::Some(p3) => p3,
        Option::None => {
            return None;
        },
    };
    let (n, p4r) = match p_dec(b, p3) {
        Option::Some(v) => v,
        Option::None => {
            return None;
        },
    };
    let p4 = skip_ws_from(b, p4r);
    if n <= usize::MAX as u128 && p4 < blen && b[p4] == 125 {
        proof {
            assert(b@.skip(p4 as int)[0] == b@[p4 as int]);
            assert(b@.skip(p4 as int).drop_first() =~= b@.skip(p4 + 1));
        }
        Some((RateLimitRule { name, limit: n as usize }, p4 + 1))
    } else {
        proof {
            if p4 < blen {
                assert(b@.skip(p4 as int)[0] == b@[p4 as int]);
            }
        }
        None
    }
}

/// Consumes rate rule items up to and including the closing bracket.
fn p_rate_items(b: &[u8], pos: usize, fuel: usize) -> (r: Option<(Vec<RateLimitRule>, usize)>)
    requires
        pos <= b@.len(),
    ensures
        r is None ==> spec_parse_rate_items(b@.skip(pos as int), fuel as nat) is None,
        r matches Some((items, p2)) ==> pos <= p2 <= b@.len() && spec_parse_rate_items(
            b@.skip(pos as int),
            fuel as nat,
        ) == Some((spec_rate_suffix(items@, 0), b@.skip(p2 as int))),
    decreases fuel,
{
    let blen = b.len();
    let pos0 = skip_ws_from(b, pos);
    if pos0 < blen && b[pos0] == 93 {
        proof {
            assert(b@.skip(pos0 as int)[0] == b@[pos0 as int]);
            assert(b@.skip(pos0 as int).drop_first() =~= b@.skip(pos0 + 1));
            assert(spec_rate_suffix(Seq::<RateLimitRule>::empty(), 0) =~= Seq::<
                (Seq<char>, usize),
            >::empty());
        }
        let empty: Vec<RateLimitRule> = Vec::new();
        return Some((empty, pos0 + 1));
    }
    proof {
        if pos0 < blen {
            assert(b@.skip(pos0 as int)[0] == b@[pos0 as int]);
        }
    }
    if fuel == 0 {
        return None;
    }
    let (first, p1r) = match p_rate(b, pos0) {
        Option::Some(v) => v,
        Option::None => {
            return None;
        },
    };
    let p1 = skip_ws_from(b, p1r);
    if p1 < blen && b[p1] == 44 {
        proof {
            assert(b@.skip(p1 as int)[0] == b@[p1 as int]);
            assert(b@.skip(p1 as int).drop_first() =~= b@.skip(p1 + 1));
        }
        match p_rate_items(b, p1 + 1, fuel - 1) {
            Option::Some((mut items, p2)) => {
                if items.len() == 0 {
                    return None;
                }
                let ghost tail = items@;
                let ghost fv = (first.name@, first.limit);
                items.insert(0, first);
                proof {
                    assert(items@ =~= seq![items@[0]] + tail);
                    assert(spec_rate_suffix(items@, 0) =~= seq![fv] + spec_rate_suffix(tail, 0));
                }
                Some((items, p2))
            },
            Option::None => None,
        }
    } else if p1 < blen && b[p1] == 93 {
        proof {
            assert(b@.skip(p1 as int)[0] == b@[p1 as int]);
            assert(b@.skip(p1 as int).drop_first() =~= b@.skip(p1 + 1));
        }
        let ghost fv = (first.name@, first.limit);
        let mut items: Vec<RateLimitRule> = Vec::new();
        items.push(first);
        proof {
            assert(spec_rate_suffix(items@, 0) =~= seq![fv]);
        }
        Some((items, p1 + 1))
    } else {
        proof {
            if p1 < blen {
                assert(b@.skip(p1 as int)[0] == b@[p1 as int]);
            }
        }
        None
    }
}

/// Reads a rule set out of its JSON text: the canonical shape `to_json`
/// prints, with any blanks between tokens.  Anything else is refused.
#[verifier::rlimit(100)]
#[verifier::spinoff_prover]
pub fn from_json(b: &[u8]) -> (r: Option<Rules>)
    ensures
        r is None ==> spec_from_json(b@) is None,
        r matches Some(rules) ==> spec_from_json(b@) == Some(rules@),
{
    let blen = b.len();
    proof {
        assert(b@.skip(0) =~= b@);
    }
    let l_open = lit_rules_open();
    let p1 = match p_lit(b, 0, &l_open) {
        Option::Some(p1) => p1,
        Option::None => {
            return None;
        },
    };
    let (default_target, p2) = match p_target(b, p1) {
        Option::Some(v) => v,
        Option::None => {
            return None;
        },
    };
    let l_rules = lit_key_rules();
    let p3 = match p_lit(b, p2, &l_rules) {
        Option::Some(p3) => p3,
        Option::None => {
            return None;
        },
    };
    proof {
        assert(b@.skip(p3 as int).len() == blen - p3);
    }
    let (rules_vec, p4) = match p_rule_items(b, p3, blen - p3) {
        Option::Some(v) => v,
        Option::None => {
            return None;
        },
    };
    let l_rate_tail = lit_rate_tail();
    let p5 = match p_lit(b, p4, &l_rate_tail) {
        Option::Some(p5) => p5,
        Option::None => {
            return None;
        },
    };
    proof {
        assert(b@.skip(p5 as int).len() == blen - p5);
    }
    let (rate_vec, p6r) = match p_rate_items(b, p5, blen - p5) {
        Option::Some(v) => v,
        Option::None => {
            return None;
        },
    };
    let p6 = skip_ws_from(b, p6r);
    if !(p6 < blen && b[p6] == 125) {
        proof {
            if p6 < blen {
                assert(b@.skip(p6 as int)[0] == b@[p6 as int]);
            }
        }
        return None;
    }
    proof {
        assert(b@.skip(p6 as int)[0] == b@[p6 as int]);
        assert(b@.skip(p6 as int).drop_first() =~= b@.skip(p6 + 1));
    }
    let p7 = skip_ws_from(b, p6 + 1);
    if p7 != blen {
        proof {
            assert(b@.skip(p7 as int)[0] == b@[p7 as int]);
        }
        return None;
    }
    let out = Rules { default_target, rules: rules_vec, rate_rules: rate_vec };
    proof {
        assert(out@.rules =~= spec_rules_view(out.rules@));
        assert(out@.rate_rules =~= spec_rate_suffix(out.rate_rules@, 0));
        assert(b@.skip(p7 as int).len() == 0);
    }
    Some(out)
}

} // verus!

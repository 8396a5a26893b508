//! Building the netfilter registration commands.
//!
//! The daemon inserts (and on shutdown deletes) an iptables rule per family
//! and chain that diverts non-loopback traffic into its queue.  The argument
//! vectors are built here; the surrounding process runs the commands and
//! checks their exit status.

use vstd::prelude::*;

use crate::proc::{spec_dec_value, spec_is_digits};
use vstd::string::StringSliceAdditionalSpecFns;

verus! {

/// Whether an nftables-based registration is available; the daemon only
/// drives iptables, so no.
pub fn nft_exists() -> (r: bool)
    ensures
        !r,
{
    false
}

/// The decimal digits of `n`, most significant first, no leading zero.
pub open spec fn spec_u16_dec_bytes(n: u16) -> Seq<u8>
    decreases n,
{
    if n < 10 {
        seq![(48 + n) as u8]
    } else {
        spec_u16_dec_bytes(n / 10).push((48 + n % 10) as u8)
    }
}

/// The decimal digits of `n` read back as `n`.
pub proof fn lemma_u16_dec_bytes_value(n: u16)
    ensures
        spec_is_digits(spec_u16_dec_bytes(n)),
        spec_dec_value(spec_u16_dec_bytes(n)) == n,
    decreases n,
{
    if n < 10 {
        let s = spec_u16_dec_bytes(n);
        assert(s.drop_last() =~= Seq::<u8>::empty());
        assert(spec_dec_value(Seq::<u8>::empty()) == 0);
        assert(s.last() == (48 + n) as u8);
        assert(spec_dec_value(s) == spec_dec_value(s.drop_last()) * 10 + (s.last() - 48));
        assert(48 <= s[0] <= 57);
    } else {
        lemma_u16_dec_bytes_value(n / 10);
        let s = spec_u16_dec_bytes(n);
        assert(s.drop_last() =~= spec_u16_dec_bytes(n / 10));
        assert((n / 10) * 10 + n % 10 == n) by (nonlinear_arith);
        assert(s.last() == (48 + n % 10) as u8);
        assert(spec_dec_value(s) == spec_dec_value(spec_u16_dec_bytes(n / 10)) * 10 + ((48 + n % 10)
            as u8 - 48));
        assert forall|i: int| 0 <= i < s.len() implies 48 <= #[trigger] s[i] <= 57 by {
            if i < s.len() - 1 {
                assert(s[i] == spec_u16_dec_bytes(n / 10)[i]);
            } else {
                assert(s[i] == (48 + n % 10) as u8);
            }
        }
    }
}

/// Appends the decimal digits of `n`.
fn push_u16_dec(v: &mut Vec<u8>, n: u16)
    ensures
        final(v)@ == old(v)@ + spec_u16_dec_bytes(n),
    decreases n,
{
    if n < 10 {
        v.push(48 + n as u8);
        proof {
            assert(v@ =~= old(v)@ + spec_u16_dec_bytes(n));
        }
    } else {
        push_u16_dec(v, n / 10);
        v.push(48 + (n % 10) as u8);
        proof {
            assert(v@ =~= old(v)@ + spec_u16_dec_bytes(n));
        }
    }
}

/// The program to run: `iptables` for v4 rules, `ip6tables` for v6.
pub open spec fn spec_iptables_program(v4: bool) -> Seq<u8> {
    if v4 {
        seq![105u8, 112u8, 116u8, 97u8, 98u8, 108u8, 101u8, 115u8]
    } else {
        seq![105u8, 112u8, 54u8, 116u8, 97u8, 98u8, 108u8, 101u8, 115u8]
    }
}

/// The argument vector of one registration command, as byte strings:
/// `-<cmd> <chain> ! -o/-i lo -t mangle -j NFQUEUE --queue-num <n>
/// --queue-bypass`, with the chain and interface flag picked by direction.
pub open spec fn spec_iptables_args(output: bool, cmd: Seq<char>, queue_num: u16) -> Seq<Seq<u8>> {
    seq![
        seq![45u8] + vstd::utf8::encode_utf8(cmd),
        if output { spec_tok_output() } else { spec_tok_input() },
        spec_tok_bang(),
        if output { spec_tok_dash_o() } else { spec_tok_dash_i() },
        spec_tok_lo(),
        spec_tok_dash_t(),
        spec_tok_mangle(),
        spec_tok_dash_j(),
        spec_tok_nfqueue(),
        spec_tok_queue_num(),
        spec_u16_dec_bytes(queue_num),
        spec_tok_queue_bypass(),
    ]
}

/// The bytes of `OUTPUT`.
pub open spec fn spec_tok_output() -> Seq<u8> {
    seq![79u8, 85u8, 84u8, 80u8, 85u8, 84u8]
}

/// The bytes of `INPUT`.
pub open spec fn spec_tok_input() -> Seq<u8> {
    seq![73u8, 78u8, 80u8, 85u8, 84u8]
}

/// The bytes of `!`.
pub open spec fn spec_tok_bang() -> Seq<u8> {
    seq![33u8]
}

/// The bytes of `-o`.
pub open spec fn spec_tok_dash_o() -> Seq<u8> {
    seq![45u8, 111u8]
}

/// The bytes of `-i`.
pub open spec fn spec_tok_dash_i() -> Seq<u8> {
    seq![45u8, 105u8]
}

/// The bytes of `lo`.
pub open spec fn spec_tok_lo() -> Seq<u8> {
    seq![108u8, 111u8]
}

/// The bytes of `-t`.
pub open spec fn spec_tok_dash_t() -> Seq<u8> {
    seq![45u8, 116u8]
}

/// The bytes of `mangle`.
pub open spec fn spec_tok_mangle() -> Seq<u8> {
    seq![109u8, 97u8, 110u8, 103u8, 108u8, 101u8]
}

/// The bytes of `-j`.
pub open spec fn spec_tok_dash_j() -> Seq<u8> {
    seq![45u8, 106u8]
}

/// The bytes of `NFQUEUE`.
pub open spec fn spec_tok_nfqueue() -> Seq<u8> {
    seq![78u8, 70u8, 81u8, 85u8, 69u8, 85u8, 69u8]
}

/// The bytes of `--queue-num`.
pub open spec fn spec_tok_queue_num() -> Seq<u8> {
    seq![45u8, 45u8, 113u8, 117u8, 101u8, 117u8, 101u8, 45u8, 110u8, 117u8, 109u8]
}

/// The bytes of `--queue-bypass`.
pub open spec fn spec_tok_queue_bypass() -> Seq<u8> {
    seq![45u8, 45u8, 113u8, 117u8, 101u8, 117u8, 101u8, 45u8, 98u8, 121u8, 112u8, 97u8, 115u8, 115u8]
}

/// The views of a vector of byte strings.
pub open spec fn spec_arg_views(v: Seq<Vec<u8>>) -> Seq<Seq<u8>> {
    Seq::new(v.len(), |i: int| v[i]@)
}

/// The program name for one registration command.
pub fn iptables_program(v4: bool) -> (r: Vec<u8>)
    ensures
        r@ == spec_iptables_program(v4),
{
    let mut v: Vec<u8> = Vec::new();
    if v4 {
        v.push(105);
        v.push(112);
        v.push(116);
        v.push(97);
        v.push(98);
        v.push(108);
        v.push(101);
        v.push(115);
        proof {
            assert(v@ =~= spec_iptables_program(v4));
        }
    } else {
        v.push(105);
        v.push(112);
        v.push(54);
        v.push(116);
        v.push(97);
        v.push(98);
        v.push(108);
        v.push(101);
        v.push(115);
        proof {
            assert(v@ =~= spec_iptables_program(v4));
        }
    }
    v
}

/// Builds the argument vector of one registration command.
pub fn iptables_args(output: bool, cmd: &str, queue_num: u16) -> (r: Vec<Vec<u8>>)
    ensures
        spec_arg_views(r@) == spec_iptables_args(output, cmd@, queue_num),
{
    let mut r: Vec<Vec<u8>> = Vec::new();

    let mut t0: Vec<u8> = Vec::new();
    t0.push(45);
    t0.extend_from_slice(cmd.as_bytes());
    proof {
        assert(t0@ =~= seq![45u8] + vstd::utf8::encode_utf8(cmd@));
    }
    r.push(t0);

    let mut chain: Vec<u8> = Vec::new();
    if output {
        chain.push(79);
        chain.push(85);
        chain.push(84);
        chain.push(80);
        chain.push(85);
        chain.push(84);
        proof {
            assert(chain@ =~= spec_tok_output());
        }
    } else {
        chain.push(73);
        chain.push(78);
        chain.push(80);
        chain.push(85);
        chain.push(84);
        proof {
            assert(chain@ =~= spec_tok_input());
        }
    }
    r.push(chain);

    let mut t_bang: Vec<u8> = Vec::new();
    t_bang.push(33);
    proof {
        assert(t_bang@ =~= spec_tok_bang());
    }
    r.push(t_bang);

    let mut iface: Vec<u8> = Vec::new();
    iface.push(45);
    if output {
        iface.push(111);
        proof {
            assert(iface@ =~= spec_tok_dash_o());
        }
    } else {
        iface.push(105);
        proof {
            assert(iface@ =~= spec_tok_dash_i());
        }
    }
    r.push(iface);

    let mut t_lo: Vec<u8> = Vec::new();
    t_lo.push(108);
    t_lo.push(111);
    proof {
        assert(t_lo@ =~= spec_tok_lo());
    }
    r.push(t_lo);

    let mut t_dash_t: Vec<u8> = Vec::new();
    t_dash_t.push(45);
    t_dash_t.push(116);
    proof {
        assert(t_dash_t@ =~= spec_tok_dash_t());
    }
    r.push(t_dash_t);

    let mut t_mangle: Vec<u8> = Vec::new();
    t_mangle.push(109);
    t_mangle.push(97);
    t_mangle.push(110);
    t_mangle.push(103);
    t_mangle.push(108);
    t_mangle.push(101);
    proof {
        assert(t_mangle@ =~= spec_tok_mangle());
    }
    r.push(t_mangle);

    let mut t_dash_j: Vec<u8> = Vec::new();
    t_dash_j.push(45);
    t_dash_j.push(106);
    proof {
        assert(t_dash_j@ =~= spec_tok_dash_j());
    }
    r.push(t_dash_j);

    let mut t_nfqueue: Vec<u8> = Vec::new();
    t_nfqueue.push(78);
    t_nfqueue.push(70);
    t_nfqueue.push(81);
    t_nfqueue.push(85);
    t_nfqueue.push(69);
    t_nfqueue.push(85);
    t_nfqueue.push(69);
    proof {
        assert(t_nfqueue@ =~= spec_tok_nfqueue());
    }
    r.push(t_nfqueue);

    let mut t_queue_num: Vec<u8> = Vec::new();
    t_queue_num.push(45);
    t_queue_num.push(45);
    t_queue_num.push(113);
    t_queue_num.push(117);
    t_queue_num.push(101);
    t_queue_num.push(117);
    t_queue_num.push(101);
    t_queue_num.push(45);
    t_queue_num.push(110);
    t_queue_num.push(117);
    t_queue_num.push(109);
    proof {
        assert(t_queue_num@ =~= spec_tok_queue_num());
    }
    r.push(t_queue_num);

    let mut num: Vec<u8> = Vec::new();
    push_u16_dec(&mut num, queue_num);
    proof {
        assert(num@ =~= spec_u16_dec_bytes(queue_num));
    }
    r.push(num);

    let mut t_bypass: Vec<u8> = Vec::new();
    t_bypass.push(45);
    t_bypass.push(45);
    t_bypass.push(113);
    t_bypass.push(117);
    t_bypass.push(101);
    t_bypass.push(117);
    t_bypass.push(101);
    t_bypass.push(45);
    t_bypass.push(98);
    t_bypass.push(121);
    t_bypass.push(112);
    t_bypass.push(97);
    t_bypass.push(115);
    t_bypass.push(115);
    proof {
        assert(t_bypass@ =~= spec_tok_queue_bypass());
    }
    r.push(t_bypass);

    proof {
        assert(spec_arg_views(r@) =~~= spec_iptables_args(output, cmd@, queue_num));
    }
    r
}

} // verus!

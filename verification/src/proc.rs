//! The process index: inode-to-process answers in bounded time.
//!
//! The surrounding process enumerates `/proc` and parses each entry; this
//! module holds the verified bookkeeping: the inode index, the process table,
//! the fresh/stale scanning generations, and the byte-level parsers for what
//! a `/proc` entry yields (socket links and stat fields).

use vstd::prelude::*;

verus! {

/// One local process: identifiers, executable path, and the socket inodes it
/// holds open.
#[derive(Debug)]
pub struct Process {
    pub pid: usize,
    /// The PID of the parent of this process.
    pub ppid: usize,
    /// The process group ID of the process.
    pub pgrp: usize,
    pub exe: String,
    pub inodes: Vec<u32>,
}

/// The abstract value of a `Process`.
pub struct ProcessV {
    pub pid: usize,
    pub ppid: usize,
    pub pgrp: usize,
    pub exe: Seq<char>,
    pub inodes: Seq<u32>,
}

impl View for Process {
    type V = ProcessV;

    open spec fn view(&self) -> ProcessV {
        ProcessV {
            pid: self.pid,
            ppid: self.ppid,
            pgrp: self.pgrp,
            exe: self.exe@,
            inodes: self.inodes@,
        }
    }
}

impl Clone for Process {
    fn clone(&self) -> (res: Self)
        ensures
            res@ == self@,
    {
        let mut inodes: Vec<u32> = Vec::new();
        let mut i: usize = 0;
        while i < self.inodes.len()
            invariant
                i <= self.inodes@.len(),
                inodes@ == self.inodes@.take(i as int),
            decreases self.inodes@.len() - i,
        {
            inodes.push(self.inodes[i]);
            proof {
                assert(inodes@ =~= self.inodes@.take(i + 1));
            }
            i = i + 1;
        }
        proof {
            assert(inodes@ =~= self.inodes@);
        }
        Process {
            pid: self.pid,
            ppid: self.ppid,
            pgrp: self.pgrp,
            exe: self.exe.clone(),
            inodes,
        }
    }
}

/// The value of a decimal digit sequence, most significant first.
pub open spec fn spec_dec_value(s: Seq<u8>) -> int
    decreases s.len(),
{
    if s.len() == 0 {
        0
    } else {
        spec_dec_value(s.drop_last()) * 10 + (s.last() - 48)
    }
}

/// Whether every byte is an ASCII digit and there is at least one.
pub open spec fn spec_is_digits(s: Seq<u8>) -> bool {
    s.len() > 0 && forall|i: int| 0 <= i < s.len() ==> 48 <= #[trigger] s[i] <= 57
}

/// Parses a decimal number of at most `u64` range from all of `s`.
pub fn parse_u64_dec(s: &[u8]) -> (r: Option<u64>)
    ensures
        r == (if spec_is_digits(s@) && spec_dec_value(s@) <= u64::MAX {
            Some(spec_dec_value(s@) as u64)
        } else {
            None::<u64>
        }),
{
    let n = s.len();
    if n == 0 {
        return None;
    }
    let mut v: u64 = 0;
    let mut i: usize = 0;
    while i < n
        invariant
            n == s@.len(),
            i <= n,
            spec_is_digits(s@.take(i as int)) || i == 0,
            v == spec_dec_value(s@.take(i as int)),
        decreases n - i,
    {
        let c = s[i];
        if c < 48 || c > 57 {
            proof {
                assert(!spec_is_digits(s@));
            }
            return None;
        }
        let d = (c - 48) as u64;
        if v > (u64::MAX - d) / 10 {
            proof {
                let pre = s@.take(i as int);
                let cur = s@.take(i + 1);
                assert(cur.drop_last() =~= pre);
                assert(spec_dec_value(cur) == v * 10 + d);
                if spec_is_digits(s@) {
                    assert(cur =~= s@.take(cur.len() as int));
                    lemma_dec_value_monotonic(cur, s@);
                    assert(v * 10 + d > u64::MAX) by (nonlinear_arith)
                        requires
                            v > (u64::MAX - d) / 10,
                            0 <= d <= 9,
                    ;
                    assert(spec_dec_value(s@) > u64::MAX);
                }
            }
            return None;
        }
        v = v * 10 + d;
        proof {
            let pre = s@.take(i as int);
            let cur = s@.take(i + 1);
            assert(cur.drop_last() =~= pre);
            assert(cur.last() == c);
        }
        i = i + 1;
    }
    proof {
        assert(s@.take(n as int) =~= s@);
    }
    Some(v)
}

/// A longer digit string names a value at least as large.
proof fn lemma_dec_value_monotonic(prefix: Seq<u8>, s: Seq<u8>)
    requires
        prefix.len() <= s.len(),
        prefix =~= s.take(prefix.len() as int),
        forall|i: int| 0 <= i < s.len() ==> 48 <= #[trigger] s[i] <= 57,
    ensures
        spec_dec_value(prefix) <= spec_dec_value(s),
    decreases s.len(),
{
    if prefix.len() < s.len() {
        assert(s.drop_last().take(prefix.len() as int) =~= prefix);
        lemma_dec_value_monotonic(prefix, s.drop_last());
        assert(spec_dec_value(s) == spec_dec_value(s.drop_last()) * 10 + (s.last() - 48));
        lemma_dec_value_nonneg(s.drop_last());
        assert(spec_dec_value(s.drop_last()) <= spec_dec_value(s.drop_last()) * 10 + (s.last()
            - 48)) by (nonlinear_arith)
            requires
                spec_dec_value(s.drop_last()) >= 0,
                s.last() >= 48,
        ;
    } else {
        assert(prefix =~= s);
    }
}

/// A digit string's value is never negative.
pub proof fn lemma_dec_value_nonneg(s: Seq<u8>)
    requires
        forall|i: int| 0 <= i < s.len() ==> 48 <= #[trigger] s[i] <= 57,
    ensures
        spec_dec_value(s) >= 0,
    decreases s.len(),
{
    if s.len() > 0 {
        lemma_dec_value_nonneg(s.drop_last());
    }
}

/// What a `/proc/<pid>/fd` symlink target names: `Some(n)` exactly when the
/// text is `socket:[` + digits + `]` with the inode fitting 32 bits.
pub open spec fn spec_socket_inode(link: Seq<u8>) -> Option<u32> {
    let prefix = seq![115u8, 111u8, 99u8, 107u8, 101u8, 116u8, 58u8, 91u8];
    if link.len() >= 10 && link.take(8) == prefix && link.last() == 93u8 && spec_is_digits(
        link.subrange(8, link.len() - 1),
    ) && spec_dec_value(link.subrange(8, link.len() - 1)) <= u32::MAX {
        Some(spec_dec_value(link.subrange(8, link.len() - 1)) as u32)
    } else {
        None
    }
}

/// Reads a socket inode out of a `/proc/<pid>/fd` symlink target.
#[verifier::rlimit(50)]
pub fn parse_socket_inode(link: &[u8]) -> (r: Option<u32>)
    ensures
        r == spec_socket_inode(link@),
{
    let n = link.len();
    let ghost prefix = seq![115u8, 111u8, 99u8, 107u8, 101u8, 116u8, 58u8, 91u8];
    if n < 10 {
        return None;
    }
    if !(link[0] == 115 && link[1] == 111 && link[2] == 99 && link[3] == 107 && link[4] == 101
        && link[5] == 116 && link[6] == 58 && link[7] == 91) {
        proof {
            assert(link@.take(8) != prefix) by {
                if link@.take(8) == prefix {
                    assert(link@[0] == 115 && link@[1] == 111 && link@[2] == 99 && link@[3] == 107
                        && link@[4] == 101 && link@[5] == 116 && link@[6] == 58 && link@[7] == 91);
                }
            }
        }
        return None;
    }
    proof {
        assert(link@.take(8) =~= prefix);
    }
    if link[n - 1] != 93 {
        return None;
    }
    let mut digits: Vec<u8> = Vec::new();
    let mut i: usize = 8;
    while i < n - 1
        invariant
            n == link@.len(),
            10 <= n,
            8 <= i <= n - 1,
            digits@ == link@.subrange(8, i as int),
        decreases n - i,
    {
        digits.push(link[i]);
        proof {
            assert(digits@ =~= link@.subrange(8, i + 1));
        }
        i = i + 1;
    }
    proof {
        assert(digits@ == link@.subrange(8, n - 1));
        assert(link@.last() == 93u8);
    }
    match parse_u64_dec(digits.as_slice()) {
        Option::Some(v) => {
            proof {
                lemma_dec_value_nonneg(digits@);
            }
            if v <= 0xffff_ffff {
                proof {
                    assert(spec_socket_inode(link@) == Some(v as u32));
                }
                Some(v as u32)
            } else {
                proof {
                    assert(spec_socket_inode(link@) is None);
                }
                None
            }
        },
        Option::None => {
            proof {
                assert(spec_socket_inode(link@) is None);
            }
            None
        },
    }
}

/// Splits a byte string on single occurrences of `sep`, from the front: the
/// split of the empty string is one empty piece.
pub open spec fn spec_split(s: Seq<u8>, sep: u8) -> Seq<Seq<u8>>
    decreases s.len(),
{
    if s.len() == 0 {
        seq![Seq::empty()]
    } else if s[0] == sep {
        seq![Seq::<u8>::empty()] + spec_split(s.drop_first(), sep)
    } else {
        let rest = spec_split(s.drop_first(), sep);
        rest.update(0, seq![s[0]] + rest[0])
    }
}

/// A split has at least one piece.
pub proof fn lemma_split_nonempty(s: Seq<u8>, sep: u8)
    ensures
        spec_split(s, sep).len() >= 1,
    decreases s.len(),
{
    if s.len() > 0 {
        lemma_split_nonempty(s.drop_first(), sep);
    }
}

/// The views of a vector of byte vectors.
pub open spec fn spec_views_of(v: Seq<Vec<u8>>) -> Seq<Seq<u8>> {
    Seq::new(v.len(), |i: int| v[i]@)
}

/// Splits the suffix of `s` starting at `off` on `sep`.
fn split_bytes_from(s: &[u8], off: usize, sep: u8) -> (r: Vec<Vec<u8>>)
    requires
        off <= s@.len(),
    ensures
        spec_views_of(r@) == spec_split(s@.skip(off as int), sep),
        r@.len() >= 1,
    decreases s@.len() - off,
{
    let n = s.len();
    if off >= n {
        let mut r: Vec<Vec<u8>> = Vec::new();
        r.push(Vec::new());
        proof {
            assert(s@.skip(off as int) =~= Seq::<u8>::empty());
            assert(spec_views_of(r@) =~~= spec_split(s@.skip(off as int), sep));
        }
        r
    } else if s[off] == sep {
        let mut rest = split_bytes_from(s, off + 1, sep);
        let ghost rest_views = spec_views_of(rest@);
        rest.insert(0, Vec::new());
        proof {
            assert(s@.skip(off as int).drop_first() =~= s@.skip(off + 1));
            assert(s@.skip(off as int)[0] == sep);
            assert(spec_views_of(rest@) =~~= seq![Seq::<u8>::empty()] + rest_views);
        }
        rest
    } else {
        let mut rest = split_bytes_from(s, off + 1, sep);
        let ghost rest_views = spec_views_of(rest@);
        let c = s[off];
        let first = &mut rest[0];
        first.insert(0, c);
        proof {
            assert(s@.skip(off as int).drop_first() =~= s@.skip(off + 1));
            assert(s@.skip(off as int)[0] == c);
            assert(spec_views_of(rest@) =~~= rest_views.update(0, seq![c] + rest_views[0]));
        }
        rest
    }
}

/// The text after the last `)` of `s`; all of `s` when it has none.
pub open spec fn spec_after_last_paren(s: Seq<u8>) -> Seq<u8>
    decreases s.len(),
{
    if s.len() == 0 {
        s
    } else if s.last() == 41u8 {
        Seq::empty()
    } else {
        spec_after_last_paren(s.drop_last()).push(s.last())
    }
}

/// The start of the text after the last `)` within `s[..end]`.
fn after_last_paren_start(s: &[u8], end: usize) -> (r: usize)
    requires
        end <= s@.len(),
    ensures
        r <= end,
        s@.subrange(r as int, end as int) == spec_after_last_paren(s@.take(end as int)),
    decreases end,
{
    if end == 0 {
        proof {
            assert(s@.subrange(0, 0) =~= spec_after_last_paren(s@.take(0)));
        }
        0
    } else if s[end - 1] == 41 {
        proof {
            assert(s@.take(end as int).last() == 41u8);
            assert(s@.subrange(end as int, end as int) =~= Seq::<u8>::empty());
        }
        end
    } else {
        let r = after_last_paren_start(s, end - 1);
        proof {
            assert(s@.take(end as int).drop_last() =~= s@.take(end - 1));
            assert(s@.take(end as int).last() == s@[end - 1]);
            assert(s@.subrange(r as int, end as int) =~= s@.subrange(r as int, end - 1).push(
                s@[end - 1],
            ));
        }
        r
    }
}

/// What the stat line yields: after the last `)` of the comm field, the
/// third and fourth space-separated tokens are the parent PID and the
/// process group, both decimal.
pub open spec fn spec_stat_ppid_pgrp(stat: Seq<u8>) -> Option<(u64, u64)> {
    let tokens = spec_split(spec_after_last_paren(stat), 32u8);
    if tokens.len() >= 4 && spec_is_digits(tokens[2]) && spec_dec_value(tokens[2]) <= u64::MAX
        && spec_is_digits(tokens[3]) && spec_dec_value(tokens[3]) <= u64::MAX {
        Some((spec_dec_value(tokens[2]) as u64, spec_dec_value(tokens[3]) as u64))
    } else {
        None
    }
}

/// Reads the parent PID and process group out of a `/proc/<pid>/stat` line.
pub fn parse_stat_ppid_pgrp(stat: &[u8]) -> (r: Option<(u64, u64)>)
    ensures
        r == spec_stat_ppid_pgrp(stat@),
{
    let n = stat.len();
    let start = after_last_paren_start(stat, n);
    let tokens = split_bytes_from(stat, start, 32);
    proof {
        assert(stat@.take(n as int) =~= stat@);
        assert(stat@.subrange(start as int, n as int) =~= stat@.skip(start as int));
    }
    if tokens.len() < 4 {
        return None;
    }
    let ppid = parse_u64_dec(tokens[2].as_slice());
    let pgrp = parse_u64_dec(tokens[3].as_slice());
    proof {
        assert(tokens@[2]@ == spec_views_of(tokens@)[2]);
        assert(tokens@[3]@ == spec_views_of(tokens@)[3]);
    }
    match (ppid, pgrp) {
        (Option::Some(a), Option::Some(b)) => Some((a, b)),
        _ => None,
    }
}

/// The map an inode association list denotes; a later pair overrides an
/// earlier one with the same inode.
pub open spec fn spec_imap(s: Seq<(u32, usize)>) -> Map<u32, usize>
    decreases s.len(),
{
    if s.len() == 0 {
        Map::empty()
    } else {
        spec_imap(s.drop_last()).insert(s.last().0, s.last().1)
    }
}

/// The map a process association list denotes, by process value.
pub open spec fn spec_pmap(s: Seq<(usize, Process)>) -> Map<usize, ProcessV>
    decreases s.len(),
{
    if s.len() == 0 {
        Map::empty()
    } else {
        spec_pmap(s.drop_last()).insert(s.last().0, s.last().1@)
    }
}

/// Reads the inode association list, last pair winning.
fn imap_get_from(s: &Vec<(u32, usize)>, end: usize, k: u32) -> (r: Option<usize>)
    requires
        end <= s@.len(),
    ensures
        r == (if spec_imap(s@.take(end as int)).dom().contains(k) {
            Some(spec_imap(s@.take(end as int))[k])
        } else {
            None::<usize>
        }),
    decreases end,
{
    if end == 0 {
        proof {
            assert(s@.take(0) =~= Seq::<(u32, usize)>::empty());
        }
        None
    } else {
        let pair = s[end - 1];
        proof {
            assert(s@.take(end as int).drop_last() =~= s@.take(end - 1));
            assert(s@.take(end as int).last() == s@[end - 1]);
        }
        if pair.0 == k {
            Some(pair.1)
        } else {
            imap_get_from(s, end - 1, k)
        }
    }
}

/// Reads the process association list, last pair winning; hands out a clone.
fn pmap_get_from(s: &Vec<(usize, Process)>, end: usize, k: usize) -> (r: Option<Process>)
    requires
        end <= s@.len(),
    ensures
        (r is Some) == spec_pmap(s@.take(end as int)).dom().contains(k),
        r matches Some(p) ==> p@ == spec_pmap(s@.take(end as int))[k],
    decreases end,
{
    if end == 0 {
        proof {
            assert(s@.take(0) =~= Seq::<(usize, Process)>::empty());
        }
        None
    } else {
        proof {
            assert(s@.take(end as int).drop_last() =~= s@.take(end - 1));
            assert(s@.take(end as int).last() == s@[end - 1]);
        }
        if s[end - 1].0 == k {
            Some(s[end - 1].1.clone())
        } else {
            pmap_get_from(s, end - 1, k)
        }
    }
}

/// Rebuilds the inode association list without any pair of inode `k`.
fn imap_remove_from(s: &Vec<(u32, usize)>, end: usize, k: u32) -> (r: Vec<(u32, usize)>)
    requires
        end <= s@.len(),
    ensures
        spec_imap(r@) == spec_imap(s@.take(end as int)).remove(k),
        forall|j: int| 0 <= j < r@.len() ==> (#[trigger] r@[j]).0 != k,
    decreases end,
{
    if end == 0 {
        let r: Vec<(u32, usize)> = Vec::new();
        proof {
            assert(s@.take(0) =~= Seq::<(u32, usize)>::empty());
            assert(spec_imap(r@) =~= spec_imap(s@.take(0)).remove(k));
        }
        r
    } else {
        let mut r = imap_remove_from(s, end - 1, k);
        let pair = s[end - 1];
        proof {
            assert(s@.take(end as int).drop_last() =~= s@.take(end - 1));
            assert(s@.take(end as int).last() == s@[end - 1]);
        }
        if pair.0 != k {
            let ghost pre = r@;
            r.push(pair);
            proof {
                assert(r@.drop_last() =~= pre);
                assert(r@.last() == pair);
                assert(spec_imap(r@) =~= spec_imap(s@.take(end as int)).remove(k));
            }
        } else {
            proof {
                assert(spec_imap(r@) =~= spec_imap(s@.take(end as int)).remove(k));
            }
        }
        r
    }
}

/// Rebuilds the process association list without any pair of pid `k`.
fn pmap_remove_from(s: &Vec<(usize, Process)>, end: usize, k: usize) -> (r: Vec<(usize, Process)>)
    requires
        end <= s@.len(),
    ensures
        spec_pmap(r@) == spec_pmap(s@.take(end as int)).remove(k),
        forall|j: int| 0 <= j < r@.len() ==> (#[trigger] r@[j]).0 != k,
    decreases end,
{
    if end == 0 {
        let r: Vec<(usize, Process)> = Vec::new();
        proof {
            assert(s@.take(0) =~= Seq::<(usize, Process)>::empty());
            assert(spec_pmap(r@) =~= spec_pmap(s@.take(0)).remove(k));
        }
        r
    } else {
        let mut r = pmap_remove_from(s, end - 1, k);
        proof {
            assert(s@.take(end as int).drop_last() =~= s@.take(end - 1));
            assert(s@.take(end as int).last() == s@[end - 1]);
        }
        if s[end - 1].0 != k {
            let ghost pre = r@;
            let pid = s[end - 1].0;
            let p = s[end - 1].1.clone();
            let ghost pv = p@;
            r.push((pid, p));
            proof {
                assert(r@.drop_last() =~= pre);
                assert(r@.last().0 == pid && r@.last().1@ == pv);
                assert(spec_pmap(r@) =~= spec_pmap(s@.take(end as int)).remove(k));
            }
        } else {
            proof {
                assert(spec_pmap(r@) =~= spec_pmap(s@.take(end as int)).remove(k));
            }
        }
        r
    }
}

/// Adds a pid posting for every inode of the list; other inodes keep their
/// mapping.
fn imap_add_all(index: &mut Vec<(u32, usize)>, inodes: &Vec<u32>, pid: usize)
    ensures
        forall|ino: u32|
            inodes@.contains(ino) ==> spec_imap(final(index)@).dom().contains(ino) && spec_imap(
                final(index)@,
            )[ino] == pid,
        forall|ino: u32|
            !inodes@.contains(ino) ==> (spec_imap(final(index)@).dom().contains(ino) == spec_imap(
                old(index)@,
            ).dom().contains(ino)) && (spec_imap(old(index)@).dom().contains(ino) ==> spec_imap(
                final(index)@,
            )[ino] == spec_imap(old(index)@)[ino]),
{
    let n = inodes.len();
    let mut i: usize = 0;
    while i < n
        invariant
            n == inodes@.len(),
            i <= n,
            forall|j: int|
                0 <= j < i ==> spec_imap(index@).dom().contains(#[trigger] inodes@[j]) && spec_imap(
                    index@,
                )[inodes@[j]] == pid,
            forall|ino: u32|
                !inodes@.contains(ino) ==> (spec_imap(index@).dom().contains(ino) == spec_imap(
                    old(index)@,
                ).dom().contains(ino)) && (spec_imap(old(index)@).dom().contains(ino) ==> spec_imap(
                    index@,
                )[ino] == spec_imap(old(index)@)[ino]),
        decreases n - i,
    {
        let ino = inodes[i];
        let ghost pre = index@;
        index.push((ino, pid));
        proof {
            assert(index@.drop_last() =~= pre);
            assert(index@.last() == (ino, pid));
            assert(spec_imap(index@) == spec_imap(pre).insert(ino, pid));
            assert(inodes@.contains(ino)) by {
                assert(inodes@[i as int] == ino);
            }
        }
        i = i + 1;
    }
    proof {
        assert forall|ino: u32| inodes@.contains(ino) implies spec_imap(
            index@,
        ).dom().contains(ino) && spec_imap(index@)[ino] == pid by {
            let j = choose|j: int| 0 <= j < inodes@.len() && inodes@[j] == ino;
            assert(spec_imap(index@).dom().contains(inodes@[j]));
        }
    }
}

/// Drops every posting of every inode in the list; every other posting
/// keeps its mapping exactly.
#[verifier::rlimit(100)]
#[verifier::spinoff_prover]
fn imap_remove_all(index: &mut Vec<(u32, usize)>, inodes: &Vec<u32>)
    ensures
        forall|ino: u32|
            #[trigger] inodes@.contains(ino) ==> !spec_imap(final(index)@).dom().contains(ino),
        forall|ino: u32|
            !inodes@.contains(ino) ==> (#[trigger] spec_imap(final(index)@).dom().contains(ino)
                == spec_imap(old(index)@).dom().contains(ino)),
        forall|ino: u32|
            !inodes@.contains(ino) && spec_imap(old(index)@).dom().contains(ino) ==> #[trigger] spec_imap(
                final(index)@,
            )[ino] == spec_imap(old(index)@)[ino],
{
    let n = inodes.len();
    let mut i: usize = 0;
    while i < n
        invariant
            n == inodes@.len(),
            i <= n,
            forall|ino: u32|
                #[trigger] inodes@.take(i as int).contains(ino) ==> !spec_imap(
                    index@,
                ).dom().contains(ino),
            forall|ino: u32|
                !inodes@.take(i as int).contains(ino) ==> (#[trigger] spec_imap(
                    index@,
                ).dom().contains(ino) == spec_imap(old(index)@).dom().contains(ino)),
            forall|ino: u32|
                !inodes@.take(i as int).contains(ino) && spec_imap(old(index)@).dom().contains(ino)
                    ==> #[trigger] spec_imap(index@)[ino] == spec_imap(old(index)@)[ino],
        decreases n - i,
    {
        let ino = inodes[i];
        let ghost pre = index@;
        proof {
            assert(index@.take(index@.len() as int) =~= index@);
        }
        let filtered = imap_remove_from(index, index.len(), ino);
        *index = filtered;
        proof {
            broadcast use vstd::map::group_map_axioms;
            broadcast use vstd::set::group_set_axioms;

            assert(spec_imap(index@) == spec_imap(pre).remove(ino));
            assert(spec_imap(pre).remove(ino).dom() == spec_imap(pre).dom().remove(ino));
            assert(inodes@.take(i + 1).len() == i + 1);
            assert forall|x: u32| #[trigger] inodes@.take(i + 1).contains(x) implies !spec_imap(
                index@,
            ).dom().contains(x) by {
                if x == ino {
                    assert(!spec_imap(pre).dom().remove(ino).contains(x));
                } else {
                    assert(inodes@.take(i as int).contains(x)) by {
                        let j = choose|j: int|
                            0 <= j < inodes@.take(i + 1).len() && (#[trigger] inodes@.take(i + 1)[j])
                                == x;
                        assert(inodes@.take(i + 1)[i as int] == ino);
                        assert(j < i);
                        assert(inodes@.take(i as int)[j] == x);
                    }
                    assert(!spec_imap(pre).dom().contains(x));
                }
            }
            assert forall|x: u32|
                !inodes@.take(i + 1).contains(x) implies (#[trigger] spec_imap(
                    index@,
                ).dom().contains(x) == spec_imap(old(index)@).dom().contains(x)) && (spec_imap(
                    old(index)@,
                ).dom().contains(x) ==> spec_imap(index@)[x] == spec_imap(old(index)@)[x]) by {
                assert(x != ino) by {
                    if x == ino {
                        assert(inodes@.take(i + 1)[i as int] == ino);
                    }
                }
                assert(!inodes@.take(i as int).contains(x)) by {
                    if inodes@.take(i as int).contains(x) {
                        let j = choose|j: int|
                            0 <= j < inodes@.take(i as int).len() && (#[trigger] inodes@.take(
                                i as int,
                            )[j]) == x;
                        assert(inodes@.take(i + 1)[j] == x);
                    }
                }
                assert(spec_imap(pre).dom().contains(x) == spec_imap(old(index)@).dom().contains(
                    x,
                ));
                assert(spec_imap(pre).remove(ino)[x] == spec_imap(pre)[x]);
            }
            assert forall|x: u32|
                !inodes@.take(i + 1).contains(x) && spec_imap(old(index)@).dom().contains(x)
                    implies #[trigger] spec_imap(index@)[x] == spec_imap(old(index)@)[x] by {
                assert(x != ino) by {
                    if x == ino {
                        assert(inodes@.take(i + 1)[i as int] == ino);
                    }
                }
                assert(!inodes@.take(i as int).contains(x)) by {
                    if inodes@.take(i as int).contains(x) {
                        let j = choose|j: int|
                            0 <= j < inodes@.take(i as int).len() && (#[trigger] inodes@.take(
                                i as int,
                            )[j]) == x;
                        assert(inodes@.take(i + 1)[j] == x);
                    }
                }
                assert(spec_imap(pre)[x] == spec_imap(old(index)@)[x]);
                assert(spec_imap(pre).remove(ino)[x] == spec_imap(pre)[x]);
            }
        }
        i = i + 1;
    }
    proof {
        assert(inodes@.take(n as int) =~= inodes@);
        assert forall|ino: u32|
            !inodes@.contains(ino) && spec_imap(old(index)@).dom().contains(ino) implies #[trigger] spec_imap(
                index@,
            )[ino] == spec_imap(old(index)@)[ino] by {
            assert(!inodes@.take(n as int).contains(ino));
        }
    }
}

/// Whether the pid list contains `p`.
fn vec_contains_pid(v: &Vec<usize>, p: usize) -> (r: bool)
    ensures
        r == v@.contains(p),
{
    let n = v.len();
    let mut i: usize = 0;
    while i < n
        invariant
            n == v@.len(),
            i <= n,
            forall|j: int| 0 <= j < i ==> v@[j] != p,
        decreases n - i,
    {
        if v[i] == p {
            return true;
        }
        i = i + 1;
    }
    proof {
        assert(!v@.contains(p)) by {
            if v@.contains(p) {
                let j = choose|j: int| 0 <= j < v@.len() && v@[j] == p;
            }
        }
    }
    false
}

/// Filters `from` to the pids for which membership in `except` equals
/// `keep_members`, each reported once, in order.
fn filter_pids(from: &Vec<usize>, except: &Vec<usize>, keep_members: bool) -> (r: Vec<usize>)
    ensures
        forall|p: usize|
            #[trigger] r@.contains(p) <==> (from@.contains(p) && except@.contains(p)
                == keep_members),
        forall|a: int, b: int| 0 <= a < b < r@.len() ==> r@[a] != r@[b],
{
    let n = from.len();
    let mut out: Vec<usize> = Vec::new();
    let mut i: usize = 0;
    while i < n
        invariant
            n == from@.len(),
            i <= n,
            forall|p: usize|
                #[trigger] out@.contains(p) <==> (from@.take(i as int).contains(p)
                    && except@.contains(p) == keep_members),
            forall|a: int, b: int| 0 <= a < b < out@.len() ==> out@[a] != out@[b],
        decreases n - i,
    {
        let p = from[i];
        if vec_contains_pid(except, p) == keep_members && !vec_contains_pid(&out, p) {
            let ghost pre = out@;
            out.push(p);
            proof {
                assert forall|x: usize| #[trigger] out@.contains(x) implies (from@.take(
                    i + 1,
                ).contains(x) && except@.contains(x) == keep_members) by {
                    let j = choose|j: int| 0 <= j < out@.len() && out@[j] == x;
                    if j < pre.len() {
                        assert(pre[j] == x);
                        assert(pre.contains(x));
                        let w = choose|w: int|
                            0 <= w < i && (#[trigger] from@.take(i as int)[w]) == x;
                        assert(from@.take(i + 1)[w] == x);
                    } else {
                        assert(x == p);
                        assert(from@.take(i + 1)[i as int] == p);
                    }
                }
                assert forall|x: usize|
                    from@.take(i + 1).contains(x) && except@.contains(x) == keep_members implies
                    #[trigger] out@.contains(x) by {
                    if x == p {
                        assert(out@[pre.len() as int] == p);
                    } else {
                        let w = choose|w: int|
                            0 <= w < i + 1 && (#[trigger] from@.take(i + 1)[w]) == x;
                        assert(w < i);
                        assert(from@.take(i as int)[w] == x);
                        assert(pre.contains(x));
                        let j = choose|j: int| 0 <= j < pre.len() && pre[j] == x;
                        assert(out@[j] == x);
                    }
                }
                assert forall|a: int, b: int| 0 <= a < b < out@.len() implies out@[a] != out@[b] by {
                    if b == pre.len() {
                        assert(out@[b] == p);
                        assert(pre[a] == out@[a]);
                        assert(pre.contains(out@[a]));
                        assert(!pre.contains(p));
                    }
                }
            }
        } else {
            proof {
                assert forall|x: usize| #[trigger] out@.contains(x) implies (from@.take(
                    i + 1,
                ).contains(x) && except@.contains(x) == keep_members) by {
                    let w = choose|w: int| 0 <= w < i && (#[trigger] from@.take(i as int)[w]) == x;
                    assert(from@.take(i + 1)[w] == x);
                }
                assert forall|x: usize|
                    from@.take(i + 1).contains(x) && except@.contains(x) == keep_members implies
                    #[trigger] out@.contains(x) by {
                    if x == p {
                    } else {
                        let w = choose|w: int|
                            0 <= w < i + 1 && (#[trigger] from@.take(i + 1)[w]) == x;
                        assert(w < i);
                        assert(from@.take(i as int)[w] == x);
                    }
                }
            }
        }
        i = i + 1;
    }
    proof {
        assert(from@.take(n as int) =~= from@);
    }
    out
}

/// Decides one scan round from plain pid lists: the listed pids not yet
/// known are to be parsed and recorded; the pids due a re-check that the
/// listing no longer names are gone and to be evicted.  Each decision names
/// a pid once.
pub fn scan_decisions(seen: &Vec<usize>, known: &Vec<usize>, stale: &Vec<usize>) -> (r: (
    Vec<usize>,
    Vec<usize>,
))
    ensures
        forall|p: usize| #[trigger] r.0@.contains(p) <==> (seen@.contains(p) && !known@.contains(p)),
        forall|a: int, b: int| 0 <= a < b < r.0@.len() ==> r.0@[a] != r.0@[b],
        forall|p: usize|
            #[trigger] r.1@.contains(p) <==> (stale@.contains(p) && !seen@.contains(p)),
        forall|a: int, b: int| 0 <= a < b < r.1@.len() ==> r.1@[a] != r.1@[b],
{
    let to_parse = filter_pids(seen, known, false);
    let to_evict = filter_pids(stale, seen, false);
    (to_parse, to_evict)
}

/// The inode-to-process index with its scanning generations.
pub struct ProcIndex {
    inode_index: Vec<(u32, usize)>,
    procs: Vec<(usize, Process)>,
    fresh: Vec<usize>,
    stale: Vec<usize>,
}

impl ProcIndex {
    /// The inode-to-pid association.
    pub closed spec fn spec_inodes(&self) -> Map<u32, usize> {
        spec_imap(self.inode_index@)
    }

    /// The pid-to-process association.
    pub closed spec fn spec_procs(&self) -> Map<usize, ProcessV> {
        spec_pmap(self.procs@)
    }

    /// The pids the latest scan saw.
    pub closed spec fn spec_fresh(&self) -> Seq<usize> {
        self.fresh@
    }

    /// The pids to re-check on the next refresh.
    pub closed spec fn spec_stale(&self) -> Seq<usize> {
        self.stale@
    }

    /// An empty index.
    pub fn new() -> (r: ProcIndex)
        ensures
            r.spec_inodes() == Map::<u32, usize>::empty(),
            r.spec_procs() == Map::<usize, ProcessV>::empty(),
            r.spec_fresh().len() == 0,
            r.spec_stale().len() == 0,
    {
        let r = ProcIndex {
            inode_index: Vec::new(),
            procs: Vec::new(),
            fresh: Vec::new(),
            stale: Vec::new(),
        };
        r
    }

    /// Answers `inode -> process`: nothing for inode zero, otherwise the
    /// indexed process when the inode is known and its pid present.
    pub fn get_proc_by_inode(&self, inode: u32) -> (r: Option<Process>)
        ensures
            inode == 0 ==> r is None,
            inode != 0 ==> ((r is Some) <==> (self.spec_inodes().dom().contains(inode)
                && self.spec_procs().dom().contains(self.spec_inodes()[inode]))),
            r matches Some(p) ==> p@ == self.spec_procs()[self.spec_inodes()[inode]],
    {
        if inode == 0 {
            return None;
        }
        proof {
            assert(self.inode_index@.take(self.inode_index@.len() as int) =~= self.inode_index@);
            assert(self.procs@.take(self.procs@.len() as int) =~= self.procs@);
        }
        match imap_get_from(&self.inode_index, self.inode_index.len(), inode) {
            Option::Some(pid) => pmap_get_from(&self.procs, self.procs.len(), pid),
            Option::None => None,
        }
    }

    /// Records a freshly parsed process: its pid maps to it, each of its
    /// socket inodes maps to its pid, and the pid is marked fresh.
    pub fn insert_process(&mut self, p: Process)
        ensures
            final(self).spec_procs() == old(self).spec_procs().insert(p.pid, p@),
            forall|ino: u32|
                p.inodes@.contains(ino) ==> final(self).spec_inodes().dom().contains(ino)
                    && final(self).spec_inodes()[ino] == p.pid,
            forall|ino: u32|
                !p.inodes@.contains(ino) ==> (final(self).spec_inodes().dom().contains(ino)
                    == old(self).spec_inodes().dom().contains(ino)) && (
                old(self).spec_inodes().dom().contains(ino) ==> final(self).spec_inodes()[ino]
                    == old(self).spec_inodes()[ino]),
            final(self).spec_fresh() == old(self).spec_fresh().push(p.pid),
            final(self).spec_stale() == old(self).spec_stale(),
    {
        let pid = p.pid;
        imap_add_all(&mut self.inode_index, &p.inodes, pid);
        let ghost pre_procs = self.procs@;
        let ghost pv = p@;
        self.procs.push((pid, p));
        self.fresh.push(pid);
        proof {
            assert(self.procs@.drop_last() =~= pre_procs);
            assert(self.procs@.last().0 == pid && self.procs@.last().1@ == pv);
        }
    }

    /// Forgets a pid: its process entry goes away, every inode it was
    /// recorded under leaves the index, and every other inode keeps its
    /// mapping, mirroring an eviction when the process has vanished from
    /// the process table.
    pub fn remove_pid(&mut self, pid: usize)
        ensures
            final(self).spec_procs() == old(self).spec_procs().remove(pid),
            old(self).spec_procs().dom().contains(pid) ==> {
                &&& forall|ino: u32|
                    old(self).spec_procs()[pid].inodes.contains(ino) ==> !final(
                    self).spec_inodes().dom().contains(ino)
                &&& forall|ino: u32|
                    !old(self).spec_procs()[pid].inodes.contains(ino) ==> (#[trigger] final(
                    self).spec_inodes().dom().contains(ino) == old(
                    self).spec_inodes().dom().contains(ino)) && (old(
                    self).spec_inodes().dom().contains(ino) ==> final(self).spec_inodes()[ino]
                        == old(self).spec_inodes()[ino])
            },
            !old(self).spec_procs().dom().contains(pid) ==> final(self).spec_inodes() == old(
            self).spec_inodes(),
            final(self).spec_fresh() == old(self).spec_fresh(),
            final(self).spec_stale() == old(self).spec_stale(),
    {
        proof {
            assert(self.procs@.take(self.procs@.len() as int) =~= self.procs@);
        }
        let stored = pmap_get_from(&self.procs, self.procs.len(), pid);
        let new_procs = pmap_remove_from(&self.procs, self.procs.len(), pid);
        self.procs = new_procs;
        match stored {
            Option::Some(p) => {
                imap_remove_all(&mut self.inode_index, &p.inodes);
            },
            Option::None => {},
        }
    }

    /// Begins a new scan round: what the previous round saw becomes the set
    /// to re-check, and the fresh set empties.
    pub fn begin_refresh(&mut self) -> (r: Vec<usize>)
        ensures
            r@ == old(self).spec_stale(),
            final(self).spec_stale() == old(self).spec_fresh(),
            final(self).spec_fresh().len() == 0,
            final(self).spec_procs() == old(self).spec_procs(),
            final(self).spec_inodes() == old(self).spec_inodes(),
    {
        let mut out: Vec<usize> = Vec::new();
        std::mem::swap(&mut out, &mut self.stale);
        std::mem::swap(&mut self.stale, &mut self.fresh);
        out
    }

    /// No entry before `upto` names `pid`.
    pub open spec fn spec_not_listed(items: Seq<(usize, Option<Process>)>, upto: int, pid: usize) -> bool {
        forall|j: int| 0 <= j < upto ==> (#[trigger] items[j]).0 != pid
    }

    /// The inodes a list entry claims (a re-parsed process's inode list) or
    /// releases (the inodes recorded under a vanished pid).
    pub open spec fn spec_entry_inodes(
        entry: (usize, Option<Process>),
        procs: Map<usize, ProcessV>,
    ) -> Seq<u32> {
        match entry.1 {
            Option::Some(p) => p.inodes@,
            Option::None => if procs.dom().contains(entry.0) {
                procs[entry.0].inodes
            } else {
                Seq::empty()
            },
        }
    }

    /// Whether any entry with index in `[lo, hi)` claims or releases `ino`,
    /// reading vanished pids' inodes from `procs`.
    pub open spec fn spec_touches(
        items: Seq<(usize, Option<Process>)>,
        procs: Map<usize, ProcessV>,
        lo: int,
        hi: int,
        ino: u32,
    ) -> bool {
        exists|k: int|
            lo <= k < hi && Self::spec_entry_inodes(#[trigger] items[k], procs).contains(ino)
    }

    /// The pids of the re-parsed entries, in list order.
    pub open spec fn spec_inserted_pids(items: Seq<(usize, Option<Process>)>) -> Seq<usize>
        decreases items.len(),
    {
        if items.len() == 0 {
            Seq::empty()
        } else if items.first().1 is Some {
            seq![items.first().0] + Self::spec_inserted_pids(items.drop_first())
        } else {
            Self::spec_inserted_pids(items.drop_first())
        }
    }

    /// One more entry appends its pid to the re-parsed pids, or nothing.
    proof fn lemma_inserted_pids_snoc(items: Seq<(usize, Option<Process>)>, x: (usize, Option<Process>))
        ensures
            Self::spec_inserted_pids(items.push(x)) == Self::spec_inserted_pids(items) + (if x.1
                is Some {
                seq![x.0]
            } else {
                Seq::<usize>::empty()
            }),
        decreases items.len(),
    {
        let tail = if x.1 is Some {
            seq![x.0]
        } else {
            Seq::<usize>::empty()
        };
        if items.len() == 0 {
            assert(items.push(x).first() == x);
            assert(items.push(x).drop_first() =~= Seq::<(usize, Option<Process>)>::empty());
            assert(Self::spec_inserted_pids(Seq::<(usize, Option<Process>)>::empty())
                =~= Seq::<usize>::empty());
            assert(Self::spec_inserted_pids(items) =~= Seq::<usize>::empty());
            if x.1 is Some {
                assert(Self::spec_inserted_pids(items.push(x)) =~= seq![x.0]);
                assert(Self::spec_inserted_pids(items) + tail =~= seq![x.0]);
            } else {
                assert(Self::spec_inserted_pids(items.push(x)) =~= Seq::<usize>::empty());
                assert(Self::spec_inserted_pids(items) + tail =~= Seq::<usize>::empty());
            }
        } else {
            assert(items.push(x).first() == items.first());
            assert(items.push(x).drop_first() =~= items.drop_first().push(x));
            Self::lemma_inserted_pids_snoc(items.drop_first(), x);
            assert(Self::spec_inserted_pids(items.push(x)) =~= Self::spec_inserted_pids(items)
                + tail);
        }
    }

    /// Re-checks the pids of the previous round, each listed once: a pid
    /// that parsed again is re-recorded under its new inode list and marked
    /// fresh; one that vanished is evicted together with every inode that
    /// was recorded under it; pids and inodes the list does not touch keep
    /// their records.
    pub fn refresh_old_proc_in_cache(&mut self, reparsed: Vec<(usize, Option<Process>)>)
        requires
            forall|k: int|
                0 <= k < reparsed@.len() ==> ((#[trigger] reparsed@[k]).1 matches Some(p) ==> p.pid
                    == reparsed@[k].0),
            forall|k1: int, k2: int|
                0 <= k1 < k2 < reparsed@.len() ==> (#[trigger] reparsed@[k1]).0 != (
                #[trigger] reparsed@[k2]).0,
        ensures
            forall|k: int|
                0 <= k < reparsed@.len() && ((#[trigger] reparsed@[k]).1 is None) ==> !final(
                self).spec_procs().dom().contains(reparsed@[k].0),
            forall|k: int|
                0 <= k < reparsed@.len() && ((#[trigger] reparsed@[k]).1 is Some) ==> final(
                self).spec_procs().dom().contains(reparsed@[k].0) && final(
                self).spec_procs()[reparsed@[k].0] == reparsed@[k].1.unwrap()@,
            forall|pid: usize|
                #[trigger] Self::spec_not_listed(reparsed@, reparsed@.len() as int, pid) ==> (final(
                self).spec_procs().dom().contains(pid) == old(self).spec_procs().dom().contains(
                    pid,
                )) && (old(self).spec_procs().dom().contains(pid) ==> final(
                self).spec_procs()[pid] == old(self).spec_procs()[pid]),
            forall|ino: u32|
                !#[trigger] Self::spec_touches(
                    reparsed@,
                    old(self).spec_procs(),
                    0,
                    reparsed@.len() as int,
                    ino,
                ) ==> (final(self).spec_inodes().dom().contains(ino) == old(
                self).spec_inodes().dom().contains(ino)) && (old(
                self).spec_inodes().dom().contains(ino) ==> final(self).spec_inodes()[ino] == old(
                self).spec_inodes()[ino]),
            forall|k: int, ino: u32|
                0 <= k < reparsed@.len() && ((reparsed@[k]).1 is Some)
                    && reparsed@[k].1.unwrap().inodes@.contains(ino) && !#[trigger] Self::spec_touches(
                    reparsed@,
                    old(self).spec_procs(),
                    k + 1,
                    reparsed@.len() as int,
                    ino,
                ) ==> final(self).spec_inodes().dom().contains(ino) && final(
                self).spec_inodes()[ino] == reparsed@[k].0,
            forall|k: int, ino: u32|
                0 <= k < reparsed@.len() && ((reparsed@[k]).1 is None) && old(
                self).spec_procs().dom().contains(reparsed@[k].0) && old(
                self).spec_procs()[reparsed@[k].0].inodes.contains(ino) && !#[trigger] Self::spec_touches(
                    reparsed@,
                    old(self).spec_procs(),
                    k + 1,
                    reparsed@.len() as int,
                    ino,
                ) ==> !final(self).spec_inodes().dom().contains(ino),
            final(self).spec_fresh() == old(self).spec_fresh() + Self::spec_inserted_pids(
                reparsed@,
            ),
            final(self).spec_stale() == old(self).spec_stale(),
    {
        let n = reparsed.len();
        let mut items = reparsed;
        let ghost items0 = items@;
        let ghost procs0 = self.spec_procs();
        let ghost inodes0 = self.spec_inodes();
        let ghost fresh0 = self.spec_fresh();
        proof {
            assert(items0.take(0) =~= Seq::<(usize, Option<Process>)>::empty());
            assert(self.spec_fresh() =~= fresh0 + Self::spec_inserted_pids(items0.take(0)));
        }
        let mut k: usize = 0;
        while k < n
            invariant
                n == items0.len(),
                k <= n,
                items@ == items0.skip(k as int),
                procs0 == old(self).spec_procs(),
                inodes0 == old(self).spec_inodes(),
                fresh0 == old(self).spec_fresh(),
                forall|j: int|
                    0 <= j < items0.len() ==> ((#[trigger] items0[j]).1 matches Some(p) ==> p.pid
                        == items0[j].0),
                forall|j1: int, j2: int|
                    0 <= j1 < j2 < items0.len() ==> (#[trigger] items0[j1]).0 != (
                    #[trigger] items0[j2]).0,
                forall|j: int|
                    0 <= j < k && ((#[trigger] items0[j]).1 is None)
                        ==> !self.spec_procs().dom().contains(items0[j].0),
                forall|j: int|
                    0 <= j < k && ((#[trigger] items0[j]).1 is Some)
                        ==> self.spec_procs().dom().contains(items0[j].0)
                        && self.spec_procs()[items0[j].0] == items0[j].1.unwrap()@,
                forall|pid: usize|
                    #[trigger] Self::spec_not_listed(items0, k as int, pid) ==> (
                    self.spec_procs().dom().contains(pid) == procs0.dom().contains(pid)) && (
                    procs0.dom().contains(pid) ==> self.spec_procs()[pid] == procs0[pid]),
                forall|ino: u32|
                    !#[trigger] Self::spec_touches(items0, procs0, 0, k as int, ino) ==> (
                    self.spec_inodes().dom().contains(ino) == inodes0.dom().contains(ino)) && (
                    inodes0.dom().contains(ino) ==> self.spec_inodes()[ino] == inodes0[ino]),
                forall|j: int, ino: u32|
                    0 <= j < k && ((items0[j]).1 is Some)
                        && items0[j].1.unwrap().inodes@.contains(ino) && !#[trigger] Self::spec_touches(
                        items0,
                        procs0,
                        j + 1,
                        k as int,
                        ino,
                    ) ==> self.spec_inodes().dom().contains(ino) && self.spec_inodes()[ino]
                        == items0[j].0,
                forall|j: int, ino: u32|
                    0 <= j < k && ((items0[j]).1 is None) && procs0.dom().contains(
                        items0[j].0,
                    ) && procs0[items0[j].0].inodes.contains(ino) && !#[trigger] Self::spec_touches(
                        items0,
                        procs0,
                        j + 1,
                        k as int,
                        ino,
                    ) ==> !self.spec_inodes().dom().contains(ino),
                self.spec_fresh() == fresh0 + Self::spec_inserted_pids(items0.take(k as int)),
                self.stale@ == old(self).stale@,
            decreases n - k,
        {
            let (pid, parsed) = items.remove(0);
            let ghost entry = items0[k as int];
            let ghost pre_procs = self.spec_procs();
            let ghost pre_inodes = self.spec_inodes();
            proof {
                assert(items0.skip(k as int)[0] == items0[k as int]);
                assert(items@ =~= items0.skip(k + 1));
                assert(pid == entry.0 && parsed == entry.1);
                assert(Self::spec_not_listed(items0, k as int, pid)) by {
                    assert forall|j: int| 0 <= j < k implies (#[trigger] items0[j]).0 != pid by {
                        assert(items0[j].0 != items0[k as int].0);
                    }
                }
                assert((pre_procs.dom().contains(pid) == procs0.dom().contains(pid)) && (
                procs0.dom().contains(pid) ==> pre_procs[pid] == procs0[pid]));
            }
            match parsed {
                Option::Some(p) => {
                    proof {
                        assert(p.pid == pid);
                        assert(Self::spec_entry_inodes(entry, procs0) == p.inodes@);
                    }
                    self.insert_process(p);
                    proof {
                        assert(self.spec_procs() == pre_procs.insert(pid, entry.1.unwrap()@));
                    }
                },
                Option::None => {
                    proof {
                        assert(Self::spec_entry_inodes(entry, procs0) == (
                        if procs0.dom().contains(pid) {
                            procs0[pid].inodes
                        } else {
                            Seq::<u32>::empty()
                        }));
                    }
                    self.remove_pid(pid);
                    proof {
                        assert(self.spec_procs() == pre_procs.remove(pid));
                    }
                },
            }
            proof {
                let g_now = self.spec_procs();
                let i_now = self.spec_inodes();
                let touched = Self::spec_entry_inodes(entry, procs0);
                // what this entry did to the inode index, in either case
                assert forall|ino: u32| !touched.contains(ino) implies (#[trigger] i_now.dom().contains(
                    ino,
                ) == pre_inodes.dom().contains(ino)) && (pre_inodes.dom().contains(ino)
                    ==> i_now[ino] == pre_inodes[ino]) by {
                    if entry.1 is None && procs0.dom().contains(pid) {
                        assert(pre_procs[pid].inodes == procs0[pid].inodes);
                    }
                }
                assert forall|ino: u32| touched.contains(ino) implies match entry.1 {
                    Option::Some(_) => i_now.dom().contains(ino) && i_now[ino] == pid,
                    Option::None => !i_now.dom().contains(ino),
                } by {
                    if entry.1 is None {
                        assert(procs0.dom().contains(pid));
                        assert(pre_procs[pid].inodes == procs0[pid].inodes);
                    }
                }

                // pids recorded so far
                assert forall|j: int|
                    0 <= j < k + 1 && ((#[trigger] items0[j]).1 is None) implies
                    !g_now.dom().contains(items0[j].0) by {
                    if j < k {
                        assert(items0[j].0 != pid);
                        assert(!pre_procs.dom().contains(items0[j].0));
                    }
                }
                assert forall|j: int|
                    0 <= j < k + 1 && ((#[trigger] items0[j]).1 is Some) implies
                    g_now.dom().contains(items0[j].0) && g_now[items0[j].0]
                        == items0[j].1.unwrap()@ by {
                    if j < k {
                        assert(items0[j].0 != pid);
                        assert(pre_procs.dom().contains(items0[j].0) && pre_procs[items0[j].0]
                            == items0[j].1.unwrap()@);
                    }
                }
                assert forall|pid2: usize| #[trigger] Self::spec_not_listed(items0, k + 1, pid2) implies (
                g_now.dom().contains(pid2) == procs0.dom().contains(pid2)) && (
                procs0.dom().contains(pid2) ==> g_now[pid2] == procs0[pid2]) by {
                    assert(items0[k as int].0 != pid2);
                    assert(Self::spec_not_listed(items0, k as int, pid2));
                    assert((pre_procs.dom().contains(pid2) == procs0.dom().contains(pid2)) && (
                    procs0.dom().contains(pid2) ==> pre_procs[pid2] == procs0[pid2]));
                }

                // inodes untouched by the processed prefix
                assert forall|ino: u32| !#[trigger] Self::spec_touches(items0, procs0, 0, k + 1, ino) implies (
                i_now.dom().contains(ino) == inodes0.dom().contains(ino)) && (
                inodes0.dom().contains(ino) ==> i_now[ino] == inodes0[ino]) by {
                    assert(!Self::spec_touches(items0, procs0, 0, k as int, ino)) by {
                        if Self::spec_touches(items0, procs0, 0, k as int, ino) {
                            let w = choose|w: int|
                                0 <= w < k && Self::spec_entry_inodes(
                                    #[trigger] items0[w],
                                    procs0,
                                ).contains(ino);
                            assert(Self::spec_entry_inodes(items0[w], procs0).contains(ino) && 0
                                <= w < k + 1);
                        }
                    }
                    assert(!touched.contains(ino)) by {
                        if touched.contains(ino) {
                            assert(Self::spec_entry_inodes(items0[k as int], procs0).contains(ino)
                                && 0 <= k < k + 1);
                        }
                    }
                }

                // inodes a re-parsed entry claims, not claimed again later
                assert forall|j: int, ino: u32|
                    0 <= j < k + 1 && ((items0[j]).1 is Some)
                        && items0[j].1.unwrap().inodes@.contains(ino) && !#[trigger] Self::spec_touches(
                        items0,
                        procs0,
                        j + 1,
                        k + 1,
                        ino,
                    ) implies i_now.dom().contains(ino) && i_now[ino] == items0[j].0 by {
                    if j == k {
                        assert(touched.contains(ino));
                    } else {
                        assert(!Self::spec_touches(items0, procs0, j + 1, k as int, ino)) by {
                            if Self::spec_touches(items0, procs0, j + 1, k as int, ino) {
                                let w = choose|w: int|
                                    j + 1 <= w < k && Self::spec_entry_inodes(
                                        #[trigger] items0[w],
                                        procs0,
                                    ).contains(ino);
                                assert(Self::spec_entry_inodes(items0[w], procs0).contains(ino)
                                    && j + 1 <= w < k + 1);
                            }
                        }
                        assert(!touched.contains(ino)) by {
                            if touched.contains(ino) {
                                assert(Self::spec_entry_inodes(items0[k as int], procs0).contains(
                                    ino,
                                ) && j + 1 <= k < k + 1);
                            }
                        }
                        assert(pre_inodes.dom().contains(ino) && pre_inodes[ino] == items0[j].0);
                    }
                }

                // inodes an evicted entry releases, not claimed again later
                assert forall|j: int, ino: u32|
                    0 <= j < k + 1 && ((items0[j]).1 is None) && procs0.dom().contains(
                        items0[j].0,
                    ) && procs0[items0[j].0].inodes.contains(ino) && !#[trigger] Self::spec_touches(
                        items0,
                        procs0,
                        j + 1,
                        k + 1,
                        ino,
                    ) implies !i_now.dom().contains(ino) by {
                    if j == k {
                        assert(touched.contains(ino));
                    } else {
                        assert(!Self::spec_touches(items0, procs0, j + 1, k as int, ino)) by {
                            if Self::spec_touches(items0, procs0, j + 1, k as int, ino) {
                                let w = choose|w: int|
                                    j + 1 <= w < k && Self::spec_entry_inodes(
                                        #[trigger] items0[w],
                                        procs0,
                                    ).contains(ino);
                                assert(Self::spec_entry_inodes(items0[w], procs0).contains(ino)
                                    && j + 1 <= w < k + 1);
                            }
                        }
                        assert(!touched.contains(ino)) by {
                            if touched.contains(ino) {
                                assert(Self::spec_entry_inodes(items0[k as int], procs0).contains(
                                    ino,
                                ) && j + 1 <= k < k + 1);
                            }
                        }
                        assert(!pre_inodes.dom().contains(ino));
                    }
                }

                // the fresh list
                assert(items0.take(k as int).push(entry) =~= items0.take(k + 1));
                Self::lemma_inserted_pids_snoc(items0.take(k as int), entry);
                assert(self.spec_fresh() =~= fresh0 + Self::spec_inserted_pids(items0.take(k + 1)));
            }
            k = k + 1;
        }
        proof {
            assert(items0.take(n as int) =~= items0);
            assert(items0 == reparsed@);
        }
    }
}

} // verus!
use gleipnird::addr::{IpAddress, SocketAddress};
use gleipnird::netfilter::{iptables_args, iptables_program, nft_exists};
use gleipnird::netlink::{
    build_diag_request, ip_wire_bytes, scan_diag_chunk, DiagScanOutcome, Port,
};
use gleipnird::proc::{
    parse_socket_inode, parse_stat_ppid_pgrp, parse_u64_dec, scan_decisions, ProcIndex, Process,
};
use gleipnird::rules::Proto;

fn v4(a: u8, b: u8, c: u8, d: u8) -> IpAddress {
    IpAddress::V4(u32::from_be_bytes([a, b, c, d]))
}

fn sock(ip: IpAddress, port: u16) -> SocketAddress {
    SocketAddress { ip, port }
}

#[test]
fn port_convert_u16() {
    let port = Port::from(1234);
    assert_eq!(u16::from(port), 1234);
}

#[test]
fn port_wire_order() {
    let port = Port::from(0x1234);
    assert_eq!(port.0, [0x12, 0x34]);
}

#[test]
fn ip_wire_bytes_layout() {
    let b4 = ip_wire_bytes(v4(127, 0, 0, 1));
    assert_eq!(b4.len(), 16);
    assert_eq!(&b4[0..4], &[127, 0, 0, 1]);
    assert!(b4[4..].iter().all(|&x| x == 0));
    let b6 = ip_wire_bytes(IpAddress::V6(0x2001_0db8_0000_0000_0000_ff00_0042_8329));
    assert_eq!(
        b6,
        vec![0x20, 0x01, 0x0d, 0xb8, 0, 0, 0, 0, 0, 0, 0xff, 0x00, 0x00, 0x42, 0x83, 0x29]
    );
}

#[test]
fn diag_request_layout() {
    let local = sock(v4(192, 168, 1, 5), 5353);
    let remote = sock(v4(9, 9, 9, 9), 1111);
    let req = build_diag_request(Proto::Udp, local, remote);
    assert_eq!(req.len(), 72);
    assert_eq!(&req[0..4], &[72, 0, 0, 0]);
    assert_eq!(&req[4..6], &[20, 0]);
    assert_eq!(&req[6..8], &[0x01, 0x02]);
    assert_eq!(req[16], 2);
    assert_eq!(req[17], 17);
    assert_eq!(&req[20..24], &[0xff, 0xff, 0xff, 0xff]);
    assert_eq!(&req[24..26], &5353u16.to_be_bytes());
    assert_eq!(&req[26..28], &1111u16.to_be_bytes());
    assert_eq!(&req[28..32], &[192, 168, 1, 5]);
    assert_eq!(&req[44..48], &[9, 9, 9, 9]);

    let tcp = build_diag_request(Proto::Tcp, local, remote);
    assert_eq!(&tcp[6..8], &[0x01, 0x00]);
    assert_eq!(tcp[17], 6);

    let l6 = sock(IpAddress::V6(1), 443);
    let r6 = sock(IpAddress::V6(2), 8443);
    let req6 = build_diag_request(Proto::Tcp, l6, r6);
    assert_eq!(req6[16], 10);
}

fn fake_reply(local: SocketAddress, remote: SocketAddress, inode: u32, mtype: u16) -> Vec<u8> {
    let mut msg = vec![0u8; 88];
    msg[0..4].copy_from_slice(&88u32.to_le_bytes());
    msg[4..6].copy_from_slice(&mtype.to_le_bytes());
    let payload = 16;
    msg[payload + 4..payload + 6].copy_from_slice(&local.port.to_be_bytes());
    msg[payload + 6..payload + 8].copy_from_slice(&remote.port.to_be_bytes());
    msg[payload + 8..payload + 24].copy_from_slice(&ip_wire_bytes(local.ip));
    msg[payload + 24..payload + 40].copy_from_slice(&ip_wire_bytes(remote.ip));
    msg[payload + 52..payload + 56].copy_from_slice(&inode.to_le_bytes());
    msg
}

#[test]
fn diag_scan_finds_matching_record() {
    let local = sock(v4(192, 168, 1, 5), 5353);
    let remote = sock(v4(0, 0, 0, 0), 0);
    let reply = fake_reply(local, remote, 777_001, 20);
    assert_eq!(scan_diag_chunk(&reply, local, remote), DiagScanOutcome::Found(777_001));
    // a record for another pair does not match
    let other = sock(v4(10, 0, 0, 1), 53);
    assert_eq!(scan_diag_chunk(&reply, other, remote), DiagScanOutcome::Continue);
}

#[test]
fn diag_scan_done_and_error() {
    let local = sock(v4(1, 1, 1, 1), 1);
    let remote = sock(v4(2, 2, 2, 2), 2);
    let mut done = vec![0u8; 16];
    done[0..4].copy_from_slice(&16u32.to_le_bytes());
    done[4..6].copy_from_slice(&3u16.to_le_bytes());
    assert_eq!(scan_diag_chunk(&done, local, remote), DiagScanOutcome::Done);
    let mut err = vec![0u8; 16];
    err[0..4].copy_from_slice(&16u32.to_le_bytes());
    err[4..6].copy_from_slice(&2u16.to_le_bytes());
    assert_eq!(scan_diag_chunk(&err, local, remote), DiagScanOutcome::Error);
    assert_eq!(scan_diag_chunk(&[], local, remote), DiagScanOutcome::Continue);
}

#[test]
fn diag_scan_skips_nonmatching_then_finds() {
    let local = sock(v4(192, 168, 1, 5), 5353);
    let remote = sock(v4(0, 0, 0, 0), 0);
    let other = sock(v4(10, 9, 8, 7), 1);
    let mut chunk = fake_reply(other, remote, 1, 20);
    chunk.extend_from_slice(&fake_reply(local, remote, 42, 20));
    assert_eq!(scan_diag_chunk(&chunk, local, remote), DiagScanOutcome::Found(42));
}

#[test]
fn parse_socket_inode_forms() {
    assert_eq!(parse_socket_inode(b"socket:[12345]"), Some(12345));
    assert_eq!(parse_socket_inode(b"socket:[0]"), Some(0));
    assert_eq!(parse_socket_inode(b"socket:[4294967295]"), Some(u32::MAX));
    assert_eq!(parse_socket_inode(b"socket:[4294967296]"), None);
    assert_eq!(parse_socket_inode(b"socket:[]"), None);
    assert_eq!(parse_socket_inode(b"socket:[12a]"), None);
    assert_eq!(parse_socket_inode(b"pipe:[12345]"), None);
    assert_eq!(parse_socket_inode(b"socket:[123"), None);
    assert_eq!(parse_socket_inode(b""), None);
}

#[test]
fn parse_u64_dec_forms() {
    assert_eq!(parse_u64_dec(b"0"), Some(0));
    assert_eq!(parse_u64_dec(b"007"), Some(7));
    assert_eq!(parse_u64_dec(b"18446744073709551615"), Some(u64::MAX));
    assert_eq!(parse_u64_dec(b"18446744073709551616"), None);
    assert_eq!(parse_u64_dec(b""), None);
    assert_eq!(parse_u64_dec(b"1x"), None);
}

#[test]
fn parse_stat_fields() {
    let stat = b"1234 (daemon) S 17 42 100 0";
    assert_eq!(parse_stat_ppid_pgrp(stat), Some((17, 42)));
    // a comm with a closing paren inside: only the last one counts
    let tricky = b"99 (a)b (x)) R 7 8 9";
    assert_eq!(parse_stat_ppid_pgrp(tricky), Some((7, 8)));
    assert_eq!(parse_stat_ppid_pgrp(b"1 (x) R"), None);
    assert_eq!(parse_stat_ppid_pgrp(b"1 (x) R a b"), None);
}

#[test]
fn proc_index_insert_lookup_evict() {
    let mut idx = ProcIndex::new();
    assert!(idx.get_proc_by_inode(0).is_none());
    assert!(idx.get_proc_by_inode(500).is_none());
    idx.insert_process(Process {
        pid: 10,
        ppid: 1,
        pgrp: 10,
        exe: String::from("/bin/a"),
        inodes: vec![500, 501],
    });
    idx.insert_process(Process {
        pid: 11,
        ppid: 1,
        pgrp: 11,
        exe: String::from("/bin/b"),
        inodes: vec![600],
    });
    assert_eq!(idx.get_proc_by_inode(500).unwrap().exe, "/bin/a");
    assert_eq!(idx.get_proc_by_inode(501).unwrap().pid, 10);
    assert_eq!(idx.get_proc_by_inode(600).unwrap().exe, "/bin/b");
    assert!(idx.get_proc_by_inode(0).is_none());
    idx.remove_pid(10);
    assert!(idx.get_proc_by_inode(500).is_none());
    assert!(idx.get_proc_by_inode(501).is_none());
    assert_eq!(idx.get_proc_by_inode(600).unwrap().pid, 11);
}

#[test]
fn proc_index_refresh_generations() {
    let mut idx = ProcIndex::new();
    idx.insert_process(Process {
        pid: 20,
        ppid: 1,
        pgrp: 20,
        exe: String::from("/bin/old"),
        inodes: vec![700],
    });
    let to_check = idx.begin_refresh();
    assert!(to_check.is_empty());
    let to_check = idx.begin_refresh();
    assert_eq!(to_check, vec![20]);
    // pid 20 still parses, with a new inode set; pid 21 vanished
    idx.refresh_old_proc_in_cache(vec![
        (
            20,
            Some(Process {
                pid: 20,
                ppid: 1,
                pgrp: 20,
                exe: String::from("/bin/old"),
                inodes: vec![701],
            }),
        ),
        (21, None),
    ]);
    assert_eq!(idx.get_proc_by_inode(701).unwrap().pid, 20);
}

#[test]
fn iptables_argument_vectors() {
    assert!(!nft_exists());
    assert_eq!(iptables_program(true), b"iptables".to_vec());
    assert_eq!(iptables_program(false), b"ip6tables".to_vec());
    let args = iptables_args(true, "I", 786);
    let texts: Vec<String> = args
        .iter()
        .map(|t| String::from_utf8(t.clone()).unwrap())
        .collect();
    assert_eq!(
        texts,
        vec![
            "-I",
            "OUTPUT",
            "!",
            "-o",
            "lo",
            "-t",
            "mangle",
            "-j",
            "NFQUEUE",
            "--queue-num",
            "786",
            "--queue-bypass"
        ]
    );
    let args_in = iptables_args(false, "D", 65535);
    let texts_in: Vec<String> = args_in
        .iter()
        .map(|t| String::from_utf8(t.clone()).unwrap())
        .collect();
    assert_eq!(texts_in[0], "-D");
    assert_eq!(texts_in[1], "INPUT");
    assert_eq!(texts_in[3], "-i");
    assert_eq!(texts_in[10], "65535");
}

#[test]
fn parse_inet_diag_record_fields() {
    let local = sock(v4(192, 168, 1, 5), 5353);
    let remote = sock(v4(9, 9, 9, 9), 1111);
    let reply = fake_reply(local, remote, 777_001, 20);
    let msg = gleipnird::netlink::parse_inet_diag_msg(&reply, 16).unwrap();
    assert_eq!(msg.id.idiag_sport.0, [0x14, 0xe9]);
    assert_eq!(u16::from(msg.id.idiag_sport), 5353);
    assert_eq!(u16::from(msg.id.idiag_dport), 1111);
    assert_eq!(&msg.id.idiag_src.0[0..4], &[192, 168, 1, 5]);
    assert_eq!(msg.idiag_inode, 777_001);
    assert!(gleipnird::netlink::parse_inet_diag_msg(&reply, 20).is_none());
}

#[test]
fn scan_decisions_split() {
    let seen = vec![1usize, 2, 3, 2, 5];
    let known = vec![2usize, 4];
    let stale = vec![2usize, 4, 5, 4];
    let (to_parse, to_evict) = scan_decisions(&seen, &known, &stale);
    assert_eq!(to_parse, vec![1, 3, 5]);
    assert_eq!(to_evict, vec![4]);
}

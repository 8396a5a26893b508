//! Core library of a per-process host firewall daemon.
//!
//! The library holds the verified logic of the daemon: the rule model and
//! address arithmetic, the indexed packet matcher with its token buckets and
//! result cache, the flow-to-process attribution state, the socket-diag
//! message codec, the packet header parser, the rules snapshot cell, and the
//! JSON codec for the persisted rule set.  The surrounding process (netfilter
//! queue, netlink socket, `/proc` scanning, signal handling) lives outside and
//! hands this library plain values.

pub mod ablock;
pub mod addr;
pub mod bucket;
pub mod bytes;
pub mod cache;
pub mod codec;
pub mod fingerprint;
pub mod index;
pub mod netfilter;
pub mod netlink;
pub mod packet;
pub mod proc;
pub mod rules;

//! Verified core of a network-interface inspection library.
//!
//! The library gathers per-interface state (flags, addresses, driver and
//! hardware identity, statistics) from values that the surrounding program
//! reads from the operating system, and correlates a logical interface with
//! its physical PCI device.

pub mod ifr;
pub mod macos;
pub mod pci_utils;
pub mod proc;
pub mod text;

use vstd::prelude::*;

verus! {

/// Normalizes a raw interface metric: an unset metric reads as zero, but the
/// conventional default value is 1; any nonzero value passes through.
pub fn normalize_metric(raw: i32) -> (r: i32)
    ensures
        raw == 0 ==> r == 1,
        raw != 0 ==> r == raw,
{
    if raw == 0 {
        1
    } else {
        raw
    }
}

/// Repeating a query with unchanged inputs yields the identical result:
/// each property is pinned to a function of its inputs alone, so two
/// results of the same query on the same snapshot are equal. (The one
/// stateful point, the once-initialized inventory cache, is covered
/// instead by the contract of `macos::ProfilerCache::fill`, which allows
/// at most one invocation of the source.)
pub proof fn lemma_queries_idempotent(
    f: u16,
    r1: Seq<char>,
    r2: Seq<char>,
    content: Seq<char>,
    name: Seq<char>,
    s1: proc::Stats,
    s2: proc::Stats,
    a: Seq<u8>,
    t1: Seq<char>,
    t2: Seq<char>,
)
    requires
        r1 == ifr::flags_str_spec(f),
        r2 == ifr::flags_str_spec(f),
        s1 == proc::stats_spec(content, name),
        s2 == proc::stats_spec(content, name),
        t1 == proc::ipv6_scope_spec(a),
        t2 == proc::ipv6_scope_spec(a),
    ensures
        r1 == r2,
        s1 == s2,
        t1 == t2,
{
}

} // verus!

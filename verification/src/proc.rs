//! Interface statistics from the line-oriented kernel statistics table,
//! and IPv6 address records with scope classification.

use vstd::prelude::*;
use crate::ifr::{AddrData, IfAddrEntry};
use crate::text::{
    parse_dec_u64, pop_bits, split_on, split_ws, str_chars, strip_char_end, split_char,
    split_whitespace_chars, strip_trailing, chars_eq, count_bits_u8, dec_u64, str_eq,
};

verus! {

/// Traffic counters of one interface; the zero record stands in whenever
/// no counters can be found.
#[derive(Clone, Copy, Debug, PartialEq, Eq, Structural)]
pub struct Stats {
    pub rx_bytes: u64,
    pub rx_packets: u64,
    pub tx_bytes: u64,
    pub tx_packets: u64,
}

impl Default for Stats {
    /// The zero-valued record.
    fn default() -> (r: Self)
        ensures
            r == (Stats { rx_bytes: 0, rx_packets: 0, tx_bytes: 0, tx_packets: 0 }),
    {
        Stats { rx_bytes: 0, rx_packets: 0, tx_bytes: 0, tx_packets: 0 }
    }
}

/// A counter column: its decimal value, or zero when malformed.
pub open spec fn counter_val(t: Seq<char>) -> u64 {
    match parse_dec_u64(t) {
        Some(v) => v,
        None => 0,
    }
}

/// Index of the first row at or after `i` whose first column names the
/// interface (a trailing run of `:` stripped from the column first).
pub open spec fn find_stats_line(lines: Seq<Seq<char>>, name: Seq<char>, i: int) -> Option<int>
    decreases lines.len() - i,
{
    if i < 0 || i >= lines.len() {
        None
    } else {
        let toks = split_ws(lines[i]);
        if toks.len() > 0 && strip_char_end(toks[0], ':') == name {
            Some(i)
        } else {
            find_stats_line(lines, name, i + 1)
        }
    }
}

/// The statistics record a table holds for `name`: rows are lines, the
/// first two lines are headers, columns are whitespace-delimited; the
/// first matching row supplies receive bytes/packets from columns 1 and 2
/// and transmit bytes/packets from columns 9 and 10. A missing row, or a
/// matching row with fewer than 11 columns, yields the zero record.
pub open spec fn stats_spec(content: Seq<char>, name: Seq<char>) -> Stats {
    let lines = split_on(content, '\n');
    match find_stats_line(lines, name, 2) {
        Some(i) => {
            let toks = split_ws(lines[i]);
            if toks.len() < 11 {
                Stats { rx_bytes: 0, rx_packets: 0, tx_bytes: 0, tx_packets: 0 }
            } else {
                Stats {
                    rx_bytes: counter_val(toks[1]),
                    rx_packets: counter_val(toks[2]),
                    tx_bytes: counter_val(toks[9]),
                    tx_packets: counter_val(toks[10]),
                }
            }
        },
        None => Stats { rx_bytes: 0, rx_packets: 0, tx_bytes: 0, tx_packets: 0 },
    }
}

/// Parses one counter column, as `counter_val` describes.
fn counter(t: &Vec<char>) -> (r: u64)
    ensures
        r == counter_val(t@),
{
    match dec_u64(t.as_slice()) {
        Some(v) => v,
        None => 0,
    }
}

/// Reads the traffic counters of `ifname` out of the kernel statistics
/// table `content`, as `stats_spec` describes.
pub fn get_stats(content: &str, ifname: &str) -> (r: Stats)
    ensures
        r == stats_spec(content@, ifname@),
{
    let chars = str_chars(content);
    let lines = split_char(&chars, '\n');
    let ghost lv = lines.deep_view();
    let name = str_chars(ifname);
    let mut i: usize = 2;
    while i < lines.len()
        invariant
            2 <= i,
            i <= lines.len() || i == 2,
            lv == lines.deep_view(),
            lv == split_on(content@, '\n'),
            name@ == ifname@,
            find_stats_line(lv, name@, 2) == find_stats_line(lv, name@, i as int),
        decreases lines.len() - i,
    {
        assert(lv[i as int] == lines@[i as int]@);
        let toks = split_whitespace_chars(&lines[i]);
        let ghost tv = toks.deep_view();
        if toks.len() > 0 {
            assert(tv[0] == toks@[0]@);
            let head = strip_trailing(&toks[0], ':');
            if chars_eq(&head, &name) {
                assert(find_stats_line(lv, name@, i as int) == Some(i as int));
                if toks.len() < 11 {
                    return Stats { rx_bytes: 0, rx_packets: 0, tx_bytes: 0, tx_packets: 0 };
                }
                assert(tv[1] == toks@[1]@);
                assert(tv[2] == toks@[2]@);
                assert(tv[9] == toks@[9]@);
                assert(tv[10] == toks@[10]@);
                return Stats {
                    rx_bytes: counter(&toks[1]),
                    rx_packets: counter(&toks[2]),
                    tx_bytes: counter(&toks[9]),
                    tx_packets: counter(&toks[10]),
                };
            }
        }
        i = i + 1;
    }
    Stats { rx_bytes: 0, rx_packets: 0, tx_bytes: 0, tx_packets: 0 }
}

// ---------------------------------------------------------------------------
// IPv6 address records
// ---------------------------------------------------------------------------

/// The scope tag of an IPv6 address, decided in fixed order: the loopback
/// address is host scope; `fe80::/10` link; `fec0::/10` site; `ff00::/8`
/// multicast; everything else global.
pub open spec fn ipv6_scope_spec(a: Seq<u8>) -> Seq<char> {
    if a =~= Seq::new(16, |i: int| if i == 15 { 1u8 } else { 0u8 }) {
        "host"@
    } else if a[0] == 0xfe && a[1] & 0xc0 == 0x80 {
        "link"@
    } else if a[0] == 0xfe && a[1] & 0xc0 == 0xc0 {
        "site"@
    } else if a[0] == 0xff {
        "multicast"@
    } else {
        "global"@
    }
}

/// Classifies an IPv6 address, as `ipv6_scope_spec` describes.
pub fn ipv6_scope(a: &[u8; 16]) -> (r: &'static str)
    ensures
        r@ == ipv6_scope_spec(a@),
{
    let mut is_loopback = a[15] == 1;
    let mut i: usize = 0;
    while i < 15
        invariant
            i <= 15,
            a@.len() == 16,
            is_loopback == (a@[15] == 1 && forall|j: int| 0 <= j < i ==> a@[j] == 0),
        decreases 15 - i,
    {
        if a[i] != 0 {
            is_loopback = false;
        }
        i = i + 1;
    }
    proof {
        let lb = Seq::new(16, |i: int| if i == 15 { 1u8 } else { 0u8 });
        if is_loopback {
            assert(a@ =~= lb);
        } else {
            if a@ =~= lb {
                assert(a@[15] == 1);
                assert(forall|j: int| 0 <= j < 15 ==> a@[j] == 0);
            }
        }
    }
    if is_loopback {
        "host"
    } else if a[0] == 0xfe && a[1] & 0xc0 == 0x80 {
        "link"
    } else if a[0] == 0xfe && a[1] & 0xc0 == 0xc0 {
        "site"
    } else if a[0] == 0xff {
        "multicast"
    } else {
        "global"
    }
}

/// One IPv6 address bound to an interface: the 16 address bytes, the
/// prefix length derived from the netmask, and the scope tag.
#[derive(Clone, Debug)]
pub struct Inet6Record {
    pub addr: [u8; 16],
    pub prefix: u32,
    pub scope: String,
}

/// Set-bit count across a netmask given byte by byte.
pub open spec fn mask_bits(m: Seq<u8>) -> nat
    decreases m.len(),
{
    if m.len() == 0 {
        0
    } else {
        mask_bits(m.drop_last()) + pop_bits(m.last() as nat)
    }
}

/// Counts the set bits of a 128-bit netmask, as `mask_bits` describes.
pub fn count_mask_bits(m: &[u8; 16]) -> (r: u32)
    ensures
        r == mask_bits(m@),
{
    let mut c: u32 = 0;
    let mut i: usize = 0;
    assert(m@.subrange(0, 0) =~= Seq::<u8>::empty());
    while i < 16
        invariant
            i <= 16,
            m@.len() == 16,
            c == mask_bits(m@.subrange(0, i as int)),
            c <= i * 255,
        decreases 16 - i,
    {
        let ghost pre = m@.subrange(0, i as int);
        let ghost post = m@.subrange(0, i as int + 1);
        proof {
            assert(post.drop_last() =~= pre);
            assert(post.last() == m@[i as int]);
        }
        let b = count_bits_u8(m[i]);
        c = c + b as u32;
        i = i + 1;
    }
    assert(m@.subrange(0, 16) =~= m@);
    c
}

/// View of one IPv6 record.
pub open spec fn inet6_row_view(t: Inet6Record) -> (Seq<u8>, u32, Seq<char>) {
    (t.addr@, t.prefix, t.scope@)
}

/// What one enumeration row contributes to the IPv6 address list of
/// `name`: the address with its mask-derived prefix (zero without a
/// mask) and its scope tag.
pub open spec fn inet6_of_entry(e: IfAddrEntry, name: Seq<char>) -> Seq<(Seq<u8>, u32, Seq<char>)> {
    if e.name@ == name && (e.addr matches Some(AddrData::V6(_))) {
        let a = e.addr.unwrap()->V6_0;
        let prefix: u32 = match e.netmask {
            Some(AddrData::V6(m)) => mask_bits(m@) as u32,
            _ => 0,
        };
        seq![(a@, prefix, ipv6_scope_spec(a@))]
    } else {
        Seq::<(Seq<u8>, u32, Seq<char>)>::empty()
    }
}

/// The IPv6 address list of `name`, row by row in enumeration order.
pub open spec fn inet6_spec(s: Seq<IfAddrEntry>, name: Seq<char>) -> Seq<(Seq<u8>, u32, Seq<char>)>
    decreases s.len(),
{
    if s.len() == 0 {
        Seq::<(Seq<u8>, u32, Seq<char>)>::empty()
    } else {
        inet6_spec(s.drop_last(), name) + inet6_of_entry(s.last(), name)
    }
}

/// Enumerates the IPv6 addresses bound to an interface, each with its
/// prefix length (set-bit count across the 128-bit netmask, zero when the
/// row has no mask) and scope tag, as `inet6_spec` describes.
pub fn get_inet6_addr(entries: &Vec<IfAddrEntry>, ifname: &str) -> (r: Vec<Inet6Record>)
    ensures
        r@.map_values(|t: Inet6Record| inet6_row_view(t)) == inet6_spec(entries@, ifname@),
{
    let mut r: Vec<Inet6Record> = Vec::new();
    assert(r@.map_values(|t: Inet6Record| inet6_row_view(t)) =~~= inet6_spec(
        entries@.subrange(0, 0),
        ifname@,
    ));
    let mut i: usize = 0;
    while i < entries.len()
        invariant
            i <= entries@.len(),
            r@.map_values(|t: Inet6Record| inet6_row_view(t)) == inet6_spec(
                entries@.subrange(0, i as int),
                ifname@,
            ),
        decreases entries@.len() - i,
    {
        let ghost pre = entries@.subrange(0, i as int);
        let ghost post = entries@.subrange(0, i as int + 1);
        proof {
            assert(post.drop_last() =~= pre);
            assert(post.last() == entries@[i as int]);
        }
        let e = &entries[i];
        let is_name = str_eq(e.name.as_str(), ifname);
        if is_name {
            if let Some(AddrData::V6(a)) = &e.addr {
                let a = *a;
                let prefix: u32 = match &e.netmask {
                    Some(AddrData::V6(m)) => count_mask_bits(m),
                    _ => 0,
                };
                let scope = ipv6_scope(&a);
                let scope_owned = scope.to_owned();
                r.push(Inet6Record { addr: a, prefix, scope: scope_owned });
            }
        }
        proof {
            assert(r@.map_values(|t: Inet6Record| inet6_row_view(t)) =~~= inet6_spec(
                post,
                ifname@,
            ));
        }
        i = i + 1;
    }
    proof {
        assert(entries@.subrange(0, entries@.len() as int) =~= entries@);
    }
    r
}

} // verus!

//! The binary request block used to query interface state over a control
//! channel, the flag-bit vocabulary, and decoding of the fixed-size records
//! that come back (driver identity, link value, hardware address).

use vstd::prelude::*;
use vstd::string::StringSliceAdditionalSpecFns;
use crate::text::{
    chars_eq, hex2, join_char, join_with, push_char, push_hex2, split_char, split_on,
    str_chars,
};

verus! {

/// How a single property query can fail; failures never abort the
/// surrounding run.
#[derive(Clone, Copy, Debug, PartialEq, Eq, Structural)]
pub enum IfError {
    /// The interface is absent from the system enumeration.
    NotFound,
    /// The platform lacks the requested capability.
    Unsupported,
    /// A control-channel operation failed with this raw OS error code.
    OsError(i32),
}

/// The media-map record of a request block.
#[derive(Clone, Copy, Debug)]
pub struct IfMap {
    pub mem_start: u64,
    pub mem_end: u64,
    pub base_addr: u16,
    pub irq: u8,
    pub dma: u8,
    pub port: u8,
}

/// Payload of a request block: exactly one member is meaningful per request
/// kind, so it is modelled as a tagged variant rather than a raw union.
#[derive(Clone, Copy, Debug)]
pub enum IfrData {
    /// Freshly encoded request; nothing meaningful in the payload yet.
    Empty,
    /// A returned socket-address record: family plus 14 data bytes.
    HardwareAddress { sa_family: u16, sa_data: [u8; 14] },
    /// The 16-bit interface flag word.
    Flags(i16),
    /// A generic integer value (the metric query fills this).
    Value(i32),
    /// The interface MTU.
    Mtu(i32),
    /// The media map record.
    MediaMap(IfMap),
    /// A 16-byte auxiliary name buffer.
    Slave([u8; 16]),
    /// Marker that the payload carried a pointer to a driver data block.
    DriverData,
}

/// The OS request block: a fixed 16-byte name field (15 usable bytes plus a
/// terminator) and the payload.
#[derive(Clone, Copy, Debug)]
pub struct IfReq {
    pub ifr_name: [u8; 16],
    pub ifr_ifru: IfrData,
}

/// Well-formedness of an encoded name buffer for the byte string `name`:
/// at most 15 bytes are copied, a NUL terminator follows, and the rest of
/// the buffer stays zero.
pub open spec fn name_encoded(buf: Seq<u8>, name: Seq<u8>) -> bool {
    let n = if name.len() <= 15 {
        name.len() as int
    } else {
        15
    };
    &&& buf.len() == 16
    &&& (forall|i: int| 0 <= i < n ==> buf[i] == name[i])
    &&& (forall|i: int| n <= i < 16 ==> buf[i] == 0)
}

impl IfReq {
    /// Encodes a request block for `name`: the buffer is zero-initialized,
    /// at most 15 bytes of the name are copied, and the buffer is always
    /// NUL-terminated (a longer name is truncated silently).
    pub fn new(name: &str) -> (r: IfReq)
        ensures
            name_encoded(r.ifr_name@, name.spec_bytes()),
            r.ifr_ifru is Empty,
    {
        let bytes = name.as_bytes();
        let mut buf: [u8; 16] = [0; 16];
        let len: usize = if bytes.len() < 15 {
            bytes.len()
        } else {
            15
        };
        let mut i: usize = 0;
        while i < len
            invariant
                i <= len,
                len <= 15,
                len <= bytes@.len(),
                buf@.len() == 16,
                forall|j: int| 0 <= j < i ==> buf@[j] == bytes@[j],
                forall|j: int| i <= j < 16 ==> buf@[j] == 0,
        decreases len - i,
        {
            buf[i] = bytes[i];
            i = i + 1;
        }
        IfReq { ifr_name: buf, ifr_ifru: IfrData::Empty }
    }
}

/// The raw driver-identity record returned by the driver-info query: four
/// NUL-terminated byte fields of fixed width.
#[derive(Clone, Copy, Debug)]
pub struct EthtoolDrvInfo {
    pub cmd: u32,
    pub driver: [u8; 32],
    pub version: [u8; 32],
    pub fw_version: [u8; 32],
    pub bus_info: [u8; 32],
}

/// The two-word record returned by the link query.
#[derive(Clone, Copy, Debug, PartialEq, Eq, Structural)]
pub struct EthtoolValue {
    pub cmd: u32,
    pub data: u32,
}

/// Driver identity with the fixed-width fields decoded into strings; fields
/// a source cannot supply are empty rather than an error.
#[derive(Clone, Debug)]
pub struct DriverInfo {
    pub driver: String,
    pub version: String,
    pub fw_version: String,
    pub bus_info: String,
}

/// Replacement used for non-ASCII bytes when decoding a fixed-width field.
/// Decoding is deliberately per byte: drivers fill these fields with ASCII,
/// so each byte outside ASCII becomes one U+FFFD rather than being read as
/// part of a multi-byte sequence.
pub open spec fn byte_char(x: u8) -> char {
    if x < 128 {
        x as char
    } else {
        '\u{fffd}'
    }
}

/// Characters of a NUL-terminated byte buffer, up to the first NUL; each
/// byte decodes on its own, as `byte_char` describes.
pub open spec fn cstr_chars(b: Seq<u8>) -> Seq<char>
    decreases b.len(),
{
    if b.len() == 0 || b[0] == 0 {
        Seq::<char>::empty()
    } else {
        seq![byte_char(b[0])] + cstr_chars(b.drop_first())
    }
}

/// Decodes a NUL-terminated byte buffer, as `cstr_chars` describes.
pub fn decode_c_string(buf: &[u8]) -> (r: String)
    ensures
        r@ == cstr_chars(buf@),
{
    let mut s = String::new();
    let mut i: usize = 0;
    assert(buf@.subrange(0, buf@.len() as int) =~= buf@);
    while i < buf.len()
        invariant
            i <= buf.len(),
            forall|j: int| 0 <= j < i ==> buf@[j] != 0,
            s@ + cstr_chars(buf@.subrange(i as int, buf@.len() as int)) == cstr_chars(buf@),
        decreases buf.len() - i,
    {
        let ghost rest = buf@.subrange(i as int, buf@.len() as int);
        let b = buf[i];
        if b == 0 {
            assert(cstr_chars(rest) =~= Seq::<char>::empty());
            assert(s@ =~= cstr_chars(buf@));
            return s;
        }
        let c: char = if b < 128 {
            b as char
        } else {
            '\u{fffd}'
        };
        proof {
            assert(rest.drop_first() =~= buf@.subrange(i as int + 1, buf@.len() as int));
            assert(cstr_chars(rest) == seq![byte_char(b)] + cstr_chars(rest.drop_first()));
            assert(s@.push(c) + cstr_chars(rest.drop_first()) =~= s@ + cstr_chars(rest));
        }
        push_char(&mut s, c);
        i = i + 1;
    }
    proof {
        let rest = buf@.subrange(i as int, buf@.len() as int);
        assert(cstr_chars(rest) =~= Seq::<char>::empty());
        assert(s@ =~= cstr_chars(buf@));
    }
    s
}

impl EthtoolDrvInfo {
    /// Decodes the four fixed-width fields into owned strings.
    pub fn decode(&self) -> (r: DriverInfo)
        ensures
            r.driver@ == cstr_chars(self.driver@),
            r.version@ == cstr_chars(self.version@),
            r.fw_version@ == cstr_chars(self.fw_version@),
            r.bus_info@ == cstr_chars(self.bus_info@),
    {
        DriverInfo {
            driver: decode_c_string(self.driver.as_slice()),
            version: decode_c_string(self.version.as_slice()),
            fw_version: decode_c_string(self.fw_version.as_slice()),
            bus_info: decode_c_string(self.bus_info.as_slice()),
        }
    }
}

/// Whether a link query response reports carrier presence.
pub fn link_detected(v: &EthtoolValue) -> (r: bool)
    ensures
        r == (v.data != 0),
{
    v.data != 0
}

/// Colon-separated two-digit lowercase hex rendering of a hardware address.
pub open spec fn hw_addr_str(bytes: Seq<u8>) -> Seq<char> {
    join_with(bytes.map_values(|b: u8| hex2(b)), ':')
}

/// Formats a hardware address, as `hw_addr_str` describes.
pub fn format_hw_addr(bytes: &[u8]) -> (r: String)
    ensures
        r@ == hw_addr_str(bytes@),
{
    let mut s = String::new();
    let mut i: usize = 0;
    while i < bytes.len()
        invariant
            i <= bytes.len(),
            s@ == join_with(bytes@.subrange(0, i as int).map_values(|b: u8| hex2(b)), ':'),
        decreases bytes.len() - i,
    {
        let ghost pre = bytes@.subrange(0, i as int).map_values(|b: u8| hex2(b));
        let ghost post = bytes@.subrange(0, i as int + 1).map_values(|b: u8| hex2(b));
        proof {
            assert(post.drop_last() =~~= pre);
            assert(post.last() == hex2(bytes@[i as int]));
        }
        if i > 0 {
            push_char(&mut s, ':');
        }
        push_hex2(&mut s, bytes[i]);
        proof {
            if i == 0 {
                assert(s@ =~= join_with(post, ':'));
            } else {
                assert(s@ =~= join_with(pre, ':') + seq![':'] + post.last());
                assert(s@ =~= join_with(post, ':'));
            }
        }
        i = i + 1;
    }
    assert(bytes@.subrange(0, bytes.len() as int).map_values(|b: u8| hex2(b)) =~~= bytes@.map_values(
        |b: u8| hex2(b),
    ));
    s
}

} // verus!

verus! {

// ---------------------------------------------------------------------------
// Interface flags
// ---------------------------------------------------------------------------

/// The UP bit of the interface flag word.
pub const IFF_UP: i16 = 0x1;

/// The RUNNING bit of the interface flag word.
pub const IFF_RUNNING: i16 = 0x40;


/// Mask of the `i`-th named flag bit.
pub open spec fn flag_mask(i: int) -> u16 {
    if i == 0 { 0x1 }
    else if i == 1 { 0x2 }
    else if i == 2 { 0x4 }
    else if i == 3 { 0x8 }
    else if i == 4 { 0x10 }
    else if i == 5 { 0x20 }
    else if i == 6 { 0x40 }
    else if i == 7 { 0x80 }
    else if i == 8 { 0x100 }
    else if i == 9 { 0x200 }
    else if i == 10 { 0x400 }
    else if i == 11 { 0x800 }
    else if i == 12 { 0x1000 }
    else if i == 13 { 0x2000 }
    else if i == 14 { 0x4000 }
    else if i == 15 { 0x8000 }
    else { 0 }
}

/// Canonical name of the `i`-th flag bit.
pub open spec fn flag_name(i: int) -> Seq<char> {
    if i == 0 { "UP"@ }
    else if i == 1 { "BROADCAST"@ }
    else if i == 2 { "DEBUG"@ }
    else if i == 3 { "LOOPBACK"@ }
    else if i == 4 { "PTP"@ }
    else if i == 5 { "NOTRAILERS"@ }
    else if i == 6 { "RUNNING"@ }
    else if i == 7 { "NOARP"@ }
    else if i == 8 { "PROMISC"@ }
    else if i == 9 { "ALLMULTI"@ }
    else if i == 10 { "MASTER"@ }
    else if i == 11 { "SLAVE"@ }
    else if i == 12 { "MULTICAST"@ }
    else if i == 13 { "PORTSEL"@ }
    else if i == 14 { "AUTOMEDIA"@ }
    else if i == 15 { "DYNAMIC"@ }
    else { Seq::<char>::empty() }
}

/// The mask and name of the `i`-th flag bit, as an executable table.
fn flag_entry(i: usize) -> (r: (u16, &'static str))
    requires
        i < 16,
    ensures
        r.0 == flag_mask(i as int),
        r.1@ == flag_name(i as int),
{
    if i == 0 { (0x1, "UP") }
    else if i == 1 { (0x2, "BROADCAST") }
    else if i == 2 { (0x4, "DEBUG") }
    else if i == 3 { (0x8, "LOOPBACK") }
    else if i == 4 { (0x10, "PTP") }
    else if i == 5 { (0x20, "NOTRAILERS") }
    else if i == 6 { (0x40, "RUNNING") }
    else if i == 7 { (0x80, "NOARP") }
    else if i == 8 { (0x100, "PROMISC") }
    else if i == 9 { (0x200, "ALLMULTI") }
    else if i == 10 { (0x400, "MASTER") }
    else if i == 11 { (0x800, "SLAVE") }
    else if i == 12 { (0x1000, "MULTICAST") }
    else if i == 13 { (0x2000, "PORTSEL") }
    else if i == 14 { (0x4000, "AUTOMEDIA") }
    else { (0x8000, "DYNAMIC") }
}

/// The signed flag word widened to its unsigned bit pattern, so that the
/// sign bit can be masked like any other bit.
pub open spec fn widen_flags(f: i16) -> u16 {
    if f >= 0 {
        f as u16
    } else {
        (f + 0x10000) as u16
    }
}

/// Executable form of `widen_flags`.
pub fn flag_bits(f: i16) -> (r: u16)
    ensures
        r == widen_flags(f),
{
    if f >= 0 {
        f as u16
    } else {
        ((f as i32) + 0x10000) as u16
    }
}

/// Names of the set bits with index below `n`, in canonical order.
pub open spec fn set_flag_names(f: u16, n: int) -> Seq<Seq<char>>
    decreases n,
{
    if n <= 0 {
        Seq::<Seq<char>>::empty()
    } else if f & flag_mask(n - 1) != 0 {
        set_flag_names(f, n - 1) + seq![flag_name(n - 1)]
    } else {
        set_flag_names(f, n - 1)
    }
}

/// The canonical space-joined rendering of a flag word.
pub open spec fn flags_str_spec(f: u16) -> Seq<char> {
    join_with(set_flag_names(f, 16), ' ')
}

/// Renders every set bit of a flag query result in the fixed canonical
/// order, space-joined; a failed query renders as the empty string.
pub fn flags_str(flags: &Result<i16, IfError>) -> (r: String)
    ensures
        flags matches Ok(f) ==> r@ == flags_str_spec(widen_flags(*f)),
        flags is Err ==> r@ == Seq::<char>::empty(),
{
    let f: i16 = match flags {
        Ok(f) => *f,
        Err(_) => { return String::new(); },
    };
    let bits = flag_bits(f);
    let mut parts: Vec<Vec<char>> = Vec::new();
    let mut i: usize = 0;
    assert(parts.deep_view() =~~= set_flag_names(bits, 0));
    while i < 16
        invariant
            i <= 16,
            parts.deep_view() == set_flag_names(bits, i as int),
        decreases 16 - i,
    {
        let (mask, name) = flag_entry(i);
        if bits & mask != 0 {
            parts.push(str_chars(name));
            assert(parts.deep_view() =~~= set_flag_names(bits, i as int + 1));
        }
        i = i + 1;
    }
    join_char(&parts, ' ')
}

/// The mask a token of the rendering stands for: the mask of the flag it
/// names, or zero for an unknown token.
pub open spec fn mask_of_name(t: Seq<char>) -> u16 {
    if t == flag_name(0) { flag_mask(0) }
    else if t == flag_name(1) { flag_mask(1) }
    else if t == flag_name(2) { flag_mask(2) }
    else if t == flag_name(3) { flag_mask(3) }
    else if t == flag_name(4) { flag_mask(4) }
    else if t == flag_name(5) { flag_mask(5) }
    else if t == flag_name(6) { flag_mask(6) }
    else if t == flag_name(7) { flag_mask(7) }
    else if t == flag_name(8) { flag_mask(8) }
    else if t == flag_name(9) { flag_mask(9) }
    else if t == flag_name(10) { flag_mask(10) }
    else if t == flag_name(11) { flag_mask(11) }
    else if t == flag_name(12) { flag_mask(12) }
    else if t == flag_name(13) { flag_mask(13) }
    else if t == flag_name(14) { flag_mask(14) }
    else if t == flag_name(15) { flag_mask(15) }
    else { 0 }
}

/// Union of the masks the tokens stand for.
pub open spec fn or_masks(toks: Seq<Seq<char>>) -> u16
    decreases toks.len(),
{
    if toks.len() == 0 {
        0
    } else {
        or_masks(toks.drop_last()) | mask_of_name(toks.last())
    }
}

/// The flag word a rendered flag string stands for.
pub open spec fn parse_flags_spec(s: Seq<char>) -> u16 {
    or_masks(split_on(s, ' '))
}

/// The executable mask of one token, as `mask_of_name` describes.
fn token_mask(t: &Vec<char>) -> (r: u16)
    ensures
        r == mask_of_name(t@),
{
    let mut i: usize = 0;
    while i < 16
        invariant
            i <= 16,
            forall|j: int| 0 <= j < i ==> t@ != flag_name(j),
        decreases 16 - i,
    {
        let (mask, name) = flag_entry(i);
        let name_chars = str_chars(name);
        if chars_eq(t, &name_chars) {
            return mask;
        }
        i = i + 1;
    }
    0
}

/// Re-parses a space-joined flag rendering into the flag word its known
/// tokens stand for, as `parse_flags_spec` describes.
pub fn parse_flags_str(s: &str) -> (r: u16)
    ensures
        r == parse_flags_spec(s@),
{
    let chars = str_chars(s);
    let toks = split_char(&chars, ' ');
    let ghost tv = toks.deep_view();
    let mut acc: u16 = 0;
    let mut i: usize = 0;
    assert(or_masks(tv.subrange(0, 0)) == 0);
    while i < toks.len()
        invariant
            i <= toks.len(),
            tv == toks.deep_view(),
            tv == split_on(s@, ' '),
            acc == or_masks(tv.subrange(0, i as int)),
        decreases toks.len() - i,
    {
        let ghost pre = tv.subrange(0, i as int);
        let ghost post = tv.subrange(0, i as int + 1);
        assert(post.drop_last() =~~= pre);
        assert(post.last() == tv[i as int]);
        assert(tv[i as int] == toks@[i as int]@);
        let m = token_mask(&toks[i]);
        acc = acc | m;
        i = i + 1;
    }
    assert(tv.subrange(0, toks.len() as int) =~~= tv);
    acc
}

/// Whether a flag query result reports the interface administratively up;
/// any underlying error reads as "not up".
pub fn is_up(flags: &Result<i16, IfError>) -> (r: bool)
    ensures
        r == (flags matches Ok(f) && widen_flags(*f) & 0x1 != 0),
{
    match flags {
        Ok(f) => flag_bits(*f) & 0x1 != 0,
        Err(_) => false,
    }
}

/// Whether a flag query result reports the interface operationally
/// running; any underlying error reads as "not running".
pub fn is_running(flags: &Result<i16, IfError>) -> (r: bool)
    ensures
        r == (flags matches Ok(f) && widen_flags(*f) & 0x40 != 0),
{
    match flags {
        Ok(f) => flag_bits(*f) & 0x40 != 0,
        Err(_) => false,
    }
}

} // verus!

verus! {

/// Union of the masks of the named bits below `n`.
pub open spec fn mask_below(n: int) -> u16
    decreases n,
{
    if n <= 0 {
        0
    } else {
        mask_below(n - 1) | flag_mask(n - 1)
    }
}

proof fn lemma_flag_name_facts_0()
    ensures
        !flag_name(0).contains(' '),
        flag_name(0).len() > 0,
        mask_of_name(flag_name(0)) == flag_mask(0),
{
    reveal_strlit("UP");
    reveal_strlit("BROADCAST");
    reveal_strlit("DEBUG");
    reveal_strlit("LOOPBACK");
    reveal_strlit("PTP");
    reveal_strlit("NOTRAILERS");
    reveal_strlit("RUNNING");
    reveal_strlit("NOARP");
    reveal_strlit("PROMISC");
    reveal_strlit("ALLMULTI");
    reveal_strlit("MASTER");
    reveal_strlit("SLAVE");
    reveal_strlit("MULTICAST");
    reveal_strlit("PORTSEL");
    reveal_strlit("AUTOMEDIA");
    reveal_strlit("DYNAMIC");
    assert(!flag_name(0).contains(' ')) by {
        if flag_name(0).contains(' ') {
            let j = choose|j: int| 0 <= j < flag_name(0).len() && flag_name(0)[j] == ' ';
        }
    }
    assert(mask_of_name(flag_name(0)) == flag_mask(0));
}

proof fn lemma_flag_name_facts_1()
    ensures
        !flag_name(1).contains(' '),
        flag_name(1).len() > 0,
        mask_of_name(flag_name(1)) == flag_mask(1),
{
    reveal_strlit("UP");
    reveal_strlit("BROADCAST");
    reveal_strlit("DEBUG");
    reveal_strlit("LOOPBACK");
    reveal_strlit("PTP");
    reveal_strlit("NOTRAILERS");
    reveal_strlit("RUNNING");
    reveal_strlit("NOARP");
    reveal_strlit("PROMISC");
    reveal_strlit("ALLMULTI");
    reveal_strlit("MASTER");
    reveal_strlit("SLAVE");
    reveal_strlit("MULTICAST");
    reveal_strlit("PORTSEL");
    reveal_strlit("AUTOMEDIA");
    reveal_strlit("DYNAMIC");
    assert(!flag_name(1).contains(' ')) by {
        if flag_name(1).contains(' ') {
            let j = choose|j: int| 0 <= j < flag_name(1).len() && flag_name(1)[j] == ' ';
        }
    }
    assert(flag_name(1).len() != flag_name(0).len());
    assert(flag_name(1) != flag_name(0));
    assert(mask_of_name(flag_name(1)) == flag_mask(1));
}

proof fn lemma_flag_name_facts_2()
    ensures
        !flag_name(2).contains(' '),
        flag_name(2).len() > 0,
        mask_of_name(flag_name(2)) == flag_mask(2),
{
    reveal_strlit("UP");
    reveal_strlit("BROADCAST");
    reveal_strlit("DEBUG");
    reveal_strlit("LOOPBACK");
    reveal_strlit("PTP");
    reveal_strlit("NOTRAILERS");
    reveal_strlit("RUNNING");
    reveal_strlit("NOARP");
    reveal_strlit("PROMISC");
    reveal_strlit("ALLMULTI");
    reveal_strlit("MASTER");
    reveal_strlit("SLAVE");
    reveal_strlit("MULTICAST");
    reveal_strlit("PORTSEL");
    reveal_strlit("AUTOMEDIA");
    reveal_strlit("DYNAMIC");
    assert(!flag_name(2).contains(' ')) by {
        if flag_name(2).contains(' ') {
            let j = choose|j: int| 0 <= j < flag_name(2).len() && flag_name(2)[j] == ' ';
        }
    }
    assert(flag_name(2).len() != flag_name(0).len());
    assert(flag_name(2) != flag_name(0));
    assert(flag_name(2).len() != flag_name(1).len());
    assert(flag_name(2) != flag_name(1));
    assert(mask_of_name(flag_name(2)) == flag_mask(2));
}

proof fn lemma_flag_name_facts_3()
    ensures
        !flag_name(3).contains(' '),
        flag_name(3).len() > 0,
        mask_of_name(flag_name(3)) == flag_mask(3),
{
    reveal_strlit("UP");
    reveal_strlit("BROADCAST");
    reveal_strlit("DEBUG");
    reveal_strlit("LOOPBACK");
    reveal_strlit("PTP");
    reveal_strlit("NOTRAILERS");
    reveal_strlit("RUNNING");
    reveal_strlit("NOARP");
    reveal_strlit("PROMISC");
    reveal_strlit("ALLMULTI");
    reveal_strlit("MASTER");
    reveal_strlit("SLAVE");
    reveal_strlit("MULTICAST");
    reveal_strlit("PORTSEL");
    reveal_strlit("AUTOMEDIA");
    reveal_strlit("DYNAMIC");
    assert(!flag_name(3).contains(' ')) by {
        if flag_name(3).contains(' ') {
            let j = choose|j: int| 0 <= j < flag_name(3).len() && flag_name(3)[j] == ' ';
        }
    }
    assert(flag_name(3).len() != flag_name(0).len());
    assert(flag_name(3) != flag_name(0));
    assert(flag_name(3).len() != flag_name(1).len());
    assert(flag_name(3) != flag_name(1));
    assert(flag_name(3).len() != flag_name(2).len());
    assert(flag_name(3) != flag_name(2));
    assert(mask_of_name(flag_name(3)) == flag_mask(3));
}

proof fn lemma_flag_name_facts_4()
    ensures
        !flag_name(4).contains(' '),
        flag_name(4).len() > 0,
        mask_of_name(flag_name(4)) == flag_mask(4),
{
    reveal_strlit("UP");
    reveal_strlit("BROADCAST");
    reveal_strlit("DEBUG");
    reveal_strlit("LOOPBACK");
    reveal_strlit("PTP");
    reveal_strlit("NOTRAILERS");
    reveal_strlit("RUNNING");
    reveal_strlit("NOARP");
    reveal_strlit("PROMISC");
    reveal_strlit("ALLMULTI");
    reveal_strlit("MASTER");
    reveal_strlit("SLAVE");
    reveal_strlit("MULTICAST");
    reveal_strlit("PORTSEL");
    reveal_strlit("AUTOMEDIA");
    reveal_strlit("DYNAMIC");
    assert(!flag_name(4).contains(' ')) by {
        if flag_name(4).contains(' ') {
            let j = choose|j: int| 0 <= j < flag_name(4).len() && flag_name(4)[j] == ' ';
        }
    }
    assert(flag_name(4).len() != flag_name(0).len());
    assert(flag_name(4) != flag_name(0));
    assert(flag_name(4).len() != flag_name(1).len());
    assert(flag_name(4) != flag_name(1));
    assert(flag_name(4).len() != flag_name(2).len());
    assert(flag_name(4) != flag_name(2));
    assert(flag_name(4).len() != flag_name(3).len());
    assert(flag_name(4) != flag_name(3));
    assert(mask_of_name(flag_name(4)) == flag_mask(4));
}

proof fn lemma_flag_name_facts_5()
    ensures
        !flag_name(5).contains(' '),
        flag_name(5).len() > 0,
        mask_of_name(flag_name(5)) == flag_mask(5),
{
    reveal_strlit("UP");
    reveal_strlit("BROADCAST");
    reveal_strlit("DEBUG");
    reveal_strlit("LOOPBACK");
    reveal_strlit("PTP");
    reveal_strlit("NOTRAILERS");
    reveal_strlit("RUNNING");
    reveal_strlit("NOARP");
    reveal_strlit("PROMISC");
    reveal_strlit("ALLMULTI");
    reveal_strlit("MASTER");
    reveal_strlit("SLAVE");
    reveal_strlit("MULTICAST");
    reveal_strlit("PORTSEL");
    reveal_strlit("AUTOMEDIA");
    reveal_strlit("DYNAMIC");
    assert(!flag_name(5).contains(' ')) by {
        if flag_name(5).contains(' ') {
            let j = choose|j: int| 0 <= j < flag_name(5).len() && flag_name(5)[j] == ' ';
        }
    }
    assert(flag_name(5).len() != flag_name(0).len());
    assert(flag_name(5) != flag_name(0));
    assert(flag_name(5).len() != flag_name(1).len());
    assert(flag_name(5) != flag_name(1));
    assert(flag_name(5).len() != flag_name(2).len());
    assert(flag_name(5) != flag_name(2));
    assert(flag_name(5).len() != flag_name(3).len());
    assert(flag_name(5) != flag_name(3));
    assert(flag_name(5).len() != flag_name(4).len());
    assert(flag_name(5) != flag_name(4));
    assert(mask_of_name(flag_name(5)) == flag_mask(5));
}

proof fn lemma_flag_name_facts_6()
    ensures
        !flag_name(6).contains(' '),
        flag_name(6).len() > 0,
        mask_of_name(flag_name(6)) == flag_mask(6),
{
    reveal_strlit("UP");
    reveal_strlit("BROADCAST");
    reveal_strlit("DEBUG");
    reveal_strlit("LOOPBACK");
    reveal_strlit("PTP");
    reveal_strlit("NOTRAILERS");
    reveal_strlit("RUNNING");
    reveal_strlit("NOARP");
    reveal_strlit("PROMISC");
    reveal_strlit("ALLMULTI");
    reveal_strlit("MASTER");
    reveal_strlit("SLAVE");
    reveal_strlit("MULTICAST");
    reveal_strlit("PORTSEL");
    reveal_strlit("AUTOMEDIA");
    reveal_strlit("DYNAMIC");
    assert(!flag_name(6).contains(' ')) by {
        if flag_name(6).contains(' ') {
            let j = choose|j: int| 0 <= j < flag_name(6).len() && flag_name(6)[j] == ' ';
        }
    }
    assert(flag_name(6).len() != flag_name(0).len());
    assert(flag_name(6) != flag_name(0));
    assert(flag_name(6).len() != flag_name(1).len());
    assert(flag_name(6) != flag_name(1));
    assert(flag_name(6).len() != flag_name(2).len());
    assert(flag_name(6) != flag_name(2));
    assert(flag_name(6).len() != flag_name(3).len());
    assert(flag_name(6) != flag_name(3));
    assert(flag_name(6).len() != flag_name(4).len());
    assert(flag_name(6) != flag_name(4));
    assert(flag_name(6).len() != flag_name(5).len());
    assert(flag_name(6) != flag_name(5));
    assert(mask_of_name(flag_name(6)) == flag_mask(6));
}

proof fn lemma_flag_name_facts_7()
    ensures
        !flag_name(7).contains(' '),
        flag_name(7).len() > 0,
        mask_of_name(flag_name(7)) == flag_mask(7),
{
    reveal_strlit("UP");
    reveal_strlit("BROADCAST");
    reveal_strlit("DEBUG");
    reveal_strlit("LOOPBACK");
    reveal_strlit("PTP");
    reveal_strlit("NOTRAILERS");
    reveal_strlit("RUNNING");
    reveal_strlit("NOARP");
    reveal_strlit("PROMISC");
    reveal_strlit("ALLMULTI");
    reveal_strlit("MASTER");
    reveal_strlit("SLAVE");
    reveal_strlit("MULTICAST");
    reveal_strlit("PORTSEL");
    reveal_strlit("AUTOMEDIA");
    reveal_strlit("DYNAMIC");
    assert(!flag_name(7).contains(' ')) by {
        if flag_name(7).contains(' ') {
            let j = choose|j: int| 0 <= j < flag_name(7).len() && flag_name(7)[j] == ' ';
        }
    }
    assert(flag_name(7).len() != flag_name(0).len());
    assert(flag_name(7) != flag_name(0));
    assert(flag_name(7).len() != flag_name(1).len());
    assert(flag_name(7) != flag_name(1));
    assert(flag_name(7)[0] != flag_name(2)[0]);
    assert(flag_name(7) != flag_name(2));
    assert(flag_name(7).len() != flag_name(3).len());
    assert(flag_name(7) != flag_name(3));
    assert(flag_name(7).len() != flag_name(4).len());
    assert(flag_name(7) != flag_name(4));
    assert(flag_name(7).len() != flag_name(5).len());
    assert(flag_name(7) != flag_name(5));
    assert(flag_name(7).len() != flag_name(6).len());
    assert(flag_name(7) != flag_name(6));
    assert(mask_of_name(flag_name(7)) == flag_mask(7));
}

proof fn lemma_flag_name_facts_8()
    ensures
        !flag_name(8).contains(' '),
        flag_name(8).len() > 0,
        mask_of_name(flag_name(8)) == flag_mask(8),
{
    reveal_strlit("UP");
    reveal_strlit("BROADCAST");
    reveal_strlit("DEBUG");
    reveal_strlit("LOOPBACK");
    reveal_strlit("PTP");
    reveal_strlit("NOTRAILERS");
    reveal_strlit("RUNNING");
    reveal_strlit("NOARP");
    reveal_strlit("PROMISC");
    reveal_strlit("ALLMULTI");
    reveal_strlit("MASTER");
    reveal_strlit("SLAVE");
    reveal_strlit("MULTICAST");
    reveal_strlit("PORTSEL");
    reveal_strlit("AUTOMEDIA");
    reveal_strlit("DYNAMIC");
    assert(!flag_name(8).contains(' ')) by {
        if flag_name(8).contains(' ') {
            let j = choose|j: int| 0 <= j < flag_name(8).len() && flag_name(8)[j] == ' ';
        }
    }
    assert(flag_name(8).len() != flag_name(0).len());
    assert(flag_name(8) != flag_name(0));
    assert(flag_name(8).len() != flag_name(1).len());
    assert(flag_name(8) != flag_name(1));
    assert(flag_name(8).len() != flag_name(2).len());
    assert(flag_name(8) != flag_name(2));
    assert(flag_name(8).len() != flag_name(3).len());
    assert(flag_name(8) != flag_name(3));
    assert(flag_name(8).len() != flag_name(4).len());
    assert(flag_name(8) != flag_name(4));
    assert(flag_name(8).len() != flag_name(5).len());
    assert(flag_name(8) != flag_name(5));
    assert(flag_name(8)[0] != flag_name(6)[0]);
    assert(flag_name(8) != flag_name(6));
    assert(flag_name(8).len() != flag_name(7).len());
    assert(flag_name(8) != flag_name(7));
    assert(mask_of_name(flag_name(8)) == flag_mask(8));
}

proof fn lemma_flag_name_facts_9()
    ensures
        !flag_name(9).contains(' '),
        flag_name(9).len() > 0,
        mask_of_name(flag_name(9)) == flag_mask(9),
{
    reveal_strlit("UP");
    reveal_strlit("BROADCAST");
    reveal_strlit("DEBUG");
    reveal_strlit("LOOPBACK");
    reveal_strlit("PTP");
    reveal_strlit("NOTRAILERS");
    reveal_strlit("RUNNING");
    reveal_strlit("NOARP");
    reveal_strlit("PROMISC");
    reveal_strlit("ALLMULTI");
    reveal_strlit("MASTER");
    reveal_strlit("SLAVE");
    reveal_strlit("MULTICAST");
    reveal_strlit("PORTSEL");
    reveal_strlit("AUTOMEDIA");
    reveal_strlit("DYNAMIC");
    assert(!flag_name(9).contains(' ')) by {
        if flag_name(9).contains(' ') {
            let j = choose|j: int| 0 <= j < flag_name(9).len() && flag_name(9)[j] == ' ';
        }
    }
    assert(flag_name(9).len() != flag_name(0).len());
    assert(flag_name(9) != flag_name(0));
    assert(flag_name(9).len() != flag_name(1).len());
    assert(flag_name(9) != flag_name(1));
    assert(flag_name(9).len() != flag_name(2).len());
    assert(flag_name(9) != flag_name(2));
    assert(flag_name(9)[0] != flag_name(3)[0]);
    assert(flag_name(9) != flag_name(3));
    assert(flag_name(9).len() != flag_name(4).len());
    assert(flag_name(9) != flag_name(4));
    assert(flag_name(9).len() != flag_name(5).len());
    assert(flag_name(9) != flag_name(5));
    assert(flag_name(9).len() != flag_name(6).len());
    assert(flag_name(9) != flag_name(6));
    assert(flag_name(9).len() != flag_name(7).len());
    assert(flag_name(9) != flag_name(7));
    assert(flag_name(9).len() != flag_name(8).len());
    assert(flag_name(9) != flag_name(8));
    assert(mask_of_name(flag_name(9)) == flag_mask(9));
}

proof fn lemma_flag_name_facts_10()
    ensures
        !flag_name(10).contains(' '),
        flag_name(10).len() > 0,
        mask_of_name(flag_name(10)) == flag_mask(10),
{
    reveal_strlit("UP");
    reveal_strlit("BROADCAST");
    reveal_strlit("DEBUG");
    reveal_strlit("LOOPBACK");
    reveal_strlit("PTP");
    reveal_strlit("NOTRAILERS");
    reveal_strlit("RUNNING");
    reveal_strlit("NOARP");
    reveal_strlit("PROMISC");
    reveal_strlit("ALLMULTI");
    reveal_strlit("MASTER");
    reveal_strlit("SLAVE");
    reveal_strlit("MULTICAST");
    reveal_strlit("PORTSEL");
    reveal_strlit("AUTOMEDIA");
    reveal_strlit("DYNAMIC");
    assert(!flag_name(10).contains(' ')) by {
        if flag_name(10).contains(' ') {
            let j = choose|j: int| 0 <= j < flag_name(10).len() && flag_name(10)[j] == ' ';
        }
    }
    assert(flag_name(10).len() != flag_name(0).len());
    assert(flag_name(10) != flag_name(0));
    assert(flag_name(10).len() != flag_name(1).len());
    assert(flag_name(10) != flag_name(1));
    assert(flag_name(10).len() != flag_name(2).len());
    assert(flag_name(10) != flag_name(2));
    assert(flag_name(10).len() != flag_name(3).len());
    assert(flag_name(10) != flag_name(3));
    assert(flag_name(10).len() != flag_name(4).len());
    assert(flag_name(10) != flag_name(4));
    assert(flag_name(10).len() != flag_name(5).len());
    assert(flag_name(10) != flag_name(5));
    assert(flag_name(10).len() != flag_name(6).len());
    assert(flag_name(10) != flag_name(6));
    assert(flag_name(10).len() != flag_name(7).len());
    assert(flag_name(10) != flag_name(7));
    assert(flag_name(10).len() != flag_name(8).len());
    assert(flag_name(10) != flag_name(8));
    assert(flag_name(10).len() != flag_name(9).len());
    assert(flag_name(10) != flag_name(9));
    assert(mask_of_name(flag_name(10)) == flag_mask(10));
}

proof fn lemma_flag_name_facts_11()
    ensures
        !flag_name(11).contains(' '),
        flag_name(11).len() > 0,
        mask_of_name(flag_name(11)) == flag_mask(11),
{
    reveal_strlit("UP");
    reveal_strlit("BROADCAST");
    reveal_strlit("DEBUG");
    reveal_strlit("LOOPBACK");
    reveal_strlit("PTP");
    reveal_strlit("NOTRAILERS");
    reveal_strlit("RUNNING");
    reveal_strlit("NOARP");
    reveal_strlit("PROMISC");
    reveal_strlit("ALLMULTI");
    reveal_strlit("MASTER");
    reveal_strlit("SLAVE");
    reveal_strlit("MULTICAST");
    reveal_strlit("PORTSEL");
    reveal_strlit("AUTOMEDIA");
    reveal_strlit("DYNAMIC");
    assert(!flag_name(11).contains(' ')) by {
        if flag_name(11).contains(' ') {
            let j = choose|j: int| 0 <= j < flag_name(11).len() && flag_name(11)[j] == ' ';
        }
    }
    assert(flag_name(11).len() != flag_name(0).len());
    assert(flag_name(11) != flag_name(0));
    assert(flag_name(11).len() != flag_name(1).len());
    assert(flag_name(11) != flag_name(1));
    assert(flag_name(11)[0] != flag_name(2)[0]);
    assert(flag_name(11) != flag_name(2));
    assert(flag_name(11).len() != flag_name(3).len());
    assert(flag_name(11) != flag_name(3));
    assert(flag_name(11).len() != flag_name(4).len());
    assert(flag_name(11) != flag_name(4));
    assert(flag_name(11).len() != flag_name(5).len());
    assert(flag_name(11) != flag_name(5));
    assert(flag_name(11).len() != flag_name(6).len());
    assert(flag_name(11) != flag_name(6));
    assert(flag_name(11)[0] != flag_name(7)[0]);
    assert(flag_name(11) != flag_name(7));
    assert(flag_name(11).len() != flag_name(8).len());
    assert(flag_name(11) != flag_name(8));
    assert(flag_name(11).len() != flag_name(9).len());
    assert(flag_name(11) != flag_name(9));
    assert(flag_name(11).len() != flag_name(10).len());
    assert(flag_name(11) != flag_name(10));
    assert(mask_of_name(flag_name(11)) == flag_mask(11));
}

proof fn lemma_flag_name_facts_12()
    ensures
        !flag_name(12).contains(' '),
        flag_name(12).len() > 0,
        mask_of_name(flag_name(12)) == flag_mask(12),
{
    reveal_strlit("UP");
    reveal_strlit("BROADCAST");
    reveal_strlit("DEBUG");
    reveal_strlit("LOOPBACK");
    reveal_strlit("PTP");
    reveal_strlit("NOTRAILERS");
    reveal_strlit("RUNNING");
    reveal_strlit("NOARP");
    reveal_strlit("PROMISC");
    reveal_strlit("ALLMULTI");
    reveal_strlit("MASTER");
    reveal_strlit("SLAVE");
    reveal_strlit("MULTICAST");
    reveal_strlit("PORTSEL");
    reveal_strlit("AUTOMEDIA");
    reveal_strlit("DYNAMIC");
    assert(!flag_name(12).contains(' ')) by {
        if flag_name(12).contains(' ') {
            let j = choose|j: int| 0 <= j < flag_name(12).len() && flag_name(12)[j] == ' ';
        }
    }
    assert(flag_name(12).len() != flag_name(0).len());
    assert(flag_name(12) != flag_name(0));
    assert(flag_name(12)[0] != flag_name(1)[0]);
    assert(flag_name(12) != flag_name(1));
    assert(flag_name(12).len() != flag_name(2).len());
    assert(flag_name(12) != flag_name(2));
    assert(flag_name(12).len() != flag_name(3).len());
    assert(flag_name(12) != flag_name(3));
    assert(flag_name(12).len() != flag_name(4).len());
    assert(flag_name(12) != flag_name(4));
    assert(flag_name(12).len() != flag_name(5).len());
    assert(flag_name(12) != flag_name(5));
    assert(flag_name(12).len() != flag_name(6).len());
    assert(flag_name(12) != flag_name(6));
    assert(flag_name(12).len() != flag_name(7).len());
    assert(flag_name(12) != flag_name(7));
    assert(flag_name(12).len() != flag_name(8).len());
    assert(flag_name(12) != flag_name(8));
    assert(flag_name(12).len() != flag_name(9).len());
    assert(flag_name(12) != flag_name(9));
    assert(flag_name(12).len() != flag_name(10).len());
    assert(flag_name(12) != flag_name(10));
    assert(flag_name(12).len() != flag_name(11).len());
    assert(flag_name(12) != flag_name(11));
    assert(mask_of_name(flag_name(12)) == flag_mask(12));
}

proof fn lemma_flag_name_facts_13()
    ensures
        !flag_name(13).contains(' '),
        flag_name(13).len() > 0,
        mask_of_name(flag_name(13)) == flag_mask(13),
{
    reveal_strlit("UP");
    reveal_strlit("BROADCAST");
    reveal_strlit("DEBUG");
    reveal_strlit("LOOPBACK");
    reveal_strlit("PTP");
    reveal_strlit("NOTRAILERS");
    reveal_strlit("RUNNING");
    reveal_strlit("NOARP");
    reveal_strlit("PROMISC");
    reveal_strlit("ALLMULTI");
    reveal_strlit("MASTER");
    reveal_strlit("SLAVE");
    reveal_strlit("MULTICAST");
    reveal_strlit("PORTSEL");
    reveal_strlit("AUTOMEDIA");
    reveal_strlit("DYNAMIC");
    assert(!flag_name(13).contains(' ')) by {
        if flag_name(13).contains(' ') {
            let j = choose|j: int| 0 <= j < flag_name(13).len() && flag_name(13)[j] == ' ';
        }
    }
    assert(flag_name(13).len() != flag_name(0).len());
    assert(flag_name(13) != flag_name(0));
    assert(flag_name(13).len() != flag_name(1).len());
    assert(flag_name(13) != flag_name(1));
    assert(flag_name(13).len() != flag_name(2).len());
    assert(flag_name(13) != flag_name(2));
    assert(flag_name(13).len() != flag_name(3).len());
    assert(flag_name(13) != flag_name(3));
    assert(flag_name(13).len() != flag_name(4).len());
    assert(flag_name(13) != flag_name(4));
    assert(flag_name(13).len() != flag_name(5).len());
    assert(flag_name(13) != flag_name(5));
    assert(flag_name(13)[0] != flag_name(6)[0]);
    assert(flag_name(13) != flag_name(6));
    assert(flag_name(13).len() != flag_name(7).len());
    assert(flag_name(13) != flag_name(7));
    assert(flag_name(13)[1] != flag_name(8)[1]);
    assert(flag_name(13) != flag_name(8));
    assert(flag_name(13).len() != flag_name(9).len());
    assert(flag_name(13) != flag_name(9));
    assert(flag_name(13).len() != flag_name(10).len());
    assert(flag_name(13) != flag_name(10));
    assert(flag_name(13).len() != flag_name(11).len());
    assert(flag_name(13) != flag_name(11));
    assert(flag_name(13).len() != flag_name(12).len());
    assert(flag_name(13) != flag_name(12));
    assert(mask_of_name(flag_name(13)) == flag_mask(13));
}

proof fn lemma_flag_name_facts_14()
    ensures
        !flag_name(14).contains(' '),
        flag_name(14).len() > 0,
        mask_of_name(flag_name(14)) == flag_mask(14),
{
    reveal_strlit("UP");
    reveal_strlit("BROADCAST");
    reveal_strlit("DEBUG");
    reveal_strlit("LOOPBACK");
    reveal_strlit("PTP");
    reveal_strlit("NOTRAILERS");
    reveal_strlit("RUNNING");
    reveal_strlit("NOARP");
    reveal_strlit("PROMISC");
    reveal_strlit("ALLMULTI");
    reveal_strlit("MASTER");
    reveal_strlit("SLAVE");
    reveal_strlit("MULTICAST");
    reveal_strlit("PORTSEL");
    reveal_strlit("AUTOMEDIA");
    reveal_strlit("DYNAMIC");
    assert(!flag_name(14).contains(' ')) by {
        if flag_name(14).contains(' ') {
            let j = choose|j: int| 0 <= j < flag_name(14).len() && flag_name(14)[j] == ' ';
        }
    }
    assert(flag_name(14).len() != flag_name(0).len());
    assert(flag_name(14) != flag_name(0));
    assert(flag_name(14)[0] != flag_name(1)[0]);
    assert(flag_name(14) != flag_name(1));
    assert(flag_name(14).len() != flag_name(2).len());
    assert(flag_name(14) != flag_name(2));
    assert(flag_name(14).len() != flag_name(3).len());
    assert(flag_name(14) != flag_name(3));
    assert(flag_name(14).len() != flag_name(4).len());
    assert(flag_name(14) != flag_name(4));
    assert(flag_name(14).len() != flag_name(5).len());
    assert(flag_name(14) != flag_name(5));
    assert(flag_name(14).len() != flag_name(6).len());
    assert(flag_name(14) != flag_name(6));
    assert(flag_name(14).len() != flag_name(7).len());
    assert(flag_name(14) != flag_name(7));
    assert(flag_name(14).len() != flag_name(8).len());
    assert(flag_name(14) != flag_name(8));
    assert(flag_name(14).len() != flag_name(9).len());
    assert(flag_name(14) != flag_name(9));
    assert(flag_name(14).len() != flag_name(10).len());
    assert(flag_name(14) != flag_name(10));
    assert(flag_name(14).len() != flag_name(11).len());
    assert(flag_name(14) != flag_name(11));
    assert(flag_name(14)[0] != flag_name(12)[0]);
    assert(flag_name(14) != flag_name(12));
    assert(flag_name(14).len() != flag_name(13).len());
    assert(flag_name(14) != flag_name(13));
    assert(mask_of_name(flag_name(14)) == flag_mask(14));
}

proof fn lemma_flag_name_facts_15()
    ensures
        !flag_name(15).contains(' '),
        flag_name(15).len() > 0,
        mask_of_name(flag_name(15)) == flag_mask(15),
{
    reveal_strlit("UP");
    reveal_strlit("BROADCAST");
    reveal_strlit("DEBUG");
    reveal_strlit("LOOPBACK");
    reveal_strlit("PTP");
    reveal_strlit("NOTRAILERS");
    reveal_strlit("RUNNING");
    reveal_strlit("NOARP");
    reveal_strlit("PROMISC");
    reveal_strlit("ALLMULTI");
    reveal_strlit("MASTER");
    reveal_strlit("SLAVE");
    reveal_strlit("MULTICAST");
    reveal_strlit("PORTSEL");
    reveal_strlit("AUTOMEDIA");
    reveal_strlit("DYNAMIC");
    assert(!flag_name(15).contains(' ')) by {
        if flag_name(15).contains(' ') {
            let j = choose|j: int| 0 <= j < flag_name(15).len() && flag_name(15)[j] == ' ';
        }
    }
    assert(flag_name(15).len() != flag_name(0).len());
    assert(flag_name(15) != flag_name(0));
    assert(flag_name(15).len() != flag_name(1).len());
    assert(flag_name(15) != flag_name(1));
    assert(flag_name(15).len() != flag_name(2).len());
    assert(flag_name(15) != flag_name(2));
    assert(flag_name(15).len() != flag_name(3).len());
    assert(flag_name(15) != flag_name(3));
    assert(flag_name(15).len() != flag_name(4).len());
    assert(flag_name(15) != flag_name(4));
    assert(flag_name(15).len() != flag_name(5).len());
    assert(flag_name(15) != flag_name(5));
    assert(flag_name(15)[0] != flag_name(6)[0]);
    assert(flag_name(15) != flag_name(6));
    assert(flag_name(15).len() != flag_name(7).len());
    assert(flag_name(15) != flag_name(7));
    assert(flag_name(15)[0] != flag_name(8)[0]);
    assert(flag_name(15) != flag_name(8));
    assert(flag_name(15).len() != flag_name(9).len());
    assert(flag_name(15) != flag_name(9));
    assert(flag_name(15).len() != flag_name(10).len());
    assert(flag_name(15) != flag_name(10));
    assert(flag_name(15).len() != flag_name(11).len());
    assert(flag_name(15) != flag_name(11));
    assert(flag_name(15).len() != flag_name(12).len());
    assert(flag_name(15) != flag_name(12));
    assert(flag_name(15)[0] != flag_name(13)[0]);
    assert(flag_name(15) != flag_name(13));
    assert(flag_name(15).len() != flag_name(14).len());
    assert(flag_name(15) != flag_name(14));
    assert(mask_of_name(flag_name(15)) == flag_mask(15));
}

proof fn lemma_flag_name_facts(i: int)
    requires
        0 <= i < 16,
    ensures
        !flag_name(i).contains(' '),
        flag_name(i).len() > 0,
        mask_of_name(flag_name(i)) == flag_mask(i),
{
    if i == 0 {
        lemma_flag_name_facts_0();
    } else if i == 1 {
        lemma_flag_name_facts_1();
    } else if i == 2 {
        lemma_flag_name_facts_2();
    } else if i == 3 {
        lemma_flag_name_facts_3();
    } else if i == 4 {
        lemma_flag_name_facts_4();
    } else if i == 5 {
        lemma_flag_name_facts_5();
    } else if i == 6 {
        lemma_flag_name_facts_6();
    } else if i == 7 {
        lemma_flag_name_facts_7();
    } else if i == 8 {
        lemma_flag_name_facts_8();
    } else if i == 9 {
        lemma_flag_name_facts_9();
    } else if i == 10 {
        lemma_flag_name_facts_10();
    } else if i == 11 {
        lemma_flag_name_facts_11();
    } else if i == 12 {
        lemma_flag_name_facts_12();
    } else if i == 13 {
        lemma_flag_name_facts_13();
    } else if i == 14 {
        lemma_flag_name_facts_14();
    } else {
        lemma_flag_name_facts_15();
    }
}

proof fn lemma_or_set_names(f: u16, n: int)
    requires
        0 <= n <= 16,
    ensures
        or_masks(set_flag_names(f, n)) == f & mask_below(n),
    decreases n,
{
    if n == 0 {
        assert(f & 0 == 0) by (bit_vector);
    } else {
        lemma_or_set_names(f, n - 1);
        let pre = set_flag_names(f, n - 1);
        let a = mask_below(n - 1);
        let b = flag_mask(n - 1);
        assert(b == 0x1 || b == 0x2 || b == 0x4 || b == 0x8 || b == 0x10 || b == 0x20 || b == 0x40
            || b == 0x80 || b == 0x100 || b == 0x200 || b == 0x400 || b == 0x800 || b == 0x1000
            || b == 0x2000 || b == 0x4000 || b == 0x8000);
        if f & b != 0 {
            lemma_flag_name_facts(n - 1);
            let post = pre + seq![flag_name(n - 1)];
            assert(post.drop_last() =~~= pre);
            assert(post.last() == flag_name(n - 1));
            assert(or_masks(post) == or_masks(pre) | mask_of_name(flag_name(n - 1)));
            let fb = f & b;
            assert((b == 0x1 || b == 0x2 || b == 0x4 || b == 0x8 || b == 0x10 || b == 0x20 || b
                == 0x40 || b == 0x80 || b == 0x100 || b == 0x200 || b == 0x400 || b == 0x800 || b
                == 0x1000 || b == 0x2000 || b == 0x4000 || b == 0x8000) && f & b != 0 ==> f & b
                == b) by (bit_vector);
            assert((f & a) | (f & b) == f & (a | b)) by (bit_vector);
        } else {
            assert(f & b == 0 ==> (f & a) == f & (a | b)) by (bit_vector);
        }
    }
}
proof fn lemma_set_names_tokens(f: u16, n: int)
    requires
        0 <= n <= 16,
    ensures
        forall|i: int|
            0 <= i < set_flag_names(f, n).len() ==> !(#[trigger] set_flag_names(f, n)[i]).contains(
                ' ',
            ),
    decreases n,
{
    if n > 0 {
        lemma_set_names_tokens(f, n - 1);
        if f & flag_mask(n - 1) != 0 {
            lemma_flag_name_facts(n - 1);
            let pre = set_flag_names(f, n - 1);
            let post = set_flag_names(f, n);
            assert(forall|i: int| 0 <= i < pre.len() ==> post[i] == pre[i]);
            assert(post[post.len() - 1] == flag_name(n - 1));
        }
    }
}

/// Re-parsing the canonical space-joined rendering of a flag word against
/// the canonical name table reconstructs exactly the original set bits,
/// whatever the word.
pub proof fn lemma_flags_round_trip(f: u16)
    ensures
        parse_flags_spec(flags_str_spec(f)) == f,
{
    let parts = set_flag_names(f, 16);
    lemma_or_set_names(f, 16);
    reveal_with_fuel(mask_below, 17);
    assert(0u16 | 0x1 == 0x1 && 0x1u16 | 0x2 == 0x3 && 0x3u16 | 0x4 == 0x7 && 0x7u16 | 0x8 == 0xf
        && 0xfu16 | 0x10 == 0x1f && 0x1fu16 | 0x20 == 0x3f && 0x3fu16 | 0x40 == 0x7f && 0x7fu16
        | 0x80 == 0xff && 0xffu16 | 0x100 == 0x1ff && 0x1ffu16 | 0x200 == 0x3ff && 0x3ffu16
        | 0x400 == 0x7ff && 0x7ffu16 | 0x800 == 0xfff && 0xfffu16 | 0x1000 == 0x1fff && 0x1fffu16
        | 0x2000 == 0x3fff && 0x3fffu16 | 0x4000 == 0x7fff && 0x7fffu16 | 0x8000 == 0xffff) by (
    bit_vector);
    assert(mask_below(16) == 0xffff);
    assert(f & 0xffff == f) by (bit_vector);
    lemma_set_names_tokens(f, 16);
    if parts.len() == 0 {
        assert(flags_str_spec(f) == Seq::<char>::empty());
        let toks = split_on(Seq::<char>::empty(), ' ');
        assert(toks =~~= seq![Seq::<char>::empty()]);
        assert(toks.drop_last() =~~= Seq::<Seq<char>>::empty());
        assert(0u16 | 0 == 0) by (bit_vector);
        assert(mask_of_name(Seq::<char>::empty()) == 0) by {
            assert forall|i: int| 0 <= i < 16 implies Seq::<char>::empty() != flag_name(i) by {
                lemma_flag_name_facts(i);
            }
        }
        assert(or_masks(toks.drop_last()) == 0);
        assert(toks.last() =~= Seq::<char>::empty());
        assert(or_masks(toks) == 0u16 | mask_of_name(Seq::<char>::empty()));
        assert(parse_flags_spec(flags_str_spec(f)) == 0);
    } else {
        crate::text::lemma_split_join(parts, ' ');
    }
}

} // verus!

verus! {

// ---------------------------------------------------------------------------
// Address enumeration entries and the property facade
// ---------------------------------------------------------------------------

/// One address attached to an interface, as a plain value.
#[derive(Clone, Debug)]
pub enum AddrData {
    /// An IPv4 address in network order, as one 32-bit value.
    V4(u32),
    /// An IPv6 address as its 16 bytes.
    V6([u8; 16]),
    /// A link-layer (hardware) address.
    Link(Vec<u8>),
}

/// One row of the system-wide address enumeration, reduced to plain
/// values: the owning interface, its flag word, and the optional address
/// and netmask of the row.
#[derive(Clone, Debug)]
pub struct IfAddrEntry {
    pub name: String,
    pub flags: i16,
    pub addr: Option<AddrData>,
    pub netmask: Option<AddrData>,
}

/// Index of the first enumeration row owned by `name`.
pub open spec fn find_if_entry(s: Seq<IfAddrEntry>, name: Seq<char>) -> Option<int>
    decreases s.len(),
{
    if s.len() == 0 {
        None
    } else if s[0].name@ == name {
        Some(0)
    } else {
        match find_if_entry(s.drop_first(), name) {
            Some(i) => Some(i + 1),
            None => None,
        }
    }
}

proof fn lemma_find_if_entry_unique(s: Seq<IfAddrEntry>, name: Seq<char>, i: int)
    requires
        0 <= i < s.len(),
        s[i].name@ == name,
        forall|j: int| 0 <= j < i ==> (#[trigger] s[j]).name@ != name,
    ensures
        find_if_entry(s, name) == Some(i),
    decreases s.len(),
{
    if i > 0 {
        lemma_find_if_entry_unique(s.drop_first(), name, i - 1);
    }
}

proof fn lemma_find_if_entry_none(s: Seq<IfAddrEntry>, name: Seq<char>)
    requires
        forall|j: int| 0 <= j < s.len() ==> (#[trigger] s[j]).name@ != name,
    ensures
        find_if_entry(s, name) is None,
    decreases s.len(),
{
    if s.len() > 0 {
        lemma_find_if_entry_none(s.drop_first(), name);
    }
}

/// The flag word of an interface, from the system-wide enumeration: the
/// first row owned by the interface decides; an interface absent from the
/// enumeration is `NotFound`.
pub fn flags(entries: &Vec<IfAddrEntry>, name: &str) -> (r: Result<i16, IfError>)
    ensures
        match find_if_entry(entries@, name@) {
            Some(i) => r == Ok::<i16, IfError>(entries@[i].flags),
            None => r == Err::<i16, IfError>(IfError::NotFound),
        },
{
    let mut i: usize = 0;
    while i < entries.len()
        invariant
            i <= entries@.len(),
            forall|j: int| 0 <= j < i ==> (#[trigger] entries@[j]).name@ != name@,
        decreases entries@.len() - i,
    {
        if crate::text::str_eq(entries[i].name.as_str(), name) {
            proof {
                lemma_find_if_entry_unique(entries@, name@, i as int);
            }
            return Ok(entries[i].flags);
        }
        i = i + 1;
    }
    proof {
        lemma_find_if_entry_none(entries@, name@);
    }
    Err(IfError::NotFound)
}

/// Index of the first enumeration row owned by `name` that carries a
/// link-layer address.
pub open spec fn find_link_entry(s: Seq<IfAddrEntry>, name: Seq<char>) -> Option<int>
    decreases s.len(),
{
    if s.len() == 0 {
        None
    } else if s[0].name@ == name && (s[0].addr matches Some(AddrData::Link(_))) {
        Some(0)
    } else {
        match find_link_entry(s.drop_first(), name) {
            Some(i) => Some(i + 1),
            None => None,
        }
    }
}

proof fn lemma_find_link_entry_unique(s: Seq<IfAddrEntry>, name: Seq<char>, i: int)
    requires
        0 <= i < s.len(),
        s[i].name@ == name && (s[i].addr matches Some(AddrData::Link(_))),
        forall|j: int|
            0 <= j < i ==> !((#[trigger] s[j]).name@ == name && (s[j].addr matches Some(
                AddrData::Link(_),
            ))),
    ensures
        find_link_entry(s, name) == Some(i),
    decreases s.len(),
{
    if i > 0 {
        lemma_find_link_entry_unique(s.drop_first(), name, i - 1);
    }
}

proof fn lemma_find_link_entry_none(s: Seq<IfAddrEntry>, name: Seq<char>)
    requires
        forall|j: int|
            0 <= j < s.len() ==> !((#[trigger] s[j]).name@ == name && (s[j].addr matches Some(
                AddrData::Link(_),
            ))),
    ensures
        find_link_entry(s, name) is None,
    decreases s.len(),
{
    if s.len() > 0 {
        lemma_find_link_entry_none(s.drop_first(), name);
    }
}

/// The hardware address of an interface from the address enumeration:
/// the first link-layer row owned by the interface, rendered as
/// colon-separated hex; an interface with no link-layer row renders as
/// the empty string rather than an error.
pub fn mac(entries: &Vec<IfAddrEntry>, name: &str) -> (r: String)
    ensures
        match find_link_entry(entries@, name@) {
            Some(i) => (entries@[i].addr matches Some(AddrData::Link(b)) && r@ == hw_addr_str(b@)),
            None => r@ == Seq::<char>::empty(),
        },
{
    let mut i: usize = 0;
    while i < entries.len()
        invariant
            i <= entries@.len(),
            forall|j: int|
                0 <= j < i ==> !((#[trigger] entries@[j]).name@ == name@ && (
                entries@[j].addr matches Some(AddrData::Link(_)))),
        decreases entries@.len() - i,
    {
        let e = &entries[i];
        if crate::text::str_eq(e.name.as_str(), name) {
            if let Some(AddrData::Link(bytes)) = &e.addr {
                proof {
                    lemma_find_link_entry_unique(entries@, name@, i as int);
                }
                return format_hw_addr(bytes.as_slice());
            }
        }
        i = i + 1;
    }
    proof {
        lemma_find_link_entry_none(entries@, name@);
    }
    String::new()
}

/// Dotted-quad decimal rendering of an IPv4 address held in one 32-bit
/// value, most significant byte first.
pub open spec fn ipv4_str(ip: u32) -> Seq<char> {
    crate::text::dec_u8_str((ip / 0x1000000) as u8) + seq!['.'] + crate::text::dec_u8_str(
        ((ip / 0x10000) % 256) as u8,
    ) + seq!['.'] + crate::text::dec_u8_str(((ip / 0x100) % 256) as u8) + seq!['.']
        + crate::text::dec_u8_str((ip % 256) as u8)
}

/// Formats an IPv4 address, as `ipv4_str` describes.
pub fn format_ipv4(ip: u32) -> (r: String)
    ensures
        r@ == ipv4_str(ip),
{
    let mut s = String::new();
    crate::text::push_dec_u8(&mut s, (ip / 0x1000000) as u8);
    push_char(&mut s, '.');
    crate::text::push_dec_u8(&mut s, ((ip / 0x10000) % 256) as u8);
    push_char(&mut s, '.');
    crate::text::push_dec_u8(&mut s, ((ip / 0x100) % 256) as u8);
    push_char(&mut s, '.');
    crate::text::push_dec_u8(&mut s, (ip % 256) as u8);
    assert(s@ =~= ipv4_str(ip));
    s
}

/// What one enumeration row contributes to the IPv4 address list of
/// `name`: the address with its netmask and prefix length, the netmask
/// rendered empty and the prefix zero when the row has no mask.
pub open spec fn inet4_of_entry(e: IfAddrEntry, name: Seq<char>) -> Seq<(Seq<char>, Seq<char>, i32)> {
    if e.name@ == name && (e.addr matches Some(AddrData::V4(_))) {
        let ip = e.addr.unwrap()->V4_0;
        match e.netmask {
            Some(AddrData::V4(m)) => seq![
                (ipv4_str(ip), ipv4_str(m), crate::text::pop_bits(m as nat) as i32),
            ],
            _ => seq![(ipv4_str(ip), Seq::<char>::empty(), 0i32)],
        }
    } else {
        Seq::<(Seq<char>, Seq<char>, i32)>::empty()
    }
}

/// The IPv4 address list of `name`, row by row in enumeration order.
pub open spec fn inet4_spec(s: Seq<IfAddrEntry>, name: Seq<char>) -> Seq<
    (Seq<char>, Seq<char>, i32),
>
    decreases s.len(),
{
    if s.len() == 0 {
        Seq::<(Seq<char>, Seq<char>, i32)>::empty()
    } else {
        inet4_spec(s.drop_last(), name) + inet4_of_entry(s.last(), name)
    }
}

/// View of one rendered IPv4 row.
pub open spec fn inet4_row_view(t: (String, String, i32)) -> (Seq<char>, Seq<char>, i32) {
    (t.0@, t.1@, t.2)
}

/// Enumerates the IPv4 addresses bound to an interface, each with its
/// netmask and derived prefix length (set-bit count of the mask); a row
/// without a netmask yields an empty mask and prefix zero.
pub fn inet_addrs(entries: &Vec<IfAddrEntry>, name: &str) -> (r: Vec<(String, String, i32)>)
    ensures
        r@.map_values(|t: (String, String, i32)| inet4_row_view(t)) == inet4_spec(entries@, name@),
{
    let mut r: Vec<(String, String, i32)> = Vec::new();
    assert(r@.map_values(|t: (String, String, i32)| inet4_row_view(t)) =~~= inet4_spec(
        entries@.subrange(0, 0),
        name@,
    ));
    let mut i: usize = 0;
    while i < entries.len()
        invariant
            i <= entries@.len(),
            r@.map_values(|t: (String, String, i32)| inet4_row_view(t)) == inet4_spec(
                entries@.subrange(0, i as int),
                name@,
            ),
        decreases entries@.len() - i,
    {
        let ghost pre = entries@.subrange(0, i as int);
        let ghost post = entries@.subrange(0, i as int + 1);
        proof {
            assert(post.drop_last() =~= pre);
            assert(post.last() == entries@[i as int]);
        }
        let e = &entries[i];
        let is_name = crate::text::str_eq(e.name.as_str(), name);
        if is_name {
            if let Some(AddrData::V4(ip)) = &e.addr {
                let ip = *ip;
                match &e.netmask {
                    Some(AddrData::V4(m)) => {
                        let m = *m;
                        let prefix = crate::text::count_bits_u32(m);
                        proof {
                            crate::text::lemma_pop_bits_le(m as nat);
                        }
                        r.push((format_ipv4(ip), format_ipv4(m), prefix as i32));
                    },
                    _ => {
                        r.push((format_ipv4(ip), String::new(), 0));
                    },
                }
            }
        }
        proof {
            assert(r@.map_values(|t: (String, String, i32)| inet4_row_view(t)) =~~= inet4_spec(
                post,
                name@,
            ));
        }
        i = i + 1;
    }
    proof {
        assert(entries@.subrange(0, entries@.len() as int) =~= entries@);
    }
    r
}

} // verus!

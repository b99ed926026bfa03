//! The text-source fallback adapters: parsing the structured inventory
//! records and the free-text hardware-registry output that stand in when
//! the binary query path is unavailable, plus the once-initialized cache
//! for the structured source and link-layer statistics records.

use vstd::prelude::*;
use vstd::string::*;
use crate::pci_utils::PciDeviceInfo;
use crate::proc::Stats;
use crate::text::{
    chars_to_string, contains_seq, contains_sub, find_char, find_first, parse_hex_u32, split_char,
    split_on, str_chars, str_eq, strip_char_end, strip_char_start, strip_leading,
    strip_prefix_rec, strip_prefix_repeated, strip_trailing, sub_chars, trim_chars, trim_spec,
    hex_u32,
};

verus! {

// ---------------------------------------------------------------------------
// Free-text key extraction
// ---------------------------------------------------------------------------

/// The hex payload of a `key = <hex>` line: everything after the first
/// `=`, trimmed, must start with `<` and hold a `>`; the angle brackets
/// and an optional `0x` prefix are stripped and the rest read as hex.
pub open spec fn extract_hex_spec(line: Seq<char>) -> Option<u32> {
    match find_first(line, '=') {
        Some(e) => {
            let val = trim_spec(line.subrange(e + 1, line.len() as int));
            if val.len() > 0 && val[0] == '<' && val.contains('>') {
                let inner = trim_spec(strip_char_end(strip_char_start(val, '<'), '>'));
                parse_hex_u32(strip_prefix_rec(inner, "0x"@))
            } else {
                None
            }
        },
        None => None,
    }
}

/// Extracts a hex payload from a character vector, as `extract_hex_spec`
/// describes.
fn extract_hex_chars(line: &Vec<char>) -> (r: Option<u32>)
    ensures
        r == extract_hex_spec(line@),
{
    match find_char(line, '=') {
        None => None,
        Some(e) => {
            proof {
                crate::text::lemma_find_first(line@, '=');
            }
            let n = line.len();
            let tail = sub_chars(line, e + 1, n);
            let val = trim_chars(&tail);
            if val.len() > 0 {
                let c0 = val[0];
                let gt = find_char(&val, '>');
                proof {
                    crate::text::lemma_find_first(val@, '>');
                    if gt is Some {
                        let i = gt.unwrap();
                        assert(val@.contains('>'));
                    } else {
                        if val@.contains('>') {
                            let i = choose|i: int| 0 <= i < val@.len() && val@[i] == '>';
                        }
                    }
                }
                if c0 == '<' && gt.is_some() {
                    let inner = trim_chars(&strip_trailing(&strip_leading(&val, '<'), '>'));
                    proof {
                        reveal_strlit("0x");
                    }
                    let pfx = str_chars("0x");
                    let clean = strip_prefix_repeated(&inner, &pfx);
                    hex_u32(clean.as_slice())
                } else {
                    None
                }
            } else {
                None
            }
        },
    }
}

/// Reads the hex payload of a `key = <hex>` line, as `extract_hex_spec`
/// describes.
pub fn extract_hex_value(line: &str) -> (r: Option<u32>)
    ensures
        r == extract_hex_spec(line@),
{
    let chars = str_chars(line);
    extract_hex_chars(&chars)
}

/// The string payload of a `key = "value"` line: everything after the
/// first `=`, trimmed, must start with `"`; the payload runs to the next
/// `"`.
pub open spec fn extract_string_spec(line: Seq<char>) -> Option<Seq<char>> {
    match find_first(line, '=') {
        Some(e) => {
            let val = trim_spec(line.subrange(e + 1, line.len() as int));
            if val.len() > 0 && val[0] == '"' {
                let rest = val.drop_first();
                match find_first(rest, '"') {
                    Some(j) => Some(rest.subrange(0, j)),
                    None => None,
                }
            } else {
                None
            }
        },
        None => None,
    }
}

/// Extracts a string payload from a character vector, as
/// `extract_string_spec` describes.
fn extract_string_chars(line: &Vec<char>) -> (r: Option<String>)
    ensures
        r is Some <==> extract_string_spec(line@) is Some,
        r matches Some(s) ==> Some(s@) == extract_string_spec(line@),
{
    match find_char(line, '=') {
        None => None,
        Some(e) => {
            proof {
                crate::text::lemma_find_first(line@, '=');
            }
            let n = line.len();
            let tail = sub_chars(line, e + 1, n);
            let val = trim_chars(&tail);
            if val.len() > 0 && val[0] == '"' {
                let rest = sub_chars(&val, 1, val.len());
                assert(rest@ =~= val@.drop_first());
                match find_char(&rest, '"') {
                    Some(j) => {
                        proof {
                            crate::text::lemma_find_first(rest@, '"');
                        }
                        let piece = sub_chars(&rest, 0, j);
                        Some(chars_to_string(&piece))
                    },
                    None => None,
                }
            } else {
                None
            }
        },
    }
}

/// Reads the string payload of a `key = "value"` line, as
/// `extract_string_spec` describes.
pub fn extract_string_value(line: &str) -> (r: Option<String>)
    ensures
        r is Some <==> extract_string_spec(line@) is Some,
        r matches Some(s) ==> Some(s@) == extract_string_spec(line@),
{
    let chars = str_chars(line);
    extract_string_chars(&chars)
}

// ---------------------------------------------------------------------------
// Per-key scans over registry output
// ---------------------------------------------------------------------------

/// The first well-formed hex payload on a line that mentions `key`
/// (lines are trimmed before matching).
pub open spec fn first_hex_for_key(lines: Seq<Seq<char>>, key: Seq<char>) -> Option<u32>
    decreases lines.len(),
{
    if lines.len() == 0 {
        None
    } else {
        let t = trim_spec(lines[0]);
        if contains_seq(t, key) && extract_hex_spec(t) is Some {
            extract_hex_spec(t)
        } else {
            first_hex_for_key(lines.drop_first(), key)
        }
    }
}

/// The first well-formed string payload on a line that mentions `key`.
pub open spec fn first_string_for_key(lines: Seq<Seq<char>>, key: Seq<char>) -> Option<Seq<char>>
    decreases lines.len(),
{
    if lines.len() == 0 {
        None
    } else {
        let t = trim_spec(lines[0]);
        if contains_seq(t, key) && extract_string_spec(t) is Some {
            extract_string_spec(t)
        } else {
            first_string_for_key(lines.drop_first(), key)
        }
    }
}

/// Scans for a hex key, as `first_hex_for_key` describes.
fn scan_hex_key(lines: &Vec<Vec<char>>, key: &Vec<char>) -> (r: Option<u32>)
    ensures
        r == first_hex_for_key(lines.deep_view(), key@),
{
    let ghost lv = lines.deep_view();
    let mut i: usize = 0;
    assert(lv.subrange(0, lv.len() as int) =~~= lv);
    while i < lines.len()
        invariant
            i <= lines.len(),
            lv == lines.deep_view(),
            first_hex_for_key(lv, key@) == first_hex_for_key(
                lv.subrange(i as int, lv.len() as int),
                key@,
            ),
        decreases lines.len() - i,
    {
        let ghost rest = lv.subrange(i as int, lv.len() as int);
        proof {
            assert(rest[0] == lv[i as int]);
            assert(lv[i as int] == lines@[i as int]@);
            assert(rest.drop_first() =~~= lv.subrange(i as int + 1, lv.len() as int));
        }
        let t = trim_chars(&lines[i]);
        if contains_sub(&t, key) {
            let h = extract_hex_chars(&t);
            if h.is_some() {
                return h;
            }
        }
        i = i + 1;
    }
    None
}

/// Scans for a string key, as `first_string_for_key` describes.
fn scan_string_key(lines: &Vec<Vec<char>>, key: &Vec<char>) -> (r: Option<String>)
    ensures
        r is Some <==> first_string_for_key(lines.deep_view(), key@) is Some,
        r matches Some(s) ==> Some(s@) == first_string_for_key(lines.deep_view(), key@),
{
    let ghost lv = lines.deep_view();
    let mut i: usize = 0;
    assert(lv.subrange(0, lv.len() as int) =~~= lv);
    while i < lines.len()
        invariant
            i <= lines.len(),
            lv == lines.deep_view(),
            first_string_for_key(lv, key@) == first_string_for_key(
                lv.subrange(i as int, lv.len() as int),
                key@,
            ),
        decreases lines.len() - i,
    {
        let ghost rest = lv.subrange(i as int, lv.len() as int);
        proof {
            assert(rest[0] == lv[i as int]);
            assert(lv[i as int] == lines@[i as int]@);
            assert(rest.drop_first() =~~= lv.subrange(i as int + 1, lv.len() as int));
        }
        let t = trim_chars(&lines[i]);
        if contains_sub(&t, key) {
            let h = extract_string_chars(&t);
            if h.is_some() {
                return h;
            }
        }
        i = i + 1;
    }
    None
}

} // verus!

verus! {

// ---------------------------------------------------------------------------
// Hardware-registry output: bus location and device identity
// ---------------------------------------------------------------------------

/// The first double-quoted run of a line, if a closing quote follows the
/// opening one.
pub open spec fn quoted_first_spec(line: Seq<char>) -> Option<Seq<char>> {
    match find_first(line, '"') {
        Some(i) => {
            let rest = line.subrange(i + 1, line.len() as int);
            match find_first(rest, '"') {
                Some(j) => Some(rest.subrange(0, j)),
                None => None,
            }
        },
        None => None,
    }
}

/// What one registry line contributes to the bus-location search: on a
/// line mentioning a PCI device, its first quoted run; failing that, the
/// string payload of a `"location"` property line.
pub open spec fn line_location_spec(line: Seq<char>) -> Option<Seq<char>> {
    let quoted = if contains_seq(line, "pcidebug"@) || contains_seq(line, "IOPCIDevice"@) {
        quoted_first_spec(line)
    } else {
        None
    };
    match quoted {
        Some(v) => Some(v),
        None => {
            if contains_seq(line, "\"location\""@) {
                extract_string_spec(line)
            } else {
                None
            }
        },
    }
}

/// The first line that yields a bus location, in line order.
pub open spec fn ioreg_location_spec(lines: Seq<Seq<char>>) -> Option<Seq<char>>
    decreases lines.len(),
{
    if lines.len() == 0 {
        None
    } else {
        match line_location_spec(lines[0]) {
            Some(v) => Some(v),
            None => ioreg_location_spec(lines.drop_first()),
        }
    }
}

/// Extracts the first quoted run, as `quoted_first_spec` describes.
fn quoted_first(line: &Vec<char>) -> (r: Option<String>)
    ensures
        r is Some <==> quoted_first_spec(line@) is Some,
        r matches Some(s) ==> Some(s@) == quoted_first_spec(line@),
{
    match find_char(line, '"') {
        None => None,
        Some(i) => {
            proof {
                crate::text::lemma_find_first(line@, '"');
            }
            let n = line.len();
            let rest = sub_chars(line, i + 1, n);
            match find_char(&rest, '"') {
                Some(j) => {
                    proof {
                        crate::text::lemma_find_first(rest@, '"');
                    }
                    let piece = sub_chars(&rest, 0, j);
                    Some(chars_to_string(&piece))
                },
                None => None,
            }
        },
    }
}

/// What one registry line yields, as `line_location_spec` describes.
fn line_location(line: &Vec<char>) -> (r: Option<String>)
    ensures
        r is Some <==> line_location_spec(line@) is Some,
        r matches Some(s) ==> Some(s@) == line_location_spec(line@),
{
    proof {
        reveal_strlit("pcidebug");
        reveal_strlit("IOPCIDevice");
        reveal_strlit("\"location\"");
    }
    let k1 = str_chars("pcidebug");
    let k2 = str_chars("IOPCIDevice");
    if contains_sub(line, &k1) || contains_sub(line, &k2) {
        let q = quoted_first(line);
        if q.is_some() {
            return q;
        }
    }
    let k3 = str_chars("\"location\"");
    if contains_sub(line, &k3) {
        extract_string_chars(line)
    } else {
        None
    }
}

/// Recovers a bus-location string from hardware-registry output scoped to
/// one interface: the first line that either mentions a PCI device and
/// holds a quoted run, or carries a `"location"` property, decides, as
/// `ioreg_location_spec` describes over the output's lines.
pub fn get_pci_address_from_ioreg(content: &str) -> (r: Option<String>)
    ensures
        r is Some <==> ioreg_location_spec(split_on(content@, '\n')) is Some,
        r matches Some(s) ==> Some(s@) == ioreg_location_spec(split_on(content@, '\n')),
{
    let chars = str_chars(content);
    let lines = split_char(&chars, '\n');
    let ghost lv = lines.deep_view();
    let mut i: usize = 0;
    assert(lv.subrange(0, lv.len() as int) =~~= lv);
    while i < lines.len()
        invariant
            i <= lines.len(),
            lv == lines.deep_view(),
            lv == split_on(content@, '\n'),
            ioreg_location_spec(lv) == ioreg_location_spec(lv.subrange(i as int, lv.len() as int)),
        decreases lines.len() - i,
    {
        let ghost rest = lv.subrange(i as int, lv.len() as int);
        proof {
            assert(rest[0] == lv[i as int]);
            assert(lv[i as int] == lines@[i as int]@);
            assert(rest.drop_first() =~~= lv.subrange(i as int + 1, lv.len() as int));
        }
        let found = line_location(&lines[i]);
        if found.is_some() {
            return found;
        }
        i = i + 1;
    }
    None
}

/// The device identity recovered from hardware-registry output: for each
/// identity key, the first line mentioning it with a well-formed payload
/// supplies the value; missing keys leave their fields unknown rather
/// than failing. The record exists exactly when at least one key was
/// found.
pub open spec fn ioreg_info_found(lines: Seq<Seq<char>>) -> bool {
    ||| first_hex_for_key(lines, "\"vendor-id\""@) is Some
    ||| first_hex_for_key(lines, "\"device-id\""@) is Some
    ||| first_hex_for_key(lines, "\"subsystem-vendor-id\""@) is Some
    ||| first_hex_for_key(lines, "\"subsystem-id\""@) is Some
    ||| first_hex_for_key(lines, "\"revision-id\""@) is Some
    ||| first_hex_for_key(lines, "\"class-code\""@) is Some
    ||| first_string_for_key(lines, "\"IOName\""@) is Some
}

/// Scans hardware-registry output for the identity of one device, as
/// `ioreg_info_found` and the per-key scans describe: 16-bit ids keep
/// their low 16 bits, the packed class code is split into its class and
/// subclass bytes, and the name property becomes the driver name.
pub fn get_pci_info_from_ioreg(content: &str) -> (r: Option<PciDeviceInfo>)
    ensures
        ({
            let lines = split_on(content@, '\n');
            &&& (r is Some <==> ioreg_info_found(lines))
            &&& (r matches Some(info) ==> {
                &&& info.vendor_id == (match first_hex_for_key(lines, "\"vendor-id\""@) {
                    Some(v) => (v % 0x10000) as u16,
                    None => 0u16,
                })
                &&& info.device_id == (match first_hex_for_key(lines, "\"device-id\""@) {
                    Some(v) => (v % 0x10000) as u16,
                    None => 0u16,
                })
                &&& info.subsystem_vendor == (match first_hex_for_key(
                    lines,
                    "\"subsystem-vendor-id\""@,
                ) {
                    Some(v) => Some((v % 0x10000) as u16),
                    None => None,
                })
                &&& info.subsystem_device == (match first_hex_for_key(lines, "\"subsystem-id\""@) {
                    Some(v) => Some((v % 0x10000) as u16),
                    None => None,
                })
                &&& info.revision == (match first_hex_for_key(lines, "\"revision-id\""@) {
                    Some(v) => Some((v % 0x100) as u8),
                    None => None,
                })
                &&& info.class == (match first_hex_for_key(lines, "\"class-code\""@) {
                    Some(v) => Some(((v / 0x10000) % 0x100) as u8),
                    None => None,
                })
                &&& info.subclass == (match first_hex_for_key(lines, "\"class-code\""@) {
                    Some(v) => Some(((v / 0x100) % 0x100) as u8),
                    None => None,
                })
                &&& crate::pci_utils::opt_string_view(info.driver) == first_string_for_key(
                    lines,
                    "\"IOName\""@,
                )
                &&& info.vendor_name is None
                &&& info.device_name is None
                &&& info.bus is None
                &&& info.device is None
                &&& info.function is None
                &&& info.numa_node is None
                &&& info.irq is None
            })
        }),
{
    let chars = str_chars(content);
    let lines = split_char(&chars, '\n');
    proof {
        reveal_strlit("\"vendor-id\"");
        reveal_strlit("\"device-id\"");
        reveal_strlit("\"subsystem-vendor-id\"");
        reveal_strlit("\"subsystem-id\"");
        reveal_strlit("\"revision-id\"");
        reveal_strlit("\"class-code\"");
        reveal_strlit("\"IOName\"");
    }
    let vendor = scan_hex_key(&lines, &str_chars("\"vendor-id\""));
    let device = scan_hex_key(&lines, &str_chars("\"device-id\""));
    let ss_vendor = scan_hex_key(&lines, &str_chars("\"subsystem-vendor-id\""));
    let ss_device = scan_hex_key(&lines, &str_chars("\"subsystem-id\""));
    let revision = scan_hex_key(&lines, &str_chars("\"revision-id\""));
    let class_code = scan_hex_key(&lines, &str_chars("\"class-code\""));
    let io_name = scan_string_key(&lines, &str_chars("\"IOName\""));
    let found_any = vendor.is_some() || device.is_some() || ss_vendor.is_some()
        || ss_device.is_some() || revision.is_some() || class_code.is_some() || io_name.is_some();
    if !found_any {
        return None;
    }
    let info = PciDeviceInfo {
        vendor_id: match vendor {
            Some(v) => (v % 0x10000) as u16,
            None => 0,
        },
        device_id: match device {
            Some(v) => (v % 0x10000) as u16,
            None => 0,
        },
        vendor_name: None,
        device_name: None,
        subsystem_vendor: match ss_vendor {
            Some(v) => Some((v % 0x10000) as u16),
            None => None,
        },
        subsystem_device: match ss_device {
            Some(v) => Some((v % 0x10000) as u16),
            None => None,
        },
        class: match class_code {
            Some(v) => Some(((v / 0x10000) % 0x100) as u8),
            None => None,
        },
        subclass: match class_code {
            Some(v) => Some(((v / 0x100) % 0x100) as u8),
            None => None,
        },
        revision: match revision {
            Some(v) => Some((v % 0x100) as u8),
            None => None,
        },
        bus: None,
        device: None,
        function: None,
        driver: io_name,
        numa_node: None,
        irq: None,
    };
    Some(info)
}

} // verus!

verus! {

// ---------------------------------------------------------------------------
// Structured inventory records and the once-initialized cache
// ---------------------------------------------------------------------------

/// One interface record of the structured system-inventory output.
#[derive(Debug)]
pub struct NetworkInterface {
    pub _name: String,
    pub interface: Option<String>,
    pub hardware: Option<String>,
    pub type_: Option<String>,
}

/// The top-level structured inventory document: a collection of
/// interface records.
#[derive(Debug)]
pub struct SystemProfilerOutput {
    pub network_data: Vec<NetworkInterface>,
}

/// Index of the last inventory record whose interface field names
/// `name` (a later record for the same interface replaces an earlier
/// one, as indexing the records by name would).
pub open spec fn find_iface_record(s: Seq<NetworkInterface>, name: Seq<char>) -> Option<int>
    decreases s.len(),
{
    if s.len() == 0 {
        None
    } else if s.last().interface matches Some(n) && n@ == name {
        Some(s.len() - 1)
    } else {
        find_iface_record(s.drop_last(), name)
    }
}

/// The once-initialized cache of the structured inventory source: the
/// surrounding program invokes the external utility at most once per
/// run and stores its outcome here, a failed invocation as `None`.
pub struct ProfilerCache {
    pub initialized: bool,
    pub data: Option<Vec<NetworkInterface>>,
}

impl ProfilerCache {
    /// A cache that has not consulted the source yet.
    pub fn new() -> (r: Self)
        ensures
            !r.initialized,
            r.data is None,
    {
        ProfilerCache { initialized: false, data: None }
    }

    /// Whether the source has been consulted.
    pub fn is_initialized(&self) -> (r: bool)
        ensures
            r == self.initialized,
    {
        self.initialized
    }

    /// Stores the outcome of the single invocation; the cache must not
    /// have been filled before, so the source is consulted at most once.
    pub fn fill(&mut self, data: Option<Vec<NetworkInterface>>)
        requires
            !old(self).initialized,
        ensures
            final(self).initialized,
            final(self).data == data,
    {
        self.data = data;
        self.initialized = true;
    }
}

/// Driver identity from the structured inventory: the record for
/// `if_name` supplies the driver label (its hardware class, else its
/// type tag, else "Unknown"); the version is never available from this
/// source; the bus location is the one recovered from the hardware
/// registry, else "N/A". There is no identity when the source failed or
/// has no record for the interface.
pub open spec fn driver_info_spec(
    data: Option<Seq<NetworkInterface>>,
    name: Seq<char>,
    ioreg_bus: Option<Seq<char>>,
) -> Option<(Seq<char>, Seq<char>, Seq<char>)> {
    match data {
        Some(records) => match find_iface_record(records, name) {
            Some(i) => {
                let rec = records[i];
                let driver = match rec.hardware {
                    Some(h) => h@,
                    None => match rec.type_ {
                        Some(t) => t@,
                        None => "Unknown"@,
                    },
                };
                let bus = match ioreg_bus {
                    Some(b) => b,
                    None => "N/A"@,
                };
                Some((driver, "N/A"@, bus))
            },
            None => None,
        },
        None => None,
    }
}

/// View of the cached record list.
pub open spec fn cache_data_view(data: Option<Vec<NetworkInterface>>) -> Option<
    Seq<NetworkInterface>,
> {
    match data {
        Some(v) => Some(v@),
        None => None,
    }
}

/// Looks up driver identity for an interface in the filled cache, as
/// `driver_info_spec` describes; `ioreg_bus` is the bus location the
/// hardware registry recovered, if any.
#[verifier::loop_isolation(false)]
pub fn get_driver_info(cache: &ProfilerCache, if_name: &str, ioreg_bus: Option<String>) -> (r:
    Option<(String, String, String)>)
    requires
        cache.initialized,
    ensures
        ({
            let spec_r = driver_info_spec(
                cache_data_view(cache.data),
                if_name@,
                match ioreg_bus {
                    Some(b) => Some(b@),
                    None => None,
                },
            );
            &&& (r is Some <==> spec_r is Some)
            &&& (r matches Some(t) ==> Some((t.0@, t.1@, t.2@)) == spec_r)
        }),
{
    let bus: String = match ioreg_bus {
        Some(b) => b,
        None => String::from_str("N/A"),
    };
    let records = match &cache.data {
        Some(v) => v,
        None => {
            return None;
        },
    };
    let n = records.len();
    let mut i: usize = n;
    assert(records@.subrange(0, records@.len() as int) =~= records@);
    while i > 0
        invariant
            i <= n,
            n == records@.len(),
            find_iface_record(records@, if_name@) == find_iface_record(
                records@.subrange(0, i as int),
                if_name@,
            ),
        decreases i,
    {
        let ghost cur = records@.subrange(0, i as int);
        proof {
            assert(cur.drop_last() =~= records@.subrange(0, i - 1));
            assert(cur.last() == records@[i - 1]);
        }
        let rec = &records[i - 1];
        let matched = match &rec.interface {
            Some(nm) => str_eq(nm.as_str(), if_name),
            None => false,
        };
        if matched {
            proof {
                let cur = records@.subrange(0, i as int);
                assert(cur.len() == i);
                assert(cur.last() == records@[i - 1]);
                assert(find_iface_record(cur, if_name@) == Some(i - 1));
                assert(find_iface_record(records@, if_name@) == Some(i - 1));
            }
            let driver: String = match &rec.hardware {
                Some(h) => h.clone(),
                None => match &rec.type_ {
                    Some(t) => t.clone(),
                    None => String::from_str("Unknown"),
                },
            };
            let version = String::from_str("N/A");
            return Some((driver, version, bus));
        }
        i = i - 1;
    }
    proof {
        assert(records@.subrange(0, 0) =~= Seq::<NetworkInterface>::empty());
    }
    None
}

// ---------------------------------------------------------------------------
// Link-layer statistics records
// ---------------------------------------------------------------------------

/// One record of the platform's interface-record walk, reduced to plain
/// values: the record's interface name, and its counters when the record
/// is a link-layer statistics record that carries data.
#[derive(Debug)]
pub struct LinkStatsRecord {
    pub name: String,
    pub link_stats: Option<Stats>,
}

/// Index of the first record for `name` that carries link-layer
/// counters.
pub open spec fn find_stats_record(s: Seq<LinkStatsRecord>, name: Seq<char>) -> Option<int>
    decreases s.len(),
{
    if s.len() == 0 {
        None
    } else if s[0].name@ == name && s[0].link_stats is Some {
        Some(0)
    } else {
        match find_stats_record(s.drop_first(), name) {
            Some(i) => Some(i + 1),
            None => None,
        }
    }
}

proof fn lemma_find_stats_record_unique(s: Seq<LinkStatsRecord>, name: Seq<char>, i: int)
    requires
        0 <= i < s.len(),
        s[i].name@ == name && s[i].link_stats is Some,
        forall|j: int|
            0 <= j < i ==> !((#[trigger] s[j]).name@ == name && s[j].link_stats is Some),
    ensures
        find_stats_record(s, name) == Some(i),
    decreases s.len(),
{
    if i > 0 {
        lemma_find_stats_record_unique(s.drop_first(), name, i - 1);
    }
}

proof fn lemma_find_stats_record_none(s: Seq<LinkStatsRecord>, name: Seq<char>)
    requires
        forall|j: int|
            0 <= j < s.len() ==> !((#[trigger] s[j]).name@ == name && s[j].link_stats is Some),
    ensures
        find_stats_record(s, name) is None,
    decreases s.len(),
{
    if s.len() > 0 {
        lemma_find_stats_record_none(s.drop_first(), name);
    }
}

/// The traffic counters of `if_name` out of a walked record list: the
/// first link-layer record for the interface decides; an interface
/// without one has no counters from this source.
pub fn get_stats(records: &Vec<LinkStatsRecord>, if_name: &str) -> (r: Option<Stats>)
    ensures
        match find_stats_record(records@, if_name@) {
            Some(i) => r == records@[i].link_stats,
            None => r is None,
        },
{
    let mut i: usize = 0;
    while i < records.len()
        invariant
            i <= records@.len(),
            forall|j: int|
                0 <= j < i ==> !((#[trigger] records@[j]).name@ == if_name@
                    && records@[j].link_stats is Some),
        decreases records@.len() - i,
    {
        let rec = &records[i];
        if rec.link_stats.is_some() {
            if str_eq(rec.name.as_str(), if_name) {
                proof {
                    lemma_find_stats_record_unique(records@, if_name@, i as int);
                }
                return rec.link_stats;
            }
        }
        i = i + 1;
    }
    proof {
        lemma_find_stats_record_none(records@, if_name@);
    }
    None
}

} // verus!

//! The PCI correlation engine: canonical bus-address parsing and
//! formatting, the vendor/device name tables, the device registry built
//! from hardware enumeration, and the fallback chain that matches an
//! interface to its physical device.

use vstd::prelude::*;
use vstd::string::*;
use crate::text::{
    dec_u8_str, hex2, hex_u8, parse_hex_u8, push_char, push_dec_u8, push_hex2, split_char,
    split_on, str_chars, strip_prefix_rec, strip_prefix_repeated,
};

verus! {

/// Human-readable vendor name for a known PCI vendor id.
pub open spec fn vendor_name_spec(vendor_id: u16) -> Option<Seq<char>> {
    if vendor_id == 0x8086 { Some("Intel Corporation"@) }
    else if vendor_id == 0x10ec { Some("Realtek Semiconductor Co., Ltd."@) }
    else if vendor_id == 0x14e4 { Some("Broadcom Inc."@) }
    else if vendor_id == 0x1969 { Some("Qualcomm Atheros"@) }
    else if vendor_id == 0x168c { Some("Qualcomm Atheros"@) }
    else if vendor_id == 0x10de { Some("NVIDIA Corporation"@) }
    else if vendor_id == 0x1022 { Some("Advanced Micro Devices, Inc. [AMD]"@) }
    else if vendor_id == 0x1106 { Some("VIA Technologies, Inc."@) }
    else if vendor_id == 0x11ab { Some("Marvell Technology Group Ltd."@) }
    else if vendor_id == 0x13f0 { Some("Sundance Technology Inc. / IC Plus Corp"@) }
    else if vendor_id == 0x1737 { Some("Linksys"@) }
    else if vendor_id == 0x1814 { Some("Ralink corp."@) }
    else if vendor_id == 0x1b21 { Some("ASMedia Technology Inc."@) }
    else if vendor_id == 0x8139 { Some("Realtek"@) }
    else if vendor_id == 0x10b7 { Some("3Com Corporation"@) }
    else if vendor_id == 0x1186 { Some("D-Link System Inc"@) }
    else if vendor_id == 0x1fc9 { Some("Tehuti Networks Ltd."@) }
    else if vendor_id == 0x1d6a { Some("Aquantia Corp."@) }
    else if vendor_id == 0x1425 { Some("Chelsio Communications Inc"@) }
    else if vendor_id == 0x15b3 { Some("Mellanox Technologies"@) }
    else { None }
}

/// Looks up a vendor name, as `vendor_name_spec` describes.
pub fn get_vendor_name(vendor_id: u16) -> (r: Option<&'static str>)
    ensures
        r is Some <==> vendor_name_spec(vendor_id) is Some,
        r matches Some(s) ==> Some(s@) == vendor_name_spec(vendor_id),
{
    if vendor_id == 0x8086 { Some("Intel Corporation") }
    else if vendor_id == 0x10ec { Some("Realtek Semiconductor Co., Ltd.") }
    else if vendor_id == 0x14e4 { Some("Broadcom Inc.") }
    else if vendor_id == 0x1969 { Some("Qualcomm Atheros") }
    else if vendor_id == 0x168c { Some("Qualcomm Atheros") }
    else if vendor_id == 0x10de { Some("NVIDIA Corporation") }
    else if vendor_id == 0x1022 { Some("Advanced Micro Devices, Inc. [AMD]") }
    else if vendor_id == 0x1106 { Some("VIA Technologies, Inc.") }
    else if vendor_id == 0x11ab { Some("Marvell Technology Group Ltd.") }
    else if vendor_id == 0x13f0 { Some("Sundance Technology Inc. / IC Plus Corp") }
    else if vendor_id == 0x1737 { Some("Linksys") }
    else if vendor_id == 0x1814 { Some("Ralink corp.") }
    else if vendor_id == 0x1b21 { Some("ASMedia Technology Inc.") }
    else if vendor_id == 0x8139 { Some("Realtek") }
    else if vendor_id == 0x10b7 { Some("3Com Corporation") }
    else if vendor_id == 0x1186 { Some("D-Link System Inc") }
    else if vendor_id == 0x1fc9 { Some("Tehuti Networks Ltd.") }
    else if vendor_id == 0x1d6a { Some("Aquantia Corp.") }
    else if vendor_id == 0x1425 { Some("Chelsio Communications Inc") }
    else if vendor_id == 0x15b3 { Some("Mellanox Technologies") }
    else { None }
}

/// Human-readable device name for a known (vendor id, device id) pair.
pub open spec fn device_name_spec(vendor_id: u16, device_id: u16) -> Option<Seq<char>> {
    if vendor_id == 0x8086 && device_id == 0x100e { Some("82540EM Gigabit Ethernet Controller"@) }
    else if vendor_id == 0x8086 && device_id == 0x100f { Some("82545EM Gigabit Ethernet Controller"@) }
    else if vendor_id == 0x8086 && device_id == 0x10d3 { Some("82574L Gigabit Network Connection"@) }
    else if vendor_id == 0x8086 && device_id == 0x1533 { Some("I210 Gigabit Network Connection"@) }
    else if vendor_id == 0x8086 && device_id == 0x1539 { Some("I211 Gigabit Network Connection"@) }
    else if vendor_id == 0x8086 && device_id == 0x15b7 { Some("Ethernet Connection"@) }
    else if vendor_id == 0x8086 && device_id == 0x15b8 { Some("Ethernet Connection"@) }
    else if vendor_id == 0x10ec && device_id == 0x8168 { Some("RTL8111/8168/8411 PCI Express Gigabit Ethernet Controller"@) }
    else if vendor_id == 0x10ec && device_id == 0x8169 { Some("RTL8169 PCI Gigabit Ethernet Controller"@) }
    else if vendor_id == 0x10ec && device_id == 0x8136 { Some("RTL810xE PCI Express Fast Ethernet controller"@) }
    else if vendor_id == 0x14e4 && device_id == 0x1677 { Some("NetXtreme BCM5751 Gigabit Ethernet"@) }
    else if vendor_id == 0x14e4 && device_id == 0x165f { Some("NetXtreme BCM5720 Gigabit Ethernet"@) }
    else if vendor_id == 0x14e4 && device_id == 0x4331 { Some("BCM4331 802.11a/b/g/n"@) }
    else { None }
}

/// Looks up a common device name, as `device_name_spec` describes.
pub fn get_common_device_name(vendor_id: u16, device_id: u16) -> (r: Option<&'static str>)
    ensures
        r is Some <==> device_name_spec(vendor_id, device_id) is Some,
        r matches Some(s) ==> Some(s@) == device_name_spec(vendor_id, device_id),
{
    if vendor_id == 0x8086 && device_id == 0x100e { Some("82540EM Gigabit Ethernet Controller") }
    else if vendor_id == 0x8086 && device_id == 0x100f { Some("82545EM Gigabit Ethernet Controller") }
    else if vendor_id == 0x8086 && device_id == 0x10d3 { Some("82574L Gigabit Network Connection") }
    else if vendor_id == 0x8086 && device_id == 0x1533 { Some("I210 Gigabit Network Connection") }
    else if vendor_id == 0x8086 && device_id == 0x1539 { Some("I211 Gigabit Network Connection") }
    else if vendor_id == 0x8086 && device_id == 0x15b7 { Some("Ethernet Connection") }
    else if vendor_id == 0x8086 && device_id == 0x15b8 { Some("Ethernet Connection") }
    else if vendor_id == 0x10ec && device_id == 0x8168 { Some("RTL8111/8168/8411 PCI Express Gigabit Ethernet Controller") }
    else if vendor_id == 0x10ec && device_id == 0x8169 { Some("RTL8169 PCI Gigabit Ethernet Controller") }
    else if vendor_id == 0x10ec && device_id == 0x8136 { Some("RTL810xE PCI Express Fast Ethernet controller") }
    else if vendor_id == 0x14e4 && device_id == 0x1677 { Some("NetXtreme BCM5751 Gigabit Ethernet") }
    else if vendor_id == 0x14e4 && device_id == 0x165f { Some("NetXtreme BCM5720 Gigabit Ethernet") }
    else if vendor_id == 0x14e4 && device_id == 0x4331 { Some("BCM4331 802.11a/b/g/n") }
    else { None }
}

/// Best-effort identity of one physical PCI device.
#[derive(Debug)]
pub struct PciDeviceInfo {
    pub vendor_id: u16,
    pub device_id: u16,
    pub vendor_name: Option<String>,
    pub device_name: Option<String>,
    pub subsystem_vendor: Option<u16>,
    pub subsystem_device: Option<u16>,
    pub class: Option<u8>,
    pub subclass: Option<u8>,
    pub revision: Option<u8>,
    pub bus: Option<u8>,
    pub device: Option<u8>,
    pub function: Option<u8>,
    pub driver: Option<String>,
    pub numa_node: Option<i32>,
    pub irq: Option<u32>,
}

impl Clone for PciDeviceInfo {
    /// A clone is field-for-field equal to the original.
    fn clone(&self) -> (r: Self)
        ensures
            r == *self,
    {
        let vendor_name = match &self.vendor_name {
            Some(s) => Some(s.clone()),
            None => None,
        };
        let device_name = match &self.device_name {
            Some(s) => Some(s.clone()),
            None => None,
        };
        let driver = match &self.driver {
            Some(s) => Some(s.clone()),
            None => None,
        };
        let r = PciDeviceInfo {
            vendor_id: self.vendor_id,
            device_id: self.device_id,
            vendor_name,
            device_name,
            subsystem_vendor: self.subsystem_vendor,
            subsystem_device: self.subsystem_device,
            class: self.class,
            subclass: self.subclass,
            revision: self.revision,
            bus: self.bus,
            device: self.device,
            function: self.function,
            driver,
            numa_node: self.numa_node,
            irq: self.irq,
        };
        assert(r.vendor_name == self.vendor_name);
        assert(r.device_name == self.device_name);
        assert(r.driver == self.driver);
        r
    }
}

impl Default for PciDeviceInfo {
    /// The all-unknown record: zero ids and every optional field absent.
    fn default() -> (r: Self)
        ensures
            r.vendor_id == 0,
            r.device_id == 0,
            r.vendor_name is None,
            r.device_name is None,
            r.subsystem_vendor is None,
            r.subsystem_device is None,
            r.class is None,
            r.subclass is None,
            r.revision is None,
            r.bus is None,
            r.device is None,
            r.function is None,
            r.driver is None,
            r.numa_node is None,
            r.irq is None,
    {
        PciDeviceInfo {
            vendor_id: 0,
            device_id: 0,
            vendor_name: None,
            device_name: None,
            subsystem_vendor: None,
            subsystem_device: None,
            class: None,
            subclass: None,
            revision: None,
            bus: None,
            device: None,
            function: None,
            driver: None,
            numa_node: None,
            irq: None,
        }
    }
}

/// The canonical `bb:dd.f` address: bus and device as two-digit lowercase
/// hex, function in decimal.
pub open spec fn pci_addr_str(b: u8, d: u8, f: u8) -> Seq<char> {
    hex2(b) + seq![':'] + hex2(d) + seq!['.'] + dec_u8_str(f)
}

/// Formats a canonical address, as `pci_addr_str` describes.
pub fn format_pci_addr(b: u8, d: u8, f: u8) -> (r: String)
    ensures
        r@ == pci_addr_str(b, d, f),
{
    let mut s = String::new();
    push_hex2(&mut s, b);
    push_char(&mut s, ':');
    push_hex2(&mut s, d);
    push_char(&mut s, '.');
    push_dec_u8(&mut s, f);
    assert(s@ =~= pci_addr_str(b, d, f));
    s
}

/// Human label for a known (class, subclass) pair, a generic hex rendering
/// for an unknown pair, and "Unknown" when either part is missing.
pub open spec fn format_class_spec(class: Option<u8>, subclass: Option<u8>) -> Seq<char> {
    if class is Some && subclass is Some {
        let c = class.unwrap();
        let s = subclass.unwrap();
        if c == 0x02 && s == 0x00 { "Ethernet controller"@ }
        else if c == 0x02 && s == 0x80 { "Network controller"@ }
        else if c == 0x0d && s == 0x11 { "802.1a controller"@ }
        else if c == 0x0d && s == 0x20 { "802.11b controller"@ }
        else if c == 0x0d && s == 0x80 { "Wireless controller"@ }
        else { "Class "@ + hex2(c) + seq![':'] + hex2(s) }
    } else {
        "Unknown"@
    }
}

impl PciDeviceInfo {
    /// Renders the device class, as `format_class_spec` describes.
    pub fn format_class(&self) -> (r: String)
        ensures
            r@ == format_class_spec(self.class, self.subclass),
    {
        if let (Some(c), Some(s)) = (self.class, self.subclass) {
            if c == 0x02 && s == 0x00 { String::from_str("Ethernet controller") }
            else if c == 0x02 && s == 0x80 { String::from_str("Network controller") }
            else if c == 0x0d && s == 0x11 { String::from_str("802.1a controller") }
            else if c == 0x0d && s == 0x20 { String::from_str("802.11b controller") }
            else if c == 0x0d && s == 0x80 { String::from_str("Wireless controller") }
            else {
                let mut out = String::from_str("Class ");
                push_hex2(&mut out, c);
                push_char(&mut out, ':');
                push_hex2(&mut out, s);
                assert(out@ =~= "Class "@ + hex2(c) + seq![':'] + hex2(s));
                out
            }
        } else {
            String::from_str("Unknown")
        }
    }

    /// The canonical address of this device: defined exactly when bus,
    /// device and function are all present, formatted as `pci_addr_str`.
    pub fn pci_address(&self) -> (r: Option<String>)
        ensures
            r is Some <==> (self.bus is Some && self.device is Some && self.function is Some),
            r matches Some(a) ==> a@ == pci_addr_str(
                self.bus.unwrap(),
                self.device.unwrap(),
                self.function.unwrap(),
            ),
    {
        if let (Some(b), Some(d), Some(f)) = (self.bus, self.device, self.function) {
            Some(format_pci_addr(b, d, f))
        } else {
            None
        }
    }
}

} // verus!

verus! {

// ---------------------------------------------------------------------------
// Canonical address parsing
// ---------------------------------------------------------------------------

/// The function token of a canonical address: exactly one decimal digit
/// in the range a PCI function can take, `0` to `7`.
pub open spec fn parse_func_digit(t: Seq<char>) -> Option<u8> {
    if t.len() == 1 && '0' <= t[0] && t[0] <= '7' {
        Some((t[0] as u8 - 48) as u8)
    } else {
        None
    }
}

/// Reads the function token, as `parse_func_digit` describes.
fn func_digit(t: &Vec<char>) -> (r: Option<u8>)
    ensures
        r == parse_func_digit(t@),
{
    if t.len() == 1 && '0' <= t[0] && t[0] <= '7' {
        Some((t[0] as u8) - 48)
    } else {
        None
    }
}

/// The bus/device/function triple a free-form bus string stands for: split
/// on `:`, require at least two segments, require the last segment to hold
/// exactly one `.`, read bus and device as hex bytes and the function as a
/// single decimal digit `0`-`7`; anything else is no address.
pub open spec fn parse_pci_spec(s: Seq<char>) -> Option<(u8, u8, u8)> {
    let parts = split_on(s, ':');
    if parts.len() >= 2 {
        let df = split_on(parts.last(), '.');
        if df.len() == 2 {
            let bus = parse_hex_u8(parts[parts.len() - 2]);
            let dev = parse_hex_u8(df[0]);
            let func = parse_func_digit(df[1]);
            if bus is Some && dev is Some && func is Some {
                Some((bus.unwrap(), dev.unwrap(), func.unwrap()))
            } else {
                None
            }
        } else {
            None
        }
    } else {
        None
    }
}

/// Parses a character vector, as `parse_pci_spec` describes.
fn parse_pci_chars(v: &Vec<char>) -> (r: Option<(u8, u8, u8)>)
    ensures
        r == parse_pci_spec(v@),
{
    let parts = split_char(v, ':');
    let ghost pv = parts.deep_view();
    if parts.len() < 2 {
        return None;
    }
    assert(pv[pv.len() - 1] == parts@[parts@.len() - 1]@);
    assert(pv[pv.len() - 2] == parts@[parts@.len() - 2]@);
    let last = &parts[parts.len() - 1];
    let df = split_char(last, '.');
    let ghost dv = df.deep_view();
    if df.len() != 2 {
        return None;
    }
    assert(dv[0] == df@[0]@);
    assert(dv[1] == df@[1]@);
    let bus = hex_u8(parts[parts.len() - 2].as_slice());
    let dev = hex_u8(df[0].as_slice());
    let func = func_digit(&df[1]);
    match (bus, dev, func) {
        (Some(b), Some(d), Some(f)) => Some((b, d, f)),
        _ => None,
    }
}

/// Parses a canonical PCI address out of a free-form bus string; on
/// success the address is re-rendered in the canonical `bb:dd.f` form.
pub fn parse_pci_address(bus_info: &str) -> (r: Option<String>)
    ensures
        r is Some <==> parse_pci_spec(bus_info@) is Some,
        parse_pci_spec(bus_info@) matches Some(t) ==> r matches Some(a) && a@ == pci_addr_str(
            t.0,
            t.1,
            t.2,
        ),
{
    let chars = str_chars(bus_info);
    match parse_pci_chars(&chars) {
        Some((b, d, f)) => Some(format_pci_addr(b, d, f)),
        None => None,
    }
}

// ---------------------------------------------------------------------------
// Kernel metadata fallback
// ---------------------------------------------------------------------------

/// View of an optional borrowed string.
pub open spec fn opt_str_view(o: Option<&str>) -> Option<Seq<char>> {
    match o {
        Some(s) => Some(s@),
        None => None,
    }
}

/// The address the per-interface device symlink target stands for: its
/// final path segment, parsed as a bus string.
pub open spec fn link_addr_spec(link: Option<Seq<char>>) -> Option<(u8, u8, u8)> {
    match link {
        Some(t) => parse_pci_spec(split_on(t, '/').last()),
        None => None,
    }
}

/// The address the interface metadata recovers: the first
/// `PCI_SLOT_NAME=` line of the metadata file decides if it exists
/// (even when its value does not parse); otherwise the symlink target.
pub open spec fn sysfs_addr_spec(uevent: Option<Seq<char>>, link: Option<Seq<char>>) -> Option<
    (u8, u8, u8),
> {
    match uevent {
        Some(c) => {
            let lines = split_on(c, '\n');
            match crate::text::first_with_prefix(lines, "PCI_SLOT_NAME="@) {
                Some(i) => parse_pci_spec(strip_prefix_rec(lines[i], "PCI_SLOT_NAME="@)),
                None => link_addr_spec(link),
            }
        },
        None => link_addr_spec(link),
    }
}

/// Parses the symlink fallback, as `link_addr_spec` describes.
fn link_addr(device_link: Option<&str>) -> (r: Option<(u8, u8, u8)>)
    ensures
        r == link_addr_spec(opt_str_view(device_link)),
{
    match device_link {
        Some(t) => {
            let chars = str_chars(t);
            let segs = split_char(&chars, '/');
            assert(segs.deep_view()[segs.deep_view().len() - 1] == segs@[segs@.len() - 1]@);
            parse_pci_chars(&segs[segs.len() - 1])
        },
        None => None,
    }
}

/// Recovers a canonical address from kernel-exposed per-interface
/// metadata, as `sysfs_addr_spec` describes: `uevent` is the content of
/// the interface's metadata file, `device_link` the target its device
/// symlink resolves to; either may be missing.
pub fn extract_pci_from_sysfs(uevent: Option<&str>, device_link: Option<&str>) -> (r: Option<
    String,
>)
    ensures
        r is Some <==> sysfs_addr_spec(opt_str_view(uevent), opt_str_view(device_link)) is Some,
        sysfs_addr_spec(opt_str_view(uevent), opt_str_view(device_link)) matches Some(t)
            ==> r matches Some(a) && a@ == pci_addr_str(t.0, t.1, t.2),
{
    match extract_pci_from_sysfs_triple(uevent, device_link) {
        Some((b, d, f)) => Some(format_pci_addr(b, d, f)),
        None => None,
    }
}

} // verus!

verus! {

// ---------------------------------------------------------------------------
// Device registry
// ---------------------------------------------------------------------------

/// The bus-device registry: canonical addresses are the join key between
/// hardware enumeration and bus strings, so entries are looked up by the
/// address triple their bus, device and function fields stand for.
#[derive(Debug)]
pub struct PciDeviceRegistry {
    pub entries: Vec<PciDeviceInfo>,
}

/// Index of the last entry located at the given address triple: a later
/// record at the same address replaces an earlier one, as inserting into
/// a mapping keyed by the canonical address would.
pub open spec fn reg_find(s: Seq<PciDeviceInfo>, b: u8, d: u8, f: u8) -> Option<int>
    decreases s.len(),
{
    if s.len() == 0 {
        None
    } else if s.last().bus == Some(b) && s.last().device == Some(d) && s.last().function == Some(
        f,
    ) {
        Some(s.len() - 1)
    } else {
        reg_find(s.drop_last(), b, d, f)
    }
}

impl PciDeviceRegistry {
    /// The empty registry.
    pub fn new() -> (r: Self)
        ensures
            r.entries@ =~= Seq::<PciDeviceInfo>::empty(),
    {
        PciDeviceRegistry { entries: Vec::new() }
    }

    /// Adds one device record.
    pub fn add(&mut self, info: PciDeviceInfo)
        ensures
            final(self).entries@ == old(self).entries@.push(info),
    {
        self.entries.push(info);
    }

    /// Clone of the entry at the given address triple, if any; the last
    /// record added at that address wins, as `reg_find` describes.
    #[verifier::loop_isolation(false)]
    pub fn lookup(&self, b: u8, d: u8, f: u8) -> (r: Option<PciDeviceInfo>)
        ensures
            match reg_find(self.entries@, b, d, f) {
                Some(i) => r matches Some(info) && info == self.entries@[i],
                None => r is None,
            },
    {
        let n = self.entries.len();
        let mut i: usize = n;
        assert(self.entries@.subrange(0, self.entries@.len() as int) =~= self.entries@);
        while i > 0
            invariant
                i <= n,
                reg_find(self.entries@, b, d, f) == reg_find(
                    self.entries@.subrange(0, i as int),
                    b,
                    d,
                    f,
                ),
            decreases i,
        {
            let ghost cur = self.entries@.subrange(0, i as int);
            proof {
                assert(cur.drop_last() =~= self.entries@.subrange(0, i - 1));
                assert(cur.last() == self.entries@[i - 1]);
            }
            let e = &self.entries[i - 1];
            let hit = match (e.bus, e.device, e.function) {
                (Some(eb), Some(ed), Some(ef)) => eb == b && ed == d && ef == f,
                _ => false,
            };
            if hit {
                assert(reg_find(self.entries@, b, d, f) == Some(i - 1));
                return Some(self.entries[i - 1].clone());
            }
            i = i - 1;
        }
        proof {
            assert(self.entries@.subrange(0, 0) =~= Seq::<PciDeviceInfo>::empty());
        }
        None
    }
}

// ---------------------------------------------------------------------------
// Correlation
// ---------------------------------------------------------------------------

/// The canonical address triple the fallback chain recovers for an
/// interface: the bus string (with any leading `pci@` tokens removed)
/// decides if it parses; otherwise the kernel metadata fallback.
pub open spec fn correlate_addr_spec(
    bus_info: Seq<char>,
    uevent: Option<Seq<char>>,
    link: Option<Seq<char>>,
) -> Option<(u8, u8, u8)> {
    match parse_pci_spec(strip_prefix_rec(bus_info, "pci@"@)) {
        Some(t) => Some(t),
        None => sysfs_addr_spec(uevent, link),
    }
}

/// Matches an interface to its physical device: an empty bus string is
/// immediately no match; otherwise the canonical address recovered by
/// `correlate_addr_spec` is looked up in the registry, and the first
/// entry at that address is returned.
pub fn find_pci_info_for_interface(
    bus_info: &str,
    uevent: Option<&str>,
    device_link: Option<&str>,
    pci_devices: &PciDeviceRegistry,
) -> (r: Option<PciDeviceInfo>)
    ensures
        bus_info@.len() == 0 ==> r is None,
        bus_info@.len() > 0 ==> match correlate_addr_spec(
            bus_info@,
            opt_str_view(uevent),
            opt_str_view(device_link),
        ) {
            Some(t) => (match reg_find(pci_devices.entries@, t.0, t.1, t.2) {
                Some(i) => r matches Some(info) && info == pci_devices.entries@[i],
                None => r is None,
            }),
            None => r is None,
        },
{
    if bus_info.unicode_len() == 0 {
        return None;
    }
    let chars = str_chars(bus_info);
    proof {
        reveal_strlit("pci@");
    }
    let prefix = str_chars("pci@");
    let clean = strip_prefix_repeated(&chars, &prefix);
    let triple = match parse_pci_chars(&clean) {
        Some(t) => Some(t),
        None => {
            let via_sysfs = extract_pci_from_sysfs_triple(uevent, device_link);
            via_sysfs
        },
    };
    match triple {
        Some((b, d, f)) => pci_devices.lookup(b, d, f),
        None => None,
    }
}

/// The kernel metadata fallback as a triple, as `sysfs_addr_spec`
/// describes.
fn extract_pci_from_sysfs_triple(uevent: Option<&str>, device_link: Option<&str>) -> (r: Option<
    (u8, u8, u8),
>)
    ensures
        r == sysfs_addr_spec(opt_str_view(uevent), opt_str_view(device_link)),
{
    match uevent {
        Some(content) => {
            let chars = str_chars(content);
            let lines = split_char(&chars, '\n');
            let ghost lv = lines.deep_view();
            proof {
                reveal_strlit("PCI_SLOT_NAME=");
            }
            let key = str_chars("PCI_SLOT_NAME=");
            let mut i: usize = 0;
            let mut found: Option<(u8, u8, u8)> = None;
            let mut hit: bool = false;
            while i < lines.len()
                invariant
                    i <= lines.len(),
                    lv == lines.deep_view(),
                    lv == split_on(content@, '\n'),
                    key@ == "PCI_SLOT_NAME="@,
                    key@.len() > 0,
                    !hit ==> forall|j: int|
                        0 <= j < i ==> !crate::text::has_prefix(#[trigger] lv[j], key@),
                    hit ==> (crate::text::first_with_prefix(lv, key@) matches Some(k)
                        && found == parse_pci_spec(strip_prefix_rec(lv[k], key@))),
                decreases lines.len() - i,
            {
                if !hit {
                    assert(lv[i as int] == lines@[i as int]@);
                    if crate::text::starts_with(lines[i].as_slice(), key.as_slice()) {
                        proof {
                            crate::text::lemma_first_with_prefix_unique(lv, key@, i as int);
                        }
                        let rest = strip_prefix_repeated(&lines[i], &key);
                        found = parse_pci_chars(&rest);
                        hit = true;
                    }
                }
                i = i + 1;
            }
            if hit {
                found
            } else {
                proof {
                    crate::text::lemma_first_with_prefix_none(lv, key@);
                }
                link_addr(device_link)
            }
        },
        None => link_addr(device_link),
    }
}

} // verus!

verus! {

// ---------------------------------------------------------------------------
// Registry construction from hardware enumeration
// ---------------------------------------------------------------------------

/// One device as reported by hardware enumeration, already reduced to
/// plain values; fields an enumerator could not supply are absent.
#[derive(Clone, Copy, Debug)]
pub struct EnumeratedDevice {
    pub vendor_id: u16,
    pub device_id: u16,
    pub class: Option<u8>,
    pub subclass: Option<u8>,
    pub revision: Option<u8>,
    pub subsystem_vendor: Option<u16>,
    pub subsystem_device: Option<u16>,
    /// Bus, device and function, when the enumerator reported a location.
    pub location: Option<(u8, u8, u8)>,
}

/// Mathematical image of a device record, with string fields as
/// character sequences.
#[verifier::ext_equal]
pub ghost struct PciDeviceInfoView {
    pub vendor_id: u16,
    pub device_id: u16,
    pub vendor_name: Option<Seq<char>>,
    pub device_name: Option<Seq<char>>,
    pub subsystem_vendor: Option<u16>,
    pub subsystem_device: Option<u16>,
    pub class: Option<u8>,
    pub subclass: Option<u8>,
    pub revision: Option<u8>,
    pub bus: Option<u8>,
    pub device: Option<u8>,
    pub function: Option<u8>,
    pub driver: Option<Seq<char>>,
    pub numa_node: Option<i32>,
    pub irq: Option<u32>,
}

pub open spec fn opt_string_view(o: Option<String>) -> Option<Seq<char>> {
    match o {
        Some(s) => Some(s@),
        None => None,
    }
}

impl View for PciDeviceInfo {
    type V = PciDeviceInfoView;

    open spec fn view(&self) -> PciDeviceInfoView {
        PciDeviceInfoView {
            vendor_id: self.vendor_id,
            device_id: self.device_id,
            vendor_name: opt_string_view(self.vendor_name),
            device_name: opt_string_view(self.device_name),
            subsystem_vendor: self.subsystem_vendor,
            subsystem_device: self.subsystem_device,
            class: self.class,
            subclass: self.subclass,
            revision: self.revision,
            bus: self.bus,
            device: self.device,
            function: self.function,
            driver: opt_string_view(self.driver),
            numa_node: self.numa_node,
            irq: self.irq,
        }
    }
}

/// Whether an enumerated device belongs in the registry: class and
/// subclass known, the class a network class (`0x02` network or `0x0d`
/// wireless), and a location reported.
pub open spec fn enum_included(d: EnumeratedDevice) -> bool {
    &&& d.class is Some
    &&& d.subclass is Some
    &&& (d.class.unwrap() == 0x02 || d.class.unwrap() == 0x0d)
    &&& d.location is Some
}

/// The registry record an included enumerated device becomes: names
/// resolved from the static tables, driver, NUMA node and IRQ unknown.
pub open spec fn enum_info_view(d: EnumeratedDevice) -> PciDeviceInfoView {
    PciDeviceInfoView {
        vendor_id: d.vendor_id,
        device_id: d.device_id,
        vendor_name: vendor_name_spec(d.vendor_id),
        device_name: device_name_spec(d.vendor_id, d.device_id),
        subsystem_vendor: d.subsystem_vendor,
        subsystem_device: d.subsystem_device,
        class: d.class,
        subclass: d.subclass,
        revision: d.revision,
        bus: Some(d.location.unwrap().0),
        device: Some(d.location.unwrap().1),
        function: Some(d.location.unwrap().2),
        driver: None,
        numa_node: None,
        irq: None,
    }
}

/// The registry contents an enumeration yields, in enumeration order.
pub open spec fn build_registry_spec(devs: Seq<EnumeratedDevice>) -> Seq<PciDeviceInfoView>
    decreases devs.len(),
{
    if devs.len() == 0 {
        Seq::<PciDeviceInfoView>::empty()
    } else if enum_included(devs.last()) {
        build_registry_spec(devs.drop_last()).push(enum_info_view(devs.last()))
    } else {
        build_registry_spec(devs.drop_last())
    }
}

/// Builds the bus-device registry from enumerated hardware, keeping only
/// network-class devices with a known location, as `build_registry_spec`
/// describes.
pub fn get_pci_devices(devs: &Vec<EnumeratedDevice>) -> (r: PciDeviceRegistry)
    ensures
        r.entries@.map_values(|e: PciDeviceInfo| e@) == build_registry_spec(devs@),
{
    let mut reg = PciDeviceRegistry::new();
    assert(reg.entries@.map_values(|e: PciDeviceInfo| e@) =~~= build_registry_spec(
        devs@.subrange(0, 0),
    ));
    let mut i: usize = 0;
    while i < devs.len()
        invariant
            i <= devs.len(),
            reg.entries@.map_values(|e: PciDeviceInfo| e@) == build_registry_spec(
                devs@.subrange(0, i as int),
            ),
        decreases devs.len() - i,
    {
        let ghost pre = devs@.subrange(0, i as int);
        let ghost post = devs@.subrange(0, i as int + 1);
        proof {
            assert(post.drop_last() =~= pre);
            assert(post.last() == devs@[i as int]);
        }
        let d = devs[i];
        let keep = match (d.class, d.subclass, d.location) {
            (Some(c), Some(_sc), Some(_loc)) => c == 0x02 || c == 0x0d,
            _ => false,
        };
        if keep {
            let (b, dv, fu) = match d.location {
                Some(t) => t,
                None => (0, 0, 0),
            };
            let vendor_name = match get_vendor_name(d.vendor_id) {
                Some(s) => Some(s.to_owned()),
                None => None,
            };
            let device_name = match get_common_device_name(d.vendor_id, d.device_id) {
                Some(s) => Some(s.to_owned()),
                None => None,
            };
            let info = PciDeviceInfo {
                vendor_id: d.vendor_id,
                device_id: d.device_id,
                vendor_name,
                device_name,
                subsystem_vendor: d.subsystem_vendor,
                subsystem_device: d.subsystem_device,
                class: d.class,
                subclass: d.subclass,
                revision: d.revision,
                bus: Some(b),
                device: Some(dv),
                function: Some(fu),
                driver: None,
                numa_node: None,
                irq: None,
            };
            proof {
                assert(info@ =~~= enum_info_view(devs@[i as int]));
            }
            reg.add(info);
            proof {
                assert(reg.entries@.map_values(|e: PciDeviceInfo| e@) =~~= build_registry_spec(
                    post,
                ));
            }
        }
        i = i + 1;
    }
    proof {
        assert(devs@.subrange(0, devs@.len() as int) =~= devs@);
    }
    reg
}

} // verus!

verus! {

/// Hex digits and the decimal digits are never a separator, so the
/// rendered fields are separator-free tokens.
proof fn lemma_token_has_no_char(t: Seq<char>, c: char)
    requires
        crate::text::all_hex(t) || crate::text::all_dec(t),
        !crate::text::is_hex_digit(c),
    ensures
        !t.contains(c),
{
    if t.contains(c) {
        let i = choose|i: int| 0 <= i < t.len() && t[i] == c;
    }
}

/// The canonical rendering of any address a PCI device can have (its
/// function is a single digit, `0` to `7`) parses back to exactly that
/// address: the registry key built from hardware enumeration and the key
/// parsed out of a bus string agree on the same triple, so the two
/// producers of the join key cannot drift apart.
pub proof fn lemma_pci_addr_round_trip(b: u8, d: u8, f: u8)
    requires
        f <= 7,
    ensures
        parse_pci_spec(pci_addr_str(b, d, f)) == Some((b, d, f)),
{
    assert(dec_u8_str(f) =~= seq![crate::text::hex_digit_char(f as nat)]);
    assert(crate::text::hex_digit_char(f as nat) as nat == 48 + f as nat);
    assert(parse_func_digit(dec_u8_str(f)) == Some(f));
    let bs = hex2(b);
    let ds = hex2(d);
    let fs = dec_u8_str(f);
    let rest = ds + seq!['.'] + fs;
    crate::text::lemma_hex2_val(b);
    crate::text::lemma_hex2_val(d);
    crate::text::lemma_dec_str_val(f);
    lemma_token_has_no_char(bs, ':');
    lemma_token_has_no_char(ds, ':');
    lemma_token_has_no_char(fs, ':');
    lemma_token_has_no_char(ds, '.');
    lemma_token_has_no_char(fs, '.');
    assert(!rest.contains(':')) by {
        if rest.contains(':') {
            let i = choose|i: int| 0 <= i < rest.len() && rest[i] == ':';
            if i < ds.len() {
                assert(ds[i] == ':');
            } else if i == ds.len() {
            } else {
                assert(fs[i - ds.len() - 1] == ':');
            }
        }
    }
    crate::text::lemma_split_no_sep(bs, ':');
    crate::text::lemma_split_sep_append(bs, rest, ':');
    let whole = pci_addr_str(b, d, f);
    assert(whole =~= bs + seq![':'] + rest);
    let parts = split_on(whole, ':');
    assert(parts == split_on(bs, ':').push(rest));
    assert(parts =~~= seq![bs, rest]);
    assert(parts.len() == 2);
    assert(parts.last() == rest);
    assert(parts[parts.len() - 2] == bs);
    crate::text::lemma_split_no_sep(ds, '.');
    crate::text::lemma_split_sep_append(ds, fs, '.');
    let df = split_on(rest, '.');
    assert(df == split_on(ds, '.').push(fs));
    assert(df =~~= seq![ds, fs]);
    assert(df.len() == 2);
    assert(df[0] == ds);
    assert(df[1] == fs);
}

} // verus!

use ifshow::pci_utils::{
    extract_pci_from_sysfs, find_pci_info_for_interface, format_pci_addr, get_common_device_name,
    get_pci_devices, get_vendor_name, parse_pci_address, EnumeratedDevice, PciDeviceInfo,
    PciDeviceRegistry,
};

fn device_at(bus: u8, dev: u8, func: u8, vendor: u16, device: u16) -> PciDeviceInfo {
    let mut info = PciDeviceInfo::default();
    info.vendor_id = vendor;
    info.device_id = device;
    info.bus = Some(bus);
    info.device = Some(dev);
    info.function = Some(func);
    info
}

#[test]
fn pci_address_defined_iff_location_known() {
    let info = device_at(2, 0, 0, 0x8086, 0x100e);
    assert_eq!(info.pci_address(), Some("02:00.0".to_string()));

    let mut partial = device_at(2, 0, 7, 0, 0);
    assert_eq!(partial.pci_address(), Some("02:00.7".to_string()));
    partial.function = None;
    assert_eq!(partial.pci_address(), None);
    partial.function = Some(0);
    partial.bus = None;
    assert_eq!(partial.pci_address(), None);
}

#[test]
fn pci_address_formats_two_digit_hex_and_decimal_function() {
    assert_eq!(format_pci_addr(0xab, 0x05, 7), "ab:05.7");
    assert_eq!(format_pci_addr(0, 0, 0), "00:00.0");
}

#[test]
fn parse_pci_address_accepts_domain_prefixed_form() {
    assert_eq!(parse_pci_address("0000:03:00.0"), Some("03:00.0".to_string()));
}

#[test]
fn parse_pci_address_rejects_decorated_bus_strings() {
    assert_eq!(parse_pci_address("usb-0000:00:14.0-1"), None);
}

#[test]
fn parse_pci_address_function_is_a_single_digit() {
    // the function token is one decimal digit 0-7; anything wider or larger
    // is no canonical address
    assert_eq!(parse_pci_address("00:00.10"), None);
    assert_eq!(parse_pci_address("0000:03:00.8"), None);
    assert_eq!(parse_pci_address("0000:03:00.7"), Some("03:00.7".to_string()));
}

#[test]
fn registry_lookup_last_entry_at_an_address_wins() {
    let mut reg = PciDeviceRegistry::new();
    reg.add(device_at(2, 0, 0, 0x8086, 0x100e));
    reg.add(device_at(2, 0, 0, 0x10ec, 0x8168));
    let hit = find_pci_info_for_interface("0000:02:00.0", None, None, &reg).unwrap();
    assert_eq!(hit.vendor_id, 0x10ec);
    assert_eq!(hit.device_id, 0x8168);
}

#[test]
fn parse_pci_address_requires_two_segments_and_dot() {
    assert_eq!(parse_pci_address("03.0"), None);
    assert_eq!(parse_pci_address("0000:03:000"), None);
    assert_eq!(parse_pci_address(""), None);
    assert_eq!(parse_pci_address("zz:zz.0"), None);
}

#[test]
fn find_pci_info_end_to_end() {
    let mut reg = PciDeviceRegistry::new();
    reg.add(device_at(2, 0, 0, 0x8086, 0x100e));

    let hit = find_pci_info_for_interface("0000:02:00.0", None, None, &reg)
        .expect("registry lookup should succeed");
    assert_eq!(hit.vendor_id, 0x8086);
    assert_eq!(hit.device_id, 0x100e);
    assert_eq!(hit.bus, Some(2));
    assert_eq!(hit.device, Some(0));
    assert_eq!(hit.function, Some(0));
}

#[test]
fn find_pci_info_empty_bus_string_is_none() {
    let mut reg = PciDeviceRegistry::new();
    reg.add(device_at(2, 0, 0, 0x8086, 0x100e));
    assert!(find_pci_info_for_interface("", None, None, &reg).is_none());
}

#[test]
fn find_pci_info_strips_bus_prefix_token() {
    let mut reg = PciDeviceRegistry::new();
    reg.add(device_at(3, 0, 0, 0x10ec, 0x8168));
    let hit = find_pci_info_for_interface("pci@0000:03:00.0", None, None, &reg);
    assert_eq!(hit.unwrap().device_id, 0x8168);
}

#[test]
fn find_pci_info_uses_sysfs_fallback() {
    let mut reg = PciDeviceRegistry::new();
    reg.add(device_at(5, 0, 0, 0x14e4, 0x165f));
    let uevent = "DRIVER=tg3\nPCI_SLOT_NAME=0000:05:00.0\nPCI_ID=14E4:165F\n";
    let hit = find_pci_info_for_interface("platform-bus", Some(uevent), None, &reg);
    assert_eq!(hit.unwrap().device_id, 0x165f);
}

#[test]
fn sysfs_extraction_prefers_slot_name_line() {
    let uevent = "DRIVER=tg3\nPCI_SLOT_NAME=0000:05:00.0\n";
    assert_eq!(extract_pci_from_sysfs(Some(uevent), None), Some("05:00.0".to_string()));
}

#[test]
fn sysfs_extraction_falls_back_to_symlink_target() {
    let link = "../../../devices/pci0000:00/0000:00:1c.4/0000:07:00.0";
    assert_eq!(extract_pci_from_sysfs(None, Some(link)), Some("07:00.0".to_string()));
    assert_eq!(extract_pci_from_sysfs(None, None), None);
}

#[test]
fn registry_builder_keeps_network_classes_only() {
    let eth = EnumeratedDevice {
        vendor_id: 0x8086,
        device_id: 0x100e,
        class: Some(0x02),
        subclass: Some(0x00),
        revision: Some(0x02),
        subsystem_vendor: None,
        subsystem_device: None,
        location: Some((2, 0, 0)),
    };
    let gpu = EnumeratedDevice { class: Some(0x03), ..eth };
    let no_loc = EnumeratedDevice { location: None, ..eth };
    let wifi = EnumeratedDevice {
        vendor_id: 0x14e4,
        device_id: 0x4331,
        class: Some(0x0d),
        subclass: Some(0x80),
        location: Some((3, 0, 0)),
        ..eth
    };
    let reg = get_pci_devices(&vec![eth, gpu, no_loc, wifi]);
    assert_eq!(reg.entries.len(), 2);
    assert_eq!(reg.entries[0].vendor_name.as_deref(), Some("Intel Corporation"));
    assert_eq!(
        reg.entries[0].device_name.as_deref(),
        Some("82540EM Gigabit Ethernet Controller")
    );
    assert_eq!(reg.entries[1].device_id, 0x4331);
}

#[test]
fn vendor_and_device_tables() {
    assert_eq!(get_vendor_name(0x8086), Some("Intel Corporation"));
    assert_eq!(get_vendor_name(0x10ec), Some("Realtek Semiconductor Co., Ltd."));
    assert_eq!(get_vendor_name(0x1234), None);
    assert_eq!(
        get_common_device_name(0x10ec, 0x8168),
        Some("RTL8111/8168/8411 PCI Express Gigabit Ethernet Controller")
    );
    assert_eq!(get_common_device_name(0x8086, 0xffff), None);
}

#[test]
fn class_formatting() {
    let mut info = PciDeviceInfo::default();
    info.class = Some(0x02);
    info.subclass = Some(0x00);
    assert_eq!(info.format_class(), "Ethernet controller");
    info.subclass = Some(0x80);
    assert_eq!(info.format_class(), "Network controller");
    info.class = Some(0x0d);
    assert_eq!(info.format_class(), "Wireless controller");
    info.class = Some(0x04);
    info.subclass = Some(0x03);
    assert_eq!(info.format_class(), "Class 04:03");
    info.subclass = None;
    assert_eq!(info.format_class(), "Unknown");
}

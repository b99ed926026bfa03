use ifshow::macos::{
    extract_hex_value, extract_string_value, get_driver_info, get_pci_address_from_ioreg,
    get_pci_info_from_ioreg, get_stats, LinkStatsRecord, NetworkInterface, ProfilerCache,
};
use ifshow::proc::Stats;

#[test]
fn hex_extraction_reads_angle_bracket_payload() {
    assert_eq!(extract_hex_value("    \"vendor-id\" = <0x8086>"), Some(0x8086));
    assert_eq!(extract_hex_value("\"device-id\" = <100e>"), Some(0x100e));
    assert_eq!(extract_hex_value("\"device-id\" = < 1533 >"), Some(0x1533));
}

#[test]
fn hex_extraction_rejects_malformed_payloads() {
    assert_eq!(extract_hex_value("\"vendor-id\" = 8086"), None);
    assert_eq!(extract_hex_value("\"vendor-id\" = <>"), None);
    assert_eq!(extract_hex_value("\"vendor-id\" = <zz>"), None);
    assert_eq!(extract_hex_value("no equals sign"), None);
}

#[test]
fn string_extraction_reads_quoted_payload() {
    assert_eq!(
        extract_string_value("  \"IOName\" = \"ethernet\""),
        Some("ethernet".to_string())
    );
    assert_eq!(extract_string_value("\"IOName\" = ethernet"), None);
    assert_eq!(extract_string_value("\"IOName\" = \"unterminated"), None);
}

#[test]
fn ioreg_location_from_pci_device_line() {
    let content = "some header\n  \"IOPCIDevice\" at \"PCI0@0/RP03@1C,2/PXSX@0\"\nrest\n";
    assert_eq!(
        get_pci_address_from_ioreg(content),
        Some("IOPCIDevice".to_string())
    );
}

#[test]
fn ioreg_location_from_location_property() {
    let content = "header\n    \"location\" = \"1c\"\n";
    assert_eq!(get_pci_address_from_ioreg(content), Some("1c".to_string()));
    assert_eq!(get_pci_address_from_ioreg("nothing useful\n"), None);
}

#[test]
fn ioreg_identity_parses_and_splits_class_code() {
    let content = "\
        +-o en0\n\
        |   \"vendor-id\" = <0x8086>\n\
        |   \"device-id\" = <0x100e>\n\
        |   \"subsystem-vendor-id\" = <0x1028>\n\
        |   \"subsystem-id\" = <0x0001>\n\
        |   \"revision-id\" = <0x02>\n\
        |   \"class-code\" = <0x020000>\n\
        |   \"IOName\" = \"ethernet\"\n";
    let info = get_pci_info_from_ioreg(content).expect("identity should be recovered");
    assert_eq!(info.vendor_id, 0x8086);
    assert_eq!(info.device_id, 0x100e);
    assert_eq!(info.subsystem_vendor, Some(0x1028));
    assert_eq!(info.subsystem_device, Some(0x0001));
    assert_eq!(info.revision, Some(0x02));
    assert_eq!(info.class, Some(0x02));
    assert_eq!(info.subclass, Some(0x00));
    assert_eq!(info.driver.as_deref(), Some("ethernet"));
}

#[test]
fn ioreg_identity_keeps_first_match_per_key() {
    let content = "\"vendor-id\" = <0x8086>\n\"vendor-id\" = <0x10ec>\n";
    let info = get_pci_info_from_ioreg(content).unwrap();
    assert_eq!(info.vendor_id, 0x8086);
}

#[test]
fn ioreg_identity_none_without_any_key() {
    assert!(get_pci_info_from_ioreg("plain text\nno keys here\n").is_none());
}

fn inventory_record(iface: &str, hardware: Option<&str>, type_: Option<&str>) -> NetworkInterface {
    NetworkInterface {
        _name: iface.to_string(),
        interface: Some(iface.to_string()),
        hardware: hardware.map(str::to_string),
        type_: type_.map(str::to_string),
    }
}

#[test]
fn driver_info_prefers_hardware_label() {
    let mut cache = ProfilerCache::new();
    assert!(!cache.is_initialized());
    cache.fill(Some(vec![
        inventory_record("en0", Some("Ethernet"), Some("Ethernet")),
        inventory_record("en1", None, Some("AirPort")),
    ]));
    assert!(cache.is_initialized());

    let (driver, version, bus) =
        get_driver_info(&cache, "en0", Some("PCI0@0".to_string())).unwrap();
    assert_eq!(driver, "Ethernet");
    assert_eq!(version, "N/A");
    assert_eq!(bus, "PCI0@0");

    let (driver1, _, bus1) = get_driver_info(&cache, "en1", None).unwrap();
    assert_eq!(driver1, "AirPort");
    assert_eq!(bus1, "N/A");

    assert!(get_driver_info(&cache, "en9", None).is_none());
}

#[test]
fn driver_info_none_when_source_failed() {
    let mut cache = ProfilerCache::new();
    cache.fill(None);
    assert!(get_driver_info(&cache, "en0", None).is_none());
}

#[test]
fn driver_info_repeats_identically_after_single_fill() {
    let mut cache = ProfilerCache::new();
    cache.fill(Some(vec![inventory_record("en0", Some("Ethernet"), None)]));
    let a = get_driver_info(&cache, "en0", None);
    let b = get_driver_info(&cache, "en0", None);
    assert_eq!(a, b);
}

#[test]
fn link_stats_walk_takes_first_link_record() {
    let records = vec![
        LinkStatsRecord { name: "en0".to_string(), link_stats: None },
        LinkStatsRecord {
            name: "en0".to_string(),
            link_stats: Some(Stats { rx_bytes: 7, rx_packets: 1, tx_bytes: 9, tx_packets: 2 }),
        },
        LinkStatsRecord {
            name: "en0".to_string(),
            link_stats: Some(Stats { rx_bytes: 100, rx_packets: 1, tx_bytes: 1, tx_packets: 1 }),
        },
    ];
    let s = get_stats(&records, "en0").unwrap();
    assert_eq!(s.rx_bytes, 7);
    assert_eq!(s.tx_bytes, 9);
    assert!(get_stats(&records, "en1").is_none());
}

use ifshow::ifr::{
    decode_c_string, flag_bits, flags_str, format_hw_addr, is_running, is_up, link_detected,
    parse_flags_str, EthtoolDrvInfo, EthtoolValue, IfError, IfReq, IfrData,
};
use ifshow::normalize_metric;

#[test]
fn flags_str_renders_canonical_order() {
    // UP | LOOPBACK | RUNNING, given in no particular order of bits
    let f: Result<i16, IfError> = Ok(0x1 | 0x40 | 0x8);
    assert_eq!(flags_str(&f), "UP LOOPBACK RUNNING");
}

#[test]
fn flags_str_all_bits() {
    let f: Result<i16, IfError> = Ok(-1); // every bit set, sign bit included
    assert_eq!(
        flags_str(&f),
        "UP BROADCAST DEBUG LOOPBACK PTP NOTRAILERS RUNNING NOARP PROMISC \
         ALLMULTI MASTER SLAVE MULTICAST PORTSEL AUTOMEDIA DYNAMIC"
    );
}

#[test]
fn flags_str_empty_on_error() {
    let f: Result<i16, IfError> = Err(IfError::NotFound);
    assert_eq!(flags_str(&f), "");
}

#[test]
fn flags_round_trip_reconstructs_bits() {
    for &bits in &[0u16, 0x1, 0x41, 0x8000, 0xffff, 0x1249, 0x8421] {
        let signed = bits as i16;
        let rendered = flags_str(&Ok(signed));
        assert_eq!(parse_flags_str(&rendered), bits);
    }
}

#[test]
fn widening_handles_sign_bit() {
    assert_eq!(flag_bits(-1), 0xffff);
    assert_eq!(flag_bits(0x41), 0x41);
}

#[test]
fn up_and_running_projections() {
    assert!(is_up(&Ok(0x1)));
    assert!(!is_up(&Ok(0x40)));
    assert!(is_running(&Ok(0x41)));
    assert!(!is_running(&Ok(0x1)));
    assert!(!is_up(&Err(IfError::NotFound)));
    assert!(!is_running(&Err(IfError::OsError(13))));
}

#[test]
fn request_block_encodes_and_terminates_name() {
    let req = IfReq::new("eth0");
    assert_eq!(&req.ifr_name[0..4], b"eth0");
    for i in 4..16 {
        assert_eq!(req.ifr_name[i], 0);
    }
    assert!(matches!(req.ifr_ifru, IfrData::Empty));
}

#[test]
fn request_block_truncates_long_name() {
    let req = IfReq::new("a_very_long_interface_name");
    assert_eq!(&req.ifr_name[0..15], b"a_very_long_int");
    assert_eq!(req.ifr_name[15], 0);
}

#[test]
fn c_string_decoding_stops_at_nul() {
    let mut buf = [0u8; 32];
    buf[..5].copy_from_slice(b"e1000");
    assert_eq!(decode_c_string(&buf), "e1000");
    assert_eq!(decode_c_string(&[0u8; 32]), "");
}

#[test]
fn drvinfo_decodes_all_fields() {
    let mut info = EthtoolDrvInfo {
        cmd: 0,
        driver: [0; 32],
        version: [0; 32],
        fw_version: [0; 32],
        bus_info: [0; 32],
    };
    info.driver[..5].copy_from_slice(b"e1000");
    info.version[..3].copy_from_slice(b"7.3");
    info.bus_info[..12].copy_from_slice(b"0000:02:00.0");
    let d = info.decode();
    assert_eq!(d.driver, "e1000");
    assert_eq!(d.version, "7.3");
    assert_eq!(d.fw_version, "");
    assert_eq!(d.bus_info, "0000:02:00.0");
}

#[test]
fn link_value_decodes() {
    assert!(link_detected(&EthtoolValue { cmd: 0xa, data: 1 }));
    assert!(!link_detected(&EthtoolValue { cmd: 0xa, data: 0 }));
}

#[test]
fn hardware_address_formats_lowercase_hex() {
    assert_eq!(format_hw_addr(&[0xaa, 0xbb, 0x0c, 0x00, 0x1f, 0xfe]), "aa:bb:0c:00:1f:fe");
    assert_eq!(format_hw_addr(&[]), "");
}

#[test]
fn metric_zero_normalizes_to_one() {
    assert_eq!(normalize_metric(0), 1);
    assert_eq!(normalize_metric(7), 7);
    assert_eq!(normalize_metric(-3), -3);
}

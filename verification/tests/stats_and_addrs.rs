use ifshow::ifr::{flags, inet_addrs, mac, AddrData, IfAddrEntry, IfError};
use ifshow::proc::{get_inet6_addr, get_stats, ipv6_scope, Stats};

fn sample_table() -> &'static str {
    "Inter-|   Receive                                                |  Transmit\n\
     face |bytes    packets errs drop fifo frame compressed multicast|bytes    packets errs drop fifo colls carrier compressed\n\
     eth0: 1000 10 0 0 0 0 0 0 2000 20 0 0 0 0 0 0\n\
     lo: 5 1 0 0 0 0 0 0 5 1 0 0 0 0 0 0\n"
}

#[test]
fn stats_parses_expected_row() {
    let s = get_stats(sample_table(), "eth0");
    assert_eq!(
        s,
        Stats { rx_bytes: 1000, rx_packets: 10, tx_bytes: 2000, tx_packets: 20 }
    );
}

#[test]
fn stats_skips_two_header_lines() {
    // a row in the header area must not match
    let content = "eth0: 9 9 0 0 0 0 0 0 9 9 0\nface |\neth0: 1 2 0 0 0 0 0 0 0 3 4 0\n";
    let s = get_stats(content, "eth0");
    assert_eq!(s.rx_bytes, 1);
    assert_eq!(s.rx_packets, 2);
}

#[test]
fn stats_missing_interface_is_zero() {
    assert_eq!(get_stats(sample_table(), "wlan0"), Stats::default());
    assert_eq!(get_stats("", "eth0"), Stats::default());
}

#[test]
fn stats_short_row_is_zero() {
    let content = "h\nh\neth0: 1000 10\n";
    assert_eq!(get_stats(content, "eth0"), Stats::default());
}

#[test]
fn ipv6_scope_classification() {
    let mut loopback = [0u8; 16];
    loopback[15] = 1;
    assert_eq!(ipv6_scope(&loopback), "host");

    let mut link_local = [0u8; 16];
    link_local[0] = 0xfe;
    link_local[1] = 0x80;
    link_local[15] = 1;
    assert_eq!(ipv6_scope(&link_local), "link");

    let mut site_local = [0u8; 16];
    site_local[0] = 0xfe;
    site_local[1] = 0xc0;
    assert_eq!(ipv6_scope(&site_local), "site");

    let mut multicast = [0u8; 16];
    multicast[0] = 0xff;
    multicast[1] = 0x02;
    multicast[15] = 1;
    assert_eq!(ipv6_scope(&multicast), "multicast");

    let mut global = [0u8; 16];
    global[0] = 0x20;
    global[1] = 0x01;
    global[2] = 0x0d;
    global[3] = 0xb8;
    global[15] = 1;
    assert_eq!(ipv6_scope(&global), "global");
}

fn v4_entry(name: &str, flags: i16, addr: u32, mask: Option<u32>) -> IfAddrEntry {
    IfAddrEntry {
        name: name.to_string(),
        flags,
        addr: Some(AddrData::V4(addr)),
        netmask: mask.map(AddrData::V4),
    }
}

#[test]
fn flags_lookup_finds_first_matching_entry() {
    let entries = vec![
        v4_entry("lo", 0x49, 0x7f000001, Some(0xff000000)),
        v4_entry("eth0", 0x41, 0xc0a80001, Some(0xffffff00)),
    ];
    assert_eq!(flags(&entries, "eth0"), Ok(0x41));
    assert_eq!(flags(&entries, "lo"), Ok(0x49));
    assert_eq!(flags(&entries, "wlan0"), Err(IfError::NotFound));
    assert_eq!(flags(&vec![], "eth0"), Err(IfError::NotFound));
}

#[test]
fn inet_addrs_pairs_address_mask_and_prefix() {
    let entries = vec![
        v4_entry("eth0", 0x41, 0xc0a80001, Some(0xffffff00)),
        v4_entry("eth0", 0x41, 0x0a000001, None),
        v4_entry("eth1", 0x41, 0xac100001, Some(0xffff0000)),
    ];
    let rows = inet_addrs(&entries, "eth0");
    assert_eq!(rows.len(), 2);
    assert_eq!(rows[0], ("192.168.0.1".to_string(), "255.255.255.0".to_string(), 24));
    assert_eq!(rows[1], ("10.0.0.1".to_string(), "".to_string(), 0));
}

#[test]
fn inet6_records_carry_prefix_and_scope() {
    let mut a = [0u8; 16];
    a[0] = 0xfe;
    a[1] = 0x80;
    a[15] = 1;
    let mut m = [0u8; 16];
    m[0] = 0xff;
    m[1] = 0xff;
    m[2] = 0xff;
    m[3] = 0xff;
    m[4] = 0xff;
    m[5] = 0xff;
    m[6] = 0xff;
    m[7] = 0xff;
    let entries = vec![IfAddrEntry {
        name: "eth0".to_string(),
        flags: 0x41,
        addr: Some(AddrData::V6(a)),
        netmask: Some(AddrData::V6(m)),
    }];
    let rows = get_inet6_addr(&entries, "eth0");
    assert_eq!(rows.len(), 1);
    assert_eq!(rows[0].addr, a);
    assert_eq!(rows[0].prefix, 64);
    assert_eq!(rows[0].scope, "link");
    assert!(get_inet6_addr(&entries, "eth1").is_empty());
}

#[test]
fn mac_falls_back_to_link_layer_rows() {
    let entries = vec![
        v4_entry("eth0", 0x41, 0xc0a80001, None),
        IfAddrEntry {
            name: "eth0".to_string(),
            flags: 0x41,
            addr: Some(AddrData::Link(vec![0xde, 0xad, 0xbe, 0xef, 0x00, 0x01])),
            netmask: None,
        },
    ];
    assert_eq!(mac(&entries, "eth0"), "de:ad:be:ef:00:01");
    assert_eq!(mac(&entries, "eth1"), "");
}

#[test]
fn queries_repeat_identically() {
    let s1 = get_stats(sample_table(), "eth0");
    let s2 = get_stats(sample_table(), "eth0");
    assert_eq!(s1, s2);
    let entries = vec![v4_entry("eth0", 0x41, 0xc0a80001, Some(0xffffff00))];
    assert_eq!(inet_addrs(&entries, "eth0"), inet_addrs(&entries, "eth0"));
    assert_eq!(flags(&entries, "eth0"), flags(&entries, "eth0"));
}

use kancut::errors::{
    config_error, from_string, interface_error, network_error, new_error, permission_error,
    spoofing_error, system_error, to_string_error, ErrorCode,
};
use kancut::interfaces::{
    find_interface_mac, group_interfaces, CustomNetworkInterface, RawIfAddr, RawIfInfo, RawIp,
};
use kancut::ip::{format_ipv4, format_u8, parse_ipv4, Ipv4};
use kancut::probe::{batch_targets, common_ports, port_probe_plan, probe_targets};
use kancut::scan::{
    build_device_list, format_mac_bytes, get_vendor_from_mac, merge_scan_phases,
    neighbor_record_from_raw, parse_hostname_output, parse_neighbor_output, resolve_scan_target,
    sort_devices, MergedEntry, NeighborKind, NeighborRecord, NetworkDevice,
};
use kancut::text::{clean_hostname, contains_substr, split_tokens, str_lex_le};

fn ip(a: u8, b: u8, c: u8, d: u8) -> Ipv4 {
    Ipv4 { a, b, c, d }
}

#[test]
fn parse_ipv4_accepts_canonical_quads() {
    assert_eq!(parse_ipv4("192.168.1.10"), Some(ip(192, 168, 1, 10)));
    assert_eq!(parse_ipv4("0.0.0.0"), Some(ip(0, 0, 0, 0)));
    assert_eq!(parse_ipv4("255.255.255.255"), Some(ip(255, 255, 255, 255)));
}

#[test]
fn parse_ipv4_rejects_malformed_input() {
    assert_eq!(parse_ipv4("1.2.3.999"), None);
    assert_eq!(parse_ipv4("1.2.3"), None);
    assert_eq!(parse_ipv4("1.2.3.4.5"), None);
    assert_eq!(parse_ipv4("01.2.3.4"), None);
    assert_eq!(parse_ipv4("a.b.c.d"), None);
    assert_eq!(parse_ipv4(""), None);
    assert_eq!(parse_ipv4("1.2.3."), None);
}

#[test]
fn format_ipv4_round_trips() {
    let x = ip(10, 0, 200, 7);
    let s = format_ipv4(&x);
    assert_eq!(s, "10.0.200.7");
    assert_eq!(parse_ipv4(&s), Some(x));
    assert_eq!(format_u8(0), "0");
    assert_eq!(format_u8(42), "42");
    assert_eq!(format_u8(255), "255");
}

#[test]
fn subnet24_is_fixed_prefix() {
    let x = ip(192, 168, 1, 10);
    assert_eq!(x.subnet24(), ip(192, 168, 1, 0));
    assert!(ip(192, 168, 1, 5).in_subnet24(&ip(192, 168, 1, 0)));
    assert!(!ip(192, 168, 2, 5).in_subnet24(&ip(192, 168, 1, 0)));
}

#[test]
fn mac_bytes_format_lowercase_colon_separated() {
    let bytes = vec![0xaau8, 0xbb, 0xcc, 0xdd, 0xee, 0xff];
    assert_eq!(format_mac_bytes(&bytes), "aa:bb:cc:dd:ee:ff");
    let short = vec![0xaau8, 0xbb];
    assert_eq!(format_mac_bytes(&short), "00:00:00:00:00:00");
}

#[test]
fn invalid_neighbor_rows_are_dropped() {
    let bytes = vec![1u8, 2, 3, 4, 5, 6];
    assert!(neighbor_record_from_raw(ip(10, 0, 0, 1), &bytes, NeighborKind::Invalid).is_none());
    let rec = neighbor_record_from_raw(ip(10, 0, 0, 1), &bytes, NeighborKind::Dynamic).unwrap();
    assert_eq!(rec.mac, "01:02:03:04:05:06");
}

#[test]
fn vendor_lookup_is_a_placeholder() {
    assert!(get_vendor_from_mac("aa:bb:cc:dd:ee:ff").is_none());
}

#[test]
fn merge_keeps_last_phase_per_address() {
    let base = ip(192, 168, 1, 0);
    let local = ip(192, 168, 1, 10);
    let before = vec![
        NeighborRecord { ip: ip(192, 168, 1, 5), mac: "aa:bb:cc:dd:ee:ff".to_string() },
        NeighborRecord { ip: ip(192, 168, 1, 7), mac: "11:11:11:11:11:11".to_string() },
    ];
    let after = vec![NeighborRecord {
        ip: ip(192, 168, 1, 5),
        mac: "aa:bb:cc:dd:ee:ff".to_string(),
    }];
    let neighbors = vec![];
    let merged = merge_scan_phases(&before, &after, &neighbors, &base, &local);
    assert_eq!(merged.len(), 2);
    let five: Vec<&MergedEntry> = merged.iter().filter(|e| e.ip == ip(192, 168, 1, 5)).collect();
    assert_eq!(five.len(), 1);
    assert_eq!(five[0].method, "ARP Scan");
    let seven: Vec<&MergedEntry> = merged.iter().filter(|e| e.ip == ip(192, 168, 1, 7)).collect();
    assert_eq!(seven.len(), 1);
    assert_eq!(seven[0].method, "ARP Table");
}

#[test]
fn merge_excludes_other_subnets_and_local_host() {
    let base = ip(192, 168, 1, 0);
    let local = ip(192, 168, 1, 10);
    let before = vec![
        NeighborRecord { ip: ip(10, 0, 0, 5), mac: "aa:aa:aa:aa:aa:aa".to_string() },
        NeighborRecord { ip: local, mac: "bb:bb:bb:bb:bb:bb".to_string() },
    ];
    let merged = merge_scan_phases(&before, &vec![], &vec![], &base, &local);
    assert_eq!(merged.len(), 0);
}

#[test]
fn device_list_is_sorted_deduplicated_and_tagged() {
    let base = ip(192, 168, 1, 0);
    let local = ip(192, 168, 1, 10);
    let before = vec![NeighborRecord {
        ip: ip(192, 168, 1, 5),
        mac: "aa:bb:cc:dd:ee:ff".to_string(),
    }];
    let after = vec![
        NeighborRecord { ip: ip(192, 168, 1, 5), mac: "aa:bb:cc:dd:ee:ff".to_string() },
        NeighborRecord { ip: ip(192, 168, 1, 2), mac: "22:22:22:22:22:22".to_string() },
    ];
    let merged = merge_scan_phases(&before, &after, &vec![], &base, &local);
    let hostnames: Vec<Option<String>> = merged.iter().map(|_| None).collect();
    let devices = build_device_list(&merged, &hostnames, &base, &local, "0a:0b:0c:0d:0e:0f");
    assert_eq!(devices.len(), 3);
    assert_eq!(devices[0].ip, "192.168.1.2");
    assert_eq!(devices[1].ip, "192.168.1.5");
    assert_eq!(devices[2].ip, "192.168.1.10");
    // the address seen in both phases appears once, under the later tag
    assert_eq!(devices[1].vendor, "ARP Scan");
    assert_eq!(devices[1].hostname, "Unknown");
    assert_eq!(devices[2].hostname, "Local Machine");
    assert_eq!(devices[2].vendor, "Local");
    assert_eq!(devices[2].mac, "0a:0b:0c:0d:0e:0f");
}

#[test]
fn sort_falls_back_to_string_order_for_malformed_addresses() {
    let mk = |s: &str| NetworkDevice {
        ip: s.to_string(),
        mac: String::new(),
        hostname: String::new(),
        vendor: String::new(),
    };
    let sorted = sort_devices(vec![mk("zebra"), mk("apple")]);
    assert_eq!(sorted[0].ip, "apple");
    assert_eq!(sorted[1].ip, "zebra");
    let sorted2 = sort_devices(vec![mk("10.0.0.2"), mk("9.0.0.1")]);
    assert_eq!(sorted2[0].ip, "9.0.0.1");
    assert_eq!(sorted2[1].ip, "10.0.0.2");
}

#[test]
fn grouping_excludes_unqualified_and_fails_when_none_qualify() {
    let raw = vec![
        RawIfAddr { name: "lo".to_string(), addr: RawIp::V4(ip(127, 0, 0, 1)) },
        RawIfAddr { name: "eth1".to_string(), addr: RawIp::V4(ip(169, 254, 3, 4)) },
        RawIfAddr { name: "eth2".to_string(), addr: RawIp::V6 },
    ];
    let infos = vec![];
    let r = group_interfaces(&raw, &infos);
    assert_eq!(r.unwrap_err(), "No suitable network interfaces found");
}

#[test]
fn grouping_collects_addresses_by_interface_name() {
    let raw = vec![
        RawIfAddr { name: "eth0".to_string(), addr: RawIp::V4(ip(10, 0, 0, 1)) },
        RawIfAddr { name: "lo".to_string(), addr: RawIp::V4(ip(127, 0, 0, 1)) },
        RawIfAddr { name: "eth0".to_string(), addr: RawIp::V4(ip(10, 0, 0, 2)) },
        RawIfAddr { name: "wlan0".to_string(), addr: RawIp::V4(ip(192, 168, 1, 3)) },
    ];
    let infos = vec![
        RawIfInfo { name: "wlan0".to_string(), mac: None },
        RawIfInfo { name: "eth0".to_string(), mac: Some("aa:bb:cc:dd:ee:ff".to_string()) },
    ];
    let ifs = group_interfaces(&raw, &infos).unwrap();
    assert_eq!(ifs.len(), 2);
    assert_eq!(ifs[0].name, "eth0");
    assert_eq!(ifs[0].ips, vec!["10.0.0.1".to_string(), "10.0.0.2".to_string()]);
    assert_eq!(ifs[0].mac, "aa:bb:cc:dd:ee:ff");
    assert_eq!(ifs[0].description, "eth0 - 10.0.0.1, 10.0.0.2");
    assert_eq!(ifs[1].name, "wlan0");
    assert_eq!(ifs[1].mac, "00:00:00:00:00:00");
    assert_eq!(ifs[1].description, "wlan0 - 192.168.1.3");
}

#[test]
fn scan_target_comes_from_first_address() {
    let ifs = group_interfaces(
        &vec![RawIfAddr { name: "eth0".to_string(), addr: RawIp::V4(ip(192, 168, 1, 10)) }],
        &vec![RawIfInfo { name: "eth0".to_string(), mac: Some("aa:bb:cc:dd:ee:ff".to_string()) }],
    )
    .unwrap();
    let t = resolve_scan_target(&ifs, "eth0").unwrap();
    assert_eq!(t.local_ip, ip(192, 168, 1, 10));
    assert_eq!(t.base, ip(192, 168, 1, 0));
    assert_eq!(t.mac, "aa:bb:cc:dd:ee:ff");
    let missing = resolve_scan_target(&ifs, "eth9");
    assert_eq!(missing.unwrap_err(), "Interface 'eth9' not found");
}

#[test]
fn interface_mac_lookup_is_exact_over_a_list() {
    let ifs = group_interfaces(
        &vec![RawIfAddr { name: "eth0".to_string(), addr: RawIp::V4(ip(192, 168, 1, 10)) }],
        &vec![RawIfInfo { name: "eth0".to_string(), mac: Some("aa:bb:cc:dd:ee:ff".to_string()) }],
    )
    .unwrap();
    assert_eq!(find_interface_mac(&ifs, "eth0").unwrap(), "aa:bb:cc:dd:ee:ff");
    assert_eq!(find_interface_mac(&ifs, "wlan0").unwrap_err(), "Interface 'wlan0' not found");
}

#[test]
fn scan_target_reports_missing_and_malformed_addresses() {
    let empty = CustomNetworkInterface {
        name: "eth0".to_string(),
        description: "eth0 - ".to_string(),
        mac: "00:00:00:00:00:00".to_string(),
        ips: vec![],
    };
    let r = resolve_scan_target(&vec![empty], "eth0");
    assert_eq!(r.unwrap_err(), "No IPv4 address found on interface");
    let malformed = CustomNetworkInterface {
        name: "eth0".to_string(),
        description: "eth0 - bad".to_string(),
        mac: "00:00:00:00:00:00".to_string(),
        ips: vec!["not-an-ip".to_string()],
    };
    let r2 = resolve_scan_target(&vec![malformed], "eth0");
    assert_eq!(r2.unwrap_err(), "Invalid IP address");
}

#[test]
fn probe_plan_covers_the_subnet_in_bounded_batches() {
    let targets = probe_targets(&ip(192, 168, 1, 0));
    assert_eq!(targets.len(), 254);
    assert_eq!(targets[0], "192.168.1.1");
    assert_eq!(targets[253], "192.168.1.254");
    let batches = batch_targets(targets.clone(), 30);
    let mut flat: Vec<String> = Vec::new();
    for b in &batches {
        assert!(b.len() <= 30);
        flat.extend(b.iter().cloned());
    }
    assert_eq!(flat, targets);
    let plan = port_probe_plan(&targets);
    assert_eq!(plan.len(), 254 * 12);
    assert_eq!(plan[0], ("192.168.1.1".to_string(), 80));
    assert_eq!(plan[11], ("192.168.1.1".to_string(), 587));
    assert_eq!(plan[12], ("192.168.1.2".to_string(), 80));
    assert_eq!(common_ports().len(), 12);
}

#[test]
fn neighbor_listing_parses_reachable_and_stale_lines() {
    let output = "Internet Address      Physical Address      Type\n\
                  192.168.1.5           aa-bb-cc-dd-ee-ff     Reachable\n\
                  192.168.1.7           11-22-33-44-55-66     Stale\n\
                  192.168.1.9           77-88-99-aa-bb-cc     Unreachable\n\
                  not-an-ip             00-00-00-00-00-01     Stale\n";
    let records = parse_neighbor_output(output);
    assert_eq!(records.len(), 2);
    assert_eq!(records[0].ip, ip(192, 168, 1, 5));
    assert_eq!(records[0].mac, "aa-bb-cc-dd-ee-ff");
    assert_eq!(records[1].ip, ip(192, 168, 1, 7));
}

#[test]
fn hostname_listing_takes_first_answer_and_strips_dots() {
    let output = "Server:  router.local\nAddress:  192.168.1.1\n\n\
                  5.1.168.192.in-addr.arpa  name = host.example.com.\n";
    assert_eq!(parse_hostname_output(output), Some("host.example.com".to_string()));
    assert_eq!(parse_hostname_output("no answers here\n"), None);
}

#[test]
fn text_helpers_behave_like_their_contracts() {
    assert!(contains_substr("state: Reachable now", "Reachable"));
    assert!(!contains_substr("stale", "Stale"));
    assert_eq!(split_tokens("  a\tbb  ccc "), vec!["a", "bb", "ccc"]);
    assert!(str_lex_le("apple", "apples"));
    assert!(!str_lex_le("zebra", "apple"));
    assert_eq!(clean_hostname("  host.example.com.. \t"), "host.example.com");
}

#[test]
fn error_constructors_keep_code_and_message() {
    let e = new_error(ErrorCode::NetworkError, "boom", Some("detail"));
    assert_eq!(e.message, "boom");
    assert_eq!(to_string_error(e), "boom: detail");
    let e2 = network_error("a", None);
    assert_eq!(e2.code.code_str(), "NETWORK_ERROR");
    assert_eq!(e2.display_string(), "[NETWORK_ERROR] a");
    assert_eq!(interface_error("b", None).code.code_str(), "INTERFACE_ERROR");
    assert_eq!(spoofing_error("c", None).code.code_str(), "SPOOFING_ERROR");
    assert_eq!(system_error("d", None).code.code_str(), "SYSTEM_ERROR");
    assert_eq!(permission_error("e", None).code.code_str(), "PERMISSION_ERROR");
    assert_eq!(config_error("f", None).code.code_str(), "CONFIG_ERROR");
    let u = from_string("odd".to_string());
    assert_eq!(u.code.code_str(), "UNKNOWN_ERROR");
    assert_eq!(to_string_error(u), "odd");
}

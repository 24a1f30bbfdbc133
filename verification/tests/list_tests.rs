use meshnet::list::{
    clean_name, collect_found, endpoint_url, found_summary, mdns_step, merge_discovered,
    socket_address, subnet_hosts, subnet_prefix, FoundDevice, IpAddress, MdnsEvent,
    MDNS_BROWSE_SECS,
};

fn dev(name: &str, ip: &str, port: u16, os: &str) -> FoundDevice {
    FoundDevice { name: name.to_string(), ip: ip.to_string(), port, os: os.to_string() }
}

#[test]
fn clean_name_keeps_part_before_first_dot() {
    assert_eq!(clean_name("laptop-ab12._meshnet._tcp.local."), "laptop-ab12");
    assert_eq!(clean_name("plain"), "plain");
    assert_eq!(clean_name(""), "");
    assert_eq!(clean_name(".hidden"), "");
}

#[test]
fn clean_name_is_idempotent() {
    let once = clean_name("pixel-7a.local.");
    assert_eq!(clean_name(&once), once);
    assert!(!once.contains('.'));
}

#[test]
fn label_without_os() {
    let d = dev("pixel-7a._meshnet._tcp.local.", "192.168.1.4", 7878, "");
    assert_eq!(d.label(), "pixel-7a  (192.168.1.4:7878)");
}

#[test]
fn label_with_os() {
    let d = dev("macbook", "10.0.0.2", 9000, "macos");
    assert_eq!(d.label(), "macbook  [macos]  10.0.0.2:9000");
}

#[test]
fn list_line_marks_unknown_os() {
    let d = dev("pixel.local.", "192.168.1.4", 7878, "");
    assert_eq!(d.list_line(), "    ●  pixel  [?]  192.168.1.4:7878");
    let e = dev("box", "192.168.1.5", 7878, "linux");
    assert_eq!(e.list_line(), "    ●  box  [linux]  192.168.1.5:7878");
}

#[test]
fn addresses_and_urls() {
    let ip = "192.168.1.4".to_string();
    assert_eq!(socket_address(&ip, 7878), "192.168.1.4:7878");
    assert_eq!(socket_address(&ip, 0), "192.168.1.4:0");
    assert_eq!(socket_address(&ip, 65535), "192.168.1.4:65535");
    assert_eq!(endpoint_url(&ip, 7878, "/ping"), "http://192.168.1.4:7878/ping");
    assert_eq!(endpoint_url(&ip, 80, "/upload"), "http://192.168.1.4:80/upload");
}

#[test]
fn merge_keeps_mdns_and_adds_new_subnet_devices() {
    let mdns = vec![dev("a.local.", "192.168.1.2", 7878, ""), dev("b.local.", "192.168.1.3", 7878, "")];
    let subnet = vec![
        dev("b-ping", "192.168.1.3", 7878, "linux"),
        dev("c", "192.168.1.9", 7878, "android"),
        dev("c-again", "192.168.1.9", 7878, "android"),
    ];
    let merged = merge_discovered(mdns, &subnet);
    let ips: Vec<&str> = merged.iter().map(|d| d.ip.as_str()).collect();
    assert_eq!(ips, vec!["192.168.1.2", "192.168.1.3", "192.168.1.9"]);
    assert_eq!(merged[1].name, "b.local.");
    assert_eq!(merged[2].name, "c");
}

#[test]
fn merge_of_empty_lists() {
    assert!(merge_discovered(vec![], &vec![]).is_empty());
    let only_subnet = merge_discovered(vec![], &vec![dev("x", "10.0.0.1", 7878, "")]);
    assert_eq!(only_subnet.len(), 1);
}

#[test]
fn collect_found_skips_silent_hosts() {
    let results = vec![None, Some(dev("x", "10.0.0.1", 7878, "linux")), None, Some(dev("y", "10.0.0.4", 7878, "macos"))];
    let found = collect_found(results);
    assert_eq!(found.len(), 2);
    assert_eq!(found[0].ip, "10.0.0.1");
    assert_eq!(found[1].ip, "10.0.0.4");
}

#[test]
fn subnet_prefix_of_v4_and_v6() {
    assert_eq!(subnet_prefix(&IpAddress::V4(192, 168, 1, 7)), Some("192.168.1".to_string()));
    assert_eq!(subnet_prefix(&IpAddress::V4(10, 0, 255, 1)), Some("10.0.255".to_string()));
    assert_eq!(subnet_prefix(&IpAddress::V6), None);
}

#[test]
fn subnet_hosts_cover_one_to_254() {
    let hosts = subnet_hosts("10.0.0");
    assert_eq!(hosts.len(), 254);
    assert_eq!(hosts[0], "10.0.0.1");
    assert_eq!(hosts[9], "10.0.0.10");
    assert_eq!(hosts[253], "10.0.0.254");
}

#[test]
fn found_summary_counts() {
    assert_eq!(found_summary(3), "  Found 3 device(s):\n");
    assert_eq!(found_summary(0), "  Found 0 device(s):\n");
}

#[test]
fn mdns_events_become_devices() {
    assert_eq!(MDNS_BROWSE_SECS, 2);
    let mut found = Vec::new();
    assert!(mdns_step(&mut found, MdnsEvent::Other));
    assert!(mdns_step(
        &mut found,
        MdnsEvent::Resolved {
            fullname: "box-1a2b._meshnet._tcp.local.".to_string(),
            first_address: Some("192.168.1.7".to_string()),
            port: 7878,
        }
    ));
    assert!(mdns_step(
        &mut found,
        MdnsEvent::Resolved { fullname: "noaddr._meshnet._tcp.local.".to_string(), first_address: None, port: 1 }
    ));
    assert_eq!(found.len(), 1);
    assert_eq!(found[0].name, "box-1a2b._meshnet._tcp.local.");
    assert_eq!(found[0].ip, "192.168.1.7");
    assert_eq!(found[0].port, 7878);
    assert_eq!(found[0].os, "");
    assert!(!mdns_step(&mut found, MdnsEvent::Closed));
    assert!(!mdns_step(&mut found, MdnsEvent::Deadline));
    assert_eq!(found.len(), 1);
}

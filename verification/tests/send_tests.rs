use meshnet::list::{socket_address, FoundDevice};
use meshnet::send::{
    check_paths_present, check_pattern_matches, check_plain_path, choose_target, discovery_note,
    file_prompt_answer, find_device_by_name, has_wildcards, is_manual_entry, manual_entry,
    parse_ip_device, send_summary, transfer_outcome, SendError, TargetPlan,
};

fn dev(name: &str, ip: &str) -> FoundDevice {
    FoundDevice { name: name.to_string(), ip: ip.to_string(), port: 7878, os: String::new() }
}

#[test]
fn parse_ip_with_port() {
    let d = parse_ip_device("192.168.1.4:9000").unwrap();
    assert_eq!(d.ip, "192.168.1.4");
    assert_eq!(d.name, "192.168.1.4");
    assert_eq!(d.port, 9000);
    assert_eq!(d.os, "");
}

#[test]
fn parse_ip_without_port_uses_default() {
    let d = parse_ip_device("  10.0.0.2 \n").unwrap();
    assert_eq!(d.ip, "10.0.0.2");
    assert_eq!(d.port, 7878);
}

#[test]
fn parse_ip_bad_port_uses_default() {
    assert_eq!(parse_ip_device("10.0.0.2:abc").unwrap().port, 7878);
    assert_eq!(parse_ip_device("10.0.0.2:70000").unwrap().port, 7878);
    assert_eq!(parse_ip_device("10.0.0.2:").unwrap().port, 7878);
    assert_eq!(parse_ip_device("10.0.0.2:-1").unwrap().port, 7878);
    assert_eq!(parse_ip_device("10.0.0.2:+").unwrap().port, 7878);
}

#[test]
fn parse_ip_port_forms_std_accepts() {
    assert_eq!(parse_ip_device("10.0.0.2:+80").unwrap().port, 80);
    assert_eq!(parse_ip_device("10.0.0.2:0080").unwrap().port, 80);
    assert_eq!(parse_ip_device("10.0.0.2:65535").unwrap().port, 65535);
}

#[test]
fn parse_ip_splits_at_last_colon() {
    let d = parse_ip_device("fe80::1:9000").unwrap();
    assert_eq!(d.ip, "fe80::1");
    assert_eq!(d.port, 9000);
    let e = parse_ip_device(":1234").unwrap();
    assert_eq!(e.ip, "");
    assert_eq!(e.port, 1234);
}

#[test]
fn parse_ip_trims_unicode_white_space() {
    let d = parse_ip_device("\u{3000}\u{a0}10.0.0.3:81\u{2029}").unwrap();
    assert_eq!(d.ip, "10.0.0.3");
    assert_eq!(d.port, 81);
}

#[test]
fn typed_address_round_trip() {
    for (ip, port) in [("192.168.1.4", 7878u16), ("fe80::1", 1), ("host.local", 65535), ("", 0)] {
        let text = socket_address(&ip.to_string(), port);
        let d = parse_ip_device(&text).unwrap();
        assert_eq!(d.ip, ip);
        assert_eq!(d.port, port);
    }
}

#[test]
fn find_device_ignores_case() {
    let devices = vec![dev("laptop-1a2b._meshnet._tcp.local.", "10.0.0.1"), dev("Pixel-7A-99ff", "10.0.0.2"), dev("pixel-other", "10.0.0.3")];
    let d = find_device_by_name(&devices, "PIXEL").unwrap();
    assert_eq!(d.ip, "10.0.0.2");
    let e = find_device_by_name(&devices, "laptop").unwrap();
    assert_eq!(e.ip, "10.0.0.1");
}

#[test]
fn find_device_lowercases_beyond_ascii() {
    let devices = vec![dev("Écran-Salon", "10.0.0.7")];
    let d = find_device_by_name(&devices, "ÉCRAN").unwrap();
    assert_eq!(d.ip, "10.0.0.7");
    let e = find_device_by_name(&devices, "écran-s").unwrap();
    assert_eq!(e.ip, "10.0.0.7");
}

#[test]
fn find_device_not_found() {
    let devices = vec![dev("laptop", "10.0.0.1")];
    let err = find_device_by_name(&devices, "tablet").unwrap_err();
    assert_eq!(err.message(), "Device 'tablet' not found.");
    assert!(matches!(find_device_by_name(&vec![], "x"), Err(SendError::DeviceNotFound(_))));
}

#[test]
fn choose_target_order() {
    match choose_target(Some("10.0.0.5:8000".to_string()), Some("pixel".to_string())) {
        TargetPlan::Direct(d) => {
            assert_eq!(d.ip, "10.0.0.5");
            assert_eq!(d.port, 8000);
        }
        _ => panic!("expected a direct target"),
    }
    match choose_target(None, Some("pixel".to_string())) {
        TargetPlan::ByName(n) => assert_eq!(n, "pixel"),
        _ => panic!("expected a name lookup"),
    }
    assert!(matches!(choose_target(None, None), TargetPlan::Pick));
}

#[test]
fn manual_entry_is_recognised() {
    let m = manual_entry();
    assert_eq!(m.name, "✏️  Enter IP manually");
    assert_eq!(m.port, 0);
    assert!(is_manual_entry(&m));
    assert!(!is_manual_entry(&dev("pixel", "10.0.0.2")));
}

#[test]
fn wildcards() {
    assert!(has_wildcards("~/Photos/*"));
    assert!(has_wildcards("file?.txt"));
    assert!(!has_wildcards("/home/u/report.pdf"));
    assert!(!has_wildcards(""));
}

#[test]
fn file_prompt() {
    assert_eq!(file_prompt_answer("  a.txt \t").unwrap(), "a.txt");
    let e = file_prompt_answer("   ").unwrap_err();
    assert_eq!(e.message(), "No file specified");
}

#[test]
fn plain_path_checks() {
    let e = check_plain_path(false, false, "/x".to_string()).unwrap_err();
    assert_eq!(e.message(), "File not found: /x");
    let e = check_plain_path(true, false, "/tmp".to_string()).unwrap_err();
    assert_eq!(e.message(), "Not a file: /tmp");
    assert!(check_plain_path(true, true, "/a".to_string()).is_ok());
}

#[test]
fn pattern_and_paths_checks() {
    let e = check_pattern_matches(0, "*.pdf".to_string()).unwrap_err();
    assert_eq!(e.message(), "No files matched pattern: *.pdf");
    assert!(check_pattern_matches(2, "*.pdf".to_string()).is_ok());
    let e = check_paths_present(0).unwrap_err();
    assert_eq!(e.message(), "No files matched the pattern.");
    assert!(check_paths_present(1).is_ok());
}

#[test]
fn transfer_status() {
    assert!(transfer_outcome(200, "200 OK".to_string()).is_ok());
    assert!(transfer_outcome(299, "299".to_string()).is_ok());
    let e = transfer_outcome(500, "500 Internal Server Error".to_string()).unwrap_err();
    assert_eq!(e.message(), "Transfer failed — server returned 500 Internal Server Error");
    assert!(transfer_outcome(300, "300".to_string()).is_err());
    assert!(transfer_outcome(199, "199".to_string()).is_err());
}

#[test]
fn send_summary_reports_failures() {
    assert!(send_summary(0, 3).is_ok());
    let e = send_summary(2, 5).unwrap_err();
    assert_eq!(e.message(), "2 of 5 file(s) failed to send.");
}

#[test]
fn invalid_pattern_message() {
    let e = SendError::InvalidPattern("[a".to_string(), "invalid range pattern".to_string());
    assert_eq!(e.message(), "Invalid pattern '[a': invalid range pattern");
}

#[test]
fn discovery_notes() {
    assert_eq!(discovery_note(1), "  No devices found via auto-discovery.");
    assert_eq!(discovery_note(4), "  Found 3 device(s).");
}

#[test]
fn find_device_query_case_does_not_matter() {
    let devices = vec![dev("laptop", "10.0.0.1"), dev("Pixel-7A", "10.0.0.2")];
    for q in ["pixel", "PIXEL", "PiXeL", "pIxEl-7a"] {
        assert_eq!(find_device_by_name(&devices, q).unwrap().ip, "10.0.0.2");
    }
}

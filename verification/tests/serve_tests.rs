use meshnet::completer::sent_file_name;
use meshnet::serve::{
    bind_address, device_hostname, instance_name, mdns_host_name, new_instance_name,
    receive_dir, receiver_banner, banner_row, upload_file_name, UploadAction, UploadEvent,
    UploadReply, UploadSession, MESHNET_PORT,
};

#[test]
fn defaults() {
    assert_eq!(MESHNET_PORT, 7878);
    assert_eq!(receive_dir(None), ".");
    assert_eq!(receive_dir(Some("/data".to_string())), "/data");
    assert_eq!(device_hostname(None), "Unknown-Device");
    assert_eq!(device_hostname(Some("box".to_string())), "box");
}

#[test]
fn instance_names() {
    assert_eq!(instance_name("box", "1a2b3c4d-0000-4000-8000-000000000000"), "box-1a2b");
    assert_eq!(instance_name("box", "ab"), "box-ab");
    assert_eq!(instance_name("", "0123"), "-0123");
}

#[test]
fn fresh_instance_name_has_four_hex_digits() {
    let a = new_instance_name("studio");
    assert_eq!(a.len(), "studio".len() + 5);
    assert!(a.starts_with("studio-"));
    assert!(a["studio-".len()..].chars().all(|c| c.is_ascii_digit() || ('a'..='f').contains(&c)));
}

#[test]
fn mdns_names_and_bind_addresses() {
    assert_eq!(mdns_host_name("box-1a2b"), "box-1a2b.local.");
    assert_eq!(bind_address(7878), "0.0.0.0:7878");
    assert_eq!(bind_address(0), "0.0.0.0:0");
}

#[test]
fn banner_rows_pad_to_32() {
    let row = banner_row("Device ", "box-1a2b");
    assert_eq!(row, format!("║  Device : {:<32}║", "box-1a2b"));
    let long = "x".repeat(40);
    assert_eq!(banner_row("Saving ", &long), format!("║  Saving : {}║", long));
}

#[test]
fn banner_lines() {
    let lines = receiver_banner("box-1a2b", "192.168.1.4:7878", ".");
    assert_eq!(lines.len(), 7);
    assert_eq!(lines[0], "╔══════════════════════════════════════════╗");
    assert_eq!(lines[1], "║        MeshNet — Receiver Started        ║");
    assert_eq!(lines[2], "╠══════════════════════════════════════════╣");
    assert_eq!(lines[3], format!("║  Device : {:<32}║", "box-1a2b"));
    assert_eq!(lines[4], format!("║  IP     : {:<32}║", "192.168.1.4:7878"));
    assert_eq!(lines[5], format!("║  Saving : {:<32}║", "."));
    assert_eq!(lines[6], "╚══════════════════════════════════════════╝");
}

#[test]
fn upload_names() {
    assert_eq!(upload_file_name(None), "unknown_file");
    assert_eq!(upload_file_name(Some(b"report.pdf".to_vec())), "report.pdf");
    assert_eq!(upload_file_name(Some(b"a\tb".to_vec())), "a\tb");
    assert_eq!(upload_file_name(Some(vec![0xc3, 0xa9])), "unknown_file");
    assert_eq!(upload_file_name(Some(vec![b'a', 127])), "unknown_file");
}

#[test]
fn upload_names_inside_the_directory_are_kept() {
    assert_eq!(upload_file_name(Some(b"a/b".to_vec())), "a/b");
    assert_eq!(upload_file_name(Some(b"photos/2024/x.jpg".to_vec())), "photos/2024/x.jpg");
    assert_eq!(upload_file_name(Some(b"./x".to_vec())), "./x");
    assert_eq!(upload_file_name(Some(b"..foo".to_vec())), "..foo");
    assert_eq!(upload_file_name(Some(b"a/..b".to_vec())), "a/..b");
    assert_eq!(upload_file_name(Some(vec![])), "");
    assert_eq!(upload_file_name(Some(b".".to_vec())), ".");
}

#[test]
fn upload_names_leaving_the_directory_are_cut() {
    assert_eq!(upload_file_name(Some(b"../evil.txt".to_vec())), "evil.txt");
    assert_eq!(upload_file_name(Some(b"/tmp/evil.txt".to_vec())), "evil.txt");
    assert_eq!(upload_file_name(Some(b"a/../b".to_vec())), "b");
    assert_eq!(upload_file_name(Some(b"/a/b/".to_vec())), "b");
    assert_eq!(upload_file_name(Some(b"a/..".to_vec())), "unknown_file");
    assert_eq!(upload_file_name(Some(b"..".to_vec())), "unknown_file");
    assert_eq!(upload_file_name(Some(b"///".to_vec())), "unknown_file");
    for h in [&b"../../etc/passwd"[..], b"/x", b"dir/../y", b"z/.."] {
        let n = upload_file_name(Some(h.to_vec()));
        assert!(!n.starts_with('/') && !n.split('/').any(|c| c == ".."));
    }
}

#[test]
fn upload_happy_path() {
    let mut s = UploadSession::new();
    assert_eq!(s.step(UploadEvent::Created), UploadAction::ReadFrame);
    assert_eq!(s.step(UploadEvent::Frame(true)), UploadAction::WriteFrame);
    assert_eq!(s.step(UploadEvent::Written), UploadAction::ReadFrame);
    assert_eq!(s.step(UploadEvent::Frame(false)), UploadAction::ReadFrame);
    let a = s.step(UploadEvent::Ended);
    assert_eq!(a, UploadAction::Reply(UploadReply::Received));
    assert_eq!(UploadReply::Received.status(), 200);
    assert_eq!(UploadReply::Received.text(), "File received successfully");
    assert!(!s.accepts(UploadEvent::Ended));
    assert!(!s.accepts(UploadEvent::Created));
}

#[test]
fn upload_failures() {
    let mut s = UploadSession::new();
    assert!(!s.accepts(UploadEvent::Ended));
    assert_eq!(s.step(UploadEvent::CreateFailed), UploadAction::Reply(UploadReply::CreateFailed));
    assert_eq!(UploadReply::CreateFailed.status(), 500);
    assert_eq!(UploadReply::CreateFailed.text(), "Failed to create file");

    let mut s = UploadSession::new();
    s.step(UploadEvent::Created);
    s.step(UploadEvent::Frame(true));
    assert_eq!(s.step(UploadEvent::WriteFailed), UploadAction::Reply(UploadReply::WriteFailed));
    assert_eq!(UploadReply::WriteFailed.status(), 500);
    assert_eq!(UploadReply::WriteFailed.text(), "Failed to write data");

    let mut s = UploadSession::new();
    s.step(UploadEvent::Created);
    assert_eq!(s.step(UploadEvent::StreamFailed), UploadAction::Reply(UploadReply::StreamError));
    assert_eq!(UploadReply::StreamError.status(), 400);
    assert_eq!(UploadReply::StreamError.text(), "Stream error");
}

#[test]
fn sent_name_arrives_unchanged() {
    for path in ["/home/u/report.pdf", "photo 1.jpg", "a/b/notes.txt"] {
        let sent = sent_file_name(path);
        assert_eq!(upload_file_name(Some(sent.as_bytes().to_vec())), sent);
    }
}

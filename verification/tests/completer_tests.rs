use meshnet::completer::{
    completion_target, display_from_strip, expand_tilde, target_from_parts, sent_file_name, to_display_path, FilePathCompleter, ListedEntry,
};

fn entry(name: &str, path: &str, is_dir: bool) -> ListedEntry {
    ListedEntry { name: name.to_string(), path: path.to_string(), is_dir }
}

fn home() -> Option<String> {
    Some("/home/u".to_string())
}

#[test]
fn expand_tilde_forms() {
    assert_eq!(expand_tilde("~/Docs/a.txt", home()), "/home/u/Docs/a.txt");
    assert_eq!(expand_tilde("~", home()), "/home/u");
    assert_eq!(expand_tilde("~/", home()), "/home/u/");
    assert_eq!(expand_tilde("~/x", Some("/home/u/".to_string())), "/home/u/x");
    assert_eq!(expand_tilde("/etc/hosts", home()), "/etc/hosts");
    assert_eq!(expand_tilde("~user/x", home()), "~user/x");
    assert_eq!(expand_tilde("~/x", None), "~/x");
    assert_eq!(expand_tilde("~//x", home()), "/x");
    assert_eq!(expand_tilde("~/x", Some(String::new())), "x");
}

#[test]
fn display_paths() {
    assert_eq!(to_display_path("~/D", "/home/u/Documents", home()), "~/Documents");
    assert_eq!(to_display_path("~", "/home/u", home()), "~/");
    assert_eq!(to_display_path("/home/u/D", "/home/u/Documents", home()), "/home/u/Documents");
    assert_eq!(to_display_path("~/D", "/srv/Documents", home()), "/srv/Documents");
    assert_eq!(to_display_path("~/D", "/home/user2/x", home()), "/home/user2/x");
    assert_eq!(to_display_path("~/D", "/home/u/Documents", None), "/home/u/Documents");
}

#[test]
fn expanded_path_shows_as_typed() {
    for h in ["/home/u", "/home/u/", "/"] {
        let typed = "~/Music/song.mp3";
        let full = expand_tilde(typed, Some(h.to_string()));
        assert_eq!(to_display_path(typed, &full, Some(h.to_string())), typed);
    }
}

#[test]
fn suggestions_filter_sort_and_mark_dirs() {
    let c = FilePathCompleter;
    let entries = vec![
        entry("Downloads", "/home/u/Downloads", true),
        entry(".dotfile", "/home/u/.dotfile", false),
        entry("documents.txt", "/home/u/documents.txt", false),
        entry("Desktop", "/home/u/Desktop", true),
        entry("music", "/home/u/music", true),
    ];
    let s = c.get_suggestions("~/d", home(), "d", &entries);
    assert_eq!(s, vec!["~/Desktop/", "~/Downloads/", "~/documents.txt"]);
}

#[test]
fn hidden_entries_need_a_dot_prefix() {
    let c = FilePathCompleter;
    let entries = vec![entry(".config", "/home/u/.config", true), entry("code", "/home/u/code", true)];
    assert_eq!(c.get_suggestions("~/", home(), "", &entries), vec!["~/code/"]);
    assert_eq!(c.get_suggestions("~/.c", home(), ".c", &entries), vec!["~/.config/"]);
}

#[test]
fn suggestions_empty_input_and_limit() {
    let c = FilePathCompleter;
    let entries: Vec<ListedEntry> =
        (0..25).map(|i| entry(&format!("f{:02}", 24 - i), &format!("/t/f{:02}", 24 - i), false)).collect();
    assert!(c.get_suggestions("", home(), "", &entries).is_empty());
    let s = c.get_suggestions("/t/", home(), "", &entries);
    assert_eq!(s.len(), 20);
    assert_eq!(s[0], "/t/f00");
    assert_eq!(s[19], "/t/f19");
}

#[test]
fn suggestions_lowercase_unicode_prefix() {
    let c = FilePathCompleter;
    let entries = vec![entry("Été.jpg", "/p/Été.jpg", false), entry("hiver.jpg", "/p/hiver.jpg", false)];
    assert_eq!(c.get_suggestions("/p/é", home(), "é", &entries), vec!["/p/Été.jpg"]);
}

#[test]
fn completion_cases() {
    let c = FilePathCompleter;
    assert_eq!(c.get_completion("~/D", Some("~/Desktop/".to_string()), &vec![]), Some("~/Desktop/".to_string()));
    assert_eq!(c.get_completion("~/D", None, &vec![]), None);
    assert_eq!(c.get_completion("~/D", None, &vec!["~/Desktop/".to_string()]), Some("~/Desktop/".to_string()));
    let two = vec!["~/Documents/".to_string(), "~/Downloads/".to_string()];
    assert_eq!(c.get_completion("~/D", None, &two), Some("~/Do".to_string()));
    assert_eq!(c.get_completion("~/Do", None, &two), None);
}

#[test]
fn completion_prefix_is_shared_by_all() {
    let c = FilePathCompleter;
    let s = vec!["/a/report-2023.pdf".to_string(), "/a/report-2024.pdf".to_string(), "/a/report-final.pdf".to_string()];
    let p = c.get_completion("/a/r", None, &s).unwrap();
    assert_eq!(p, "/a/report-");
    assert!(s.iter().all(|x| x.starts_with(&p)));
}

#[test]
fn completion_compares_bytes() {
    let c = FilePathCompleter;
    let s = vec!["éa".to_string(), "éb".to_string()];
    assert_eq!(c.get_completion("é", None, &s), None);
    assert_eq!(c.get_completion("x", None, &s), Some("é".to_string()));
}

#[test]
fn completion_targets() {
    assert_eq!(completion_target("/home/u/Doc", false), ("/home/u".to_string(), "Doc".to_string()));
    assert_eq!(completion_target("/home/u/Documents", true), ("/home/u/Documents".to_string(), String::new()));
    assert_eq!(completion_target("notes", false), (".".to_string(), "notes".to_string()));
    assert_eq!(completion_target("Cargo", false), (".".to_string(), "Cargo".to_string()));
    assert_eq!(completion_target("/", false), (".".to_string(), String::new()));
    assert_eq!(completion_target("/srv/..", false), ("/srv".to_string(), String::new()));
}

#[test]
fn sent_file_names() {
    assert_eq!(sent_file_name("/home/u/report.pdf"), "report.pdf");
    assert_eq!(sent_file_name("photo.jpg"), "photo.jpg");
    assert_eq!(sent_file_name("/"), "");
}

#[test]
fn display_path_compares_components() {
    assert_eq!(to_display_path("~/./D", "/home/u/./Documents", home()), "~/Documents");
    assert_eq!(to_display_path("~/D", "/home/u//Documents", home()), "~/Documents");
}

#[test]
fn display_from_stripped_parts() {
    assert_eq!(display_from_strip("~/D", "/home/u/Documents", Some("Documents".to_string())), "~/Documents");
    assert_eq!(display_from_strip("~/D", "/srv/x", None), "/srv/x");
    assert_eq!(display_from_strip("/home/u/D", "/home/u/Documents", Some("Documents".to_string())), "/home/u/Documents");
    assert_eq!(
        target_from_parts("/a/b", false, Some("/a".to_string()), Some("b".to_string())),
        ("/a".to_string(), "b".to_string())
    );
    assert_eq!(target_from_parts("/", false, None, None), (".".to_string(), String::new()));
    assert_eq!(target_from_parts("ab", false, Some(String::new()), Some("ab".to_string())), (".".to_string(), "ab".to_string()));
    assert_eq!(target_from_parts("/a", true, None, None), ("/a".to_string(), String::new()));
}

#[test]
fn expand_tilde_joins_like_pathbuf() {
    for (typed, h) in [("~/x", "/home/u"), ("~/", "/home/u"), ("~//x", "/home/u"), ("~/x", "/home/u/"), ("~/x", "")] {
        let expected = std::path::PathBuf::from(h).join(&typed[2..]).display().to_string();
        assert_eq!(expand_tilde(typed, Some(h.to_string())), expected);
    }
}

#[test]
fn bare_name_completes_in_current_directory() {
    let c = FilePathCompleter;
    let (dir, prefix) = completion_target("Cargo", false);
    assert_eq!(dir, ".");
    let entries = vec![entry("Cargo.toml", "./Cargo.toml", false), entry("src", "./src", true)];
    assert_eq!(c.get_suggestions("Cargo", home(), &prefix, &entries), vec!["./Cargo.toml"]);
}

#[test]
fn prefix_matching_ignores_ascii_case() {
    let c = FilePathCompleter;
    let entries = vec![
        entry("Documents", "/home/u/Documents", true),
        entry("downloads", "/home/u/downloads", true),
        entry("music", "/home/u/music", true),
    ];
    let a = c.get_suggestions("~/DO", home(), "DO", &entries);
    let b = c.get_suggestions("~/do", home(), "do", &entries);
    let d = c.get_suggestions("~/dO", home(), "dO", &entries);
    assert_eq!(a, vec!["~/Documents/", "~/downloads/"]);
    assert_eq!(a, b);
    assert_eq!(a, d);
}

#[test]
fn suggestions_of_distinct_entries_strictly_ascend() {
    let c = FilePathCompleter;
    let entries = vec![entry("b", "/t/b", false), entry("a", "/t/a", false), entry("c", "/t/c", true)];
    let s = c.get_suggestions("/t/", home(), "", &entries);
    assert_eq!(s, vec!["/t/a", "/t/b", "/t/c/"]);
    assert!(s.windows(2).all(|w| w[0] < w[1]));
}

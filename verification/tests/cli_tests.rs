use meshnet::cli::{menu_choice, menu_options, receive_path_answer, MenuChoice};

#[test]
fn receive_path_answers() {
    assert_eq!(receive_path_answer("  /tmp/in  ", "/home/u"), Some("/tmp/in".to_string()));
    assert_eq!(receive_path_answer("", "/home/u"), None);
    assert_eq!(receive_path_answer("   ", "/home/u"), None);
    assert_eq!(receive_path_answer(" /home/u ", "/home/u"), None);
}

#[test]
fn menu() {
    let opts = menu_options();
    assert_eq!(opts, vec!["📤  Send a file", "🔍  Scan for devices", "❌  Exit"]);
    assert_eq!(menu_choice(Some(opts[0].clone())), MenuChoice::Send);
    assert_eq!(menu_choice(Some(opts[1].clone())), MenuChoice::Scan);
    assert_eq!(menu_choice(Some(opts[2].clone())), MenuChoice::Exit);
    assert_eq!(menu_choice(None), MenuChoice::Exit);
}

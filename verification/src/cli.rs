//! Decisions of the interactive mode that runs when `meshnet` gets no command.

use vstd::prelude::*;
use vstd::string::*;
use crate::text::{chars_of, string_of, trim, trim_chars};

verus! {

/// Where the interactive mode saves received files, from the answer to its prompt
/// and the current directory: nothing (the current directory) when the trimmed
/// answer is empty or is the current directory, else the trimmed answer.
pub fn receive_path_answer(raw: &str, cwd: &str) -> (r: Option<String>)
    ensures
        (trim(raw@).len() == 0 || trim(raw@) == cwd@) ==> r is None,
        !(trim(raw@).len() == 0 || trim(raw@) == cwd@) ==> r is Some && r->0@ == trim(raw@),
{
    let v = chars_of(raw);
    let t = trim_chars(&v);
    let c = chars_of(cwd);
    if t.len() == 0 || same_chars(&t, &c) {
        None
    } else {
        Some(string_of(&t))
    }
}

/// Whether `a` and `b` hold the same characters.
pub fn same_chars(a: &Vec<char>, b: &Vec<char>) -> (r: bool)
    ensures
        r == (a@ == b@),
{
    if a.len() != b.len() {
        return false;
    }
    let mut i: usize = 0;
    while i < a.len()
        invariant
            i <= a.len() == b.len(),
            forall|j: int| 0 <= j < i ==> a@[j] == b@[j],
        decreases a.len() - i,
    {
        if a[i] != b[i] {
            return false;
        }
        i = i + 1;
    }
    assert(a@ =~= b@);
    true
}

/// What the user picked in the main menu.
#[derive(Clone, Copy, Debug, PartialEq, Eq, Structural)]
pub enum MenuChoice {
    Send,
    Scan,
    Exit,
}

/// The label of the menu entry that sends files.
pub open spec fn send_label() -> Seq<char> {
    "📤  Send a file"@
}

/// The label of the menu entry that scans for devices.
pub open spec fn scan_label() -> Seq<char> {
    "🔍  Scan for devices"@
}

/// The label of the menu entry that leaves.
pub open spec fn exit_label() -> Seq<char> {
    "❌  Exit"@
}

/// The main menu's entries, in order.
pub fn menu_options() -> (r: Vec<String>)
    ensures
        r.len() == 3,
        r[0]@ == send_label(),
        r[1]@ == scan_label(),
        r[2]@ == exit_label(),
{
    let mut r: Vec<String> = Vec::new();
    r.push(String::from_str("📤  Send a file"));
    r.push(String::from_str("🔍  Scan for devices"));
    r.push(String::from_str("❌  Exit"));
    r
}

/// The choice an answer of the menu prompt makes: the send or scan entry picks
/// that action; anything else, a failed prompt (`None`) among it, leaves.
pub fn menu_choice(answer: Option<String>) -> (c: MenuChoice)
    ensures
        match answer {
            Some(a) => if a@ == send_label() {
                c == MenuChoice::Send
            } else if a@ == scan_label() {
                c == MenuChoice::Scan
            } else {
                c == MenuChoice::Exit
            },
            None => c == MenuChoice::Exit,
        },
{
    match answer {
        Some(a) => {
            let v = chars_of(a.as_str());
            let s = chars_of("📤  Send a file");
            let k = chars_of("🔍  Scan for devices");
            if same_chars(&v, &s) {
                MenuChoice::Send
            } else if same_chars(&v, &k) {
                MenuChoice::Scan
            } else {
                MenuChoice::Exit
            }
        },
        None => MenuChoice::Exit,
    }
}

} // verus!

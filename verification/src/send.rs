//! Decisions of `meshnet send`: reading a typed address, picking the target device,
//! checking the files to send, and judging the outcome of the transfers.

use vstd::prelude::*;
use vstd::string::*;
use crate::list::{address_text, copy_device, FoundDevice};
use crate::serve::MESHNET_PORT;
use crate::text::{
    ascii_lower, chars_of, contains_exec, occurs_at, contains_seq, decimal, decimal_chars, is_white_space, last_index,
    lemma_decimal, lemma_last_index, lemma_parse_decimal_u16, lowercase, parse_u16,
    parse_u16_chars, push_chars, push_str, rfind_char, slice_chars, string_of, to_lowercase_chars,
    trim, trim_chars, trim_end, trim_start,
};

verus! {

/// Why sending stops.
#[derive(Clone, Debug)]
pub enum SendError {
    /// The file prompt was answered with nothing.
    NoFileSpecified,
    /// Resolving the file argument gave no path.
    NoFilesMatched,
    /// The glob library refused the pattern (the input, and its reason).
    InvalidPattern(String, String),
    /// A pattern matched no file (the input).
    NoMatchingFiles(String),
    /// A plain path does not exist (the path as shown).
    FileNotFound(String),
    /// A plain path is not a regular file (the path as shown).
    NotAFile(String),
    /// No discovered device has the requested name (the name).
    DeviceNotFound(String),
    /// The receiver answered with a status outside 200–299 (the status as shown).
    TransferFailed(String),
    /// Some transfers failed (how many, out of how many).
    SomeFailed(u32, usize),
}

/// The message of an error, as the command line prints it.
pub open spec fn send_error_text(e: SendError) -> Seq<char> {
    match e {
        SendError::NoFileSpecified => "No file specified"@,
        SendError::NoFilesMatched => "No files matched the pattern."@,
        SendError::InvalidPattern(input, reason) => "Invalid pattern '"@ + input@ + "': "@
            + reason@,
        SendError::NoMatchingFiles(input) => "No files matched pattern: "@ + input@,
        SendError::FileNotFound(path) => "File not found: "@ + path@,
        SendError::NotAFile(path) => "Not a file: "@ + path@,
        SendError::DeviceNotFound(name) => "Device '"@ + name@ + "' not found."@,
        SendError::TransferFailed(status) => "Transfer failed — server returned "@ + status@,
        SendError::SomeFailed(failed, total) => decimal(failed as nat) + " of "@ + decimal(
            total as nat,
        ) + " file(s) failed to send."@,
    }
}

impl SendError {
    /// The error's message.
    pub fn message(&self) -> (r: String)
        ensures
            r@ == send_error_text(*self),
    {
        let mut v: Vec<char> = Vec::new();
        match self {
            SendError::NoFileSpecified => push_str(&mut v, "No file specified"),
            SendError::NoFilesMatched => push_str(&mut v, "No files matched the pattern."),
            SendError::InvalidPattern(input, reason) => {
                push_str(&mut v, "Invalid pattern '");
                push_str(&mut v, input.as_str());
                push_str(&mut v, "': ");
                push_str(&mut v, reason.as_str());
            },
            SendError::NoMatchingFiles(input) => {
                push_str(&mut v, "No files matched pattern: ");
                push_str(&mut v, input.as_str());
            },
            SendError::FileNotFound(path) => {
                push_str(&mut v, "File not found: ");
                push_str(&mut v, path.as_str());
            },
            SendError::NotAFile(path) => {
                push_str(&mut v, "Not a file: ");
                push_str(&mut v, path.as_str());
            },
            SendError::DeviceNotFound(name) => {
                push_str(&mut v, "Device '");
                push_str(&mut v, name.as_str());
                push_str(&mut v, "' not found.");
            },
            SendError::TransferFailed(status) => {
                push_str(&mut v, "Transfer failed — server returned ");
                push_str(&mut v, status.as_str());
            },
            SendError::SomeFailed(failed, total) => {
                let f = decimal_chars(*failed as u64);
                push_chars(&mut v, &f);
                push_str(&mut v, " of ");
                let t = decimal_chars(*total as u64);
                push_chars(&mut v, &t);
                push_str(&mut v, " file(s) failed to send.");
            },
        }
        assert(v@ =~= send_error_text(*self));
        string_of(&v)
    }
}

/// The address part and the port that a typed `IP[:PORT]` gives: the text is trimmed,
/// split at its last `:`, and a port that does not parse as a 16-bit number, or a
/// missing one, becomes the MeshNet port.
pub open spec fn ip_device_parts(raw: Seq<char>) -> (Seq<char>, u16) {
    let t = trim(raw);
    let p = last_index(t, ':');
    if p >= 0 {
        (
            t.take(p),
            match parse_u16(t.skip(p + 1)) {
                Some(v) => v,
                None => MESHNET_PORT,
            },
        )
    } else {
        (t, MESHNET_PORT)
    }
}

/// Reads a device typed as `IP` or `IP:PORT`; it is named by its address and its
/// system is unknown. Every input gives a device.
pub fn parse_ip_device(raw: &str) -> (r: Result<FoundDevice, SendError>)
    ensures
        r is Ok,
        r->Ok_0.name@ == ip_device_parts(raw@).0,
        r->Ok_0.ip@ == ip_device_parts(raw@).0,
        r->Ok_0.port == ip_device_parts(raw@).1,
        r->Ok_0.os@.len() == 0,
{
    let all = chars_of(raw);
    let t = trim_chars(&all);
    let (ip, port) = match rfind_char(&t, ':') {
        Some(pos) => {
            let ip = slice_chars(&t, 0, pos);
            let rest = slice_chars(&t, pos + 1, t.len());
            assert(ip@ == t@.take(pos as int));
            assert(rest@ == t@.skip(pos + 1));
            let port = match parse_u16_chars(&rest) {
                Some(v) => v,
                None => MESHNET_PORT,
            };
            (ip, port)
        },
        None => (t, MESHNET_PORT),
    };
    Ok(FoundDevice { name: string_of(&ip), ip: string_of(&ip), port, os: String::new() })
}

/// Typing back the address of a device gives the device's address and port,
/// whenever the address does not begin with white space.
pub proof fn lemma_parse_ip_device_round_trip(ip: Seq<char>, port: u16)
    requires
        ip.len() == 0 || !is_white_space(ip[0]),
    ensures
        ip_device_parts(address_text(ip, port)) == (ip, port),
{
    let d = decimal(port as nat);
    let s = address_text(ip, port);
    lemma_decimal(port as nat);
    assert(s.len() == ip.len() + 1 + d.len());
    assert(s[ip.len() as int] == ':');
    assert(!is_white_space(s[0]));
    assert(trim_start(s) == s);
    assert(s.last() == d.last());
    assert(crate::text::is_digit(d[d.len() - 1]));
    assert(trim_end(s) == s);
    lemma_last_index(s, ':');
    let p = last_index(s, ':');
    assert forall|j: int| ip.len() < j < s.len() implies s[j] != ':' by {
        assert(s[j] == d[j - ip.len() - 1]);
        assert(crate::text::is_digit(d[j - ip.len() - 1]));
    }
    assert(p == ip.len());
    assert(s.take(p) =~= ip);
    assert(s.skip(p + 1) =~= d);
    lemma_parse_decimal_u16(port);
}

/// Whether the device named `name` matches the wanted name: the lower-cased wanted
/// name occurs in the lower-cased device name.
pub open spec fn name_matches(name: Seq<char>, wanted: Seq<char>) -> bool {
    contains_seq(lowercase(name), lowercase(wanted))
}

/// Index of the first device in `s` whose name matches, or -1.
pub open spec fn first_match(s: Seq<FoundDevice>, wanted: Seq<char>) -> int
    decreases s.len(),
{
    if s.len() == 0 {
        -1
    } else if name_matches(s[0].name@, wanted) {
        0
    } else {
        let k = first_match(s.drop_first(), wanted);
        if k < 0 { -1 } else { k + 1 }
    }
}

proof fn lemma_first_match(s: Seq<FoundDevice>, wanted: Seq<char>)
    ensures
        -1 <= first_match(s, wanted) < s.len(),
        first_match(s, wanted) >= 0 ==> name_matches(s[first_match(s, wanted)].name@, wanted),
        forall|j: int|
            0 <= j < s.len() && (first_match(s, wanted) < 0 || j < first_match(s, wanted))
                ==> !name_matches(#[trigger] s[j].name@, wanted),
    decreases s.len(),
{
    if s.len() > 0 && !name_matches(s[0].name@, wanted) {
        lemma_first_match(s.drop_first(), wanted);
        assert forall|j: int|
            0 <= j < s.len() && (first_match(s, wanted) < 0 || j < first_match(s, wanted))
                implies !name_matches(#[trigger] s[j].name@, wanted) by {
            if j > 0 {
                assert(s[j] == s.drop_first()[j - 1]);
            }
        }
    }
}

/// The case of ASCII letters in the wanted name does not change which device
/// matches first, when lower-casing does not tell them apart.
proof fn lemma_first_match_ascii(s: Seq<FoundDevice>, wanted: Seq<char>)
    requires
        lowercase(wanted) == lowercase(ascii_lower(wanted)),
    ensures
        first_match(s, wanted) == first_match(s, ascii_lower(wanted)),
    decreases s.len(),
{
    if s.len() > 0 {
        lemma_first_match_ascii(s.drop_first(), wanted);
    }
}

/// Picks the first discovered device whose name holds `name`, ignoring case;
/// fails with `DeviceNotFound(name)` when there is none.
pub fn find_device_by_name(devices: &Vec<FoundDevice>, name: &str) -> (r: Result<
    FoundDevice,
    SendError,
>)
    ensures
        first_match(devices@, name@) >= 0 ==> r == Ok::<FoundDevice, SendError>(
            devices@[first_match(devices@, name@)],
        ),
        first_match(devices@, name@) < 0 ==> r is Err && r->Err_0 is DeviceNotFound
            && r->Err_0->DeviceNotFound_0@ == name@,
        first_match(devices@, name@) == first_match(devices@, ascii_lower(name@)),
{
    proof {
        lemma_first_match(devices@, name@);
    }
    let wanted_chars = chars_of(name);
    let wanted = to_lowercase_chars(&wanted_chars);
    proof {
        lemma_first_match_ascii(devices@, name@);
    }
    let mut i: usize = 0;
    while i < devices.len()
        invariant
            i <= devices.len(),
            wanted@ == lowercase(name@),
            first_match(devices@, name@) == first_match(devices@, ascii_lower(name@)),
            forall|j: int| 0 <= j < i ==> !name_matches(#[trigger] devices@[j].name@, name@),
            -1 <= first_match(devices@, name@) < devices@.len(),
            first_match(devices@, name@) >= 0 ==> name_matches(
                devices@[first_match(devices@, name@)].name@,
                name@,
            ),
            forall|j: int|
                0 <= j < devices@.len() && (first_match(devices@, name@) < 0 || j < first_match(
                    devices@,
                    name@,
                )) ==> !name_matches(#[trigger] devices@[j].name@, name@),
        decreases devices.len() - i,
    {
        let n = chars_of(devices[i].name.as_str());
        let lower = to_lowercase_chars(&n);
        if contains_exec(&lower, &wanted) {
            assert(name_matches(devices@[i as int].name@, name@));
            return Ok(copy_device(&devices[i]));
        }
        i = i + 1;
    }
    Err(SendError::DeviceNotFound(String::from_str(name)))
}

/// Whether `w` occurs somewhere in `n`, as a run of consecutive characters.
pub open spec fn occurs_in(n: Seq<char>, w: Seq<char>) -> bool {
    exists|i: int| 0 <= i && i + w.len() <= n.len() && #[trigger] n.subrange(i, i + w.len()) == w
}

/// The lookup by name picks the first device, in list order, whose lower-cased
/// name holds the lower-cased wanted name anywhere (a partial, case-insensitive
/// match): `7a` finds `Pixel-7A-99ff`.
pub proof fn lemma_find_picks_first_partial_match(devices: Seq<FoundDevice>, wanted: Seq<char>, k: int)
    requires
        0 <= k < devices.len(),
        occurs_in(lowercase(devices[k].name@), lowercase(wanted)),
        forall|j: int| 0 <= j < k ==> !occurs_in(lowercase(#[trigger] devices[j].name@), lowercase(wanted)),
    ensures
        first_match(devices, wanted) == k,
{
    lemma_first_match(devices, wanted);
    let f = first_match(devices, wanted);
    assert(name_matches(devices[k].name@, wanted)) by {
        let i = choose|i: int|
            0 <= i && i + lowercase(wanted).len() <= lowercase(devices[k].name@).len()
                && #[trigger] lowercase(devices[k].name@).subrange(i, i + lowercase(wanted).len())
                == lowercase(wanted);
        assert(occurs_at(lowercase(devices[k].name@), lowercase(wanted), i));
    }
    if f >= 0 && f < k {
        assert(name_matches(devices[f].name@, wanted));
        let i = choose|i: int| occurs_at(lowercase(devices[f].name@), lowercase(wanted), i);
        assert(lowercase(devices[f].name@).subrange(i, i + lowercase(wanted).len()) == lowercase(wanted));
        assert(occurs_in(lowercase(devices[f].name@), lowercase(wanted)));
    }
}

/// When no device's lower-cased name holds the lower-cased wanted name, the lookup
/// finds nothing (and `find_device_by_name` answers `DeviceNotFound`).
pub proof fn lemma_find_without_partial_match(devices: Seq<FoundDevice>, wanted: Seq<char>)
    requires
        forall|j: int| 0 <= j < devices.len() ==> !occurs_in(lowercase(#[trigger] devices[j].name@), lowercase(wanted)),
    ensures
        first_match(devices, wanted) < 0,
{
    lemma_first_match(devices, wanted);
    let f = first_match(devices, wanted);
    if f >= 0 {
        assert(name_matches(devices[f].name@, wanted));
        let i = choose|i: int| occurs_at(lowercase(devices[f].name@), lowercase(wanted), i);
        assert(lowercase(devices[f].name@).subrange(i, i + lowercase(wanted).len()) == lowercase(wanted));
        assert(occurs_in(lowercase(devices[f].name@), lowercase(wanted)));
    }
}

/// Where `meshnet send` takes its target from.
pub enum TargetPlan {
    /// An address given with `--ip`, already read.
    Direct(FoundDevice),
    /// A device name given with `--device`, to look up after a scan.
    ByName(String),
    /// Neither: scan and let the user pick from a list.
    Pick,
}

/// `--ip` wins over `--device`; with neither the user picks.
pub fn choose_target(ip: Option<String>, device: Option<String>) -> (r: TargetPlan)
    ensures
        match ip {
            Some(t) => r is Direct && r->Direct_0.ip@ == ip_device_parts(t@).0
                && r->Direct_0.name@ == ip_device_parts(t@).0
                && r->Direct_0.port == ip_device_parts(t@).1 && r->Direct_0.os@.len() == 0,
            None => match device {
                Some(n) => r is ByName && r->ByName_0 == n,
                None => r is Pick,
            },
        },
{
    match ip {
        Some(t) => match parse_ip_device(t.as_str()) {
            Ok(d) => TargetPlan::Direct(d),
            Err(_) => TargetPlan::Pick,
        },
        None => match device {
            Some(n) => TargetPlan::ByName(n),
            None => TargetPlan::Pick,
        },
    }
}

/// The name of the extra list entry that lets the user type an address.
pub open spec fn manual_entry_name() -> Seq<char> {
    "✏️  Enter IP manually"@
}

/// The extra list entry that lets the user type an address.
pub fn manual_entry() -> (d: FoundDevice)
    ensures
        d.name@ == manual_entry_name(),
        d.ip@.len() == 0,
        d.port == 0,
        d.os@.len() == 0,
{
    FoundDevice {
        name: String::from_str("✏️  Enter IP manually"),
        ip: String::new(),
        port: 0,
        os: String::new(),
    }
}

/// Whether the picked entry asks for a typed address: its name holds `Enter IP manually`.
pub fn is_manual_entry(d: &FoundDevice) -> (b: bool)
    ensures
        b == contains_seq(d.name@, "Enter IP manually"@),
{
    let n = chars_of(d.name.as_str());
    let m = chars_of("Enter IP manually");
    contains_exec(&n, &m)
}

/// Whether a file argument is a pattern: it holds `*` or `?`.
pub fn has_wildcards(path: &str) -> (b: bool)
    ensures
        b == (path@.contains('*') || path@.contains('?')),
{
    let v = chars_of(path);
    let mut i: usize = 0;
    while i < v.len()
        invariant
            i <= v.len(),
            v@ == path@,
            forall|j: int| 0 <= j < i ==> v@[j] != '*' && v@[j] != '?',
        decreases v.len() - i,
    {
        if v[i] == '*' || v[i] == '?' {
            assert(v@[i as int] == path@[i as int]);
            return true;
        }
        i = i + 1;
    }
    assert(!path@.contains('*')) by {
        if path@.contains('*') {
            let k = choose|k: int| 0 <= k < path@.len() && path@[k] == '*';
            assert(v@[k] == '*');
        }
    }
    assert(!path@.contains('?')) by {
        if path@.contains('?') {
            let k = choose|k: int| 0 <= k < path@.len() && path@[k] == '?';
            assert(v@[k] == '?');
        }
    }
    false
}

/// The answer to the file prompt, trimmed; an empty answer is `NoFileSpecified`.
pub fn file_prompt_answer(raw: &str) -> (r: Result<String, SendError>)
    ensures
        trim(raw@).len() == 0 ==> r is Err && r->Err_0 is NoFileSpecified,
        trim(raw@).len() > 0 ==> r is Ok && r->Ok_0@ == trim(raw@),
{
    let v = chars_of(raw);
    let t = trim_chars(&v);
    if t.len() == 0 {
        Err(SendError::NoFileSpecified)
    } else {
        Ok(string_of(&t))
    }
}

/// The checks on a plain (pattern-free) path, in the order they are made:
/// it must exist, then be a regular file.
pub fn check_plain_path(exists: bool, is_file: bool, shown: String) -> (r: Result<(), SendError>)
    ensures
        !exists ==> r == Err::<(), SendError>(SendError::FileNotFound(shown)),
        exists && !is_file ==> r == Err::<(), SendError>(SendError::NotAFile(shown)),
        exists && is_file ==> r is Ok,
{
    if !exists {
        Err(SendError::FileNotFound(shown))
    } else if !is_file {
        Err(SendError::NotAFile(shown))
    } else {
        Ok(())
    }
}

/// A pattern must match at least one file.
pub fn check_pattern_matches(matched: usize, input: String) -> (r: Result<(), SendError>)
    ensures
        matched == 0 ==> r == Err::<(), SendError>(SendError::NoMatchingFiles(input)),
        matched > 0 ==> r is Ok,
{
    if matched == 0 {
        Err(SendError::NoMatchingFiles(input))
    } else {
        Ok(())
    }
}

/// There must be something to send.
pub fn check_paths_present(count: usize) -> (r: Result<(), SendError>)
    ensures
        count == 0 ==> r is Err && r->Err_0 is NoFilesMatched,
        count > 0 ==> r is Ok,
{
    if count == 0 {
        Err(SendError::NoFilesMatched)
    } else {
        Ok(())
    }
}

/// Whether an HTTP status is a success (200–299).
pub open spec fn is_success_status(code: u16) -> bool {
    200 <= code <= 299
}

/// The outcome of one upload, from the receiver's status code and its shown form.
pub fn transfer_outcome(code: u16, shown: String) -> (r: Result<(), SendError>)
    ensures
        is_success_status(code) ==> r is Ok,
        !is_success_status(code) ==> r == Err::<(), SendError>(SendError::TransferFailed(shown)),
{
    if 200 <= code && code <= 299 {
        Ok(())
    } else {
        Err(SendError::TransferFailed(shown))
    }
}

/// The outcome of a run that sent `total` files of which `failed` failed.
pub fn send_summary(failed: u32, total: usize) -> (r: Result<(), SendError>)
    ensures
        failed == 0 ==> r is Ok,
        failed > 0 ==> r == Err::<(), SendError>(SendError::SomeFailed(failed, total)),
{
    if failed > 0 {
        Err(SendError::SomeFailed(failed, total))
    } else {
        Ok(())
    }
}


/// The note printed before the device list, which holds the manual entry as its
/// last item: how many devices discovery found, or that it found none.
pub fn discovery_note(listed: usize) -> (r: String)
    requires
        listed >= 1,
    ensures
        listed == 1 ==> r@ == "  No devices found via auto-discovery."@,
        listed > 1 ==> r@ == "  Found "@ + decimal((listed - 1) as nat) + " device(s)."@,
{
    let mut v: Vec<char> = Vec::new();
    if listed == 1 {
        push_str(&mut v, "  No devices found via auto-discovery.");
    } else {
        push_str(&mut v, "  Found ");
        let d = decimal_chars((listed - 1) as u64);
        push_chars(&mut v, &d);
        push_str(&mut v, " device(s).");
    }
    string_of(&v)
}

} // verus!

//! The receiving side of MeshNet: its identity, its banner, and the handling of an upload.

use vstd::prelude::*;
use vstd::string::*;
use crate::text::{
    chars_of, decimal, decimal_chars, find_char, occurs_at, occurs_at_exec, last_index, lemma_first_index, push_chars,
    push_str, rfind_char, slice_chars, string_of,
};

verus! {

/// The TCP port on which a MeshNet receiver listens when it can.
pub const MESHNET_PORT: u16 = 7878;

/// Where received files go: the given directory, else the current one (`.`).
pub fn receive_dir(path: Option<String>) -> (r: String)
    ensures
        match path {
            Some(p) => r == p,
            None => r@ == "."@,
        },
{
    match path {
        Some(p) => p,
        None => String::from_str("."),
    }
}

/// The host name to announce: the system's, or `Unknown-Device` when it is not
/// valid Unicode (`None`).
pub fn device_hostname(raw: Option<String>) -> (r: String)
    ensures
        match raw {
            Some(h) => r == h,
            None => r@ == "Unknown-Device"@,
        },
{
    match raw {
        Some(h) => h,
        None => String::from_str("Unknown-Device"),
    }
}

/// Whether `c` is a lower-case hexadecimal digit.
pub open spec fn is_lower_hex(c: char) -> bool {
    ('0' <= c <= '9') || ('a' <= c <= 'f')
}

/// Whether `s` is a version-4 UUID in hyphenated lower-case form, as `uuid` prints
/// one: 36 characters, `-` at 8, 13, 18 and 23, lower-case hex elsewhere, version
/// digit `4` and variant digit `8`, `9`, `a` or `b`.
pub open spec fn is_v4_uuid_text(s: Seq<char>) -> bool {
    &&& s.len() == 36
    &&& forall|i: int|
        0 <= i < 36 ==> if i == 8 || i == 13 || i == 18 || i == 23 {
            s[i] == '-'
        } else {
            is_lower_hex(#[trigger] s[i])
        }
    &&& s[14] == '4'
    &&& (s[19] == '8' || s[19] == '9' || s[19] == 'a' || s[19] == 'b')
}

/// A fresh random UUID (`uuid::Uuid::new_v4`), in the hyphenated lower-case text
/// that its `Display` gives. Which UUID comes out is chance; only its form is claimed.
#[verifier::external_body]
fn random_uuid_text() -> (s: String)
    ensures
        is_v4_uuid_text(s@),
{
    uuid::Uuid::new_v4().to_string()
}

/// The mDNS instance name of a receiver: its host name, `-`, and the first four
/// characters of `id` (all of `id` when it is shorter).
pub open spec fn instance_name_spec(hostname: Seq<char>, id: Seq<char>) -> Seq<char> {
    hostname + seq!['-'] + id.take(if id.len() < 4 { id.len() as int } else { 4 })
}

/// Builds the instance name from a host name and an identifier text.
pub fn instance_name(hostname: &str, id: &str) -> (r: String)
    ensures
        r@ == instance_name_spec(hostname@, id@),
{
    let mut v = chars_of(hostname);
    v.push('-');
    let idc = chars_of(id);
    let mut i: usize = 0;
    let ghost v0 = v@;
    while i < idc.len() && i < 4
        invariant
            i <= idc.len(),
            i <= 4,
            idc@ == id@,
            v@ == v0 + id@.take(i as int),
        decreases 4 - i,
    {
        v.push(idc[i]);
        assert(id@.take(i + 1) =~= id@.take(i as int).push(id@[i as int]));
        i = i + 1;
    }
    assert(v@ =~= instance_name_spec(hostname@, id@));
    string_of(&v)
}

/// A new instance name for this receiver: the host name, `-`, and four random
/// lower-case hex digits taken from a fresh UUID.
pub fn new_instance_name(hostname: &str) -> (r: String)
    ensures
        exists|id: Seq<char>| is_v4_uuid_text(id) && r@ == instance_name_spec(hostname@, id),
        r@.len() == hostname@.len() + 5,
        r@.take((hostname@.len() + 1) as int) == hostname@ + seq!['-'],
        forall|i: int| hostname@.len() + 1 <= i < r@.len() ==> is_lower_hex(#[trigger] r@[i]),
{
    let id = random_uuid_text();
    let r = instance_name(hostname, id.as_str());
    proof {
        let s = id@;
        assert(r@.take((hostname@.len() + 1) as int) =~= hostname@ + seq!['-']);
        assert forall|i: int| hostname@.len() + 1 <= i < r@.len() implies is_lower_hex(
            #[trigger] r@[i],
        ) by {
            let k = i - hostname@.len() - 1;
            assert(r@[i] == s[k]);
            assert(0 <= k < 4);
            assert(is_lower_hex(s[k]));
        }
    }
    r
}

/// The host name under which a receiver registers in mDNS: `<instance>.local.`.
pub fn mdns_host_name(instance: &str) -> (r: String)
    ensures
        r@ == instance@ + ".local."@,
{
    let mut v = chars_of(instance);
    push_str(&mut v, ".local.");
    string_of(&v)
}

/// The address a receiver binds to: every interface, on `port`.
pub fn bind_address(port: u16) -> (r: String)
    ensures
        r@ == "0.0.0.0:"@ + decimal(port as nat),
{
    let mut v: Vec<char> = Vec::new();
    push_str(&mut v, "0.0.0.0:");
    let d = decimal_chars(port as u64);
    push_chars(&mut v, &d);
    string_of(&v)
}

/// `s` padded with spaces on the right to `width` characters (`{:<width}`); longer
/// text is kept whole.
pub open spec fn pad_right(s: Seq<char>, width: nat) -> Seq<char> {
    if s.len() >= width {
        s
    } else {
        s + Seq::new((width - s.len()) as nat, |i: int| ' ')
    }
}

/// Pads `v` with spaces to `width` characters.
pub fn pad_right_exec(v: &Vec<char>, width: usize) -> (r: Vec<char>)
    ensures
        r@ == pad_right(v@, width as nat),
{
    let mut r: Vec<char> = Vec::new();
    push_chars(&mut r, v);
    let ghost base = v@;
    while r.len() < width
        invariant
            r@.len() >= base.len(),
            r@.take(base.len() as int) == base,
            forall|i: int| base.len() <= i < r@.len() ==> r@[i] == ' ',
            base.len() < width ==> r@.len() <= width,
            base.len() >= width ==> r@.len() == base.len(),
        decreases width - r.len(),
    {
        r.push(' ');
    }
    proof {
        if base.len() >= width {
            assert(r@ =~= base);
        } else {
            assert(r@ =~= pad_right(base, width as nat));
        }
    }
    r
}

/// One row of the receiver's banner: `║  <label>: <value padded to 32>║`.
pub open spec fn banner_row_spec(label: Seq<char>, value: Seq<char>) -> Seq<char> {
    "║  "@ + label + ": "@ + pad_right(value, 32) + "║"@
}

/// Builds one banner row.
pub fn banner_row(label: &str, value: &str) -> (r: String)
    ensures
        r@ == banner_row_spec(label@, value@),
{
    let mut v: Vec<char> = Vec::new();
    push_str(&mut v, "║  ");
    push_str(&mut v, label);
    push_str(&mut v, ": ");
    let val = chars_of(value);
    let p = pad_right_exec(&val, 32);
    push_chars(&mut v, &p);
    push_str(&mut v, "║");
    assert(v@ =~= banner_row_spec(label@, value@));
    string_of(&v)
}

/// The banner that a receiver prints when it starts.
pub open spec fn receiver_banner_spec(instance: Seq<char>, address: Seq<char>, saving: Seq<char>) -> Seq<Seq<char>> {
    seq![
        "╔══════════════════════════════════════════╗"@,
        "║        MeshNet — Receiver Started        ║"@,
        "╠══════════════════════════════════════════╣"@,
        banner_row_spec("Device "@, instance),
        banner_row_spec("IP     "@, address),
        banner_row_spec("Saving "@, saving),
        "╚══════════════════════════════════════════╝"@,
    ]
}

/// Builds the receiver's banner from its instance name, its `ip:port`, and the
/// directory it saves to.
pub fn receiver_banner(instance: &str, address: &str, saving: &str) -> (r: Vec<String>)
    ensures
        r@.map_values(|s: String| s@) == receiver_banner_spec(instance@, address@, saving@),
{
    let mut r: Vec<String> = Vec::new();
    r.push(String::from_str("╔══════════════════════════════════════════╗"));
    r.push(String::from_str("║        MeshNet — Receiver Started        ║"));
    r.push(String::from_str("╠══════════════════════════════════════════╣"));
    r.push(banner_row("Device ", instance));
    r.push(banner_row("IP     ", address));
    r.push(banner_row("Saving ", saving));
    r.push(String::from_str("╚══════════════════════════════════════════╝"));
    assert(r@.map_values(|s: String| s@) =~= receiver_banner_spec(instance@, address@, saving@));
    r
}

/// Whether a header byte is visible ASCII (or a tab), the bytes that `http`'s
/// `HeaderValue::to_str` accepts.
pub open spec fn is_visible_ascii(b: u8) -> bool {
    (32 <= b < 127) || b == 9
}

/// The text of a header: its bytes as characters when all of them are visible
/// ASCII (what `HeaderValue::to_str` accepts), else nothing.
pub open spec fn header_text(bytes: Seq<u8>) -> Option<Seq<char>> {
    if forall|i: int| 0 <= i < bytes.len() ==> is_visible_ascii(#[trigger] bytes[i]) {
        Some(Seq::new(bytes.len(), |i: int| bytes[i] as char))
    } else {
        None
    }
}

/// `s` without its trailing `/` characters.
pub open spec fn trim_trailing_slashes(s: Seq<char>) -> Seq<char>
    decreases s.len(),
{
    if s.len() > 0 && s.last() == '/' {
        trim_trailing_slashes(s.drop_last())
    } else {
        s
    }
}

/// The last `/`-separated component of `s`, trailing `/`s ignored.
pub open spec fn last_component(s: Seq<char>) -> Seq<char> {
    let t = trim_trailing_slashes(s);
    let k = last_index(t, '/');
    if k >= 0 {
        t.skip(k + 1)
    } else {
        t
    }
}

/// Whether `n` names an entry of a directory itself: not empty, not `.` or `..`,
/// and without `/`.
pub open spec fn is_plain_file_name(n: Seq<char>) -> bool {
    &&& n.len() > 0
    &&& n != seq!['.']
    &&& n != seq!['.', '.']
    &&& !n.contains('/')
}

/// Whether a `..` component of `t` starts at index `i`.
pub open spec fn parent_component_at(t: Seq<char>, i: int) -> bool {
    &&& occurs_at(t, seq!['.', '.'], i)
    &&& (i == 0 || t[i - 1] == '/')
    &&& (i + 2 == t.len() || t[i + 2] == '/')
}

/// Whether the relative path `t`, joined onto a directory, stays inside it: it does
/// not start with `/`, and none of its components is `..` (a `..` after a symbolic
/// link may lead anywhere, so any `..` counts as leaving).
pub open spec fn stays_inside(t: Seq<char>) -> bool {
    &&& !(t.len() > 0 && t[0] == '/')
    &&& !exists|i: int| parent_component_at(t, i)
}

/// The name under which an upload is saved: the `X-File-Name` header as it is
/// when it is present, all visible ASCII, and stays inside the receive directory.
/// A header that would leave the directory (such as `../x` or `/tmp/x`) is cut to
/// its last component when that is a plain file name, else it becomes
/// `unknown_file`; a missing or non-ASCII header is `unknown_file` too.
pub open spec fn upload_file_name_spec(header: Option<Seq<u8>>) -> Seq<char> {
    match header {
        Some(bytes) => match header_text(bytes) {
            Some(t) => if stays_inside(t) {
                t
            } else if is_plain_file_name(last_component(t)) {
                last_component(t)
            } else {
                "unknown_file"@
            },
            None => "unknown_file"@,
        },
        None => "unknown_file"@,
    }
}

/// A plain file name stays inside the directory it is joined onto.
proof fn lemma_plain_name_stays_inside(n: Seq<char>)
    requires
        is_plain_file_name(n),
    ensures
        stays_inside(n),
{
    if n.len() > 0 && n[0] == '/' {
        assert(n.contains('/'));
    }
    assert forall|i: int| !parent_component_at(n, i) by {
        if parent_component_at(n, i) {
            if i > 0 {
                assert(n[i - 1] == '/');
                assert(n.contains('/'));
            } else if i + 2 < n.len() {
                assert(n[i + 2] == '/');
                assert(n.contains('/'));
            } else {
                assert(n =~= n.subrange(0, 2));
            }
        }
    }
}

fn parent_component_at_exec(t: &Vec<char>, i: usize) -> (b: bool)
    ensures
        b == parent_component_at(t@, i as int),
{
    let mut dots: Vec<char> = Vec::new();
    dots.push('.');
    dots.push('.');
    assert(dots@ =~= seq!['.', '.']);
    if !occurs_at_exec(t, &dots, i) {
        return false;
    }
    assert(i + 2 <= t@.len());
    assert(t@.len() == t.len());
    let after: usize = i + 2;
    (i == 0 || t[i - 1] == '/') && (after == t.len() || t[after] == '/')
}

fn stays_inside_exec(t: &Vec<char>) -> (b: bool)
    ensures
        b == stays_inside(t@),
{
    if t.len() > 0 && t[0] == '/' {
        return false;
    }
    let mut i: usize = 0;
    while i < t.len()
        invariant
            i <= t.len(),
            forall|j: int| 0 <= j < i ==> !parent_component_at(t@, j),
        decreases t.len() - i,
    {
        if parent_component_at_exec(t, i) {
            return false;
        }
        i = i + 1;
    }
    assert forall|j: int| !parent_component_at(t@, j) by {
        if j < 0 || j >= t@.len() {
            assert(!occurs_at(t@, seq!['.', '.'], j));
        }
    }
    true
}

/// The bytes of an ASCII text.
pub open spec fn ascii_bytes(n: Seq<char>) -> Seq<u8> {
    Seq::new(n.len(), |i: int| (n[i] as u32) as u8)
}

/// The name a sender puts in `X-File-Name` arrives unchanged: a plain file name of
/// visible ASCII characters (as the name of a sent file's last path component is,
/// when it is visible ASCII) is saved under exactly that name.
pub proof fn lemma_sent_name_arrives_unchanged(n: Seq<char>)
    requires
        is_plain_file_name(n),
        forall|i: int| 0 <= i < n.len() ==> 32 <= #[trigger] (n[i] as u32) < 127,
    ensures
        upload_file_name_spec(Some(ascii_bytes(n))) == n,
{
    let b = ascii_bytes(n);
    assert forall|i: int| 0 <= i < b.len() implies (#[trigger] b[i]) as u32 == n[i] as u32 by {
        let u = n[i] as u32;
        assert(32 <= u < 127);
        assert(u < 256 ==> (u as u8) as u32 == u) by (bit_vector);
    }
    assert forall|i: int| 0 <= i < b.len() implies is_visible_ascii(#[trigger] b[i]) by {
        assert(32 <= (n[i] as u32) < 127);
    }
    assert(Seq::new(b.len(), |i: int| b[i] as char) =~= n) by {
        assert forall|i: int| 0 <= i < n.len() implies #[trigger] (b[i] as char) == n[i] by {
            let u = n[i] as u32;
            assert(b[i] as u32 == u);
            vstd::utf8::char_u32_cast(n[i], u);
        }
    }
    lemma_plain_name_stays_inside(n);
}

/// The bytes of a header, if it is present.
pub open spec fn header_bytes(header: Option<Vec<u8>>) -> Option<Seq<u8>> {
    match header {
        Some(b) => Some(b@),
        None => None,
    }
}

fn trim_trailing_slashes_exec(v: &Vec<char>) -> (r: Vec<char>)
    ensures
        r@ == trim_trailing_slashes(v@),
{
    let mut b = v.len();
    assert(v@.take(b as int) == v@);
    while b > 0 && v[b - 1] == '/'
        invariant
            b <= v.len(),
            trim_trailing_slashes(v@) == trim_trailing_slashes(v@.take(b as int)),
        decreases b,
    {
        assert(v@.take(b as int).drop_last() == v@.take(b - 1));
        b = b - 1;
    }
    slice_chars(v, 0, b)
}

/// The last component of a name as characters.
fn last_component_exec(v: &Vec<char>) -> (r: Vec<char>)
    ensures
        r@ == last_component(v@),
{
    let t = trim_trailing_slashes_exec(v);
    match rfind_char(&t, '/') {
        Some(k) => slice_chars(&t, k + 1, t.len()),
        None => t,
    }
}

fn is_plain_file_name_exec(n: &Vec<char>) -> (b: bool)
    ensures
        b == is_plain_file_name(n@),
{
    if n.len() == 0 {
        return false;
    }
    if n.len() == 1 && n[0] == '.' {
        assert(n@ =~= seq!['.']);
        return false;
    }
    if n.len() == 2 && n[0] == '.' && n[1] == '.' {
        assert(n@ =~= seq!['.', '.']);
        return false;
    }
    assert(n@ != seq!['.']) by {
        if n@ == seq!['.'] {
            assert(n@.len() == 1 && n@[0] == '.');
        }
    }
    assert(n@ != seq!['.', '.']) by {
        if n@ == seq!['.', '.'] {
            assert(n@.len() == 2 && n@[0] == '.' && n@[1] == '.');
        }
    }
    match find_char(n, '/') {
        Some(_) => false,
        None => {
            proof {
                lemma_first_index(n@, '/');
                if n@.contains('/') {
                    let k = choose|k: int| 0 <= k < n@.len() && n@[k] == '/';
                    assert(n@[k] != '/');
                }
            }
            true
        },
    }
}

/// Picks the file name of an upload from the raw bytes of its `X-File-Name` header.
/// Whatever the header holds, the name stays inside the receive directory.
pub fn upload_file_name(header: Option<Vec<u8>>) -> (r: String)
    ensures
        r@ == upload_file_name_spec(header_bytes(header)),
        stays_inside(r@),
{
    proof {
        reveal_strlit("unknown_file");
        assert(is_plain_file_name("unknown_file"@)) by {
            assert("unknown_file"@.len() == 12);
            assert(!"unknown_file"@.contains('/')) by {
                if "unknown_file"@.contains('/') {
                    let k = choose|k: int| 0 <= k < 12 && "unknown_file"@[k] == '/';
                }
            }
            assert("unknown_file"@ != seq!['.']) by {
                assert("unknown_file"@.len() != seq!['.'].len());
            }
            assert("unknown_file"@ != seq!['.', '.']) by {
                assert("unknown_file"@.len() != seq!['.', '.'].len());
            }
        }
        lemma_plain_name_stays_inside("unknown_file"@);
    }
    let ghost hv = header_bytes(header);
    match header {
        None => String::from_str("unknown_file"),
        Some(bytes) => {
            let mut v: Vec<char> = Vec::new();
            let mut i: usize = 0;
            while i < bytes.len()
                invariant
                    i <= bytes.len(),
                    hv == Some(bytes@),
                    hv == header_bytes(header),
                    is_plain_file_name("unknown_file"@),
                    stays_inside("unknown_file"@),
                    v@.len() == i,
                    forall|j: int| 0 <= j < i ==> is_visible_ascii(#[trigger] bytes@[j]),
                    forall|j: int| 0 <= j < i ==> v@[j] == bytes@[j] as char,
                decreases bytes.len() - i,
            {
                let b = bytes[i];
                if !((32 <= b && b < 127) || b == 9) {
                    assert(!is_visible_ascii(bytes@[i as int]));
                    return String::from_str("unknown_file");
                }
                v.push(b as char);
                i = i + 1;
            }
            assert(v@ =~= Seq::new(bytes@.len(), |j: int| bytes@[j] as char));
            if stays_inside_exec(&v) {
                return string_of(&v);
            }
            let n = last_component_exec(&v);
            if is_plain_file_name_exec(&n) {
                proof {
                    lemma_plain_name_stays_inside(n@);
                }
                string_of(&n)
            } else {
                String::from_str("unknown_file")
            }
        },
    }
}

/// How an upload ends, with the status and text that the receiver answers.
#[derive(Clone, Copy, Debug, PartialEq, Eq, Structural)]
pub enum UploadReply {
    /// The file could not be created: 500, `Failed to create file`.
    CreateFailed,
    /// A chunk could not be written: 500, `Failed to write data`.
    WriteFailed,
    /// The request body broke off: 400, `Stream error`.
    StreamError,
    /// The whole body was saved: 200, `File received successfully`.
    Received,
}

/// The HTTP status of a reply.
pub open spec fn reply_status(r: UploadReply) -> u16 {
    match r {
        UploadReply::CreateFailed => 500,
        UploadReply::WriteFailed => 500,
        UploadReply::StreamError => 400,
        UploadReply::Received => 200,
    }
}

/// The body text of a reply.
pub open spec fn reply_text(r: UploadReply) -> Seq<char> {
    match r {
        UploadReply::CreateFailed => "Failed to create file"@,
        UploadReply::WriteFailed => "Failed to write data"@,
        UploadReply::StreamError => "Stream error"@,
        UploadReply::Received => "File received successfully"@,
    }
}

impl UploadReply {
    /// The HTTP status of the reply.
    pub fn status(&self) -> (s: u16)
        ensures
            s == reply_status(*self),
    {
        match self {
            UploadReply::CreateFailed => 500,
            UploadReply::WriteFailed => 500,
            UploadReply::StreamError => 400,
            UploadReply::Received => 200,
        }
    }

    /// The body text of the reply.
    pub fn text(&self) -> (s: String)
        ensures
            s@ == reply_text(*self),
    {
        match self {
            UploadReply::CreateFailed => String::from_str("Failed to create file"),
            UploadReply::WriteFailed => String::from_str("Failed to write data"),
            UploadReply::StreamError => String::from_str("Stream error"),
            UploadReply::Received => String::from_str("File received successfully"),
        }
    }
}

/// Where an upload stands.
#[derive(Clone, Copy, Debug, PartialEq, Eq, Structural)]
pub enum UploadPhase {
    /// The target file is being created.
    Creating,
    /// Waiting for the next frame of the request body.
    Reading,
    /// A data frame is being written to the file.
    Writing,
    /// A reply has been chosen; nothing more happens.
    Done,
}

/// What the receiver learned from its last piece of I/O.
#[derive(Clone, Copy, Debug, PartialEq, Eq, Structural)]
pub enum UploadEvent {
    /// The target file was created.
    Created,
    /// The target file could not be created.
    CreateFailed,
    /// A frame arrived; `true` when it carries data.
    Frame(bool),
    /// The body broke off with an error.
    StreamFailed,
    /// The body ended.
    Ended,
    /// The data of the last frame was written.
    Written,
    /// The data of the last frame could not be written.
    WriteFailed,
}

/// What the receiver does next.
#[derive(Clone, Copy, Debug, PartialEq, Eq, Structural)]
pub enum UploadAction {
    /// Read the next frame of the body.
    ReadFrame,
    /// Write the data of the frame just read.
    WriteFrame,
    /// Answer the request and stop.
    Reply(UploadReply),
}

/// Whether `event` can follow in `phase`: creation outcomes while creating, frame
/// outcomes while reading, write outcomes while writing, nothing once done.
pub open spec fn accepts(phase: UploadPhase, event: UploadEvent) -> bool {
    match phase {
        UploadPhase::Creating => event is Created || event is CreateFailed,
        UploadPhase::Reading => event is Frame || event is StreamFailed || event is Ended,
        UploadPhase::Writing => event is Written || event is WriteFailed,
        UploadPhase::Done => false,
    }
}

/// The phase and action that follow `event` in `phase`.
pub open spec fn upload_next(phase: UploadPhase, event: UploadEvent) -> (UploadPhase, UploadAction) {
    match event {
        UploadEvent::Created => (UploadPhase::Reading, UploadAction::ReadFrame),
        UploadEvent::CreateFailed => (UploadPhase::Done, UploadAction::Reply(UploadReply::CreateFailed)),
        UploadEvent::Frame(has_data) => if has_data {
            (UploadPhase::Writing, UploadAction::WriteFrame)
        } else {
            (UploadPhase::Reading, UploadAction::ReadFrame)
        },
        UploadEvent::StreamFailed => (UploadPhase::Done, UploadAction::Reply(UploadReply::StreamError)),
        UploadEvent::Ended => (UploadPhase::Done, UploadAction::Reply(UploadReply::Received)),
        UploadEvent::Written => (UploadPhase::Reading, UploadAction::ReadFrame),
        UploadEvent::WriteFailed => (UploadPhase::Done, UploadAction::Reply(UploadReply::WriteFailed)),
    }
}

/// An upload is answered exactly once: a step replies exactly when it ends the
/// session, a finished session takes no further event, and the success reply
/// comes only from the end of the body.
pub proof fn lemma_upload_replies_once(phase: UploadPhase, event: UploadEvent)
    requires
        accepts(phase, event),
    ensures
        upload_next(phase, event).1 is Reply <==> upload_next(phase, event).0 == UploadPhase::Done,
        forall|e: UploadEvent| !accepts(UploadPhase::Done, e),
        upload_next(phase, event).1 == UploadAction::Reply(UploadReply::Received) ==> event
            == UploadEvent::Ended,
{
}

/// An upload with data runs through: a new session takes `Created`; then it takes
/// any frame, the end of the body or a stream error; after a data frame it writes
/// the frame and takes `Written` or `WriteFailed`; after a written frame or an
/// empty one it reads on and again takes any frame or the end; and the end of the
/// body is answered with success.
pub proof fn lemma_upload_with_data_runs(p: UploadPhase)
    ensures
        accepts(UploadPhase::Creating, UploadEvent::Created),
        ({
            let q = upload_next(UploadPhase::Creating, UploadEvent::Created).0;
            &&& accepts(q, UploadEvent::Frame(true))
            &&& accepts(q, UploadEvent::Frame(false))
            &&& accepts(q, UploadEvent::Ended)
            &&& accepts(q, UploadEvent::StreamFailed)
        }),
        accepts(p, UploadEvent::Frame(true)) ==> ({
            let (q, a) = upload_next(p, UploadEvent::Frame(true));
            &&& a == UploadAction::WriteFrame
            &&& accepts(q, UploadEvent::Written)
            &&& accepts(q, UploadEvent::WriteFailed)
        }),
        accepts(p, UploadEvent::Written) ==> ({
            let (q, a) = upload_next(p, UploadEvent::Written);
            &&& a == UploadAction::ReadFrame
            &&& accepts(q, UploadEvent::Frame(true))
            &&& accepts(q, UploadEvent::Frame(false))
            &&& accepts(q, UploadEvent::Ended)
        }),
        accepts(p, UploadEvent::Frame(false)) ==> ({
            let (q, a) = upload_next(p, UploadEvent::Frame(false));
            &&& a == UploadAction::ReadFrame
            &&& accepts(q, UploadEvent::Frame(true))
            &&& accepts(q, UploadEvent::Ended)
        }),
        accepts(p, UploadEvent::Ended) ==> upload_next(p, UploadEvent::Ended).1 == UploadAction::Reply(
            UploadReply::Received,
        ),
{
}

/// The progress of one upload through create, read, write, reply.
pub struct UploadSession {
    pub phase: UploadPhase,
}

impl UploadSession {
    /// A session that starts by creating the target file.
    pub fn new() -> (s: Self)
        ensures
            s.phase == UploadPhase::Creating,
    {
        UploadSession { phase: UploadPhase::Creating }
    }

    /// Whether `event` can come next.
    pub fn accepts(&self, event: UploadEvent) -> (b: bool)
        ensures
            b == accepts(self.phase, event),
    {
        match self.phase {
            UploadPhase::Creating => match event {
                UploadEvent::Created | UploadEvent::CreateFailed => true,
                _ => false,
            },
            UploadPhase::Reading => match event {
                UploadEvent::Frame(_) | UploadEvent::StreamFailed | UploadEvent::Ended => true,
                _ => false,
            },
            UploadPhase::Writing => match event {
                UploadEvent::Written | UploadEvent::WriteFailed => true,
                _ => false,
            },
            UploadPhase::Done => false,
        }
    }

    /// Takes in the outcome of the last I/O step and says what to do next.
    pub fn step(&mut self, event: UploadEvent) -> (a: UploadAction)
        requires
            accepts(old(self).phase, event),
        ensures
            (final(self).phase, a) == upload_next(old(self).phase, event),
            a is Reply <==> final(self).phase == UploadPhase::Done,
    {
        let (p, a) = match event {
            UploadEvent::Created => (UploadPhase::Reading, UploadAction::ReadFrame),
            UploadEvent::CreateFailed => (UploadPhase::Done, UploadAction::Reply(UploadReply::CreateFailed)),
            UploadEvent::Frame(has_data) => if has_data {
                (UploadPhase::Writing, UploadAction::WriteFrame)
            } else {
                (UploadPhase::Reading, UploadAction::ReadFrame)
            },
            UploadEvent::StreamFailed => (UploadPhase::Done, UploadAction::Reply(UploadReply::StreamError)),
            UploadEvent::Ended => (UploadPhase::Done, UploadAction::Reply(UploadReply::Received)),
            UploadEvent::Written => (UploadPhase::Reading, UploadAction::ReadFrame),
            UploadEvent::WriteFailed => (UploadPhase::Done, UploadAction::Reply(UploadReply::WriteFailed)),
        };
        self.phase = p;
        a
    }
}

} // verus!

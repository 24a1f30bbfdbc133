//! Path completion for the file prompt of `meshnet send`.

use vstd::prelude::*;
use vstd::string::*;
use crate::order::{char_views, lemma_lex_total_ordering, lex_le, lex_order, sort_lex, string_views, strings_of};
use vstd::relations::sorted_by;
use crate::text::{
    ascii_lower, chars_of, lowercase, push_chars, slice_chars, starts_with, starts_with_exec, string_of,
    to_lowercase_chars, utf8_len, utf8_len_exec,
};

verus! {

/// Completes file paths typed at the prompt, with `~` for the home directory.
#[derive(Clone, Copy, Debug, Default)]
pub struct FilePathCompleter;

/// One entry of the directory being completed in.
#[derive(Clone, Debug)]
pub struct ListedEntry {
    /// The entry's file name.
    pub name: String,
    /// The entry's full path.
    pub path: String,
    /// Whether the entry is a directory.
    pub is_dir: bool,
}

/// The characters of an optional string.
pub open spec fn opt_view(s: Option<String>) -> Option<Seq<char>> {
    match s {
        Some(x) => Some(x@),
        None => None,
    }
}

/// `base` joined with `rest` as `PathBuf::join` does on Unix: an absolute `rest`
/// replaces `base`; otherwise a `/` goes between them unless `base` is empty or
/// already ends with one.
pub open spec fn join_path(base: Seq<char>, rest: Seq<char>) -> Seq<char> {
    if rest.len() > 0 && rest[0] == '/' {
        rest
    } else if base.len() == 0 || base.last() == '/' {
        base + rest
    } else {
        base + seq!['/'] + rest
    }
}

/// `path` with a leading `~` standing for the home directory: `~` alone is the home
/// directory and `~/rest` is `rest` under it; other paths, or any path when the home
/// directory is unknown, stay as they are.
pub open spec fn expand_tilde_spec(path: Seq<char>, home: Option<Seq<char>>) -> Seq<char> {
    match home {
        Some(h) => if path == seq!['~'] {
            h
        } else if starts_with(path, seq!['~', '/']) {
            join_path(h, path.skip(2))
        } else {
            path
        },
        None => path,
    }
}

/// Expands a leading `~` of `path` with the home directory `home`.
pub fn expand_tilde(path: &str, home: Option<String>) -> (r: String)
    ensures
        r@ == expand_tilde_spec(path@, opt_view(home)),
{
    let p = chars_of(path);
    match home {
        None => string_of(&p),
        Some(h) => {
            let mut tilde_slash: Vec<char> = Vec::new();
            tilde_slash.push('~');
            tilde_slash.push('/');
            assert(tilde_slash@ =~= seq!['~', '/']);
            if p.len() == 1 && p[0] == '~' {
                assert(p@ =~= seq!['~']);
                h
            } else if starts_with_exec(&p, &tilde_slash) {
                assert(p@ != seq!['~']);
                let rest = slice_chars(&p, 2, p.len());
                assert(rest@ == p@.skip(2));
                if rest.len() > 0 && rest[0] == '/' {
                    return string_of(&rest);
                }
                let mut v = chars_of(h.as_str());
                if !(v.len() == 0 || v[v.len() - 1] == '/') {
                    v.push('/');
                }
                push_chars(&mut v, &rest);
                assert(v@ =~= join_path(h@, p@.skip(2)));
                string_of(&v)
            } else {
                proof {
                    if p@ == seq!['~'] {
                        assert(p@.len() == 1 && p@[0] == '~');
                    }
                }
                string_of(&p)
            }
        },
    }
}

/// What std's `Path::parent` gives for the path written `p`, as text.
pub uninterp spec fn path_parent(p: Seq<char>) -> Option<Seq<char>>;

/// What std's `Path::file_name` gives for the path written `p`, as text.
pub uninterp spec fn path_file_name(p: Seq<char>) -> Option<Seq<char>>;

/// The parent of the path `p` (std's `Path::parent`); the result is claimed to be
/// the name `path_parent` of `p`, nothing more.
#[verifier::external_body]
fn parent_of(p: &str) -> (r: Option<String>)
    ensures
        opt_view(r) == path_parent(p@),
{
    std::path::Path::new(p).parent().map(|q| q.to_string_lossy().to_string())
}

/// The last component of the path `p` (std's `Path::file_name`); the result is
/// claimed to be the name `path_file_name` of `p`, nothing more.
#[verifier::external_body]
fn file_name_of(p: &str) -> (r: Option<String>)
    ensures
        opt_view(r) == path_file_name(p@),
{
    std::path::Path::new(p).file_name().map(|n| n.to_string_lossy().to_string())
}

/// The file name of `path`, or nothing (empty) when it has none.
pub open spec fn file_name_or_empty(path: Seq<char>) -> Seq<char> {
    match path_file_name(path) {
        Some(n) => n,
        None => Seq::empty(),
    }
}

/// The name under which a file is sent: the last component of its path, or
/// empty when the path has none.
pub fn sent_file_name(path: &str) -> (r: String)
    ensures
        r@ == file_name_or_empty(path@),
{
    match file_name_of(path) {
        Some(n) => n,
        None => String::new(),
    }
}

/// Where completion looks for the expanded input, given what `Path::parent` and
/// `Path::file_name` give for it: in the input itself, completing nothing, when it
/// names a directory; else in its parent (`.` when it has none), completing its
/// file name (empty when it has none). A bare name such as `Cargo` has the empty
/// parent, which also means the current directory, so it is completed in `.` too.
pub open spec fn target_from_parts_spec(
    expanded: Seq<char>,
    is_dir: bool,
    parent: Option<Seq<char>>,
    name: Option<Seq<char>>,
) -> (Seq<char>, Seq<char>) {
    if is_dir {
        (expanded, Seq::empty())
    } else {
        (
            match parent {
                Some(d) => if d.len() > 0 {
                    d
                } else {
                    "."@
                },
                None => "."@,
            },
            match name {
                Some(n) => n,
                None => Seq::empty(),
            },
        )
    }
}

/// The directory to list and the prefix to complete, from the expanded input and
/// the parent and file name of its path.
pub fn target_from_parts(expanded: &str, is_dir: bool, parent: Option<String>, name: Option<String>) -> (r: (String, String))
    ensures
        (r.0@, r.1@) == target_from_parts_spec(expanded@, is_dir, opt_view(parent), opt_view(name)),
{
    if is_dir {
        (String::from_str(expanded), String::new())
    } else {
        let dir = match parent {
            Some(d) => if d.as_str().is_empty() {
                String::from_str(".")
            } else {
                d
            },
            None => String::from_str("."),
        };
        let prefix = match name {
            Some(n) => n,
            None => String::new(),
        };
        (dir, prefix)
    }
}

/// Where completion looks for the expanded input.
pub open spec fn completion_target_spec(expanded: Seq<char>, is_dir: bool) -> (Seq<char>, Seq<char>) {
    target_from_parts_spec(expanded, is_dir, path_parent(expanded), path_file_name(expanded))
}

/// The directory to list and the file-name prefix to complete for the expanded
/// input, given whether it names a directory.
pub fn completion_target(expanded: &str, is_dir: bool) -> (r: (String, String))
    ensures
        (r.0@, r.1@) == completion_target_spec(expanded@, is_dir),
{
    let parent = parent_of(expanded);
    let name = file_name_of(expanded);
    target_from_parts(expanded, is_dir, parent, name)
}

/// What std's `Path::strip_prefix` gives for the path `full` and the base `base`:
/// the rest of `full` below `base`, compared component by component, as text.
pub uninterp spec fn path_strip_prefix(full: Seq<char>, base: Seq<char>) -> Option<Seq<char>>;

/// The part of the path `full` below `base` (std's `Path::strip_prefix`, shown as
/// text); the result is claimed to be the name `path_strip_prefix` of the two
/// paths, nothing more.
#[verifier::external_body]
fn strip_prefix_of(full: &str, base: &str) -> (r: Option<String>)
    ensures
        opt_view(r) == path_strip_prefix(full@, base@),
{
    std::path::Path::new(full).strip_prefix(base).ok().map(|q| q.display().to_string())
}

/// Whether the typed input starts from the home directory (`~` or `~/...`).
pub open spec fn is_tilde_input(input: Seq<char>) -> bool {
    input == seq!['~'] || starts_with(input, seq!['~', '/'])
}

/// How a completion shows the path `full`: when the user typed a `~` path and
/// `full` lies under the home directory, as `~/` and the rest; else as it is.
pub open spec fn display_path_spec(input: Seq<char>, full: Seq<char>, home: Option<Seq<char>>) -> Seq<char> {
    match home {
        Some(h) => display_from_strip_spec(input, full, path_strip_prefix(full, h)),
        None => full,
    }
}

fn is_tilde_input_exec(input: &Vec<char>) -> (b: bool)
    ensures
        b == is_tilde_input(input@),
{
    let mut tilde_slash: Vec<char> = Vec::new();
    tilde_slash.push('~');
    tilde_slash.push('/');
    assert(tilde_slash@ =~= seq!['~', '/']);
    if input.len() == 1 && input[0] == '~' {
        assert(input@ =~= seq!['~']);
        true
    } else {
        proof {
            if input@ == seq!['~'] {
                assert(input@.len() == 1 && input@[0] == '~');
            }
        }
        starts_with_exec(input, &tilde_slash)
    }
}

/// How `full` is shown for `input` when the home directory is known, given what
/// `Path::strip_prefix` gives for `full` and the home directory.
pub open spec fn display_from_strip_spec(input: Seq<char>, full: Seq<char>, stripped: Option<Seq<char>>) -> Seq<char> {
    if is_tilde_input(input) {
        match stripped {
            Some(rest) => seq!['~', '/'] + rest,
            None => full,
        }
    } else {
        full
    }
}

/// Shows `full` for `input`, from the part of `full` below the home directory.
pub fn display_from_strip(input: &str, full: &str, stripped: Option<String>) -> (r: String)
    ensures
        r@ == display_from_strip_spec(input@, full@, opt_view(stripped)),
{
    let inp = chars_of(input);
    if is_tilde_input_exec(&inp) {
        match stripped {
            Some(rest) => {
                let mut v: Vec<char> = Vec::new();
                v.push('~');
                v.push('/');
                let rc = chars_of(rest.as_str());
                push_chars(&mut v, &rc);
                assert(v@ =~= seq!['~', '/'] + rest@);
                string_of(&v)
            },
            None => String::from_str(full),
        }
    } else {
        String::from_str(full)
    }
}

fn display_path_text(input: &str, full: &str, home: &Option<String>) -> (r: String)
    ensures
        r@ == display_path_spec(input@, full@, opt_view(*home)),
{
    match home {
        Some(h) => {
            let stripped = strip_prefix_of(full, h.as_str());
            display_from_strip(input, full, stripped)
        },
        None => String::from_str(full),
    }
}

/// Shows `full` as a completion of `input`, given the home directory.
pub fn to_display_path(input: &str, full: &str, home: Option<String>) -> (r: String)
    ensures
        r@ == display_path_spec(input@, full@, opt_view(home)),
{
    display_path_text(input, full, &home)
}



/// Whether a directory entry named `name` is offered for the typed file-name
/// `prefix`: hidden entries only when the prefix is hidden too, and only names that
/// start with the prefix, ignoring case.
pub open spec fn entry_offered(name: Seq<char>, prefix: Seq<char>) -> bool {
    &&& !(starts_with(name, seq!['.']) && !starts_with(prefix, seq!['.']))
    &&& (prefix.len() == 0 || starts_with(lowercase(name), lowercase(prefix)))
}

/// How an offered entry is shown: its path as `to_display_path` shows it, with a
/// trailing `/` for a directory.
pub open spec fn entry_text(input: Seq<char>, home: Option<Seq<char>>, e: ListedEntry) -> Seq<char> {
    let d = display_path_spec(input, e.path@, home);
    if e.is_dir {
        d.push('/')
    } else {
        d
    }
}

/// The offered entries, shown, in listing order.
pub open spec fn offered(
    input: Seq<char>,
    home: Option<Seq<char>>,
    prefix: Seq<char>,
    entries: Seq<ListedEntry>,
) -> Seq<Seq<char>>
    decreases entries.len(),
{
    if entries.len() == 0 {
        Seq::empty()
    } else {
        let acc = offered(input, home, prefix, entries.drop_last());
        let e = entries.last();
        if entry_offered(e.name@, prefix) {
            acc.push(entry_text(input, home, e))
        } else {
            acc
        }
    }
}

/// At most this many suggestions are shown.
pub const MAX_SUGGESTIONS: usize = 20;

/// The suggestions for `input`: none for empty input, else the offered entries
/// sorted, and only the first twenty of them.
pub open spec fn suggestions_spec(
    input: Seq<char>,
    home: Option<Seq<char>>,
    prefix: Seq<char>,
    entries: Seq<ListedEntry>,
) -> Seq<Seq<char>> {
    if input.len() == 0 {
        Seq::empty()
    } else {
        let sorted = offered(input, home, prefix, entries).sort_by(lex_order());
        if sorted.len() > MAX_SUGGESTIONS {
            sorted.take(MAX_SUGGESTIONS as int)
        } else {
            sorted
        }
    }
}

fn entry_offered_exec(name: &Vec<char>, prefix: &Vec<char>, prefix_lower: &Vec<char>) -> (b: bool)
    requires
        prefix_lower@ == lowercase(prefix@),
    ensures
        b == entry_offered(name@, prefix@),
{
    let mut dot: Vec<char> = Vec::new();
    dot.push('.');
    assert(dot@ =~= seq!['.']);
    if starts_with_exec(name, &dot) && !starts_with_exec(prefix, &dot) {
        return false;
    }
    if prefix.len() == 0 {
        return true;
    }
    let lower = to_lowercase_chars(name);
    starts_with_exec(&lower, prefix_lower)
}

impl FilePathCompleter {
    /// The suggestions for `input`, given the home directory, the file-name part
    /// `prefix` being completed (empty when `input` names a directory), and the
    /// entries of the directory being completed in.
    pub fn get_suggestions(
        &self,
        input: &str,
        home: Option<String>,
        prefix: &str,
        entries: &Vec<ListedEntry>,
    ) -> (r: Vec<String>)
        ensures
            string_views(r@) == suggestions_spec(input@, opt_view(home), prefix@, entries@),
            string_views(r@) == suggestions_spec(
                input@,
                opt_view(home),
                ascii_lower(prefix@),
                entries@,
            ),
    {
        let pre = chars_of(prefix);
        let pre_lower = to_lowercase_chars(&pre);
        proof {
            lemma_offered_ascii(input@, opt_view(home), prefix@, entries@);
        }
        let inp = chars_of(input);
        if inp.len() == 0 {
            let r: Vec<String> = Vec::new();
            assert(string_views(r@) =~= Seq::<Seq<char>>::empty());
            return r;
        }
        let ghost hv = opt_view(home);
        let mut cands: Vec<Vec<char>> = Vec::new();
        assert(entries@.take(0) =~= Seq::<ListedEntry>::empty());
        assert(char_views(cands@) =~= Seq::<Seq<char>>::empty());
        for i in 0..entries.len()
            invariant
                inp@ == input@,
                pre@ == prefix@,
                pre_lower@ == lowercase(prefix@),
                hv == opt_view(home),
                char_views(cands@) == offered(input@, hv, prefix@, entries@.take(i as int)),
        {
            assert(entries@.take(i + 1).drop_last() =~= entries@.take(i as int));
            assert(entries@.take(i + 1).last() == entries@[i as int]);
            let name = chars_of(entries[i].name.as_str());
            if entry_offered_exec(&name, &pre, &pre_lower) {
                let text = display_path_text(input, entries[i].path.as_str(), &home);
                let mut shown = chars_of(text.as_str());
                if entries[i].is_dir {
                    shown.push('/');
                }
                let ghost c0 = char_views(cands@);
                cands.push(shown);
                assert(char_views(cands@) =~= c0.push(entry_text(input@, hv, entries@[i as int])));
            }
        }
        assert(entries@.take(entries.len() as int) =~= entries@);
        let mut sorted = sort_lex(cands);
        if sorted.len() > MAX_SUGGESTIONS {
            let ghost sv = char_views(sorted@);
            sorted.truncate(MAX_SUGGESTIONS);
            assert(char_views(sorted@) =~= sv.take(MAX_SUGGESTIONS as int));
        }
        strings_of(&sorted)
    }
}


/// How many leading characters `a` and `b` share.
pub open spec fn common_prefix_len(a: Seq<char>, b: Seq<char>) -> nat
    decreases a.len(),
{
    if a.len() == 0 || b.len() == 0 || a[0] != b[0] {
        0
    } else {
        1 + common_prefix_len(a.drop_first(), b.drop_first())
    }
}

/// How many leading characters `first` shares with every sequence of `rest`.
pub open spec fn shared_prefix_len(first: Seq<char>, rest: Seq<Seq<char>>) -> nat
    decreases rest.len(),
{
    if rest.len() == 0 {
        first.len()
    } else {
        let k = shared_prefix_len(first, rest.drop_last());
        let c = common_prefix_len(first, rest.last());
        if c < k { c } else { k }
    }
}

proof fn lemma_common_prefix_len(a: Seq<char>, b: Seq<char>)
    ensures
        common_prefix_len(a, b) <= a.len(),
        common_prefix_len(a, b) <= b.len(),
        a.take(common_prefix_len(a, b) as int) == b.take(common_prefix_len(a, b) as int),
        common_prefix_len(a, b) < a.len() && common_prefix_len(a, b) < b.len() ==> a[common_prefix_len(a, b) as int] != b[common_prefix_len(a, b) as int],
    decreases a.len(),
{
    if a.len() == 0 || b.len() == 0 || a[0] != b[0] {
        assert(a.take(0) =~= b.take(0));
    } else {
        lemma_common_prefix_len(a.drop_first(), b.drop_first());
        let k = common_prefix_len(a, b);
        assert(a.take(k as int) =~= seq![a[0]] + a.drop_first().take(k - 1));
        assert(b.take(k as int) =~= seq![b[0]] + b.drop_first().take(k - 1));
    }
}

/// The shared prefix of `first` and `rest` is a prefix of each of them, and no
/// longer prefix is shared: one character more would leave some sequence of `rest`
/// behind (when `rest` has any).
pub proof fn lemma_shared_prefix(first: Seq<char>, rest: Seq<Seq<char>>)
    ensures
        shared_prefix_len(first, rest) <= first.len(),
        forall|j: int|
            0 <= j < rest.len() ==> shared_prefix_len(first, rest) <= (#[trigger] rest[j]).len()
                && rest[j].take(shared_prefix_len(first, rest) as int) == first.take(
                shared_prefix_len(first, rest) as int,
            ),
        rest.len() > 0 && shared_prefix_len(first, rest) < first.len() ==> exists|j: int|
            0 <= j < rest.len() && (shared_prefix_len(first, rest) == (#[trigger] rest[j]).len()
                || rest[j][shared_prefix_len(first, rest) as int] != first[shared_prefix_len(
                first,
                rest,
            ) as int]),
    decreases rest.len(),
{
    if rest.len() > 0 {
        let r0 = rest.drop_last();
        lemma_shared_prefix(first, r0);
        let last = rest.last();
        lemma_common_prefix_len(first, last);
        let k0 = shared_prefix_len(first, r0);
        let c = common_prefix_len(first, last);
        let k = shared_prefix_len(first, rest);
        assert forall|j: int| 0 <= j < rest.len() implies k <= (#[trigger] rest[j]).len()
            && rest[j].take(k as int) == first.take(k as int) by {
            if j < rest.len() - 1 {
                assert(rest[j] == r0[j]);
                assert(rest[j].take(k as int) =~= rest[j].take(k0 as int).take(k as int));
                assert(first.take(k as int) =~= first.take(k0 as int).take(k as int));
            } else {
                assert(rest[j].take(k as int) =~= rest[j].take(c as int).take(k as int));
                assert(first.take(k as int) =~= first.take(c as int).take(k as int));
            }
        }
        if k < first.len() {
            if c < k0 {
                let j = rest.len() - 1;
                assert(rest[j] == last);
            } else {
                if r0.len() > 0 {
                    let j = choose|j: int|
                        0 <= j < r0.len() && (k0 == (#[trigger] r0[j]).len() || r0[j][k0 as int]
                            != first[k0 as int]);
                    assert(rest[j] == r0[j]);
                } else {
                    assert(k0 == first.len());
                }
            }
        }
    }
}

/// The completion for `input` (what Tab fills in): the highlighted suggestion if
/// there is one; else nothing without suggestions, the only suggestion if there is
/// one, and otherwise the prefix all suggestions share, when it is longer in bytes
/// than the input.
pub open spec fn completion_spec(
    input: Seq<char>,
    highlighted: Option<Seq<char>>,
    suggestions: Seq<Seq<char>>,
) -> Option<Seq<char>> {
    match highlighted {
        Some(h) => Some(h),
        None => if suggestions.len() == 0 {
            None
        } else if suggestions.len() == 1 {
            Some(suggestions[0])
        } else {
            let first = suggestions[0];
            let p = first.take(shared_prefix_len(first, suggestions.skip(1)) as int);
            if utf8_len(p) > utf8_len(input) {
                Some(p)
            } else {
                None
            }
        },
    }
}

fn common_prefix_len_exec(a: &Vec<char>, b: &Vec<char>) -> (n: usize)
    ensures
        n == common_prefix_len(a@, b@),
{
    let mut i: usize = 0;
    assert(a@.skip(0) == a@);
    assert(b@.skip(0) == b@);
    while i < a.len() && i < b.len() && a[i] == b[i]
        invariant
            i <= a.len(),
            i <= b.len(),
            common_prefix_len(a@, b@) == i + common_prefix_len(a@.skip(i as int), b@.skip(i as int)),
        decreases a.len() - i,
    {
        assert(a@.skip(i as int).drop_first() == a@.skip(i + 1));
        assert(b@.skip(i as int).drop_first() == b@.skip(i + 1));
        i = i + 1;
    }
    i
}

impl FilePathCompleter {
    /// What Tab fills in for `input`, given the highlighted suggestion and the
    /// suggestions for `input`.
    pub fn get_completion(&self, input: &str, highlighted: Option<String>, suggestions: &Vec<String>) -> (r: Option<String>)
        ensures
            opt_view(r) == completion_spec(input@, opt_view(highlighted), string_views(suggestions@)),
    {
        if let Some(s) = highlighted {
            return Some(s);
        }
        let ghost sv = string_views(suggestions@);
        if suggestions.len() == 0 {
            return None;
        }
        if suggestions.len() == 1 {
            return Some(suggestions[0].clone());
        }
        let first = chars_of(suggestions[0].as_str());
        let mut common = first.len();
        let mut i: usize = 1;
        assert(sv.skip(1).take(0) =~= Seq::<Seq<char>>::empty());
        while i < suggestions.len()
            invariant
                1 <= i <= suggestions.len(),
                sv == string_views(suggestions@),
                first@ == sv[0],
                common == shared_prefix_len(first@, sv.skip(1).take(i - 1)),
            decreases suggestions.len() - i,
        {
            let s = chars_of(suggestions[i].as_str());
            let c = common_prefix_len_exec(&first, &s);
            assert(sv.skip(1).take(i as int).drop_last() =~= sv.skip(1).take(i - 1));
            assert(sv.skip(1).take(i as int).last() == s@);
            if c < common {
                common = c;
            }
            i = i + 1;
        }
        assert(sv.skip(1).take(i - 1) =~= sv.skip(1));
        proof {
            lemma_shared_prefix(first@, sv.skip(1));
        }
        let prefix = slice_chars(&first, 0, common);
        let inp = chars_of(input);
        if utf8_len_exec(&prefix) > utf8_len_exec(&inp) {
            Some(string_of(&prefix))
        } else {
            None
        }
    }
}


/// Suggestions come sorted, at most twenty of them, and each one is a shown entry
/// of the listing.
pub proof fn lemma_suggestions(
    input: Seq<char>,
    home: Option<Seq<char>>,
    prefix: Seq<char>,
    entries: Seq<ListedEntry>,
)
    ensures
        suggestions_spec(input, home, prefix, entries).len() <= MAX_SUGGESTIONS,
        sorted_by(suggestions_spec(input, home, prefix, entries), lex_order()),
        forall|i: int|
            0 <= i < suggestions_spec(input, home, prefix, entries).len() ==> offered(
                input,
                home,
                prefix,
                entries,
            ).contains(#[trigger] suggestions_spec(input, home, prefix, entries)[i]),
{
    if input.len() > 0 {
        let all = offered(input, home, prefix, entries);
        lemma_lex_total_ordering();
        all.lemma_sort_by_ensures(lex_order());
        let sorted = all.sort_by(lex_order());
        let s = suggestions_spec(input, home, prefix, entries);
        assert forall|i: int| 0 <= i < s.len() implies all.contains(#[trigger] s[i]) by {
            assert(s[i] == sorted[i]);
            assert(sorted.contains(sorted[i]));
        }
        assert forall|i: int, j: int| 0 <= i < j < s.len() implies #[trigger] lex_order()(
            s[i],
            s[j],
        ) by {
            assert(s[i] == sorted[i] && s[j] == sorted[j]);
        }
    }
}


proof fn lemma_ascii_lower_keeps_dot(p: Seq<char>)
    ensures
        ascii_lower(p).len() == p.len(),
        starts_with(ascii_lower(p), seq!['.']) == starts_with(p, seq!['.']),
{
    if p.len() > 0 {
        if 'A' <= p[0] <= 'Z' {
            // a small ASCII letter, not `.`
            let u = (p[0] as u32) + 32;
            assert((u as char) as u32 == u);
        }
        let q = ascii_lower(p);
        assert(starts_with(p, seq!['.']) == (p[0] == '.')) by {
            if starts_with(p, seq!['.']) {
                assert(p.subrange(0, 1)[0] == seq!['.'][0]);
            }
            if p[0] == '.' {
                assert(p.subrange(0, 1) =~= seq!['.']);
            }
        }
        assert(starts_with(q, seq!['.']) == (q[0] == '.')) by {
            if starts_with(q, seq!['.']) {
                assert(q.subrange(0, 1)[0] == seq!['.'][0]);
            }
            if q[0] == '.' {
                assert(q.subrange(0, 1) =~= seq!['.']);
            }
        }
    }
}

/// Offering entries for `prefix` or for its ASCII-lower-cased form is the same,
/// given that lower-casing does not tell them apart.
proof fn lemma_offered_ascii(
    input: Seq<char>,
    home: Option<Seq<char>>,
    prefix: Seq<char>,
    entries: Seq<ListedEntry>,
)
    requires
        lowercase(prefix) == lowercase(ascii_lower(prefix)),
    ensures
        offered(input, home, prefix, entries) == offered(input, home, ascii_lower(prefix), entries),
        suggestions_spec(input, home, prefix, entries) == suggestions_spec(
            input,
            home,
            ascii_lower(prefix),
            entries,
        ),
    decreases entries.len(),
{
    lemma_ascii_lower_keeps_dot(prefix);
    if entries.len() > 0 {
        lemma_offered_ascii(input, home, prefix, entries.drop_last());
        let n = entries.last().name@;
        assert(entry_offered(n, prefix) == entry_offered(n, ascii_lower(prefix)));
    }
}

/// Suggestions depend on the typed input only through whether it is empty and
/// whether it starts from the home directory.
proof fn lemma_offered_input(
    input1: Seq<char>,
    input2: Seq<char>,
    home: Option<Seq<char>>,
    prefix: Seq<char>,
    entries: Seq<ListedEntry>,
)
    requires
        is_tilde_input(input1) == is_tilde_input(input2),
    ensures
        offered(input1, home, prefix, entries) == offered(input2, home, prefix, entries),
    decreases entries.len(),
{
    if entries.len() > 0 {
        lemma_offered_input(input1, input2, home, prefix, entries.drop_last());
        let e = entries.last();
        assert(entry_text(input1, home, e) == entry_text(input2, home, e));
    }
}

/// Prefix matching ignores ASCII case: two completions in the same listing whose
/// typed inputs are both non-empty and alike in starting from `~` or not, and
/// whose file-name prefixes differ only in the case of ASCII letters, give the same
/// suggestions (`get_suggestions` returns `suggestions_spec` of the ASCII-lower-cased
/// prefix).
pub proof fn lemma_suggestions_ignore_ascii_case(
    input1: Seq<char>,
    input2: Seq<char>,
    home: Option<Seq<char>>,
    prefix1: Seq<char>,
    prefix2: Seq<char>,
    entries: Seq<ListedEntry>,
)
    requires
        input1.len() > 0,
        input2.len() > 0,
        is_tilde_input(input1) == is_tilde_input(input2),
        ascii_lower(prefix1) == ascii_lower(prefix2),
    ensures
        suggestions_spec(input1, home, ascii_lower(prefix1), entries) == suggestions_spec(
            input2,
            home,
            ascii_lower(prefix2),
            entries,
        ),
{
    lemma_offered_input(input1, input2, home, ascii_lower(prefix1), entries);
}


/// When the offered entries are shown as pairwise distinct paths, the suggestions
/// are strictly ascending.
pub proof fn lemma_suggestions_strictly_ascending(
    input: Seq<char>,
    home: Option<Seq<char>>,
    prefix: Seq<char>,
    entries: Seq<ListedEntry>,
)
    requires
        offered(input, home, prefix, entries).no_duplicates(),
    ensures
        forall|i: int, j: int|
            0 <= i < j < suggestions_spec(input, home, prefix, entries).len() ==> lex_le(
                suggestions_spec(input, home, prefix, entries)[i],
                suggestions_spec(input, home, prefix, entries)[j],
            ) && suggestions_spec(input, home, prefix, entries)[i] != suggestions_spec(
                input,
                home,
                prefix,
                entries,
            )[j],
{
    lemma_suggestions(input, home, prefix, entries);
    if input.len() > 0 {
        let all = offered(input, home, prefix, entries);
        lemma_lex_total_ordering();
        all.lemma_sort_by_ensures(lex_order());
        all.lemma_multiset_has_no_duplicates();
        let sorted = all.sort_by(lex_order());
        sorted.lemma_multiset_has_no_duplicates_conv();
        let s = suggestions_spec(input, home, prefix, entries);
        assert forall|i: int, j: int| 0 <= i < j < s.len() implies lex_le(s[i], s[j]) && s[i]
            != s[j] by {
            assert(s[i] == sorted[i] && s[j] == sorted[j]);
            assert(lex_order()(s[i], s[j]));
        }
    }
}


spec fn offered_from(
    text: Seq<char>,
    input: Seq<char>,
    home: Option<Seq<char>>,
    prefix: Seq<char>,
    e: ListedEntry,
) -> bool {
    entry_offered(e.name@, prefix) && text == entry_text(input, home, e)
}

proof fn lemma_offered_from_entry(
    input: Seq<char>,
    home: Option<Seq<char>>,
    prefix: Seq<char>,
    entries: Seq<ListedEntry>,
    k: int,
) -> (j: int)
    requires
        0 <= k < offered(input, home, prefix, entries).len(),
    ensures
        0 <= j < entries.len(),
        offered_from(offered(input, home, prefix, entries)[k], input, home, prefix, entries[j]),
    decreases entries.len(),
{
    let e0 = entries.drop_last();
    let o = offered(input, home, prefix, entries);
    let o0 = offered(input, home, prefix, e0);
    if k < o0.len() {
        assert(o[k] == o0[k]);
        let j = lemma_offered_from_entry(input, home, prefix, e0, k);
        assert(entries[j] == e0[j]);
        j
    } else {
        let j = entries.len() - 1;
        assert(entries[j] == entries.last());
        j
    }
}

/// Whether `text` is the shown path of the entry `e` (with `/` added for a
/// directory), `e`'s lower-cased name begins with the lower-cased `prefix` (any
/// name does for an empty prefix), and `e` is hidden only if the prefix is too.
pub open spec fn shown_for_prefix(
    text: Seq<char>,
    input: Seq<char>,
    home: Option<Seq<char>>,
    prefix: Seq<char>,
    e: ListedEntry,
) -> bool {
    let n = lowercase(e.name@);
    let w = lowercase(prefix);
    &&& (prefix.len() == 0 || (w.len() <= n.len() && n.subrange(0, w.len() as int) == w))
    &&& (e.name@.len() > 0 && e.name@[0] == '.' ==> prefix.len() > 0 && prefix[0] == '.')
    &&& text == if e.is_dir {
        display_path_spec(input, e.path@, home).push('/')
    } else {
        display_path_spec(input, e.path@, home)
    }
}

/// Every suggestion is the shown path of a listed entry whose lower-cased name
/// begins with the lower-cased typed prefix (so `score.txt` is never suggested for
/// the prefix `re`), and a hidden entry is suggested only for a hidden prefix.
pub proof fn lemma_suggestions_start_with_prefix(
    input: Seq<char>,
    home: Option<Seq<char>>,
    prefix: Seq<char>,
    entries: Seq<ListedEntry>,
)
    ensures
        forall|k: int|
            #![trigger suggestions_spec(input, home, prefix, entries)[k]]
            0 <= k && k < suggestions_spec(input, home, prefix, entries).len() ==> exists|j: int|
                #![trigger entries[j]]
                0 <= j && j < entries.len() && shown_for_prefix(
                    suggestions_spec(input, home, prefix, entries)[k],
                    input,
                    home,
                    prefix,
                    entries[j],
                ),
{
    lemma_suggestions(input, home, prefix, entries);
    let s = suggestions_spec(input, home, prefix, entries);
    let o = offered(input, home, prefix, entries);
    assert forall|k: int|
        #![trigger suggestions_spec(input, home, prefix, entries)[k]]
        0 <= k && k < suggestions_spec(input, home, prefix, entries).len() implies exists|j: int|
            #![trigger entries[j]]
            0 <= j && j < entries.len() && shown_for_prefix(
                suggestions_spec(input, home, prefix, entries)[k],
                input,
                home,
                prefix,
                entries[j],
            ) by {
        assert(o.contains(s[k]));
        let m = choose|m: int| 0 <= m < o.len() && o[m] == s[k];
        let j = lemma_offered_from_entry(input, home, prefix, entries, m);
        let e = entries[j];
        if e.name@.len() > 0 && e.name@[0] == '.' {
            assert(e.name@.subrange(0, 1) =~= seq!['.']);
            assert(starts_with(e.name@, seq!['.']));
            assert(starts_with(prefix, seq!['.']));
            assert(prefix.subrange(0, 1)[0] == '.');
        }
        assert(shown_for_prefix(s[k], input, home, prefix, e));
    }
}

proof fn lemma_offered_contains(
    input: Seq<char>,
    home: Option<Seq<char>>,
    prefix: Seq<char>,
    entries: Seq<ListedEntry>,
    j: int,
)
    requires
        0 <= j < entries.len(),
        entry_offered(entries[j].name@, prefix),
    ensures
        offered(input, home, prefix, entries).contains(entry_text(input, home, entries[j])),
        offered(input, home, prefix, entries).len() <= entries.len(),
    decreases entries.len(),
{
    let e0 = entries.drop_last();
    let o = offered(input, home, prefix, entries);
    let o0 = offered(input, home, prefix, e0);
    if j < entries.len() - 1 {
        assert(e0[j] == entries[j]);
        lemma_offered_contains(input, home, prefix, e0, j);
        let m = choose|m: int| 0 <= m < o0.len() && o0[m] == entry_text(input, home, entries[j]);
        assert(o[m] == o0[m]);
    } else {
        assert(entries.last() == entries[j]);
        assert(o[o.len() - 1] == entry_text(input, home, entries[j]));
        if e0.len() > 0 {
            lemma_offered_len(input, home, prefix, e0);
        }
    }
}

proof fn lemma_offered_len(
    input: Seq<char>,
    home: Option<Seq<char>>,
    prefix: Seq<char>,
    entries: Seq<ListedEntry>,
)
    ensures
        offered(input, home, prefix, entries).len() <= entries.len(),
    decreases entries.len(),
{
    if entries.len() > 0 {
        lemma_offered_len(input, home, prefix, entries.drop_last());
    }
}

/// In a listing of at most twenty entries, every entry whose lower-cased name
/// begins with the lower-cased typed prefix, and which is hidden only if the
/// prefix is too, is suggested (as its shown path, with `/` for a directory).
pub proof fn lemma_matching_entries_are_suggested(
    input: Seq<char>,
    home: Option<Seq<char>>,
    prefix: Seq<char>,
    entries: Seq<ListedEntry>,
    j: int,
)
    requires
        input.len() > 0,
        entries.len() <= MAX_SUGGESTIONS,
        0 <= j < entries.len(),
        prefix.len() == 0 || (lowercase(prefix).len() <= lowercase(entries[j].name@).len()
            && lowercase(entries[j].name@).subrange(0, lowercase(prefix).len() as int) == lowercase(prefix)),
        entries[j].name@.len() > 0 && entries[j].name@[0] == '.' ==> prefix.len() > 0 && prefix[0] == '.',
    ensures
        suggestions_spec(input, home, prefix, entries).contains(
            if entries[j].is_dir {
                display_path_spec(input, entries[j].path@, home).push('/')
            } else {
                display_path_spec(input, entries[j].path@, home)
            },
        ),
{
    broadcast use {vstd::seq_lib::group_to_multiset_ensures, vstd::multiset::group_multiset_axioms};

    let e = entries[j];
    if starts_with(e.name@, seq!['.']) {
        assert(e.name@.subrange(0, 1)[0] == '.');
        assert(prefix.subrange(0, 1) =~= seq!['.']);
    }
    assert(entry_offered(e.name@, prefix));
    lemma_offered_contains(input, home, prefix, entries, j);
    let o = offered(input, home, prefix, entries);
    lemma_lex_total_ordering();
    o.lemma_sort_by_ensures(lex_order());
    let sorted = o.sort_by(lex_order());
    assert(o.to_multiset().count(entry_text(input, home, e)) > 0);
    assert(sorted.to_multiset().count(entry_text(input, home, e)) > 0);
    assert(sorted.len() == o.len()) by {
        assert(sorted.to_multiset().len() == o.to_multiset().len());
    }
}

/// Without a highlighted suggestion, a completion is a prefix of every suggestion,
/// and no longer prefix is shared by all of them.
pub proof fn lemma_completion_is_longest_common_prefix(
    input: Seq<char>,
    suggestions: Seq<Seq<char>>,
    p: Seq<char>,
)
    requires
        completion_spec(input, None, suggestions) == Some(p),
    ensures
        suggestions.len() > 0,
        forall|j: int|
            0 <= j < suggestions.len() ==> p.len() <= (#[trigger] suggestions[j]).len()
                && suggestions[j].subrange(0, p.len() as int) == p,
        p.len() == suggestions[0].len() || exists|j: int|
            0 <= j < suggestions.len() && (p.len() == (#[trigger] suggestions[j]).len()
                || suggestions[j][p.len() as int] != suggestions[0][p.len() as int]),
{
    if suggestions.len() == 1 {
        assert(suggestions[0].subrange(0, p.len() as int) =~= p);
    } else {
        let first = suggestions[0];
        let rest = suggestions.skip(1);
        lemma_shared_prefix(first, rest);
        let k = shared_prefix_len(first, rest);
        assert(p == first.take(k as int));
        assert forall|j: int| 0 <= j < suggestions.len() implies p.len() <= (
        #[trigger] suggestions[j]).len() && suggestions[j].subrange(0, p.len() as int) == p by {
            if j > 0 {
                assert(suggestions[j] == rest[j - 1]);
            } else {
                assert(first.subrange(0, k as int) =~= first.take(k as int));
            }
        }
        if k < first.len() {
            let j = choose|j: int|
                0 <= j < rest.len() && (k == (#[trigger] rest[j]).len() || rest[j][k as int]
                    != first[k as int]);
            assert(suggestions[j + 1] == rest[j]);
        }
    }
}

/// A typed path that does not begin with `~` comes back unchanged, whatever the
/// home directory; `~/rest` goes under the home directory with one `/` between.
pub proof fn lemma_expand_tilde_only_home_paths(path: Seq<char>, home: Option<Seq<char>>, rest: Seq<char>)
    ensures
        (path.len() == 0 || path[0] != '~') ==> expand_tilde_spec(path, home) == path,
        home is None ==> expand_tilde_spec(path, home) == path,
        home is Some && home->0.len() > 0 && home->0.last() != '/' && (rest.len() == 0 || rest[0]
            != '/') ==> expand_tilde_spec(seq!['~', '/'] + rest, home) == home->0 + seq!['/'] + rest,
{
    if path.len() > 0 && path[0] != '~' {
        if starts_with(path, seq!['~', '/']) {
            assert(path.subrange(0, 2)[0] == '~');
        }
        assert(path != seq!['~']);
    }
    if path.len() == 0 {
        assert(path != seq!['~']);
        assert(!starts_with(path, seq!['~', '/']));
    }
    let t = seq!['~', '/'] + rest;
    assert(t.subrange(0, 2) =~= seq!['~', '/']);
    assert(t.skip(2) =~= rest);
    assert(t != seq!['~']) by {
        assert(t.len() >= 2);
    }
}

} // verus!

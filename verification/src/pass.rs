//! The password store: its entries, and how a password reaches the clipboard.

use vstd::prelude::*;
use vstd::utf8::{decode_utf8, encode_utf8, valid_utf8};

use crate::apps::{
    app_names, by_name, law_sorted_apps, lemma_by_name_in_range, order_by_name, sorted_apps,
    AppModel,
};
use crate::config::{join_path, joined_path};
use crate::paths::{
    below, extension, file_name, is_plain_dir, is_plain_rel, law_name_parts,
    law_stem_and_extension, lemma_plain_rel_ending, name_stem, path_below, path_extension,
    path_file_name, path_without_extension, without_extension,
};
use crate::text::{
    chars_of, decimal, first_line, head_line, law_carriage_return, law_lines, lowercase, opt_text,
    push_decimal, same, string_of, text_before, texts,
};

verus! {

// ── Entries ───────────────────────────────────────────────────────────────────

/// A single entry in the pass store, e.g. `disney/aws/accesskey`.
#[derive(Debug)]
pub struct PassEntry {
    /// Display path relative to the store root, e.g. `disney/aws/accesskey`.
    pub name: String,
}

impl Clone for PassEntry {
    fn clone(&self) -> (r: Self)
        ensures
            r == *self,
    {
        PassEntry { name: self.name.clone() }
    }
}

/// The names of a list of entries.
pub open spec fn pass_names(entries: Seq<PassEntry>) -> Seq<Seq<char>> {
    Seq::new(entries.len(), |i: int| entries[i].name@)
}

/// The name of an entry: its path below the store root, without the extension of the file.
pub open spec fn entry_name(root: Seq<char>, file: Seq<char>) -> Option<Seq<char>> {
    match path_below(file, root) {
        Some(rel) => path_without_extension(rel),
        None => None,
    }
}

/// Strips the store root prefix and the `.gpg` extension, and returns a slash-separated
/// name.
pub fn relative_name(root: &str, file: &str) -> (r: Option<String>)
    ensures
        opt_text(r) == entry_name(root@, file@),
        forall|name: Seq<char>|
            file@ == joined_path(root@, #[trigger] (name + ".gpg"@)) && is_plain_dir(root@)
                && is_plain_rel(name) ==> opt_text(r) == Some(name),
{
    let below_root = below(file, root);
    proof {
        assert forall|name: Seq<char>|
            file@ == joined_path(root@, #[trigger] (name + ".gpg"@)) && is_plain_rel(name)
                && is_plain_dir(root@) implies opt_text(below_root) == Some(name + ".gpg"@) by {
            reveal_strlit(".gpg");
            lemma_plain_rel_ending(name, ".gpg"@);
        }
    }
    match below_root {
        Some(rel) => without_extension(rel.as_str()),
        None => None,
    }
}

/// Files and directories whose name starts with a dot (`.git`, `.gpg-id`) are skipped.
pub open spec fn is_skipped(path: Seq<char>) -> bool {
    match path_file_name(path) {
        Some(name) => name.len() > 0 && name[0] == '.',
        None => false,
    }
}

/// Whether a file or directory is skipped.
pub fn skips(path: &str) -> (r: bool)
    ensures
        r == is_skipped(path@),
{
    match file_name(path) {
        Some(name) => {
            let v = chars_of(name.as_str());
            v.len() > 0 && v[0] == '.'
        },
        None => false,
    }
}

/// A file or directory of the store.
pub enum StoreNode {
    File(String),
    /// A directory, with what it holds; nothing where it could not be read.
    Directory(String, Vec<StoreNode>),
}

/// The names of the entries that a file or directory gives.
pub open spec fn names_of(root: Seq<char>, node: StoreNode) -> Seq<Seq<char>>
    decreases node,
{
    match node {
        StoreNode::File(path) => if is_skipped(path@) || path_extension(path@) != Some("gpg"@) {
            seq![]
        } else {
            match entry_name(root, path@) {
                Some(name) => seq![name],
                None => seq![],
            }
        },
        StoreNode::Directory(path, children) => if is_skipped(path@) {
            seq![]
        } else {
            names_in(root, children@)
        },
    }
}

/// The names of the entries that the files and directories give, one after the other.
pub open spec fn names_in(root: Seq<char>, nodes: Seq<StoreNode>) -> Seq<Seq<char>>
    decreases nodes,
{
    if nodes.len() == 0 {
        seq![]
    } else {
        names_in(root, nodes.drop_last()) + names_of(root, nodes.last())
    }
}

/// Collects the entries of a file or directory behind those already found.
fn collect_node(root: &str, node: &StoreNode, out: &mut Vec<PassEntry>)
    ensures
        pass_names(final(out)@) == pass_names(old(out)@) + names_of(root@, *node),
    decreases node,
{
    let ghost before = pass_names(out@);
    match node {
        StoreNode::File(path) => {
            if !skips(path.as_str()) {
                let is_gpg = match extension(path.as_str()) {
                    Some(e) => same(e.as_str(), "gpg"),
                    None => false,
                };
                if is_gpg {
                    if let Some(name) = relative_name(root, path.as_str()) {
                        out.push(PassEntry { name });
                    }
                }
            }
            assert(pass_names(out@) =~= before + names_of(root@, *node));
        },
        StoreNode::Directory(path, children) => {
            if !skips(path.as_str()) {
                collect_entries(root, children, out);
            }
            assert(pass_names(out@) =~= before + names_of(root@, *node));
        },
    }
}

/// Collects the entries of the files and directories, and of what these hold.
pub fn collect_entries(root: &str, nodes: &Vec<StoreNode>, out: &mut Vec<PassEntry>)
    ensures
        pass_names(final(out)@) == pass_names(old(out)@) + names_in(root@, nodes@),
    decreases nodes,
{
    let ghost before = pass_names(out@);
    let mut i: usize = 0;
    assert(pass_names(out@) =~= before + names_in(root@, nodes@.take(0)));
    while i < nodes.len()
        invariant
            i <= nodes@.len(),
            pass_names(out@) == before + names_in(root@, nodes@.take(i as int)),
        decreases nodes@.len() - i,
    {
        assert(nodes@.take(i as int + 1).drop_last() =~= nodes@.take(i as int));
        assert(decreases_to!(nodes => nodes@[i as int]));
        collect_node(root, &nodes[i], out);
        i = i + 1;
        assert(pass_names(out@) =~= before + names_in(root@, nodes@.take(i as int)));
    }
    assert(nodes@.take(i as int) =~= nodes@);
}

/// A list of names sorted, case ignored.
pub open spec fn sorted_names(names: Seq<Seq<char>>) -> Seq<Seq<char>> {
    Seq::new(by_name(names).len(), |k: int| names[by_name(names)[k] as int])
}

/// Returns all entries of the store at `root`, sorted by name. `nodes` is what the store
/// holds.
pub fn discover_pass_entries(root: &str, nodes: &Vec<StoreNode>) -> (r: Vec<PassEntry>)
    ensures
        pass_names(r@) == sorted_names(names_in(root@, nodes@)),
{
    let mut found: Vec<PassEntry> = Vec::new();
    collect_entries(root, nodes, &mut found);
    let ghost all = names_in(root@, nodes@);
    assert(pass_names(found@) =~= all);
    let mut names: Vec<String> = Vec::new();
    let mut i: usize = 0;
    while i < found.len()
        invariant
            i <= found@.len(),
            names@.len() == i,
            forall|k: int| 0 <= k < i ==> (#[trigger] names@[k])@ == found@[k].name@,
        decreases found@.len() - i,
    {
        names.push(found[i].name.clone());
        i = i + 1;
    }
    assert(texts(names@) =~= all);
    let o = order_by_name(&names);
    let mut r: Vec<PassEntry> = Vec::new();
    let mut k: usize = 0;
    assert(pass_names(r@) =~= sorted_names(all).take(0));
    while k < o.len()
        invariant
            k <= o@.len(),
            all == pass_names(found@),
            o@ == by_name(all),
            forall|a: int| 0 <= a < o@.len() ==> (#[trigger] o@[a]) < found@.len(),
            pass_names(r@) == sorted_names(all).take(k as int),
        decreases o@.len() - k,
    {
        let ghost prev = pass_names(r@);
        r.push(found[o[k]].clone());
        assert(pass_names(r@) =~= prev.push(all[o@[k as int] as int]));
        k = k + 1;
        assert(pass_names(r@) =~= sorted_names(all).take(k as int));
    }
    assert(sorted_names(all).take(k as int) =~= sorted_names(all));
    r
}

/// Sorting neither loses nor adds a name, and leaves none behind a later one.
pub proof fn law_sorted_names(names: Seq<Seq<char>>)
    requires
        names.len() <= usize::MAX,
    ensures
        sorted_names(names).len() == names.len(),
        forall|i: int| 0 <= i < names.len() ==> sorted_names(names).contains(#[trigger] names[i]),
        forall|a: int, b: int|
            0 <= a < b < names.len() ==> !text_before(
                lowercase(#[trigger] sorted_names(names)[b]),
                lowercase(#[trigger] sorted_names(names)[a]),
            ),
{
    let apps: Seq<AppModel> = Seq::new(names.len(), |i: int| (names[i], Seq::<char>::empty()));
    let s = sorted_apps(apps);
    let t = sorted_names(names);
    assert(app_names(apps) =~= names);
    law_sorted_apps(apps);
    assert forall|k: int| 0 <= k < t.len() implies #[trigger] t[k] == s[k].0 by {
        assert(s[k] == apps[by_name(names)[k] as int]);
        lemma_by_name_in_range(names, k);
    }
    assert forall|i: int| 0 <= i < names.len() implies t.contains(#[trigger] names[i]) by {
        assert(s.contains(apps[i]));
        let k = choose|k: int| 0 <= k < s.len() && s[k] == apps[i];
        assert(t[k] == names[i]);
    }
    assert forall|a: int, b: int| 0 <= a < b < names.len() implies !text_before(
        lowercase(#[trigger] t[b]),
        lowercase(#[trigger] t[a]),
    ) by {
        assert(t[a] == s[a].0 && t[b] == s[b].0);
    }
}

/// The entries of a store are those of its parts: nothing that one directory holds changes
/// what another gives.
pub proof fn law_names_in_parts(root: Seq<char>, a: Seq<StoreNode>, b: Seq<StoreNode>)
    ensures
        names_in(root, a + b) == names_in(root, a) + names_in(root, b),
    decreases b.len(),
{
    if b.len() == 0 {
        assert(a + b =~= a);
        assert(names_in(root, a) + names_in(root, b) =~= names_in(root, a));
    } else {
        assert((a + b).drop_last() =~= a + b.drop_last());
        law_names_in_parts(root, a, b.drop_last());
        assert(names_in(root, a + b) =~= names_in(root, a) + names_in(root, b));
    }
}

// ── Password ──────────────────────────────────────────────────────────────────

/// `std::str::from_utf8` takes bytes as text where they are valid UTF-8, and fails
/// otherwise.
#[verifier::external_body]
fn text_from(bytes: &[u8]) -> (r: Option<&str>)
    ensures
        r is Some == valid_utf8(bytes@),
        r matches Some(s) ==> s@ == decode_utf8(bytes@),
{
    std::str::from_utf8(bytes).ok()
}

/// The password in what `pass show` printed: the first line, where the output is text and
/// the line is not empty.
pub open spec fn password_in(output: Seq<u8>) -> Option<Seq<char>> {
    if valid_utf8(output) && first_line(decode_utf8(output)).len() > 0 {
        Some(first_line(decode_utf8(output)))
    } else {
        None
    }
}

/// Takes the password out of what `pass show` printed.
pub fn password_from_output(output: &[u8]) -> (r: Option<String>)
    ensures
        opt_text(r) == password_in(output@),
{
    match text_from(output) {
        Some(s) => {
            let v = chars_of(s);
            let line = head_line(v.as_slice());
            if line.len() == 0 {
                None
            } else {
                Some(string_of(line))
            }
        },
        None => None,
    }
}

/// The directory of the GnuPG keys.
pub fn gnupg_home(var: Option<String>, home: &str) -> (r: String)
    ensures
        r@ == match var {
            Some(v) => v@,
            None => joined_path(home@, ".gnupg"@),
        },
{
    match var {
        Some(v) => v,
        None => join_path(home, ".gnupg"),
    }
}

/// Where `pass` looks for programs on Linux.
pub fn path_env_linux(home: &str) -> (r: String)
    ensures
        r@ == "/usr/local/bin:/usr/bin:/bin:/usr/sbin:/sbin:"@ + home@ + "/.local/bin:"@ + home@
            + "/.local/share/mise/shims"@,
{
    let mut r = String::new();
    r.append("/usr/local/bin:/usr/bin:/bin:/usr/sbin:/sbin:");
    r.append(home);
    r.append("/.local/bin:");
    r.append(home);
    r.append("/.local/share/mise/shims");
    assert(r@ =~= "/usr/local/bin:/usr/bin:/bin:/usr/sbin:/sbin:"@ + home@ + "/.local/bin:"@ + home@
        + "/.local/share/mise/shims"@);
    r
}

/// Where `pass` looks for programs on macOS.
pub fn path_env_macos(home: &str) -> (r: String)
    ensures
        r@ == "/opt/homebrew/bin:/opt/homebrew/sbin:/usr/local/bin:/usr/bin:/bin:/usr/sbin:/sbin:"@
            + home@ + "/.local/bin"@,
{
    let mut r = String::new();
    r.append("/opt/homebrew/bin:/opt/homebrew/sbin:/usr/local/bin:/usr/bin:/bin:/usr/sbin:/sbin:");
    r.append(home);
    r.append("/.local/bin");
    assert(r@
        =~= "/opt/homebrew/bin:/opt/homebrew/sbin:/usr/local/bin:/usr/bin:/bin:/usr/sbin:/sbin:"@
        + home@ + "/.local/bin"@);
    r
}

// ── Clipboard ─────────────────────────────────────────────────────────────────

/// A program that copies its input to the clipboard.
#[derive(Clone, Copy, PartialEq, Eq, Structural, Debug)]
pub enum CopyTool {
    /// `wl-copy`, for Wayland.
    WlCopy,
    /// `xclip -selection clipboard`, for X11.
    Xclip,
}

/// What to do next on the way of a password to the clipboard.
#[derive(Clone, Copy, PartialEq, Eq, Structural, Debug)]
pub enum CopyStep {
    /// Run the tool with the password as its input.
    Run(CopyTool),
    /// The password is in the clipboard: schedule that it is cleared, and report success.
    Copied,
    /// No tool did it.
    Failed,
}

/// What to do after the tools tried so far ended, each with success or not.
pub open spec fn next_copy_step(tried: Seq<bool>) -> CopyStep {
    if tried.contains(true) {
        CopyStep::Copied
    } else if tried.len() == 0 {
        CopyStep::Run(CopyTool::WlCopy)
    } else if tried.len() == 1 {
        CopyStep::Run(CopyTool::Xclip)
    } else {
        CopyStep::Failed
    }
}

/// Decides what to do after the tools tried so far ended.
pub fn copy_step(tried: &Vec<bool>) -> (r: CopyStep)
    ensures
        r == next_copy_step(tried@),
{
    let mut i: usize = 0;
    while i < tried.len()
        invariant
            i <= tried@.len(),
            forall|k: int| 0 <= k < i ==> !tried@[k],
        decreases tried@.len() - i,
    {
        if tried[i] {
            assert(tried@[i as int] == true);
            return CopyStep::Copied;
        }
        i = i + 1;
    }
    if tried.len() == 0 {
        CopyStep::Run(CopyTool::WlCopy)
    } else if tried.len() == 1 {
        CopyStep::Run(CopyTool::Xclip)
    } else {
        CopyStep::Failed
    }
}

/// How many seconds to keep a password in the clipboard before clearing it. Matches the
/// default `pass -c` behaviour.
pub const CLIP_TIMEOUT_SECS: u64 = 45;

/// A shell script that waits and then clears the clipboard, but only if it still holds the
/// password, which it is given in `MOFI_CLIP_EXPECT`.
pub fn clear_script() -> (r: String)
    ensures
        r@ == "sleep "@ + decimal(CLIP_TIMEOUT_SECS as nat)
            + "\ncurrent=\"$(wl-paste --no-newline 2>/dev/null)\"\nif [ \"$current\" = \"$MOFI_CLIP_EXPECT\" ]; then\n  wl-copy --clear 2>/dev/null\nfi"@,
{
    let mut r = String::new();
    r.append("sleep ");
    push_decimal(&mut r, CLIP_TIMEOUT_SECS);
    r.append(
        "\ncurrent=\"$(wl-paste --no-newline 2>/dev/null)\"\nif [ \"$current\" = \"$MOFI_CLIP_EXPECT\" ]; then\n  wl-copy --clear 2>/dev/null\nfi",
    );
    assert(r@ =~= "sleep "@ + decimal(CLIP_TIMEOUT_SECS as nat)
        + "\ncurrent=\"$(wl-paste --no-newline 2>/dev/null)\"\nif [ \"$current\" = \"$MOFI_CLIP_EXPECT\" ]; then\n  wl-copy --clear 2>/dev/null\nfi"@);
    r
}

// ── Laws ──────────────────────────────────────────────────────────────────────

/// The password is the first line, the whole of it: of output that is text, and starts with a
/// password and the end of its line, or is a password and nothing else, the password is what
/// is taken.
pub proof fn law_password(output: Seq<u8>, p: Seq<char>, rest: Seq<char>)
    requires
        valid_utf8(output),
        p.len() > 0,
        !p.contains('\n'),
        p.last() != '\r',
        ({
            let text = decode_utf8(output);
            ||| text == p + seq!['\n'] + rest
            ||| text == p + seq!['\r', '\n'] + rest
            ||| text == p
        }),
    ensures
        password_in(output) == Some(p),
{
    law_lines(p, rest);
}

/// What `pass` printed as the first line comes back from its bytes.
pub proof fn law_password_bytes(p: Seq<char>, rest: Seq<char>)
    requires
        p.len() > 0,
        !p.contains('\n'),
        p.last() != '\r',
    ensures
        password_in(encode_utf8(p + seq!['\n'] + rest)) == Some(p),
        password_in(encode_utf8(p)) == Some(p),
{
    let a = p + seq!['\n'] + rest;
    vstd::utf8::encode_utf8_valid_utf8(a);
    vstd::utf8::encode_utf8_decode_utf8(a);
    vstd::utf8::encode_utf8_valid_utf8(p);
    vstd::utf8::encode_utf8_decode_utf8(p);
    law_password(encode_utf8(a), p, rest);
    law_password(encode_utf8(p), p, rest);
}

/// There is no password in output that is no text, or whose first line is empty.
pub proof fn law_no_password(output: Seq<u8>, rest: Seq<char>)
    ensures
        !valid_utf8(output) ==> password_in(output) is None,
        decode_utf8(output) == seq!['\n'] + rest ==> password_in(output) is None,
        decode_utf8(output) == seq!['\r', '\n'] + rest ==> password_in(output) is None,
        decode_utf8(output).len() == 0 ==> password_in(output) is None,
{
    let e = Seq::<char>::empty();
    law_lines(e, rest);
    assert(e + seq!['\n'] + rest =~= seq!['\n'] + rest);
    assert(e + seq!['\r', '\n'] + rest =~= seq!['\r', '\n'] + rest);
    if decode_utf8(output).len() == 0 {
        assert(decode_utf8(output) =~= e);
    }
}

/// A file of the store whose name ends in `.gpg` and does not start with a dot gives one
/// entry: its path below the root, without that ending.
pub proof fn law_entry_of_file(
    root: Seq<char>,
    path: String,
    stem: Seq<char>,
    rel: Seq<char>,
    name: Seq<char>,
)
    requires
        path_file_name(path@) == Some(stem + ".gpg"@),
        stem.len() > 0,
        stem[0] != '.',
        path_below(path@, root) == Some(rel),
        path_without_extension(rel) == Some(name),
    ensures
        names_of(root, StoreNode::File(path)) == seq![name],
{
    reveal_strlit(".gpg");
    reveal_strlit("gpg");
    assert(stem + ".gpg"@ =~= stem + seq!['.'] + "gpg"@);
    assert forall|i: int| 0 <= i < "gpg"@.len() implies "gpg"@[i] != '.' by {}
    assert(!"gpg"@.contains('.'));
    law_name_parts(stem, "gpg"@);
    assert((stem + ".gpg"@)[0] == stem[0]);
}

/// Any other file of the store gives none.
pub proof fn law_other_file(root: Seq<char>, path: String, file: Seq<char>)
    requires
        path_file_name(path@) == Some(file),
        (file.len() > 0 && file[0] == '.') || forall|stem: Seq<char>|
            file != #[trigger] (stem + ".gpg"@),
    ensures
        names_of(root, StoreNode::File(path)).len() == 0,
{
    reveal_strlit(".gpg");
    reveal_strlit("gpg");
    if path_extension(path@) == Some("gpg"@) {
        law_stem_and_extension(file);
        let stem = name_stem(file);
        assert(stem + ".gpg"@ =~= stem.push('.') + "gpg"@);
    }
}

/// A directory whose name starts with a dot gives no entries; any other gives those of what it
/// holds, one after the other.
pub proof fn law_entries_of_directory(
    root: Seq<char>,
    path: String,
    children: Vec<StoreNode>,
    file: Seq<char>,
    node: StoreNode,
)
    requires
        path_file_name(path@) == Some(file),
        file.len() > 0,
    ensures
        file[0] == '.' ==> names_of(root, StoreNode::Directory(path, children)).len() == 0,
        file[0] != '.' ==> names_of(root, StoreNode::Directory(path, children)) == names_in(
            root,
            children@,
        ),
        names_in(root, seq![node]) == names_of(root, node),
        names_in(root, Seq::empty()).len() == 0,
{
    assert(seq![node].drop_last() =~= Seq::empty());
    assert(names_in(root, Seq::empty()) =~= Seq::empty());
    assert(names_in(root, seq![node]) =~= names_of(root, node));
}

/// The tools are tried one after the other, `wl-copy` first and then `xclip`, until one
/// succeeds; only when both have failed is the password not copied.
pub proof fn law_copy_steps(tried: Seq<bool>)
    ensures
        (exists|i: int| 0 <= i < tried.len() && #[trigger] tried[i]) ==> next_copy_step(tried)
            == CopyStep::Copied,
        (forall|i: int| 0 <= i < tried.len() ==> !(#[trigger] tried[i])) ==> next_copy_step(tried)
            == if tried.len() == 0 {
            CopyStep::Run(CopyTool::WlCopy)
        } else if tried.len() == 1 {
            CopyStep::Run(CopyTool::Xclip)
        } else {
            CopyStep::Failed
        },
{
    if exists|i: int| 0 <= i < tried.len() && #[trigger] tried[i] {
        let i = choose|i: int| 0 <= i < tried.len() && #[trigger] tried[i];
        assert(tried[i] == true);
    }
}

/// Sorting names permutes them: each comes up once, lower ones first when case is ignored, and
/// level ones in their order.
pub proof fn law_sorted_names_permute(names: Seq<Seq<char>>) -> (o: Seq<usize>)
    requires
        names.len() <= usize::MAX,
    ensures
        o.len() == names.len(),
        sorted_names(names).len() == names.len(),
        o.no_duplicates(),
        forall|k: int|
            0 <= k < names.len() ==> (#[trigger] o[k]) < names.len() && sorted_names(names)[k]
                == names[o[k] as int],
        forall|a: int, b: int|
            0 <= a < b < names.len() ==> text_before(
                lowercase(names[#[trigger] o[a] as int]),
                lowercase(names[#[trigger] o[b] as int]),
            ) || o[a] < o[b],
{
    let apps: Seq<AppModel> = Seq::new(names.len(), |i: int| (names[i], Seq::<char>::empty()));
    assert(app_names(apps) =~= names);
    let o = crate::apps::law_sorted_apps_permute(apps);
    let s = sorted_apps(apps);
    let t = sorted_names(names);
    assert(t.len() == s.len());
    assert forall|k: int| 0 <= k < names.len() implies (#[trigger] o[k]) < names.len() && t[k]
        == names[o[k] as int] by {
        lemma_by_name_in_range(names, k);
        assert(s[k] == apps[by_name(names)[k] as int]);
        assert(s[k] == apps[o[k] as int]);
        assert(t[k] == s[k].0);
    }
    o
}

/// A password keeps a carriage return that does not belong to the end of its line.
pub proof fn law_password_carriage_return(output: Seq<u8>, p: Seq<char>, rest: Seq<char>)
    requires
        valid_utf8(output),
        p.len() > 0,
        !p.contains('\n'),
        decode_utf8(output) == p + seq!['\r', '\n'] + rest || decode_utf8(output) == p,
    ensures
        password_in(output) == Some(p),
{
    law_carriage_return(p, rest);
}

} // verus!

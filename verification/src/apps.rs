//! Discovery of installed applications.

use vstd::prelude::*;

use crate::config::{join_path, joined_path, law_joined_path};
use crate::order::{
    asymmetric, first_where, key_before, lemma_first_where, lemma_first_where_bounds,
    lemma_ranking_agrees, ranked, weak, Alphabetical,
};
use crate::paths::{extension, path_extension, path_stem, stem};
use crate::text::{
    after_prefix, begins, chars_of, joined, law_joined, law_prefix, law_split_joined,
    lemma_text_asymmetric, lemma_text_transitive, lines, lowercase, opt_text, same, split,
    split_lines, split_on, string_of, strip_prefix, text_before, texts, to_lower, trim, trimmed,
};

verus! {

/// Represents a discovered application.
#[derive(Debug)]
pub struct AppEntry {
    pub name: String,
    pub path: String,
}

impl Clone for AppEntry {
    fn clone(&self) -> (r: Self)
        ensures
            r == *self,
    {
        AppEntry { name: self.name.clone(), path: self.path.clone() }
    }
}

// ── Lists by name ─────────────────────────────────────────────────────────────

/// One name comes before another when case is ignored.
pub open spec fn name_before(names: Seq<Seq<char>>, i: int, j: int) -> bool {
    text_before(lowercase(names[i]), lowercase(names[j]))
}

/// The order of a list of names when case is ignored; level ones stay as they came.
pub open spec fn by_name(names: Seq<Seq<char>>) -> Seq<usize> {
    ranked(names.len() as int, |i: int| true, |i: int, j: int| name_before(names, i, j))
}

/// The order by name goes one way only.
pub proof fn lemma_name_order(names: Seq<Seq<char>>)
    ensures
        asymmetric(|i: int, j: int| name_before(names, i, j)),
{
    let before = |i: int, j: int| name_before(names, i, j);
    assert forall|i: int, j: int| #[trigger] before(i, j) implies !before(j, i) by {
        lemma_text_asymmetric(lowercase(names[i]), lowercase(names[j]));
    }
}

/// Ranks names as [`by_name`] says.
pub fn order_by_name(names: &Vec<String>) -> (r: Vec<usize>)
    ensures
        r@ == by_name(texts(names@)),
        forall|a: int| 0 <= a < r@.len() ==> (#[trigger] r@[a]) < names@.len(),
{
    let ghost all = texts(names@);
    let mut keys: Vec<Alphabetical> = Vec::new();
    let mut i: usize = 0;
    while i < names.len()
        invariant
            i <= names@.len(),
            all == texts(names@),
            keys@.len() == i,
            forall|k: int| 0 <= k < i ==> (#[trigger] keys@[k]).0@ == lowercase(all[k]),
        decreases names@.len() - i,
    {
        let lower = to_lower(names[i].as_str());
        keys.push(Alphabetical(chars_of(lower.as_str())));
        i = i + 1;
    }
    let r = crate::order::rank_all(&keys);
    proof {
        lemma_name_order(all);
        lemma_ranking_agrees(
            r@,
            names@.len() as int,
            |i: int| true,
            |i: int, j: int| key_before(keys@, i, j),
            |i: int| true,
            |i: int, j: int| name_before(all, i, j),
        );
    }
    r
}

/// The name and path of an application.
pub type AppModel = (Seq<char>, Seq<char>);

/// The names and paths of a list of applications.
pub open spec fn app_pairs(apps: Seq<AppEntry>) -> Seq<AppModel> {
    Seq::new(apps.len(), |i: int| (apps[i].name@, apps[i].path@))
}

/// The names of a list of applications.
pub open spec fn app_names(apps: Seq<AppModel>) -> Seq<Seq<char>> {
    Seq::new(apps.len(), |i: int| apps[i].0)
}

/// A list of applications sorted by name, case ignored.
pub open spec fn sorted_apps(apps: Seq<AppModel>) -> Seq<AppModel> {
    let o = by_name(app_names(apps));
    Seq::new(o.len(), |k: int| apps[o[k] as int])
}

/// Sorts applications by name, case ignored.
pub fn sort_apps(apps: &Vec<AppEntry>) -> (r: Vec<AppEntry>)
    ensures
        app_pairs(r@) == sorted_apps(app_pairs(apps@)),
{
    let ghost all = app_pairs(apps@);
    let mut names: Vec<String> = Vec::new();
    let mut i: usize = 0;
    while i < apps.len()
        invariant
            i <= apps@.len(),
            names@.len() == i,
            forall|k: int| 0 <= k < i ==> (#[trigger] names@[k])@ == apps@[k].name@,
        decreases apps@.len() - i,
    {
        names.push(apps[i].name.clone());
        i = i + 1;
    }
    assert(texts(names@) =~= app_names(all));
    let o = order_by_name(&names);
    let mut r: Vec<AppEntry> = Vec::new();
    let mut k: usize = 0;
    assert(app_pairs(r@) =~= sorted_apps(all).take(0));
    while k < o.len()
        invariant
            k <= o@.len(),
            all == app_pairs(apps@),
            o@ == by_name(app_names(all)),
            forall|a: int| 0 <= a < o@.len() ==> (#[trigger] o@[a]) < apps@.len(),
            app_pairs(r@) == sorted_apps(all).take(k as int),
        decreases o@.len() - k,
    {
        let ghost prev = app_pairs(r@);
        r.push(apps[o[k]].clone());
        assert(app_pairs(r@) =~= prev.push(all[o@[k as int] as int]));
        k = k + 1;
        assert(app_pairs(r@) =~= sorted_apps(all).take(k as int));
    }
    assert(sorted_apps(all).take(k as int) =~= sorted_apps(all));
    r
}

/// The order by name is a ranking of all the names.
proof fn lemma_by_name(names: Seq<Seq<char>>)
    requires
        names.len() <= usize::MAX,
    ensures
        crate::order::is_ranking(
            by_name(names),
            names.len() as int,
            |i: int| true,
            |i: int, j: int| name_before(names, i, j),
        ),
        by_name(names).len() == names.len(),
{
    let n = names.len() as int;
    let keep = |i: int| true;
    let before = |i: int, j: int| name_before(names, i, j);
    let o = by_name(names);
    lemma_name_order(names);
    assert(weak(before)) by {
        assert forall|i: int, j: int, k: int| #[trigger]
            before(i, k) implies #[trigger] before(i, j) || before(j, k) by {
            let (x, y, z) = (lowercase(names[i]), lowercase(names[j]), lowercase(names[k]));
            if !text_before(x, y) && !text_before(y, z) {
                lemma_text_transitive(z, y, x);
            }
        }
    }
    crate::order::law_ranking_exists(n, keep, before);
    assert(crate::order::is_ranking(o, n, keep, before));
    crate::order::lemma_ranking_len(o, n, before);
}

/// The order by name holds positions of names only.
pub(crate) proof fn lemma_by_name_in_range(names: Seq<Seq<char>>, k: int)
    requires
        names.len() <= usize::MAX,
        0 <= k < by_name(names).len(),
    ensures
        by_name(names)[k] < names.len(),
{
    lemma_by_name(names);
}

/// Sorting by name neither loses nor adds an application, and leaves no name behind a
/// later one.
pub proof fn law_sorted_apps(apps: Seq<AppModel>)
    requires
        apps.len() <= usize::MAX,
    ensures
        sorted_apps(apps).len() == apps.len(),
        forall|i: int| 0 <= i < apps.len() ==> sorted_apps(apps).contains(#[trigger] apps[i]),
        forall|a: int, b: int|
            0 <= a < b < apps.len() ==> !text_before(
                lowercase((#[trigger] sorted_apps(apps)[b]).0),
                lowercase((#[trigger] sorted_apps(apps)[a]).0),
            ),
{
    let names = app_names(apps);
    let n = apps.len() as int;
    let keep = |i: int| true;
    let before = |i: int, j: int| name_before(names, i, j);
    let o = by_name(names);
    let s = sorted_apps(apps);
    lemma_name_order(names);
    lemma_by_name(names);
    assert forall|i: int| 0 <= i < n implies s.contains(#[trigger] apps[i]) by {
        assert(keep(i));
        assert(o.contains(i as usize));
        let k = choose|k: int| 0 <= k < o.len() && o[k] == i as usize;
        assert(s[k] == apps[i]);
    }
    assert forall|a: int, b: int| 0 <= a < b < n implies !text_before(
        lowercase((#[trigger] s[b]).0),
        lowercase((#[trigger] s[a]).0),
    ) by {
        assert(crate::order::comes_first(before, o[a] as int, o[b] as int));
        assert(before(o[a] as int, o[b] as int) ==> !before(o[b] as int, o[a] as int));
        assert(s[a] == apps[o[a] as int] && s[b] == apps[o[b] as int]);
        assert(names[o[a] as int] == s[a].0 && names[o[b] as int] == s[b].0);
    }
}

// ── Desktop files ─────────────────────────────────────────────────────────────

/// The header of the section that describes the application.
pub open spec fn is_entry_header(line: Seq<char>) -> bool {
    line == "[Desktop Entry]"@
}

/// The header of another section.
pub open spec fn is_other_header(line: Seq<char>) -> bool {
    line.len() > 0 && line[0] == '[' && !is_entry_header(line)
}

/// The lines of a file without surrounding white space.
pub open spec fn trimmed_lines(content: Seq<char>) -> Seq<Seq<char>> {
    Seq::new(lines(content).len(), |i: int| trimmed(lines(content)[i]))
}

/// Where the section that describes the application starts.
pub open spec fn entry_start(l: Seq<Seq<char>>) -> int {
    first_where(l.len() as int, |i: int| is_entry_header(l[i]))
}

/// Where the section that describes the application ends: at the next other section.
pub open spec fn entry_end(l: Seq<Seq<char>>) -> int {
    first_where(l.len() as int, |i: int| i >= entry_start(l) && is_other_header(l[i]))
}

/// The lines of the section that describes the application.
pub open spec fn entry_lines(l: Seq<Seq<char>>) -> Seq<Seq<char>> {
    l.subrange(entry_start(l), entry_end(l))
}

/// The value of the first line with the key.
pub open spec fn first_value(l: Seq<Seq<char>>, key: Seq<char>) -> Option<Seq<char>>
    decreases l.len(),
{
    if l.len() == 0 {
        None
    } else if first_value(l.drop_last(), key) is Some {
        first_value(l.drop_last(), key)
    } else {
        after_prefix(l.last(), key)
    }
}

/// The value of the last line with the key.
pub open spec fn last_value(l: Seq<Seq<char>>, key: Seq<char>) -> Option<Seq<char>>
    decreases l.len(),
{
    if l.len() == 0 {
        None
    } else if begins(l.last(), key) {
        after_prefix(l.last(), key)
    } else {
        last_value(l.drop_last(), key)
    }
}

/// The name of the application that a desktop file describes, if it is one to show: of
/// type `Application`, with a name, and marked neither `NoDisplay` nor `Hidden`.
pub open spec fn desktop_name(content: Seq<char>) -> Option<Seq<char>> {
    let l = entry_lines(trimmed_lines(content));
    if l.contains("NoDisplay=true"@) || l.contains("Hidden=true"@) {
        None
    } else if last_value(l, "Type="@) != Some("Application"@) {
        None
    } else {
        first_value(l, "Name="@)
    }
}

/// A line of the section says one thing at most.
proof fn lemma_keys_differ(s: Seq<char>)
    ensures
        !(begins(s, "Type="@) && begins(s, "Name="@)),
        begins(s, "Type="@) || begins(s, "Name="@) ==> s != "NoDisplay=true"@ && s
            != "Hidden=true"@,
        "NoDisplay=true"@ != "Hidden=true"@,
{
    reveal_strlit("Type=");
    reveal_strlit("Name=");
    reveal_strlit("NoDisplay=true");
    reveal_strlit("Hidden=true");
    if begins(s, "Type="@) {
        assert(s[0] == "Type="@[0]);
    }
    if begins(s, "Name="@) {
        assert(s[0] == "Name="@[0] && s[1] == "Name="@[1]);
    }
    assert("NoDisplay=true"@[0] == 'N' && "NoDisplay=true"@[1] == 'o');
    assert("Hidden=true"@[0] == 'H');
}

/// What has been read of the section that describes the application.
struct EntryFields {
    name: Option<String>,
    app_type: Option<String>,
    no_display: bool,
    hidden: bool,
}

impl EntryFields {
    spec fn reads(&self, l: Seq<Seq<char>>) -> bool {
        &&& opt_text(self.name) == first_value(l, "Name="@)
        &&& opt_text(self.app_type) == last_value(l, "Type="@)
        &&& self.no_display == l.contains("NoDisplay=true"@)
        &&& self.hidden == l.contains("Hidden=true"@)
    }

    /// Reads one more line.
    fn read_line(&mut self, line: &str, Ghost(l): Ghost<Seq<Seq<char>>>)
        requires
            old(self).reads(l),
        ensures
            final(self).reads(l.push(line@)),
    {
        let v = chars_of(line);
        let ghost m = l.push(line@);
        proof {
            lemma_keys_differ(line@);
            assert(m.drop_last() =~= l);
            assert forall|x: Seq<char>| #[trigger] m.contains(x) == (l.contains(x) || x
                == line@) by {
                if l.contains(x) {
                    let i = choose|i: int| 0 <= i < l.len() && l[i] == x;
                    assert(m[i] == x);
                }
                if x == line@ {
                    assert(m[l.len() as int] == x);
                }
                if m.contains(x) {
                    let i = choose|i: int| 0 <= i < m.len() && m[i] == x;
                    assert(i < l.len() ==> l[i] == x);
                }
            }
        }
        if let Some(val) = strip_prefix(v.as_slice(), "Type=") {
            self.app_type = Some(string_of(val));
        } else if let Some(val) = strip_prefix(v.as_slice(), "Name=") {
            if self.name.is_none() {
                self.name = Some(string_of(val));
            }
        } else if same(line, "NoDisplay=true") {
            self.no_display = true;
        } else if same(line, "Hidden=true") {
            self.hidden = true;
        }
    }
}

/// The name of the application that a desktop file describes, if it is one to show.
fn read_desktop_name(content: &str) -> (r: Option<String>)
    ensures
        opt_text(r) == desktop_name(content@),
{
    let chars = chars_of(content);
    let raw = split_lines(chars.as_slice());
    let ghost all = trimmed_lines(content@);
    let ghost starts = |i: int| is_entry_header(all[i]);
    let ghost ends = |i: int| i >= entry_start(all) && is_other_header(all[i]);
    let mut fields = EntryFields {
        name: None,
        app_type: None,
        no_display: false,
        hidden: false,
    };
    let mut inside = false;
    let ghost mut from: int = 0;
    let mut i: usize = 0;
    proof {
        lemma_first_where_bounds(all.len() as int, starts);
        assert(fields.reads(seq![]));
    }
    while i < raw.len()
        invariant_except_break
            i <= raw@.len(),
            inside ==> from < i,
        invariant
            texts(raw@) == lines(content@),
            all == trimmed_lines(content@),
            starts == (|i: int| is_entry_header(all[i])),
            ends == (|i: int| i >= entry_start(all) && is_other_header(all[i])),
            !inside ==> forall|k: int| 0 <= k < i ==> !(#[trigger] starts(k)),
            !inside ==> fields.reads(seq![]),
            inside ==> from == entry_start(all),
            inside ==> forall|k: int| 0 <= k < i ==> !(#[trigger] ends(k)),
            inside ==> 0 <= from < all.len() && fields.reads(all.subrange(from, i as int)),
        ensures
            i <= raw@.len(),
            inside ==> from <= i,
            i < raw@.len() ==> inside && ends(i as int),
        decreases raw@.len() - i,
    {
        let v = chars_of(raw[i].as_str());
        let line = string_of(trim(v.as_slice()));
        let c = chars_of(line.as_str());
        assert(line@ == all[i as int]) by {
            assert(texts(raw@)[i as int] == raw@[i as int]@);
        }
        let header = same(line.as_str(), "[Desktop Entry]");
        if header && !inside {
            inside = true;
            proof {
                assert(starts(i as int));
                lemma_first_where(all.len() as int, starts, i as int);
                from = i as int;
                assert(all.subrange(from, from) =~= seq![]);
                assert forall|k: int| 0 <= k < i implies !(#[trigger] ends(k)) by {
                    assert(k < entry_start(all));
                }
            }
        }
        let other = c.len() > 0 && c[0] == '[' && !header;
        if other && inside {
            assert(ends(i as int));
            break;
        }
        assert(!other ==> !is_other_header(all[i as int]));
        if inside {
            assert(all.subrange(from, i as int).push(line@) =~= all.subrange(from, i as int + 1));
            fields.read_line(line.as_str(), Ghost(all.subrange(from, i as int)));
            assert(!ends(i as int));
        } else {
            assert(!starts(i as int));
        }
        i = i + 1;
    }
    proof {
        if inside {
            lemma_first_where(all.len() as int, ends, i as int);
            assert(entry_lines(all) == all.subrange(from, i as int));
        } else {
            lemma_first_where(all.len() as int, starts, all.len() as int);
            lemma_first_where(all.len() as int, ends, all.len() as int);
            assert(entry_lines(all) =~= seq![]);
        }
    }
    if fields.no_display || fields.hidden {
        return None;
    }
    match &fields.app_type {
        Some(t) => {
            if !same(t.as_str(), "Application") {
                return None;
            }
        },
        None => {
            return None;
        },
    }
    fields.name
}

/// Whether a text is among those seen.
pub fn is_seen(seen: &Vec<String>, s: &str) -> (r: bool)
    ensures
        r == texts(seen@).contains(s@),
{
    let mut i: usize = 0;
    while i < seen.len()
        invariant
            i <= seen@.len(),
            forall|k: int| 0 <= k < i ==> seen@[k]@ != s@,
        decreases seen@.len() - i,
    {
        if same(seen[i].as_str(), s) {
            assert(texts(seen@)[i as int] == s@);
            return true;
        }
        i = i + 1;
    }
    proof {
        if texts(seen@).contains(s@) {
            let k = choose|k: int| 0 <= k < texts(seen@).len() && texts(seen@)[k] == s@;
            assert(seen@[k]@ == s@);
        }
    }
    false
}

/// Parses a desktop file of the given path and content and returns an entry if it is a
/// launchable application whose path was not seen yet. Skips entries where
/// `NoDisplay=true`, `Hidden=true`, or `Type` is not `Application`.
pub fn parse_desktop_file(path: &str, content: &str, seen: &mut Vec<String>) -> (r: Option<AppEntry>)
    ensures
        match desktop_name(content@) {
            Some(name) => if texts(old(seen)@).contains(path@) {
                r is None && texts(final(seen)@) == texts(old(seen)@)
            } else {
                &&& r matches Some(app) && app.name@ == name && app.path@ == path@
                &&& texts(final(seen)@) == texts(old(seen)@).push(path@)
            },
            None => r is None && texts(final(seen)@) == texts(old(seen)@),
        },
{
    let name = match read_desktop_name(content) {
        Some(n) => n,
        None => {
            return None;
        },
    };
    if is_seen(seen, path) {
        return None;
    }
    let ghost before = texts(seen@);
    seen.push(path.to_owned());
    assert(texts(seen@) =~= before.push(path@));
    Some(AppEntry { name, path: path.to_owned() })
}

/// A file in one of the directories that are searched for applications.
pub struct DesktopFile {
    pub path: String,
    /// What it holds, if it could be read.
    pub content: Option<String>,
}

/// The name of the application that a file found on the way describes.
pub open spec fn file_app(f: DesktopFile) -> Option<Seq<char>> {
    if path_extension(f.path@) != Some("desktop"@) {
        None
    } else {
        match f.content {
            Some(c) => desktop_name(c@),
            None => None,
        }
    }
}

/// The applications that the files describe, in the order in which the files were found;
/// each path counts once.
pub open spec fn desktop_apps(files: Seq<DesktopFile>) -> Seq<AppModel>
    decreases files.len(),
{
    if files.len() == 0 {
        seq![]
    } else {
        let found = desktop_apps(files.drop_last());
        let f = files.last();
        match file_app(f) {
            Some(name) => if has_path(found, f.path@) {
                found
            } else {
                found.push((name, f.path@))
            },
            None => found,
        }
    }
}

/// One of the applications has the path.
pub open spec fn has_path(apps: Seq<AppModel>, path: Seq<char>) -> bool {
    exists|k: int| 0 <= k < apps.len() && (#[trigger] apps[k]).1 == path
}

/// Each path occurs once among the applications that files describe.
pub proof fn law_desktop_apps_distinct(files: Seq<DesktopFile>)
    ensures
        forall|i: int, j: int|
            0 <= i < j < desktop_apps(files).len() ==> (#[trigger] desktop_apps(files)[i]).1 != (
            #[trigger] desktop_apps(files)[j]).1,
    decreases files.len(),
{
    if files.len() > 0 {
        law_desktop_apps_distinct(files.drop_last());
        let found = desktop_apps(files.drop_last());
        let all = desktop_apps(files);
        assert forall|i: int, j: int| 0 <= i < j < all.len() implies (#[trigger] all[i]).1 != (
        #[trigger] all[j]).1 by {
            assert(all[i] == found[i]);
            if j < found.len() {
                assert(all[j] == found[j]);
            }
        }
    }
}

/// Collects the applications that files describe, in the order in which they were found.
fn collect_desktop_apps(files: &Vec<DesktopFile>) -> (apps: Vec<AppEntry>)
    ensures
        app_pairs(apps@) == desktop_apps(files@),
{
    let mut seen: Vec<String> = Vec::new();
    let mut apps: Vec<AppEntry> = Vec::new();
    let mut i: usize = 0;
    assert(app_pairs(apps@) =~= desktop_apps(files@.take(0)));
    while i < files.len()
        invariant
            i <= files@.len(),
            app_pairs(apps@) == desktop_apps(files@.take(i as int)),
            texts(seen@).len() == apps@.len(),
            forall|k: int| 0 <= k < apps@.len() ==> texts(seen@)[k] == (#[trigger] apps@[k]).path@,
        decreases files@.len() - i,
    {
        let f = &files[i];
        let ghost found = app_pairs(apps@);
        let ghost paths = texts(seen@);
        proof {
            assert(files@.take(i as int + 1).drop_last() =~= files@.take(i as int));
            assert(files@.take(i as int + 1).last() == *f);
            assert(paths.contains(f.path@) == has_path(found, f.path@)) by {
                if paths.contains(f.path@) {
                    let k = choose|k: int| 0 <= k < paths.len() && paths[k] == f.path@;
                    assert(apps@[k].path@ == f.path@);
                    assert(found[k].1 == f.path@);
                }
                if has_path(found, f.path@) {
                    let k = choose|k: int| 0 <= k < found.len() && (#[trigger] found[k]).1
                        == f.path@;
                    assert(apps@[k].path@ == f.path@);
                    assert(paths[k] == f.path@);
                }
            }
        }
        let is_desktop = match extension(f.path.as_str()) {
            Some(e) => same(e.as_str(), "desktop"),
            None => false,
        };
        if is_desktop {
            if let Some(content) = &f.content {
                if let Some(app) = parse_desktop_file(
                    f.path.as_str(),
                    content.as_str(),
                    &mut seen,
                ) {
                    apps.push(app);
                    assert(app_pairs(apps@) =~= found.push((app.name@, app.path@)));
                }
            }
        }
        i = i + 1;
        assert(app_pairs(apps@) =~= desktop_apps(files@.take(i as int)));
    }
    assert(files@.take(i as int) =~= files@);
    apps
}

/// The applications that the files found in the search directories describe, sorted by
/// name.
pub fn discover_apps(files: &Vec<DesktopFile>) -> (r: Vec<AppEntry>)
    ensures
        app_pairs(r@) == sorted_apps(desktop_apps(files@)),
{
    let apps = collect_desktop_apps(files);
    sort_apps(&apps)
}

/// The directories to search for desktop files: the user's own first, then those of
/// `XDG_DATA_DIRS` or its default.
pub open spec fn desktop_dirs(home: Option<Seq<char>>, xdg: Option<Seq<char>>) -> Seq<Seq<char>> {
    let own = match home {
        Some(h) => seq![joined_path(h, ".local/share/applications"@)],
        None => seq![],
    };
    let data = split_on(
        match xdg {
            Some(d) => d,
            None => "/usr/local/share:/usr/share"@,
        },
        ':',
    );
    own + Seq::new(data.len(), |i: int| joined_path(data[i], "applications"@))
}

/// Lists the directories to search for desktop files.
pub fn search_dirs(home: Option<String>, xdg_data_dirs: Option<String>) -> (r: Vec<String>)
    ensures
        texts(r@) == desktop_dirs(opt_text(home), opt_text(xdg_data_dirs)),
{
    let mut dirs: Vec<String> = Vec::new();
    if let Some(h) = &home {
        dirs.push(join_path(h.as_str(), ".local/share/applications"));
    }
    let ghost own = texts(dirs@);
    let data = match &xdg_data_dirs {
        Some(d) => chars_of(d.as_str()),
        None => chars_of("/usr/local/share:/usr/share"),
    };
    let pieces = split(data.as_slice(), ':');
    let ghost all = desktop_dirs(opt_text(home), opt_text(xdg_data_dirs));
    let mut i: usize = 0;
    while i < pieces.len()
        invariant
            i <= pieces@.len(),
            all.len() == own.len() + pieces@.len(),
            forall|k: int|
                0 <= k < pieces@.len() ==> all[own.len() + k] == joined_path(
                    #[trigger] pieces@[k]@,
                    "applications"@,
                ),
            texts(dirs@) == all.take(own.len() + i),
        decreases pieces@.len() - i,
    {
        let ghost prev = texts(dirs@);
        dirs.push(join_path(pieces[i].as_str(), "applications"));
        assert(all[own.len() + i] == joined_path(pieces@[i as int]@, "applications"@));
        i = i + 1;
        assert(texts(dirs@) =~= prev.push(all[own.len() + i - 1]));
        assert(texts(dirs@) =~= all.take(own.len() + i));
    }
    assert(all.take(own.len() + i) =~= all);
    dirs
}

// ── Application bundles ───────────────────────────────────────────────────────

/// The path is that of an application bundle.
pub open spec fn is_bundle_path(path: Seq<char>) -> bool {
    path_extension(path) == Some("app"@)
}

/// Whether the path is that of an application bundle.
pub fn is_bundle(path: &str) -> (r: bool)
    ensures
        r == is_bundle_path(path@),
{
    match extension(path) {
        Some(e) => same(e.as_str(), "app"),
        None => false,
    }
}

/// An entry of a directory that is searched for bundles.
pub struct BundleCandidate {
    pub path: String,
    /// The paths in it, where it is a directory that could be read.
    pub children: Option<Vec<String>>,
}

/// The paths among the given that are bundles.
pub open spec fn bundles_among(paths: Seq<Seq<char>>) -> Seq<Seq<char>>
    decreases paths.len(),
{
    if paths.len() == 0 {
        seq![]
    } else if is_bundle_path(paths.last()) {
        bundles_among(paths.drop_last()).push(paths.last())
    } else {
        bundles_among(paths.drop_last())
    }
}

/// The bundles in a directory and, one level down, in its other subdirectories.
pub open spec fn bundles_in(entries: Seq<BundleCandidate>) -> Seq<Seq<char>>
    decreases entries.len(),
{
    if entries.len() == 0 {
        seq![]
    } else {
        let rest = bundles_in(entries.drop_last());
        let e = entries.last();
        if is_bundle_path(e.path@) {
            rest.push(e.path@)
        } else {
            match e.children {
                Some(c) => rest + bundles_among(texts(c@)),
                None => rest,
            }
        }
    }
}

/// Lists the bundles in a directory and in its subdirectories (`Utilities` and the like).
pub fn scan_bundles(entries: &Vec<BundleCandidate>) -> (r: Vec<String>)
    ensures
        texts(r@) == bundles_in(entries@),
{
    let mut r: Vec<String> = Vec::new();
    let mut i: usize = 0;
    assert(texts(r@) =~= bundles_in(entries@.take(0)));
    while i < entries.len()
        invariant
            i <= entries@.len(),
            texts(r@) == bundles_in(entries@.take(i as int)),
        decreases entries@.len() - i,
    {
        let e = &entries[i];
        let ghost rest = texts(r@);
        assert(entries@.take(i as int + 1).drop_last() =~= entries@.take(i as int));
        assert(entries@.take(i as int + 1).last() == *e);
        if is_bundle(e.path.as_str()) {
            r.push(e.path.clone());
            assert(texts(r@) =~= rest.push(e.path@));
        } else if let Some(children) = &e.children {
            let mut k: usize = 0;
            let ghost inner = texts(children@);
            assert(texts(r@) =~= rest + bundles_among(inner.take(0)));
            while k < children.len()
                invariant
                    k <= children@.len(),
                    inner == texts(children@),
                    texts(r@) == rest + bundles_among(inner.take(k as int)),
                decreases children@.len() - k,
            {
                let ghost prev = texts(r@);
                assert(inner.take(k as int + 1).drop_last() =~= inner.take(k as int));
                assert(inner.take(k as int + 1).last() == children@[k as int]@);
                if is_bundle(children[k].as_str()) {
                    r.push(children[k].clone());
                    assert(texts(r@) =~= prev.push(children@[k as int]@));
                }
                k = k + 1;
                assert(texts(r@) =~= rest + bundles_among(inner.take(k as int)));
            }
            assert(inner.take(k as int) =~= inner);
        }
        i = i + 1;
    }
    assert(entries@.take(i as int) =~= entries@);
    r
}

/// Adds the application of a bundle, unless its path was seen before.
pub fn collect_app(path: &str, seen: &mut Vec<String>, apps: &mut Vec<AppEntry>)
    ensures
        if texts(old(seen)@).contains(path@) {
            texts(final(seen)@) == texts(old(seen)@) && final(apps)@ == old(apps)@
        } else {
            &&& texts(final(seen)@) == texts(old(seen)@).push(path@)
            &&& match path_stem(path@) {
                Some(name) => app_pairs(final(apps)@) == app_pairs(old(apps)@).push((name, path@)),
                None => final(apps)@ == old(apps)@,
            }
        },
{
    if is_seen(seen, path) {
        return;
    }
    let ghost before = texts(seen@);
    seen.push(path.to_owned());
    assert(texts(seen@) =~= before.push(path@));
    if let Some(name) = stem(path) {
        let ghost pairs = app_pairs(apps@);
        apps.push(AppEntry { name, path: path.to_owned() });
        assert(app_pairs(apps@) =~= pairs.push((path_stem(path@)->0, path@)));
    }
}

/// The applications of the bundles: each path counts once.
pub open spec fn bundle_apps(paths: Seq<Seq<char>>) -> Seq<AppModel>
    decreases paths.len(),
{
    if paths.len() == 0 {
        seq![]
    } else {
        let found = bundle_apps(paths.drop_last());
        match path_stem(paths.last()) {
            Some(name) => if paths.drop_last().contains(paths.last()) {
                found
            } else {
                found.push((name, paths.last()))
            },
            None => found,
        }
    }
}

/// Each path occurs once among the applications of the bundles, and is that of a bundle.
pub proof fn law_bundle_apps_distinct(paths: Seq<Seq<char>>)
    ensures
        forall|i: int|
            0 <= i < bundle_apps(paths).len() ==> paths.contains(
                (#[trigger] bundle_apps(paths)[i]).1,
            ),
        forall|i: int, j: int|
            0 <= i < j < bundle_apps(paths).len() ==> (#[trigger] bundle_apps(paths)[i]).1 != (
            #[trigger] bundle_apps(paths)[j]).1,
    decreases paths.len(),
{
    if paths.len() > 0 {
        let head = paths.drop_last();
        law_bundle_apps_distinct(head);
        let found = bundle_apps(head);
        let all = bundle_apps(paths);
        assert(paths =~= head.push(paths.last()));
        assert forall|i: int| 0 <= i < all.len() implies paths.contains((#[trigger] all[i]).1) by {
            lemma_push_contains(head, paths.last(), all[i].1);
            if i < found.len() {
                assert(all[i] == found[i]);
            }
        }
        assert forall|i: int, j: int| 0 <= i < j < all.len() implies (#[trigger] all[i]).1 != (
        #[trigger] all[j]).1 by {
            assert(all[i] == found[i]);
            if j < found.len() {
                assert(all[j] == found[j]);
            }
        }
    }
}

/// The applications of the bundles found, sorted by name.
pub fn discover_bundles(paths: &Vec<String>) -> (r: Vec<AppEntry>)
    ensures
        app_pairs(r@) == sorted_apps(bundle_apps(texts(paths@))),
{
    let ghost all = texts(paths@);
    let mut seen: Vec<String> = Vec::new();
    let mut apps: Vec<AppEntry> = Vec::new();
    let mut i: usize = 0;
    assert(app_pairs(apps@) =~= bundle_apps(all.take(0)));
    assert(texts(seen@) =~= all.take(0));
    while i < paths.len()
        invariant
            i <= paths@.len(),
            all == texts(paths@),
            app_pairs(apps@) == bundle_apps(all.take(i as int)),
            forall|x: Seq<char>| #[trigger]
                texts(seen@).contains(x) == all.take(i as int).contains(x),
        decreases paths@.len() - i,
    {
        let ghost head = all.take(i as int);
        let ghost more = all.take(i as int + 1);
        let ghost known = texts(seen@);
        collect_app(paths[i].as_str(), &mut seen, &mut apps);
        proof {
            let p = paths@[i as int]@;
            assert(more.drop_last() =~= head);
            assert(more.last() == p);
            assert(more =~= head.push(p));
            assert forall|x: Seq<char>| #[trigger] texts(seen@).contains(x) == more.contains(x) by {
                lemma_push_contains(head, p, x);
                if !known.contains(p) {
                    lemma_push_contains(known, p, x);
                }
                assert(known.contains(x) == head.contains(x));
                assert(known.contains(p) == head.contains(p));
            }
            assert(known.contains(p) == head.contains(p));
        }
        i = i + 1;
    }
    assert(all.take(i as int) =~= all);
    sort_apps(&apps)
}

proof fn lemma_push_contains(s: Seq<Seq<char>>, p: Seq<char>, x: Seq<char>)
    ensures
        s.push(p).contains(x) == (s.contains(x) || x == p),
{
    let m = s.push(p);
    if s.contains(x) {
        let i = choose|i: int| 0 <= i < s.len() && s[i] == x;
        assert(m[i] == x);
    }
    if x == p {
        assert(m[s.len() as int] == x);
    }
    if m.contains(x) {
        let i = choose|i: int| 0 <= i < m.len() && m[i] == x;
        assert(i < s.len() ==> s[i] == x);
    }
}

/// The directories to search for bundles.
pub fn bundle_dirs(home: &str) -> (r: Vec<String>)
    ensures
        texts(r@) == seq![
            "/Applications"@,
            "/System/Applications"@,
            joined_path(home@, "Applications"@),
        ],
{
    let mut dirs: Vec<String> = Vec::new();
    dirs.push("/Applications".to_owned());
    dirs.push("/System/Applications".to_owned());
    dirs.push(join_path(home, "Applications"));
    assert(texts(dirs@) =~= seq![
        "/Applications"@,
        "/System/Applications"@,
        joined_path(home@, "Applications"@),
    ]);
    dirs
}

// ── Laws ──────────────────────────────────────────────────────────────────────

/// The section `[Desktop Entry]` of a file with these lines is from line `h` to before line
/// `e`: it starts with its header, the first there is, and ends with the next other header or
/// with the file.
pub open spec fn is_section(l: Seq<Seq<char>>, h: int, e: int) -> bool {
    &&& 0 <= h < e <= l.len()
    &&& l[h] == "[Desktop Entry]"@
    &&& forall|i: int| 0 <= i < h ==> #[trigger] l[i] != "[Desktop Entry]"@
    &&& forall|i: int|
        h < i < e && (#[trigger] l[i]).len() > 0 && l[i][0] == '[' ==> l[i] == "[Desktop Entry]"@
    &&& e < l.len() ==> l[e].len() > 0 && l[e][0] == '[' && l[e] != "[Desktop Entry]"@
}

proof fn lemma_section(l: Seq<Seq<char>>, h: int, e: int)
    requires
        is_section(l, h, e),
    ensures
        entry_lines(l) == l.subrange(h, e),
{
    let n = l.len() as int;
    let starts = |i: int| is_entry_header(l[i]);
    assert(starts(h));
    assert forall|k: int| 0 <= k < h implies !(#[trigger] starts(k)) by {
        assert(l[k] != "[Desktop Entry]"@);
    }
    lemma_first_where(n, starts, h);
    let ends = |i: int| i >= entry_start(l) && is_other_header(l[i]);
    assert forall|k: int| 0 <= k < e implies !(#[trigger] ends(k)) by {
        if k > h {
            assert(l[k].len() > 0 && l[k][0] == '[' ==> l[k] == "[Desktop Entry]"@);
        }
    }
    lemma_first_where(n, ends, e);
}

/// The lines of a file that are looked at are its lines without the white space around them.
pub proof fn law_trimmed_lines(content: Seq<char>)
    ensures
        trimmed_lines(content) == lines(content).map_values(|s: Seq<char>| trimmed(s)),
{
    assert(trimmed_lines(content) =~= lines(content).map_values(|s: Seq<char>| trimmed(s)));
}

/// The value of the first line with a key is what follows the key there, the whole of it.
proof fn lemma_first_value(l: Seq<Seq<char>>, key: Seq<char>, k: int, v: Seq<char>)
    requires
        0 <= k < l.len(),
        l[k] == key + v,
        forall|i: int| 0 <= i < k ==> !begins(#[trigger] l[i], key),
    ensures
        first_value(l, key) == Some(v),
    decreases l.len(),
{
    let init = l.drop_last();
    law_prefix(key, v);
    if k < l.len() - 1 {
        assert forall|i: int| 0 <= i < k implies !begins(#[trigger] init[i], key) by {
            assert(!begins(l[i], key));
        }
        lemma_first_value(init, key, k, v);
    } else {
        assert forall|i: int| 0 <= i < init.len() implies !begins(#[trigger] init[i], key) by {
            assert(!begins(l[i], key));
        }
        lemma_no_value(init, key);
    }
}

proof fn lemma_no_value(l: Seq<Seq<char>>, key: Seq<char>)
    requires
        forall|i: int| 0 <= i < l.len() ==> !begins(#[trigger] l[i], key),
    ensures
        first_value(l, key) is None,
        last_value(l, key) is None,
    decreases l.len(),
{
    if l.len() > 0 {
        let init = l.drop_last();
        assert forall|i: int| 0 <= i < init.len() implies !begins(#[trigger] init[i], key) by {
            assert(!begins(l[i], key));
        }
        lemma_no_value(init, key);
        assert(!begins(l[l.len() - 1], key));
    }
}

proof fn lemma_last_value(l: Seq<Seq<char>>, key: Seq<char>, k: int, v: Seq<char>)
    requires
        0 <= k < l.len(),
        l[k] == key + v,
        forall|i: int| k < i < l.len() ==> !begins(#[trigger] l[i], key),
    ensures
        last_value(l, key) == Some(v),
    decreases l.len(),
{
    law_prefix(key, v);
    if k < l.len() - 1 {
        let init = l.drop_last();
        assert(!begins(l[l.len() - 1], key));
        assert forall|i: int| k < i < init.len() implies !begins(#[trigger] init[i], key) by {
            assert(!begins(l[i], key));
        }
        lemma_last_value(init, key, k, v);
    }
}

/// The name of a desktop file is what follows `Name=` on the first such line of its section
/// `[Desktop Entry]`, the whole of it, where the last `Type=` line there says `Application`
/// and no line there hides the entry.
pub proof fn law_desktop_name(
    content: Seq<char>,
    h: int,
    e: int,
    t: int,
    k: int,
    name: Seq<char>,
)
    requires
        is_section(trimmed_lines(content), h, e),
        h <= t < e,
        trimmed_lines(content)[t] == "Type=Application"@,
        forall|i: int| t < i < e ==> !begins(#[trigger] trimmed_lines(content)[i], "Type="@),
        h <= k < e,
        trimmed_lines(content)[k] == "Name="@ + name,
        forall|i: int| h <= i < k ==> !begins(#[trigger] trimmed_lines(content)[i], "Name="@),
        forall|i: int|
            h <= i < e ==> #[trigger] trimmed_lines(content)[i] != "NoDisplay=true"@
                && trimmed_lines(content)[i] != "Hidden=true"@,
    ensures
        desktop_name(content) == Some(name),
{
    let l = trimmed_lines(content);
    let s = l.subrange(h, e);
    lemma_section(l, h, e);
    reveal_strlit("Type=Application");
    reveal_strlit("Type=");
    reveal_strlit("Application");
    assert("Type=Application"@ =~= "Type="@ + "Application"@);
    assert forall|i: int| t - h < i < s.len() implies !begins(#[trigger] s[i], "Type="@) by {
        assert(!begins(l[i + h], "Type="@));
    }
    lemma_last_value(s, "Type="@, t - h, "Application"@);
    assert forall|i: int| 0 <= i < k - h implies !begins(#[trigger] s[i], "Name="@) by {
        assert(!begins(l[i + h], "Name="@));
    }
    lemma_first_value(s, "Name="@, k - h, name);
    assert forall|i: int| 0 <= i < s.len() implies #[trigger] s[i] != "NoDisplay=true"@ && s[i]
        != "Hidden=true"@ by {
        assert(l[i + h] == s[i]);
    }
}

/// A desktop file describes nothing to show where its section `[Desktop Entry]` has a line
/// that hides the entry, has no line with a name or with a type, or ends up with a type other
/// than `Application`.
pub proof fn law_not_shown(content: Seq<char>, h: int, e: int, i: int, other: Seq<char>)
    requires
        is_section(trimmed_lines(content), h, e),
        ({
            let l = trimmed_lines(content);
            ||| h <= i < e && (l[i] == "NoDisplay=true"@ || l[i] == "Hidden=true"@)
            ||| forall|k: int| h <= k < e ==> !begins(#[trigger] l[k], "Name="@)
            ||| forall|k: int| h <= k < e ==> !begins(#[trigger] l[k], "Type="@)
            ||| {
                &&& h <= i < e && l[i] == "Type="@ + other && other != "Application"@
                &&& forall|k: int| i < k < e ==> !begins(#[trigger] l[k], "Type="@)
            }
        }),
    ensures
        desktop_name(content) is None,
{
    let l = trimmed_lines(content);
    let s = l.subrange(h, e);
    lemma_section(l, h, e);
    if h <= i < e && (l[i] == "NoDisplay=true"@ || l[i] == "Hidden=true"@) {
        assert(s[i - h] == l[i]);
    } else if forall|k: int| h <= k < e ==> !begins(#[trigger] l[k], "Name="@) {
        assert forall|k: int| 0 <= k < s.len() implies !begins(#[trigger] s[k], "Name="@) by {
            assert(!begins(l[k + h], "Name="@));
        }
        lemma_no_value(s, "Name="@);
    } else if forall|k: int| h <= k < e ==> !begins(#[trigger] l[k], "Type="@) {
        assert forall|k: int| 0 <= k < s.len() implies !begins(#[trigger] s[k], "Type="@) by {
            assert(!begins(l[k + h], "Type="@));
        }
        lemma_no_value(s, "Type="@);
    } else {
        assert forall|k: int| i - h < k < s.len() implies !begins(#[trigger] s[k], "Type="@) by {
            assert(!begins(l[k + h], "Type="@));
        }
        lemma_last_value(s, "Type="@, i - h, other);
    }
}

/// A file without the section `[Desktop Entry]` describes nothing to show.
pub proof fn law_no_section(content: Seq<char>)
    requires
        !trimmed_lines(content).contains("[Desktop Entry]"@),
    ensures
        desktop_name(content) is None,
{
    let l = trimmed_lines(content);
    let n = l.len() as int;
    let starts = |i: int| is_entry_header(l[i]);
    assert forall|k: int| 0 <= k < n implies !(#[trigger] starts(k)) by {
        assert(l.contains(l[k]));
    }
    lemma_first_where(n, starts, n);
    let ends = |i: int| i >= entry_start(l) && is_other_header(l[i]);
    lemma_first_where(n, ends, n);
    assert(entry_lines(l) =~= seq![]);
    lemma_no_value(entry_lines(l), "Type="@);
}

/// Every file that ends in `.desktop`, can be read and describes an application gives an
/// application of that name and that path, unless an earlier file has the same path.
pub proof fn law_desktop_file_is_found(files: Seq<DesktopFile>, i: int, name: Seq<char>)
    requires
        0 <= i < files.len(),
        path_extension(files[i].path@) == Some("desktop"@),
        files[i].content matches Some(c) && desktop_name(c@) == Some(name),
        forall|j: int| 0 <= j < i ==> (#[trigger] files[j]).path@ != files[i].path@,
    ensures
        desktop_apps(files).contains((name, files[i].path@)),
    decreases files.len(),
{
    let init = files.drop_last();
    let found = desktop_apps(init);
    let all = desktop_apps(files);
    let app = (name, files[i].path@);
    if i < init.len() {
        assert forall|j: int| 0 <= j < i implies (#[trigger] init[j]).path@ != init[i].path@ by {
            assert(files[j].path@ != files[i].path@);
        }
        law_desktop_file_is_found(init, i, name);
        let k = choose|k: int| 0 <= k < found.len() && found[k] == app;
        assert(all[k] == app);
    } else {
        law_desktop_apps_come_from_files(init);
        if has_path(found, app.1) {
            let k = choose|k: int| 0 <= k < found.len() && (#[trigger] found[k]).1 == app.1;
            let j = choose|j: int|
                0 <= j < init.len() && (#[trigger] init[j]).path@ == found[k].1 && file_app(init[j])
                    == Some(found[k].0);
            assert(files[j].path@ == app.1);
        }
        assert(all[found.len() as int] == app);
    }
}

/// Every application that is found is described by a file of its path.
pub proof fn law_desktop_apps_come_from_files(files: Seq<DesktopFile>)
    ensures
        forall|k: int|
            0 <= k < desktop_apps(files).len() ==> exists|j: int|
                0 <= j < files.len() && (#[trigger] files[j]).path@ == (
                #[trigger] desktop_apps(files)[k]).1 && file_app(files[j]) == Some(
                    desktop_apps(files)[k].0,
                ),
    decreases files.len(),
{
    if files.len() > 0 {
        let init = files.drop_last();
        let found = desktop_apps(init);
        let all = desktop_apps(files);
        law_desktop_apps_come_from_files(init);
        assert forall|k: int| 0 <= k < all.len() implies exists|j: int|
            0 <= j < files.len() && (#[trigger] files[j]).path@ == (#[trigger] all[k]).1
                && file_app(files[j]) == Some(all[k].0) by {
            if k < found.len() {
                assert(all[k] == found[k]);
                let j = choose|j: int|
                    0 <= j < init.len() && (#[trigger] init[j]).path@ == found[k].1 && file_app(
                        init[j],
                    ) == Some(found[k].0);
                assert(files[j] == init[j]);
            } else {
                assert(files[files.len() - 1] == files.last());
            }
        }
    }
}

/// Files that are found later add to the applications, and change nothing of those found
/// before.
pub proof fn law_desktop_apps_grow(files: Seq<DesktopFile>, more: Seq<DesktopFile>)
    ensures
        desktop_apps(files).len() <= desktop_apps(files + more).len(),
        desktop_apps(files + more).take(desktop_apps(files).len() as int) == desktop_apps(files),
    decreases more.len(),
{
    let a = desktop_apps(files);
    let b = desktop_apps(files + more);
    if more.len() == 0 {
        assert(files + more =~= files);
    } else {
        law_desktop_apps_grow(files, more.drop_last());
        assert((files + more).drop_last() =~= files + more.drop_last());
        let c = desktop_apps(files + more.drop_last());
        assert(b.take(a.len() as int) =~= c.take(a.len() as int));
    }
    assert(b.take(a.len() as int) =~= a);
}

/// Sorting applications permutes them: each comes up once, name and path together, those of
/// lower names first when case is ignored, and those of level names in their order.
pub proof fn law_sorted_apps_permute(apps: Seq<AppModel>) -> (o: Seq<usize>)
    requires
        apps.len() <= usize::MAX,
    ensures
        o.len() == apps.len(),
        sorted_apps(apps).len() == apps.len(),
        o.no_duplicates(),
        forall|k: int|
            0 <= k < apps.len() ==> (#[trigger] o[k]) < apps.len() && sorted_apps(apps)[k]
                == apps[o[k] as int],
        forall|a: int, b: int|
            0 <= a < b < apps.len() ==> text_before(
                lowercase(apps[#[trigger] o[a] as int].0),
                lowercase(apps[#[trigger] o[b] as int].0),
            ) || (!text_before(
                lowercase(apps[o[b] as int].0),
                lowercase(apps[o[a] as int].0),
            ) && o[a] < o[b]),
{
    let names = app_names(apps);
    let o = by_name(names);
    let before = |i: int, j: int| name_before(names, i, j);
    lemma_by_name(names);
    lemma_name_order(names);
    assert forall|a: int, b: int| 0 <= a < b < apps.len() implies text_before(
        lowercase(apps[#[trigger] o[a] as int].0),
        lowercase(apps[#[trigger] o[b] as int].0),
    ) || (!text_before(lowercase(apps[o[b] as int].0), lowercase(apps[o[a] as int].0)) && o[a]
        < o[b]) by {
        assert(crate::order::comes_first(before, o[a] as int, o[b] as int));
    }
    assert(o.no_duplicates()) by {
        assert forall|a: int, b: int| 0 <= a < b < o.len() implies o[a] != o[b] by {
            assert(crate::order::comes_first(before, o[a] as int, o[b] as int));
            if o[a] == o[b] {
                assert(before(o[a] as int, o[a] as int) ==> !before(o[a] as int, o[a] as int));
            }
        }
    }
    o
}

/// The user's own directory of desktop files stands first, and then one for each directory of
/// data, in their order.
pub proof fn law_desktop_dirs(home: Seq<char>, dirs: Seq<Seq<char>>)
    requires
        home.len() > 0,
        home.last() != '/',
        dirs.len() > 0,
        forall|i: int|
            0 <= i < dirs.len() ==> (#[trigger] dirs[i]).len() > 0 && dirs[i].last() != '/'
                && !dirs[i].contains(':'),
    ensures
        desktop_dirs(Some(home), Some(joined(dirs, ':'))) == seq![
            home + "/.local/share/applications"@,
        ] + dirs.map_values(|d: Seq<char>| d + "/applications"@),
        desktop_dirs(None, Some(joined(dirs, ':'))) == dirs.map_values(
            |d: Seq<char>| d + "/applications"@,
        ),
{
    let own = home + "/.local/share/applications"@;
    lemma_own_dir(home);
    law_split_joined(dirs, ':');
    let below = dirs.map_values(|d: Seq<char>| d + "/applications"@);
    assert forall|i: int| 0 <= i < dirs.len() implies #[trigger] below[i] == joined_path(
        dirs[i],
        "applications"@,
    ) by {
        lemma_data_dir(dirs[i]);
    }
    assert(desktop_dirs(None, Some(joined(dirs, ':'))) =~= below);
    assert(desktop_dirs(Some(home), Some(joined(dirs, ':'))) =~= seq![own] + below);
}

/// Where no directories of data are named, there are the two usual ones.
pub proof fn law_usual_desktop_dirs(home: Seq<char>)
    requires
        home.len() > 0,
        home.last() != '/',
    ensures
        desktop_dirs(Some(home), None) == seq![
            home + "/.local/share/applications"@,
            "/usr/local/share/applications"@,
            "/usr/share/applications"@,
        ],
{
    let (a, b) = ("/usr/local/share"@, "/usr/share"@);
    lemma_usual_dirs();
    law_desktop_dirs(home, seq![a, b]);
    let got = desktop_dirs(Some(home), None);
    assert(got == desktop_dirs(Some(home), Some(joined(seq![a, b], ':'))));
    let below = seq![a, b].map_values(|d: Seq<char>| d + "/applications"@);
    assert(below =~= seq![a + "/applications"@, b + "/applications"@]);
    assert(got =~= seq![
        home + "/.local/share/applications"@,
        a + "/applications"@,
        b + "/applications"@,
    ]);
}

proof fn lemma_own_dir(home: Seq<char>)
    requires
        home.len() > 0,
        home.last() != '/',
    ensures
        joined_path(home, ".local/share/applications"@) == home + "/.local/share/applications"@,
{
    reveal_strlit(".local/share/applications");
    reveal_strlit("/.local/share/applications");
    law_joined_path(home, ".local/share/applications"@);
    assert(home + seq!['/'] + ".local/share/applications"@ =~= home
        + "/.local/share/applications"@);
}

proof fn lemma_data_dir(dir: Seq<char>)
    requires
        dir.len() > 0,
        dir.last() != '/',
    ensures
        joined_path(dir, "applications"@) == dir + "/applications"@,
{
    reveal_strlit("applications");
    reveal_strlit("/applications");
    law_joined_path(dir, "applications"@);
    assert(dir + seq!['/'] + "applications"@ =~= dir + "/applications"@);
}

proof fn lemma_usual_dirs()
    ensures
        joined(seq!["/usr/local/share"@, "/usr/share"@], ':') == "/usr/local/share:/usr/share"@,
        !"/usr/local/share"@.contains(':') && !"/usr/share"@.contains(':'),
        "/usr/local/share"@.len() > 0 && "/usr/local/share"@.last() != '/',
        "/usr/share"@.len() > 0 && "/usr/share"@.last() != '/',
        "/usr/local/share"@ + "/applications"@ == "/usr/local/share/applications"@,
        "/usr/share"@ + "/applications"@ == "/usr/share/applications"@,
{
    let (a, b) = ("/usr/local/share"@, "/usr/share"@);
    reveal_strlit("/usr/local/share:/usr/share");
    reveal_strlit("/usr/local/share");
    reveal_strlit("/usr/share");
    reveal_strlit("/applications");
    reveal_strlit("/usr/local/share/applications");
    reveal_strlit("/usr/share/applications");
    law_joined(seq![a], b, ':');
    law_joined(Seq::empty(), a, ':');
    assert(seq![a].push(b) =~= seq![a, b]);
    assert(a + seq![':'] + b =~= "/usr/local/share:/usr/share"@);
    assert(a + "/applications"@ =~= "/usr/local/share/applications"@);
    assert(b + "/applications"@ =~= "/usr/share/applications"@);
}

/// The bundles among paths are those that end in `.app`, in their order.
pub proof fn law_bundles_among(paths: Seq<Seq<char>>)
    ensures
        bundles_among(paths) == paths.filter(|p: Seq<char>| path_extension(p) == Some("app"@)),
    decreases paths.len(),
{
    reveal(Seq::filter);
    let keep = |p: Seq<char>| path_extension(p) == Some("app"@);
    if paths.len() > 0 {
        law_bundles_among(paths.drop_last());
    } else {
        assert(bundles_among(paths) =~= paths.filter(keep));
    }
}

/// The bundles in a directory are those of its entries, one after the other: of a bundle
/// itself, and of another subdirectory the bundles in it.
pub proof fn law_bundles_in(entries: Seq<BundleCandidate>, more: BundleCandidate)
    ensures
        bundles_in(entries.push(more)) == bundles_in(entries) + (if path_extension(more.path@)
            == Some("app"@) {
            seq![more.path@]
        } else {
            match more.children {
                Some(c) => texts(c@).filter(|p: Seq<char>| path_extension(p) == Some("app"@)),
                None => seq![],
            }
        }),
        bundles_in(Seq::empty()).len() == 0,
{
    assert(entries.push(more).drop_last() =~= entries);
    if let Some(c) = more.children {
        law_bundles_among(texts(c@));
    }
    let before = bundles_in(entries);
    assert(before.push(more.path@) =~= before + seq![more.path@]);
    assert(before + seq![] =~= before);
}

/// A bundle whose path comes up for the first time gives an application with that path, named
/// by the stem of its file name; one whose path came up before gives none.
pub proof fn law_bundle_app(paths: Seq<Seq<char>>, path: Seq<char>, name: Seq<char>)
    requires
        path_stem(path) == Some(name),
    ensures
        !paths.contains(path) ==> bundle_apps(paths.push(path)) == bundle_apps(paths).push(
            (name, path),
        ),
        paths.contains(path) ==> bundle_apps(paths.push(path)) == bundle_apps(paths),
        bundle_apps(Seq::empty()).len() == 0,
{
    assert(paths.push(path).drop_last() =~= paths);
}

/// A file that says no more than that it is an application of some name gives that name, the
/// whole of it.
pub proof fn law_plain_desktop_file(name: Seq<char>)
    requires
        name.len() > 0,
        !name.contains('\n'),
        !crate::text::is_white(name.last()),
    ensures
        desktop_name(
            "[Desktop Entry]"@ + seq!['\n'] + ("Type=Application"@ + seq!['\n'] + ("Name="@ + name
                + seq!['\n'])),
        ) == Some(name),
{
    let e = Seq::<char>::empty();
    let (a, b, c) = ("[Desktop Entry]"@, "Type=Application"@, "Name="@ + name);
    let third = c + seq!['\n'];
    let second = b + seq!['\n'] + third;
    let content = a + seq!['\n'] + second;
    reveal_strlit("[Desktop Entry]");
    reveal_strlit("Type=Application");
    reveal_strlit("Type=");
    reveal_strlit("Name=");
    reveal_strlit("NoDisplay=true");
    reveal_strlit("Hidden=true");
    assert(a[0] == '[' && a.last() == ']' && b[0] == 'T' && b.last() == 'n' && c[0] == 'N');
    assert(c.last() == name.last());
    crate::text::law_white('[');
    crate::text::law_white(']');
    crate::text::law_white('T');
    crate::text::law_white('n');
    crate::text::law_white('N');
    crate::text::law_white('\r');
    assert(!c.contains('\n')) by {
        if c.contains('\n') {
            let i = choose|i: int| 0 <= i < c.len() && c[i] == '\n';
            if i >= 5 {
                assert(name[i - 5] == '\n');
            } else {
                assert("Name="@[i] == '\n');
            }
        }
    }
    crate::text::law_lines(a, second);
    crate::text::law_lines(b, third);
    crate::text::law_lines(c, e);
    assert(c + seq!['\n'] + e =~= third);
    crate::text::law_trimmed(e, a, e);
    crate::text::law_trimmed(e, b, e);
    crate::text::law_trimmed(e, c, e);
    let l = trimmed_lines(content);
    assert(lines(content) =~= seq![a, b, c]);
    assert(l =~= seq![a, b, c]);
    assert(!begins(a, "Name="@)) by {
        if begins(a, "Name="@) {
            assert(a[0] == "Name="@[0]);
        }
    }
    assert(!begins(b, "Name="@)) by {
        if begins(b, "Name="@) {
            assert(b[0] == "Name="@[0]);
        }
    }
    assert(!begins(c, "Type="@)) by {
        if begins(c, "Type="@) {
            assert(c[0] == "Type="@[0]);
        }
    }
    assert(c[1] == 'a' && "NoDisplay=true"@[1] == 'o' && "Hidden=true"@[0] == 'H');
    assert("NoDisplay=true"@[0] == 'N');
    law_desktop_name(content, 0, 3, 1, 2, name);
}

} // verus!

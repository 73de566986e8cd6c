//! The file explorer: directory listings, navigation and how entries are shown.

use vstd::prelude::*;

use crate::order::{
    asymmetric, first_where, law_ranking_exists, lemma_first_where, lemma_picked,
    lemma_ranking_agrees, picked, rank, ranked, SortKey,
};
use crate::config::joined_path;
use crate::paths::{
    file_name, is_plain_dir, is_plain_name, parent, path_file_name, path_parent,
};
use crate::text::{
    begins, chars_of, contains_char, contains_text, decimal, decimal_int, law_last_piece,
    lowercase, occurs, opt_text, push_decimal, push_decimal_int, push_two_digits, same,
    split, split_on, starts_with, texts, to_lower, two_digits,
};

verus! {

// ── Entries ───────────────────────────────────────────────────────────────────

/// A single entry in a directory listing.
#[derive(Debug)]
pub struct FileEntry {
    pub name: String,
    pub path: String,
    pub is_dir: bool,
    pub size: u64,
    /// Modification time in seconds since the epoch.
    pub modified: i64,
    /// Name of the owner.
    pub owner: String,
}

impl Clone for FileEntry {
    fn clone(&self) -> (r: Self)
        ensures
            r == *self,
    {
        FileEntry {
            name: self.name.clone(),
            path: self.path.clone(),
            is_dir: self.is_dir,
            size: self.size,
            modified: self.modified,
            owner: self.owner.clone(),
        }
    }
}

/// Entries whose name starts with a dot are not shown.
pub open spec fn is_hidden(name: Seq<char>) -> bool {
    name.len() > 0 && name[0] == '.'
}

/// Directories stand before files, and among either the last modified before the others.
pub open spec fn entry_before(l: Seq<FileEntry>, i: int, j: int) -> bool {
    if l[i].is_dir != l[j].is_dir {
        l[i].is_dir
    } else {
        l[i].modified > l[j].modified
    }
}

/// The positions in a raw listing of the entries that are shown, in display order.
pub open spec fn listing_order(l: Seq<FileEntry>) -> Seq<usize> {
    ranked(
        l.len() as int,
        |i: int| !is_hidden(l[i].name@),
        |i: int, j: int| entry_before(l, i, j),
    )
}

/// The entries of a raw listing that are shown, in display order.
pub open spec fn arranged(l: Seq<FileEntry>) -> Seq<FileEntry> {
    Seq::new(listing_order(l).len(), |k: int| l[listing_order(l)[k] as int])
}

/// What a directory entry is ranked by.
struct ListingKey {
    is_dir: bool,
    modified: i64,
}

impl SortKey for ListingKey {
    closed spec fn before(&self, other: &Self) -> bool {
        if self.is_dir != other.is_dir {
            self.is_dir
        } else {
            self.modified > other.modified
        }
    }

    proof fn asymmetric(a: &Self, b: &Self) {
    }

    proof fn transitive(a: &Self, b: &Self, c: &Self) {
    }

    fn precedes(&self, other: &Self) -> (r: bool) {
        if self.is_dir != other.is_dir {
            self.is_dir
        } else {
            self.modified > other.modified
        }
    }
}

/// Puts a raw directory listing into display order and leaves the hidden entries out.
pub fn arrange(listing: &Vec<FileEntry>) -> (r: Vec<FileEntry>)
    ensures
        r@ == arranged(listing@),
{
    let ghost keep = |i: int| !is_hidden(listing@[i].name@);
    let ghost before = |i: int, j: int| entry_before(listing@, i, j);
    let mut keys: Vec<ListingKey> = Vec::new();
    let mut ids: Vec<usize> = Vec::new();
    let mut i: usize = 0;
    while i < listing.len()
        invariant
            i <= listing@.len(),
            keep == (|i: int| !is_hidden(listing@[i].name@)),
            keys@.len() == i,
            forall|k: int|
                0 <= k < i ==> (#[trigger] keys@[k]).is_dir == listing@[k].is_dir && keys@[k].modified
                    == listing@[k].modified,
            forall|x: int| 0 <= x < ids@.len() ==> (#[trigger] ids@[x]) < i && keep(ids@[x] as int),
            forall|k: usize| k < i && keep(k as int) ==> #[trigger] ids@.contains(k),
            forall|x: int, y: int| 0 <= x < y < ids@.len() ==> ids@[x] < ids@[y],
        decreases listing@.len() - i,
    {
        let e = &listing[i];
        keys.push(ListingKey { is_dir: e.is_dir, modified: e.modified });
        let name = chars_of(e.name.as_str());
        let ghost prev = ids@;
        if !(name.len() > 0 && name[0] == '.') {
            ids.push(i);
            assert(ids@[ids@.len() - 1] == i);
        }
        proof {
            assert forall|k: usize| k < i + 1 && keep(k as int) implies #[trigger] ids@.contains(
                k,
            ) by {
                if k < i {
                    assert(prev.contains(k));
                    let x = choose|x: int| 0 <= x < prev.len() && prev[x] == k;
                    assert(ids@[x] == k);
                }
            }
        }
        i = i + 1;
    }
    let order = rank(&keys, &ids, Ghost(keep));
    proof {
        let by_key = |i: int, j: int| crate::order::key_before(keys@, i, j);
        assert(asymmetric(before));
        lemma_ranking_agrees(order@, listing@.len() as int, keep, by_key, keep, before);
    }
    let mut r: Vec<FileEntry> = Vec::new();
    let mut k: usize = 0;
    while k < order.len()
        invariant
            k <= order@.len(),
            order@ == listing_order(listing@),
            forall|a: int| 0 <= a < order@.len() ==> (#[trigger] order@[a]) < listing@.len(),
            r@ == arranged(listing@).take(k as int),
        decreases order@.len() - k,
    {
        r.push(listing[order[k]].clone());
        k = k + 1;
        assert(r@ =~= arranged(listing@).take(k as int));
    }
    assert(arranged(listing@).take(k as int) =~= arranged(listing@));
    r
}

/// A listing in display order shows exactly the entries that are not hidden, directories
/// first, and within directories and within files the last modified first.
pub proof fn law_arranged(l: Seq<FileEntry>)
    requires
        l.len() <= usize::MAX,
    ensures
        forall|k: int|
            0 <= k < arranged(l).len() ==> l.contains(#[trigger] arranged(l)[k]) && !is_hidden(
                arranged(l)[k].name@,
            ),
        forall|i: int|
            0 <= i < l.len() && !is_hidden((#[trigger] l[i]).name@) ==> arranged(l).contains(l[i]),
        forall|a: int, b: int|
            #![trigger arranged(l)[a], arranged(l)[b]]
            0 <= a < b < arranged(l).len() ==> {
                &&& arranged(l)[b].is_dir ==> arranged(l)[a].is_dir
                &&& arranged(l)[a].is_dir == arranged(l)[b].is_dir ==> arranged(l)[a].modified
                    >= arranged(l)[b].modified
            },
{
    let o = listing_order(l);
    let s = arranged(l);
    law_ranking_exists(
        l.len() as int,
        |i: int| !is_hidden(l[i].name@),
        |i: int, j: int| entry_before(l, i, j),
    );
    assert forall|k: int| 0 <= k < s.len() implies l.contains(#[trigger] s[k]) && !is_hidden(
        s[k].name@,
    ) by {
        assert(s[k] == l[o[k] as int]);
    }
    assert forall|i: int| 0 <= i < l.len() && !is_hidden((#[trigger] l[i]).name@) implies s.contains(
        l[i],
    ) by {
        assert(o.contains(i as usize));
        let k = choose|k: int| 0 <= k < o.len() && o[k] == i as usize;
        assert(s[k] == l[i]);
    }
    assert forall|a: int, b: int|
        #![trigger s[a], s[b]]
        0 <= a < b < s.len() implies {
        &&& s[b].is_dir ==> s[a].is_dir
        &&& s[a].is_dir == s[b].is_dir ==> s[a].modified >= s[b].modified
    } by {
        assert(s[a] == l[o[a] as int]);
        assert(s[b] == l[o[b] as int]);
    }
}

// ── Filtering ─────────────────────────────────────────────────────────────────

/// Every token stands in the text.
pub open spec fn holds_all(hay: Seq<char>, tokens: Seq<Seq<char>>) -> bool {
    forall|t: int| 0 <= t < tokens.len() ==> occurs(hay, #[trigger] tokens[t])
}

/// The positions of the entries whose path, in lower case, holds every token.
pub open spec fn matching(entries: Seq<FileEntry>, tokens: Seq<Seq<char>>) -> Seq<usize> {
    picked(entries.len() as int, |i: int| holds_all(lowercase(entries[i].path@), tokens))
}

/// Whether every token stands in the text.
fn has_all(hay: &[char], tokens: &Vec<String>) -> (r: bool)
    ensures
        r == holds_all(hay@, texts(tokens@)),
{
    let mut t: usize = 0;
    while t < tokens.len()
        invariant
            t <= tokens@.len(),
            forall|k: int| 0 <= k < t ==> occurs(hay@, #[trigger] texts(tokens@)[k]),
        decreases tokens@.len() - t,
    {
        if !contains_text(hay, tokens[t].as_str()) {
            assert(!occurs(hay@, texts(tokens@)[t as int]));
            return false;
        }
        t = t + 1;
    }
    true
}

/// Picks the entries whose path holds every token.
pub fn filter_entries(entries: &Vec<FileEntry>, tokens: &Vec<String>) -> (r: Vec<usize>)
    ensures
        r@ == matching(entries@, texts(tokens@)),
        forall|a: int| 0 <= a < r@.len() ==> (#[trigger] r@[a]) < entries@.len(),
{
    let ghost keep = |i: int| holds_all(lowercase(entries@[i].path@), texts(tokens@));
    let mut r: Vec<usize> = Vec::new();
    let mut i: usize = 0;
    while i < entries.len()
        invariant
            i <= entries@.len(),
            keep == (|i: int| holds_all(lowercase(entries@[i].path@), texts(tokens@))),
            forall|x: int| 0 <= x < r@.len() ==> (#[trigger] r@[x]) < i && keep(r@[x] as int),
            forall|k: usize| k < i && keep(k as int) ==> #[trigger] r@.contains(k),
            forall|x: int, y: int| 0 <= x < y < r@.len() ==> r@[x] < r@[y],
        decreases entries@.len() - i,
    {
        let lower = to_lower(entries[i].path.as_str());
        let hay = chars_of(lower.as_str());
        let ghost prev = r@;
        if has_all(hay.as_slice(), tokens) {
            r.push(i);
            assert(r@[r@.len() - 1] == i);
        }
        proof {
            assert forall|k: usize| k < i + 1 && keep(k as int) implies #[trigger] r@.contains(
                k,
            ) by {
                if k < i {
                    assert(prev.contains(k));
                    let x = choose|x: int| 0 <= x < prev.len() && prev[x] == k;
                    assert(r@[x] == k);
                }
            }
        }
        i = i + 1;
    }
    proof {
        lemma_picked(r@, entries@.len() as int, keep);
    }
    r
}

/// The children of a directory, from its raw listing if it could be read, that hold
/// every token.
pub open spec fn children(listing: Option<Seq<FileEntry>>, tokens: Seq<Seq<char>>) -> Seq<
    FileEntry,
> {
    match listing {
        Some(l) => {
            let s = arranged(l);
            Seq::new(matching(s, tokens).len(), |k: int| s[matching(s, tokens)[k] as int])
        },
        None => seq![],
    }
}

/// Picks the children of a directory that hold every token.
pub fn dir_children(listing: Option<Vec<FileEntry>>, tokens: &Vec<String>) -> (r: Vec<FileEntry>)
    ensures
        r@ == children(
            match listing {
                Some(l) => Some(l@),
                None => None,
            },
            texts(tokens@),
        ),
{
    let mut r: Vec<FileEntry> = Vec::new();
    if let Some(l) = listing {
        let shown = arrange(&l);
        let ids = filter_entries(&shown, tokens);
        let ghost all = children(Some(l@), texts(tokens@));
        let mut k: usize = 0;
        while k < ids.len()
            invariant
                k <= ids@.len(),
                all.len() == ids@.len(),
                forall|a: int| 0 <= a < ids@.len() ==> (#[trigger] ids@[a]) < shown@.len(),
                forall|a: int| 0 <= a < ids@.len() ==> all[a] == shown@[#[trigger] ids@[a] as int],
                r@ == all.take(k as int),
            decreases ids@.len() - k,
        {
            r.push(shown[ids[k]].clone());
            k = k + 1;
            assert(r@ =~= all.take(k as int));
        }
        assert(all.take(k as int) =~= all);
    }
    r
}

// ── Pane ──────────────────────────────────────────────────────────────────────

/// State of the file explorer.
#[derive(Debug)]
pub struct Pane {
    pub cwd: String,
    pub entries: Vec<FileEntry>,
    pub selected: usize,
}

/// What a pane holds.
pub struct PaneModel {
    pub cwd: Seq<char>,
    pub entries: Seq<FileEntry>,
    pub selected: usize,
}

/// What entering the selected row leads to.
#[derive(Debug)]
pub enum EnterAction {
    /// The pane shows the directory now.
    NavigatedDir,
    /// The file of this path is to be opened.
    OpenFile(String),
}

/// The raw listing that a directory gave, if it could be read.
pub open spec fn listing_view(listing: Option<Vec<FileEntry>>) -> Option<Seq<FileEntry>> {
    match listing {
        Some(l) => Some(l@),
        None => None,
    }
}

/// A pane after its directory has been read again. A directory that cannot be read shows
/// nothing.
pub open spec fn scanned(p: PaneModel, listing: Option<Seq<FileEntry>>) -> PaneModel {
    match listing {
        Some(l) => PaneModel { entries: arranged(l), selected: 0, ..p },
        None => PaneModel { entries: seq![], ..p },
    }
}

/// Whether the entry at a position has the name.
pub open spec fn has_name(entries: Seq<FileEntry>, name: Seq<char>) -> spec_fn(int) -> bool {
    |i: int| entries[i].name@ == name
}

/// A listing holds an entry of the name.
pub open spec fn is_listed(entries: Seq<FileEntry>, name: Seq<char>) -> bool {
    exists|i: int| 0 <= i < entries.len() && (#[trigger] entries[i]).name@ == name
}

/// A pane shows the directory, and has the entry of the name selected where the listing
/// holds it.
pub open spec fn is_back(
    p: PaneModel,
    listing: Option<Seq<FileEntry>>,
    dir: Seq<char>,
    name: Seq<char>,
) -> bool {
    &&& p.cwd == dir
    &&& listing matches Some(l) ==> is_listed(arranged(l), name) ==> {
        &&& p.selected < p.entries.len()
        &&& p.entries[p.selected as int].name@ == name
    }
}

/// A pane after it went to its parent directory: the directory it came from is selected
/// where it is listed.
pub open spec fn gone_up(p: PaneModel, listing: Option<Seq<FileEntry>>) -> PaneModel {
    match path_parent(p.cwd) {
        Some(up) => {
            let s = scanned(PaneModel { cwd: up, ..p }, listing);
            match path_file_name(p.cwd) {
                Some(name) => {
                    let at = first_where(s.entries.len() as int, has_name(s.entries, name));
                    if at < s.entries.len() {
                        PaneModel { selected: at as usize, ..s }
                    } else {
                        s
                    }
                },
                None => s,
            }
        },
        None => p,
    }
}

impl View for Pane {
    type V = PaneModel;

    open spec fn view(&self) -> PaneModel {
        PaneModel { cwd: self.cwd@, entries: self.entries@, selected: self.selected }
    }
}

impl Pane {
    /// A pane on the directory `start`, whose raw listing is given.
    pub fn new(start: &str, listing: Option<Vec<FileEntry>>) -> (p: Self)
        ensures
            p@ == scanned(
                PaneModel { cwd: start@, entries: seq![], selected: 0 },
                listing_view(listing),
            ),
    {
        let mut p = Pane { cwd: start.to_owned(), entries: Vec::new(), selected: 0 };
        assert(p@.entries =~= seq![]);
        p.scan(listing);
        p
    }

    /// Shows a new listing of the current directory.
    pub fn scan(&mut self, listing: Option<Vec<FileEntry>>)
        ensures
            final(self)@ == scanned(old(self)@, listing_view(listing)),
    {
        match listing {
            Some(l) => {
                self.entries = arrange(&l);
                self.selected = 0;
            },
            None => {
                self.entries = Vec::new();
                assert(self.entries@ =~= seq![]);
            },
        }
    }

    /// The directory that entering the selected row would show.
    pub open spec fn target(p: PaneModel) -> Option<Seq<char>> {
        if p.selected < p.entries.len() && p.entries[p.selected as int].is_dir {
            Some(p.entries[p.selected as int].path@)
        } else {
            None
        }
    }

    /// The directory that [`Pane::enter_selected`] would show.
    pub fn enter_target(&self) -> (r: Option<String>)
        ensures
            opt_text(r) == Pane::target(self@),
    {
        if self.selected < self.entries.len() && self.entries[self.selected].is_dir {
            Some(self.entries[self.selected].path.clone())
        } else {
            None
        }
    }

    /// Enters the selected row: a directory is shown, with the raw listing given, a file is
    /// handed to the caller to open.
    pub fn enter_selected(&mut self, listing: Option<Vec<FileEntry>>) -> (r: Option<EnterAction>)
        ensures
            match Pane::target(old(self)@) {
                Some(dir) => {
                    &&& r == Some(EnterAction::NavigatedDir)
                    &&& final(self)@ == scanned(
                        PaneModel { cwd: dir, ..old(self)@ },
                        listing_view(listing),
                    )
                },
                None => {
                    &&& *final(self) == *old(self)
                    &&& if old(self).selected < old(self).entries@.len() {
                        r matches Some(EnterAction::OpenFile(p)) && p@
                            == old(self).entries@[old(self).selected as int].path@
                    } else {
                        r is None
                    }
                },
            },
    {
        if self.selected < self.entries.len() {
            if self.entries[self.selected].is_dir {
                self.cwd = self.entries[self.selected].path.clone();
                self.scan(listing);
                Some(EnterAction::NavigatedDir)
            } else {
                Some(EnterAction::OpenFile(self.entries[self.selected].path.clone()))
            }
        } else {
            None
        }
    }

    /// The directory that [`Pane::go_up`] would show.
    pub fn up_target(&self) -> (r: Option<String>)
        ensures
            opt_text(r) == path_parent(self.cwd@),
    {
        parent(self.cwd.as_str())
    }

    /// Shows the parent directory, with the raw listing given, and selects the directory
    /// that the pane came from. Returns whether there was a parent. From a directory that was
    /// entered by its name, it comes back to where that was listed, and selects it again.
    pub fn go_up(&mut self, listing: Option<Vec<FileEntry>>) -> (moved: bool)
        ensures
            moved == path_parent(old(self).cwd@) is Some,
            final(self)@ == gone_up(old(self)@, listing_view(listing)),
            forall|dir: Seq<char>, name: Seq<char>|
                old(self).cwd@ == #[trigger] joined_path(dir, name) && is_plain_dir(dir)
                    && is_plain_name(name) ==> moved && is_back(
                    final(self)@,
                    listing_view(listing),
                    dir,
                    name,
                ),
    {
        let ghost from = self.cwd@;
        let ghost raw = listing_view(listing);
        match parent(self.cwd.as_str()) {
            Some(up) => {
                let old_name = file_name(self.cwd.as_str());
                let ghost up_to = opt_text(old_name);
                self.cwd = up;
                self.scan(listing);
                if let Some(name) = old_name {
                    let ghost same_name = has_name(self.entries@, name@);
                    let mut i: usize = 0;
                    while i < self.entries.len() && !same(
                        self.entries[i].name.as_str(),
                        name.as_str(),
                    )
                        invariant
                            i <= self.entries@.len(),
                            forall|k: int| 0 <= k < i ==> self.entries@[k].name@ != name@,
                        decreases self.entries@.len() - i,
                    {
                        i = i + 1;
                    }
                    proof {
                        lemma_first_where(self.entries@.len() as int, same_name, i as int);
                    }
                    if i < self.entries.len() {
                        self.selected = i;
                    }
                }
                proof {
                    assert forall|dir: Seq<char>, name: Seq<char>|
                        from == #[trigger] joined_path(dir, name) && is_plain_dir(dir)
                            && is_plain_name(name) implies is_back(self@, raw, dir, name) by {
                        assert(up_to == Some(name));
                        if let Some(l) = raw {
                            assert(self.entries@ == arranged(l));
                            if is_listed(arranged(l), name) {
                                law_go_up_selects(old(self)@, l, dir, name);
                            }
                        }
                    }
                }
                true
            },
            None => false,
        }
    }
}

/// Going up from a directory that its parent lists selects that directory.
pub proof fn law_go_up_selects(p: PaneModel, listing: Seq<FileEntry>, up: Seq<char>, name: Seq<char>)
    requires
        path_parent(p.cwd) == Some(up),
        path_file_name(p.cwd) == Some(name),
        is_listed(arranged(listing), name),
        arranged(listing).len() <= usize::MAX,
    ensures
        gone_up(p, Some(listing)).cwd == up,
        gone_up(p, Some(listing)).selected < gone_up(p, Some(listing)).entries.len(),
        gone_up(p, Some(listing)).entries[gone_up(p, Some(listing)).selected as int].name@ == name,
{
    let e = arranged(listing);
    let i = choose|i: int| 0 <= i < e.len() && (#[trigger] e[i]).name@ == name;
    crate::order::lemma_first_where_found(e.len() as int, has_name(e, name), i);
}

/// Entering a directory and going up again comes back to the same listing, with that
/// directory selected. `dir` is the listing of the directory that is entered.
pub proof fn law_enter_then_up(
    p: PaneModel,
    listing: Seq<FileEntry>,
    dir: Option<Seq<FileEntry>>,
)
    requires
        p.entries == arranged(listing),
        p.entries.len() <= usize::MAX,
        Pane::target(p) is Some,
        path_parent(Pane::target(p)->0) == Some(p.cwd),
        path_file_name(Pane::target(p)->0) == Some(p.entries[p.selected as int].name@),
    ensures
        ({
            let inside = scanned(PaneModel { cwd: Pane::target(p)->0, ..p }, dir);
            let back = gone_up(inside, Some(listing));
            &&& back.cwd == p.cwd
            &&& back.entries == p.entries
            &&& back.selected < back.entries.len()
            &&& back.entries[back.selected as int].name@ == p.entries[p.selected as int].name@
        }),
{
    let inside = scanned(PaneModel { cwd: Pane::target(p)->0, ..p }, dir);
    let name = p.entries[p.selected as int].name@;
    assert(is_listed(arranged(listing), name));
    law_go_up_selects(inside, listing, p.cwd, name);
}

// ── Display ───────────────────────────────────────────────────────────────────

/// What follows the last dot of a name, or all of it.
pub open spec fn last_piece(name: Seq<char>) -> Seq<char> {
    split_on(name, '.').last()
}

fn last_piece_of(name: &str) -> (r: String)
    ensures
        r@ == last_piece(name@),
{
    let v = chars_of(name);
    let mut pieces = split(v.as_slice(), '.');
    proof {
        crate::text::lemma_split_len(v@, '.');
    }
    let ghost all = pieces@;
    match pieces.pop() {
        Some(p) => {
            assert(texts(all).last() == p@);
            p
        },
        None => String::new(),
    }
}

/// The extensions of supported images.
pub open spec fn is_image_extension(ext: Seq<char>) -> bool {
    ||| ext == "png"@
    ||| ext == "jpg"@
    ||| ext == "jpeg"@
    ||| ext == "gif"@
    ||| ext == "bmp"@
    ||| ext == "webp"@
    ||| ext == "svg"@
}

/// Whether the entry is a file with the extension of a supported image. A name without a dot
/// has no extension.
pub fn is_image(entry: &FileEntry) -> (r: bool)
    ensures
        r == (!entry.is_dir && lowercase(entry.name@).contains('.') && is_image_extension(
            last_piece(lowercase(entry.name@)),
        )),
{
    if entry.is_dir {
        return false;
    }
    let name = to_lower(entry.name.as_str());
    let v = chars_of(name.as_str());
    if !contains_char(v.as_slice(), '.') {
        return false;
    }
    let last = last_piece_of(name.as_str());
    let ext = last.as_str();
    same(ext, "png") || same(ext, "jpg") || same(ext, "jpeg") || same(ext, "gif")
        || same(ext, "bmp") || same(ext, "webp") || same(ext, "svg")
}

/// The icon for a file name that no extension decides on.
pub open spec fn glyph_by_name(name: Seq<char>) -> Seq<char> {
    if name == "makefile"@ || name == "cmakelists.txt"@ {
        "\u{E673}"@
    } else if name == "dockerfile"@ {
        "\u{E7B0}"@
    } else if begins(name, "license"@) {
        "\u{F0219}"@
    } else {
        "\u{F15B}"@
    }
}

/// The icon for a file of the given extension and lower-case name.
pub open spec fn file_glyph(name: Seq<char>, ext: Seq<char>) -> Seq<char> {
    if ext == "rs"@ {
        "\u{E7A8}"@
    } else if ext == "py"@ {
        "\u{E73C}"@
    } else if ext == "js"@ {
        "\u{E74E}"@
    } else if ext == "ts"@ {
        "\u{E628}"@
    } else if ext == "jsx"@ || ext == "tsx"@ {
        "\u{E7BA}"@
    } else if ext == "go"@ {
        "\u{E627}"@
    } else if ext == "c"@ || ext == "h"@ {
        "\u{E61E}"@
    } else if ext == "cpp"@ || ext == "cc"@ || ext == "cxx"@ || ext == "hpp"@ {
        "\u{E61D}"@
    } else if ext == "java"@ {
        "\u{E738}"@
    } else if ext == "rb"@ {
        "\u{E739}"@
    } else if ext == "sh"@ || ext == "bash"@ || ext == "zsh"@ || ext == "fish"@ {
        "\u{F489}"@
    } else if ext == "toml"@ || ext == "yaml"@ || ext == "yml"@ || ext == "json"@ || ext == "xml"@
        || ext == "ini"@ || ext == "cfg"@ {
        "\u{E615}"@
    } else if ext == "md"@ || ext == "txt"@ || ext == "rst"@ {
        "\u{F0219}"@
    } else if ext == "pdf"@ {
        "\u{F1C1}"@
    } else if ext == "png"@ || ext == "jpg"@ || ext == "jpeg"@ || ext == "gif"@ || ext == "bmp"@
        || ext == "svg"@ || ext == "webp"@ {
        "\u{F03E}"@
    } else if ext == "mp3"@ || ext == "wav"@ || ext == "flac"@ || ext == "ogg"@ || ext == "m4a"@ {
        "\u{F001}"@
    } else if ext == "mp4"@ || ext == "mkv"@ || ext == "avi"@ || ext == "mov"@ || ext == "webm"@ {
        "\u{F008}"@
    } else if ext == "zip"@ || ext == "tar"@ || ext == "gz"@ || ext == "bz2"@ || ext == "xz"@
        || ext == "7z"@ || ext == "rar"@ {
        "\u{F1C6}"@
    } else if ext == "lock"@ {
        "\u{F023}"@
    } else if ext == "log"@ {
        "\u{F0331}"@
    } else if ext == "css"@ || ext == "scss"@ || ext == "sass"@ || ext == "less"@ {
        "\u{E749}"@
    } else if ext == "html"@ || ext == "htm"@ {
        "\u{E736}"@
    } else if ext == "sql"@ || ext == "db"@ || ext == "sqlite"@ {
        "\u{F1C0}"@
    } else {
        glyph_by_name(name)
    }
}

/// Picks the icon for an entry.
pub fn glyph_for_file(entry: &FileEntry) -> (r: &'static str)
    ensures
        r@ == if entry.is_dir {
            "\u{F07B}"@
        } else {
            file_glyph(lowercase(entry.name@), last_piece(lowercase(entry.name@)))
        },
{
    if entry.is_dir {
        return "\u{F07B}";
    }
    let name = to_lower(entry.name.as_str());
    let chars = chars_of(name.as_str());
    let last = last_piece_of(name.as_str());
    let ext = last.as_str();
    if same(ext, "rs") {
        "\u{E7A8}"
    } else if same(ext, "py") {
        "\u{E73C}"
    } else if same(ext, "js") {
        "\u{E74E}"
    } else if same(ext, "ts") {
        "\u{E628}"
    } else if same(ext, "jsx") || same(ext, "tsx") {
        "\u{E7BA}"
    } else if same(ext, "go") {
        "\u{E627}"
    } else if same(ext, "c") || same(ext, "h") {
        "\u{E61E}"
    } else if same(ext, "cpp") || same(ext, "cc") || same(ext, "cxx") || same(ext, "hpp") {
        "\u{E61D}"
    } else if same(ext, "java") {
        "\u{E738}"
    } else if same(ext, "rb") {
        "\u{E739}"
    } else if same(ext, "sh") || same(ext, "bash") || same(ext, "zsh") || same(ext, "fish") {
        "\u{F489}"
    } else if same(ext, "toml") || same(ext, "yaml") || same(ext, "yml") || same(ext, "json")
        || same(ext, "xml") || same(ext, "ini") || same(ext, "cfg") {
        "\u{E615}"
    } else if same(ext, "md") || same(ext, "txt") || same(ext, "rst") {
        "\u{F0219}"
    } else if same(ext, "pdf") {
        "\u{F1C1}"
    } else if same(ext, "png") || same(ext, "jpg") || same(ext, "jpeg") || same(ext, "gif")
        || same(ext, "bmp") || same(ext, "svg") || same(ext, "webp") {
        "\u{F03E}"
    } else if same(ext, "mp3") || same(ext, "wav") || same(ext, "flac") || same(ext, "ogg")
        || same(ext, "m4a") {
        "\u{F001}"
    } else if same(ext, "mp4") || same(ext, "mkv") || same(ext, "avi") || same(ext, "mov")
        || same(ext, "webm") {
        "\u{F008}"
    } else if same(ext, "zip") || same(ext, "tar") || same(ext, "gz") || same(ext, "bz2")
        || same(ext, "xz") || same(ext, "7z") || same(ext, "rar") {
        "\u{F1C6}"
    } else if same(ext, "lock") {
        "\u{F023}"
    } else if same(ext, "log") {
        "\u{F0331}"
    } else if same(ext, "css") || same(ext, "scss") || same(ext, "sass") || same(ext, "less") {
        "\u{E749}"
    } else if same(ext, "html") || same(ext, "htm") {
        "\u{E736}"
    } else if same(ext, "sql") || same(ext, "db") || same(ext, "sqlite") {
        "\u{F1C0}"
    } else if same(name.as_str(), "makefile") || same(name.as_str(), "cmakelists.txt") {
        "\u{E673}"
    } else if same(name.as_str(), "dockerfile") {
        "\u{E7B0}"
    } else if starts_with(chars.as_slice(), "license") {
        "\u{F0219}"
    } else {
        "\u{F15B}"
    }
}

/// A point in time, broken down into local calendar fields.
#[derive(Clone, Copy, Debug)]
pub struct LocalTime {
    /// Months since January.
    pub month: u32,
    /// Day of the month.
    pub day: u32,
    pub hour: u32,
    pub minute: u32,
    /// Years since 1900.
    pub year: i32,
}

/// Six months, counted as 180 days, in seconds.
pub const SIX_MONTHS: i64 = 15552000;

/// The short name of a month, counted from January.
pub open spec fn month_name(month: int) -> Seq<char> {
    let m = month % 12;
    if m == 0 {
        "Jan"@
    } else if m == 1 {
        "Feb"@
    } else if m == 2 {
        "Mar"@
    } else if m == 3 {
        "Apr"@
    } else if m == 4 {
        "May"@
    } else if m == 5 {
        "Jun"@
    } else if m == 6 {
        "Jul"@
    } else if m == 7 {
        "Aug"@
    } else if m == 8 {
        "Sep"@
    } else if m == 9 {
        "Oct"@
    } else if m == 10 {
        "Nov"@
    } else {
        "Dec"@
    }
}

fn month_text(month: u32) -> (r: &'static str)
    ensures
        r@ == month_name(month as int),
{
    let m: u32 = month % 12;
    if m == 0 {
        "Jan"
    } else if m == 1 {
        "Feb"
    } else if m == 2 {
        "Mar"
    } else if m == 3 {
        "Apr"
    } else if m == 4 {
        "May"
    } else if m == 5 {
        "Jun"
    } else if m == 6 {
        "Jul"
    } else if m == 7 {
        "Aug"
    } else if m == 8 {
        "Sep"
    } else if m == 9 {
        "Oct"
    } else if m == 10 {
        "Nov"
    } else {
        "Dec"
    }
}

/// A modification time for display: with the hour where it is less than six months away
/// from now, with the year otherwise.
pub open spec fn time_text(epoch: int, t: LocalTime, now: int) -> Seq<char> {
    let date = month_name(t.month as int) + seq![' '] + two_digits(t.day as nat);
    if -SIX_MONTHS < now - epoch < SIX_MONTHS {
        date + seq![' '] + two_digits(t.hour as nat) + seq![':'] + two_digits(t.minute as nat)
    } else {
        date + seq![' ', ' '] + decimal_int(1900 + t.year)
    }
}

/// Formats a modification time, as in `Jan 05 14:30`, or `Jan 05  2024` where it is more
/// than about six months away. `t` is `epoch` in local time.
pub fn format_time(epoch: i64, t: LocalTime, now: i64) -> (r: String)
    requires
        i64::MIN < now - epoch <= i64::MAX,
    ensures
        r@ == time_text(epoch as int, t, now as int),
{
    let mut r = String::new();
    r.append(month_text(t.month));
    r.push(' ');
    push_two_digits(&mut r, t.day as u64);
    let age: i64 = now - epoch;
    if -SIX_MONTHS < age && age < SIX_MONTHS {
        r.push(' ');
        push_two_digits(&mut r, t.hour as u64);
        r.push(':');
        push_two_digits(&mut r, t.minute as u64);
    } else {
        r.push(' ');
        r.push(' ');
        push_decimal_int(&mut r, 1900 + t.year as i64);
    }
    assert(r@ =~= time_text(epoch as int, t, now as int));
    r
}

/// The name of an owner: the one that the system knows, or the number.
pub fn owner_name(found: Option<String>, uid: u32) -> (r: String)
    ensures
        r@ == match found {
            Some(name) => name@,
            None => decimal(uid as nat),
        },
{
    match found {
        Some(name) => name,
        None => {
            let mut r = String::new();
            push_decimal(&mut r, uid as u64);
            assert(r@ =~= decimal(uid as nat));
            r
        },
    }
}

// ── Laws ──────────────────────────────────────────────────────────────────────

/// A listing in display order holds the entries whose name does not start with a dot, each
/// once. Of two, a directory stands before a file, otherwise the later modified one in front,
/// and where that is level too the one that was listed first.
pub proof fn law_listing(l: Seq<FileEntry>) -> (o: Seq<usize>)
    requires
        l.len() <= usize::MAX,
    ensures
        arranged(l).len() == o.len(),
        forall|k: int|
            0 <= k < o.len() ==> (#[trigger] o[k]) < l.len() && arranged(l)[k] == l[o[k] as int],
        forall|i: usize|
            i < l.len() ==> #[trigger] o.contains(i) == !(l[i as int].name@.len() > 0
                && l[i as int].name@[0] == '.'),
        forall|a: int, b: int|
            0 <= a < b < o.len() ==> {
                let x = l[#[trigger] o[a] as int];
                let y = l[#[trigger] o[b] as int];
                ||| x.is_dir && !y.is_dir
                ||| x.is_dir == y.is_dir && x.modified > y.modified
                ||| x.is_dir == y.is_dir && x.modified == y.modified && o[a] < o[b]
            },
{
    let o = listing_order(l);
    let keep = |i: int| !is_hidden(l[i].name@);
    let before = |i: int, j: int| entry_before(l, i, j);
    law_ranking_exists(l.len() as int, keep, before);
    assert forall|i: usize| i < l.len() implies #[trigger] o.contains(i) == !(l[i as int].name@.len()
        > 0 && l[i as int].name@[0] == '.') by {
        if o.contains(i) {
            let k = choose|k: int| 0 <= k < o.len() && o[k] == i;
            assert(keep(o[k] as int));
        }
        if keep(i as int) {
            assert(o.contains(i));
        }
    }
    assert forall|a: int, b: int| 0 <= a < b < o.len() implies {
        let x = l[#[trigger] o[a] as int];
        let y = l[#[trigger] o[b] as int];
        ||| x.is_dir && !y.is_dir
        ||| x.is_dir == y.is_dir && x.modified > y.modified
        ||| x.is_dir == y.is_dir && x.modified == y.modified && o[a] < o[b]
    } by {
        assert(crate::order::comes_first(before, o[a] as int, o[b] as int));
    }
    o
}

/// The entries that are found are exactly those whose path in lower case holds each token, in
/// their order.
pub proof fn law_matching(entries: Seq<FileEntry>, tokens: Seq<Seq<char>>)
    requires
        entries.len() <= usize::MAX,
    ensures
        forall|i: usize|
            i < entries.len() ==> #[trigger] matching(entries, tokens).contains(i) == (
            forall|t: int|
                0 <= t < tokens.len() ==> occurs(
                    lowercase(entries[i as int].path@),
                    #[trigger] tokens[t],
                )),
        forall|a: int|
            0 <= a < matching(entries, tokens).len() ==> (#[trigger] matching(entries, tokens)[a])
                < entries.len(),
        forall|a: int, b: int|
            0 <= a < b < matching(entries, tokens).len() ==> (#[trigger] matching(
                entries,
                tokens,
            )[a]) < (#[trigger] matching(entries, tokens)[b]),
{
    let keep = |i: int| holds_all(lowercase(entries[i].path@), tokens);
    let level = |i: int, j: int| false;
    law_ranking_exists(entries.len() as int, keep, level);
    let r = matching(entries, tokens);
    assert forall|i: usize| i < entries.len() implies #[trigger] r.contains(i) == (forall|t: int|
        0 <= t < tokens.len() ==> occurs(
            lowercase(entries[i as int].path@),
            #[trigger] tokens[t],
        )) by {
        if r.contains(i) {
            let a = choose|a: int| 0 <= a < r.len() && r[a] == i;
            assert(keep(r[a] as int));
        }
        if keep(i as int) {
            assert(r.contains(i));
        }
    }
    assert forall|a: int, b: int| 0 <= a < b < r.len() implies (#[trigger] r[a]) < (
    #[trigger] r[b]) by {
        assert(crate::order::comes_first(level, r[a] as int, r[b] as int));
    }
}

/// The children of a directory that are found are the entries of its listing in display order
/// that hold every token; of a directory that could not be read there are none.
pub proof fn law_children(l: Seq<FileEntry>, tokens: Seq<Seq<char>>)
    requires
        arranged(l).len() <= usize::MAX,
    ensures
        forall|e: FileEntry| #[trigger]
            children(Some(l), tokens).contains(e) == (arranged(l).contains(e) && holds_all(
                lowercase(e.path@),
                tokens,
            )),
        children(None, tokens).len() == 0,
{
    let s = arranged(l);
    let keep = |i: int| holds_all(lowercase(s[i].path@), tokens);
    law_ranking_exists(s.len() as int, keep, |i: int, j: int| false);
    let m = matching(s, tokens);
    let c = children(Some(l), tokens);
    assert forall|e: FileEntry| #[trigger] c.contains(e) == (s.contains(e) && holds_all(
        lowercase(e.path@),
        tokens,
    )) by {
        if c.contains(e) {
            let k = choose|k: int| 0 <= k < c.len() && c[k] == e;
            assert(keep(m[k] as int));
            assert(s[m[k] as int] == e);
        }
        if s.contains(e) && holds_all(lowercase(e.path@), tokens) {
            let i = choose|i: int| 0 <= i < s.len() && s[i] == e;
            assert(keep(i));
            assert(m.contains(i as usize));
            let k = choose|k: int| 0 <= k < m.len() && m[k] == i as usize;
            assert(c[k] == e);
        }
    }
}

/// A pane that was read again stays on its directory; with a listing it shows that from its
/// first entry on, and without one it shows nothing.
pub proof fn law_scanned(p: PaneModel, l: Seq<FileEntry>)
    ensures
        scanned(p, Some(l)).cwd == p.cwd,
        scanned(p, Some(l)).entries == arranged(l),
        scanned(p, Some(l)).selected == 0,
        scanned(p, None).cwd == p.cwd,
        scanned(p, None).entries.len() == 0,
{
}

/// The extension by which an entry is shown is what follows the last dot of its name.
pub proof fn law_shown_extension(stem: Seq<char>, ext: Seq<char>)
    requires
        !ext.contains('.'),
    ensures
        last_piece(stem + seq!['.'] + ext) == ext,
        last_piece(ext) == ext,
{
    law_last_piece(stem, '.', ext);
}

/// Every image has the icon of images.
pub proof fn law_images_share_icon(name: Seq<char>, ext: Seq<char>)
    requires
        is_image_extension(ext),
    ensures
        file_glyph(name, ext) == "\u{F03E}"@,
{
    reveal_strlit("rs");
    reveal_strlit("py");
    reveal_strlit("js");
    reveal_strlit("ts");
    reveal_strlit("jsx");
    reveal_strlit("tsx");
    reveal_strlit("go");
    reveal_strlit("c");
    reveal_strlit("h");
    reveal_strlit("cpp");
    reveal_strlit("cc");
    reveal_strlit("cxx");
    reveal_strlit("hpp");
    reveal_strlit("java");
    reveal_strlit("rb");
    reveal_strlit("sh");
    reveal_strlit("bash");
    reveal_strlit("zsh");
    reveal_strlit("fish");
    reveal_strlit("toml");
    reveal_strlit("yaml");
    reveal_strlit("yml");
    reveal_strlit("json");
    reveal_strlit("xml");
    reveal_strlit("ini");
    reveal_strlit("cfg");
    reveal_strlit("md");
    reveal_strlit("txt");
    reveal_strlit("rst");
    reveal_strlit("pdf");
    reveal_strlit("png");
    reveal_strlit("jpg");
    reveal_strlit("jpeg");
    reveal_strlit("gif");
    reveal_strlit("bmp");
    reveal_strlit("svg");
    reveal_strlit("webp");
    assert(ext.len() == 3 || ext.len() == 4);
    assert(ext[0] == 'p' && ext[1] == 'n' || ext[0] == 'j' && ext[1] == 'p' || ext[0] == 'g'
        || ext[0] == 'b' && ext[1] == 'm' || ext[0] == 'w' || ext[0] == 's' && ext[1] == 'v');
}

/// The short name of a month is its three letters.
pub proof fn law_month_name(month: int)
    requires
        0 <= month,
    ensures
        month_name(month) == "JanFebMarAprMayJunJulAugSepOctNovDec"@.subrange(
            3 * (month % 12),
            3 * (month % 12) + 3,
        ),
{
    let all = "JanFebMarAprMayJunJulAugSepOctNovDec"@;
    reveal_strlit("JanFebMarAprMayJunJulAugSepOctNovDec");
    reveal_strlit("Jan");
    reveal_strlit("Feb");
    reveal_strlit("Mar");
    reveal_strlit("Apr");
    reveal_strlit("May");
    reveal_strlit("Jun");
    reveal_strlit("Jul");
    reveal_strlit("Aug");
    reveal_strlit("Sep");
    reveal_strlit("Oct");
    reveal_strlit("Nov");
    reveal_strlit("Dec");
    let m = month % 12;
    assert(month_name(month) =~= all.subrange(3 * m, 3 * m + 3));
}

/// A time less than 180 days from now, in either direction, is shown with hour and minute,
/// and any other with the year.
pub proof fn law_time_text(epoch: int, t: LocalTime, now: int)
    ensures
        ({
            let date = month_name(t.month as int) + seq![' '] + two_digits(t.day as nat);
            let near = -180 * 24 * 60 * 60 < now - epoch < 180 * 24 * 60 * 60;
            &&& near ==> time_text(epoch, t, now) == date + seq![' '] + two_digits(t.hour as nat)
                + seq![':'] + two_digits(t.minute as nat)
            &&& !near ==> time_text(epoch, t, now) == date + seq![' ', ' '] + decimal_int(
                1900 + t.year,
            )
        }),
{
}

/// Going up from a root stays there; from elsewhere it shows the parent directory with its
/// listing in display order.
pub proof fn law_gone_up(p: PaneModel, l: Seq<FileEntry>)
    ensures
        path_parent(p.cwd) is None ==> gone_up(p, Some(l)) == p,
        path_parent(p.cwd) matches Some(up) ==> gone_up(p, Some(l)).cwd == up && gone_up(
            p,
            Some(l),
        ).entries == arranged(l) && gone_up(p, None).cwd == up && gone_up(p, None).entries.len()
            == 0,
{
}

} // verus!

//! The file explorer tab: its rows, and what its keys do.

use vstd::prelude::*;

use crate::files::{
    children, dir_children, filter_entries, gone_up, listing_view, matching, scanned, FileEntry,
    Pane, PaneModel,
};
use crate::frame::{move_down, move_up, moved_down, moved_up};
use crate::text::{
    chars_of, contains_char, lowercase, opt_text, split_words, texts, to_lower, words,
};
use crate::ui::{RofiApp, UiModel};

verus! {

// ── Query ─────────────────────────────────────────────────────────────────────

/// The words of the query, in lower case.
pub open spec fn query_tokens(query: Seq<char>) -> Seq<Seq<char>> {
    words(lowercase(query))
}

/// The words that filter the children of a drilled directory: all but the first, which
/// found the directory.
pub open spec fn child_tokens(query: Seq<char>) -> Seq<Seq<char>> {
    let t = query_tokens(query);
    if t.len() >= 2 {
        t.skip(1)
    } else {
        Seq::empty()
    }
}

/// Splits the query into words, in lower case.
pub fn tokens_of(query: &str) -> (r: Vec<String>)
    ensures
        texts(r@) == query_tokens(query@),
{
    let q = to_lower(query);
    let v = chars_of(q.as_str());
    split_words(v.as_slice())
}

fn child_tokens_of(query: &str) -> (r: Vec<String>)
    ensures
        texts(r@) == child_tokens(query@),
{
    let mut all = tokens_of(query);
    let ghost t = texts(all@);
    if all.len() >= 2 {
        let r = all.split_off(1);
        assert(texts(r@) =~= t.skip(1));
        r
    } else {
        let r: Vec<String> = Vec::new();
        assert(texts(r@) =~= Seq::empty());
        r
    }
}

/// The directories that zoxide knows are shown above the entries while there is a query.
pub open spec fn zoxide_count(s: UiModel) -> nat {
    if lowercase(s.query).len() == 0 {
        0
    } else {
        s.zoxide_results.len()
    }
}

/// The state with the drilled directory kept in step with the query: released once the
/// query holds no space, and set to the selected zoxide row once it holds one.
pub open spec fn drill_managed(s: UiModel) -> UiModel {
    let q = lowercase(s.query);
    if !q.contains(' ') {
        UiModel { drill_target: None, ..s }
    } else if s.drill_target is None && words(q).len() > 0 && s.selected < s.zoxide_results.len() {
        UiModel {
            drill_target: Some(s.zoxide_results[s.selected as int]),
            selected: 1,
            ..s
        }
    } else {
        s
    }
}

impl RofiApp {
    /// Keeps the drilled directory in step with the query.
    pub fn manage_drill(&mut self)
        requires
            old(self).wf(),
        ensures
            final(self)@ == drill_managed(old(self)@),
            final(self).wf(),
    {
        let q = to_lower(self.query.as_str());
        let v = chars_of(q.as_str());
        if !contains_char(v.as_slice(), ' ') {
            self.drill_target = None;
        } else if self.drill_target.is_none() {
            let tokens = split_words(v.as_slice());
            assert(texts(tokens@).len() == tokens@.len());
            if tokens.len() > 0 && self.selected < self.zoxide_results.len() {
                assert(texts(self.zoxide_results@)[self.selected as int]
                    == self.zoxide_results@[self.selected as int]@);
                self.drill_target = Some(self.zoxide_results[self.selected].clone());
                self.selected = 1;
            }
        }
    }
}

// ── Rows ──────────────────────────────────────────────────────────────────────

/// The rows of the explorer.
#[derive(Debug)]
pub enum ExplorerRows {
    /// A drilled directory as the first row, and its children below.
    Drill { path: String, children: Vec<FileEntry> },
    /// Directories that zoxide knows, so many, and the positions of the entries below.
    Normal { zoxide: usize, filtered: Vec<usize> },
}

/// What the rows of the explorer hold.
#[verifier::ext_equal]
pub enum RowsModel {
    Drill { path: Seq<char>, children: Seq<FileEntry> },
    Normal { zoxide: nat, filtered: Seq<usize> },
}

impl View for ExplorerRows {
    type V = RowsModel;

    open spec fn view(&self) -> RowsModel {
        match self {
            ExplorerRows::Drill { path, children } => RowsModel::Drill {
                path: path@,
                children: children@,
            },
            ExplorerRows::Normal { zoxide, filtered } => RowsModel::Normal {
                zoxide: *zoxide as nat,
                filtered: filtered@,
            },
        }
    }
}

/// The rows for a state; `listing` is the raw listing of the drilled directory.
pub open spec fn rows_of(s: UiModel, listing: Option<Seq<FileEntry>>) -> RowsModel {
    match s.drill_target {
        Some(path) => RowsModel::Drill { path, children: children(listing, child_tokens(s.query)) },
        None => RowsModel::Normal {
            zoxide: zoxide_count(s),
            filtered: matching(s.file_pane.entries, query_tokens(s.query)),
        },
    }
}

/// The number of rows.
pub open spec fn total_rows(rows: RowsModel) -> nat {
    match rows {
        RowsModel::Drill { children, .. } => 1 + children.len(),
        RowsModel::Normal { zoxide, filtered } => zoxide + filtered.len(),
    }
}

/// The state with a selection that points at a row: behind the last row of a drilled
/// directory it goes to the first child, elsewhere to the first row.
pub open spec fn selection_clamped(s: UiModel, rows: RowsModel) -> UiModel {
    let total = total_rows(rows);
    match rows {
        RowsModel::Drill { .. } => if s.selected >= total {
            UiModel {
                selected: if total > 1 {
                    1
                } else {
                    0
                },
                ..s
            }
        } else {
            s
        },
        RowsModel::Normal { .. } => if total > 0 && s.selected >= total {
            UiModel { selected: 0, ..s }
        } else {
            s
        },
    }
}

impl ExplorerRows {
    /// The number of rows.
    pub fn total(&self) -> (r: u128)
        ensures
            r == total_rows(self@),
    {
        match self {
            ExplorerRows::Drill { children, .. } => 1 + children.len() as u128,
            ExplorerRows::Normal { zoxide, filtered } => *zoxide as u128 + filtered.len() as u128,
        }
    }
}

impl RofiApp {
    /// Lists the rows; `listing` is the raw listing of the drilled directory, if there is
    /// one.
    pub fn explorer_rows(&self, listing: Option<Vec<FileEntry>>) -> (r: ExplorerRows)
        ensures
            r@ == rows_of(self@, listing_view(listing)),
    {
        match &self.drill_target {
            Some(path) => {
                let tokens = child_tokens_of(self.query.as_str());
                ExplorerRows::Drill { path: path.clone(), children: dir_children(listing, &tokens) }
            },
            None => {
                let tokens = tokens_of(self.query.as_str());
                let q = to_lower(self.query.as_str());
                let zoxide: usize = if chars_of(q.as_str()).len() == 0 {
                    0
                } else {
                    self.zoxide_results.len()
                };
                let filtered = filter_entries(&self.file_pane.entries, &tokens);
                ExplorerRows::Normal { zoxide, filtered }
            },
        }
    }

    /// Makes the selection point at a row.
    pub fn clamp_selection(&mut self, rows: &ExplorerRows)
        requires
            old(self).wf(),
        ensures
            final(self)@ == selection_clamped(old(self)@, rows@),
            final(self).wf(),
    {
        let total: u128 = rows.total();
        match rows {
            ExplorerRows::Drill { .. } => {
                if self.selected as u128 >= total {
                    self.selected = if total > 1 {
                        1
                    } else {
                        0
                    };
                }
            },
            ExplorerRows::Normal { .. } => {
                if total > 0 && self.selected as u128 >= total {
                    self.selected = 0;
                }
            },
        }
    }
}

/// A clamped selection points at a row, where there is one.
pub proof fn law_clamped_selection(s: UiModel, rows: RowsModel)
    ensures
        total_rows(rows) > 0 ==> selection_clamped(s, rows).selected < total_rows(rows),
{
}

// ── Keys ──────────────────────────────────────────────────────────────────────

/// The state after the explorer went to another directory: the search starts anew.
pub open spec fn search_reset(s: UiModel) -> UiModel {
    UiModel {
        query: Seq::empty(),
        zoxide_results: Seq::empty(),
        zoxide_last_query: Seq::empty(),
        drill_target: None,
        selected: 0,
        ..s
    }
}

/// The state after Ctrl+H: the explorer shows the parent directory.
pub open spec fn went_up(s: UiModel, listing: Option<Seq<FileEntry>>) -> UiModel {
    search_reset(UiModel { file_pane: gone_up(s.file_pane, listing), ..s })
}

/// What entering the selected row asks for.
#[verifier::ext_equal]
pub enum EnterModel {
    /// Nothing: there is no row.
    Nothing,
    /// Show the directory at this path, if it is one.
    Visit(Seq<char>),
    /// Show the child directory at this path.
    Descend(Seq<char>),
    /// Show the directory of the entry at this position of the pane.
    Entry(usize),
    /// Open the file at this path.
    Open(Seq<char>),
}

/// What entering the selected row asks for.
#[derive(Debug)]
pub enum EnterRequest {
    /// Nothing: there is no row.
    Nothing,
    /// Show the directory at this path, if it is one.
    Visit(String),
    /// Show the child directory at this path.
    Descend(String),
    /// Show the directory of the entry at this position of the pane.
    Entry(usize),
    /// Open the file at this path.
    Open(String),
}

impl View for EnterRequest {
    type V = EnterModel;

    open spec fn view(&self) -> EnterModel {
        match self {
            EnterRequest::Nothing => EnterModel::Nothing,
            EnterRequest::Visit(p) => EnterModel::Visit(p@),
            EnterRequest::Descend(p) => EnterModel::Descend(p@),
            EnterRequest::Entry(i) => EnterModel::Entry(*i),
            EnterRequest::Open(p) => EnterModel::Open(p@),
        }
    }
}

/// What entering the selected row asks for.
pub open spec fn enter_request(s: UiModel, rows: RowsModel) -> EnterModel {
    match rows {
        RowsModel::Drill { path, children } => if s.selected == 0 {
            EnterModel::Visit(path)
        } else if s.selected - 1 < children.len() {
            let e = children[s.selected - 1];
            if e.is_dir {
                EnterModel::Descend(e.path@)
            } else {
                EnterModel::Open(e.path@)
            }
        } else {
            EnterModel::Nothing
        },
        RowsModel::Normal { zoxide, filtered } => if s.selected < zoxide {
            if s.selected < s.zoxide_results.len() {
                EnterModel::Visit(s.zoxide_results[s.selected as int])
            } else {
                EnterModel::Nothing
            }
        } else if s.selected - zoxide < filtered.len() && filtered[s.selected - zoxide]
            < s.file_pane.entries.len() {
            let i = filtered[s.selected - zoxide];
            let e = s.file_pane.entries[i as int];
            if e.is_dir {
                EnterModel::Entry(i)
            } else {
                EnterModel::Open(e.path@)
            }
        } else {
            EnterModel::Nothing
        },
    }
}

/// The position of the pane that entering the selected row selects.
pub open spec fn entered_position(s: UiModel, rows: RowsModel) -> usize {
    match rows {
        RowsModel::Normal { zoxide, filtered } => if s.selected >= zoxide && s.selected - zoxide
            < filtered.len() {
            filtered[s.selected - zoxide]
        } else {
            s.file_pane.selected
        },
        _ => s.file_pane.selected,
    }
}

/// A pane on another directory.
pub open spec fn pane_at(path: Seq<char>, listing: Option<Seq<FileEntry>>) -> PaneModel {
    scanned(PaneModel { cwd: path, entries: seq![], selected: 0 }, listing)
}

/// The state after the selected row was entered. `dir` is the raw listing of the directory
/// that was asked for, where that is one.
pub open spec fn row_entered(
    s: UiModel,
    rows: RowsModel,
    dir: Option<Option<Seq<FileEntry>>>,
) -> UiModel {
    let at = PaneModel { selected: entered_position(s, rows), ..s.file_pane };
    match enter_request(s, rows) {
        EnterModel::Nothing => UiModel { file_pane: at, ..s },
        EnterModel::Visit(path) => search_reset(
            match dir {
                Some(listing) => UiModel { file_pane: pane_at(path, listing), ..s },
                None => s,
            },
        ),
        EnterModel::Descend(path) => search_reset(
            UiModel {
                file_pane: pane_at(
                    path,
                    match dir {
                        Some(listing) => listing,
                        None => None,
                    },
                ),
                ..s
            },
        ),
        EnterModel::Entry(i) => search_reset(
            UiModel {
                file_pane: scanned(
                    PaneModel { cwd: s.file_pane.entries[i as int].path@, ..at },
                    match dir {
                        Some(listing) => listing,
                        None => None,
                    },
                ),
                ..s
            },
        ),
        EnterModel::Open(_) => UiModel {
            file_pane: at,
            should_close: true,
            oneshot_result: Some(None),
            ..s
        },
    }
}

/// The raw listing of the directory that was asked for, where that is one.
pub open spec fn dir_view(dir: Option<Option<Vec<FileEntry>>>) -> Option<Option<Seq<FileEntry>>> {
    match dir {
        Some(l) => Some(listing_view(l)),
        None => None,
    }
}

impl RofiApp {
    fn reset_search(&mut self)
        requires
            old(self).wf(),
        ensures
            final(self)@ == search_reset(old(self)@),
            final(self).wf(),
    {
        self.query = String::new();
        self.zoxide_results = Vec::new();
        self.zoxide_last_query = String::new();
        self.drill_target = None;
        self.selected = 0;
        assert(texts(self.zoxide_results@) =~= Seq::empty());
        assert(self@ =~= search_reset(old(self)@));
    }

    /// Ctrl+H: shows the parent directory, with the raw listing given.
    pub fn explorer_up(&mut self, listing: Option<Vec<FileEntry>>)
        requires
            old(self).wf(),
        ensures
            final(self)@ == went_up(old(self)@, listing_view(listing)),
            final(self).wf(),
    {
        let moved = self.file_pane.go_up(listing);
        self.reset_search();
    }

    /// Tells what entering the selected row asks for.
    pub fn explorer_request(&self, rows: &ExplorerRows) -> (r: EnterRequest)
        ensures
            r@ == enter_request(self@, rows@),
    {
        match rows {
            ExplorerRows::Drill { path, children } => {
                if self.selected == 0 {
                    EnterRequest::Visit(path.clone())
                } else if self.selected - 1 < children.len() {
                    let e = &children[self.selected - 1];
                    if e.is_dir {
                        EnterRequest::Descend(e.path.clone())
                    } else {
                        EnterRequest::Open(e.path.clone())
                    }
                } else {
                    EnterRequest::Nothing
                }
            },
            ExplorerRows::Normal { zoxide, filtered } => {
                if self.selected < *zoxide {
                    if self.selected < self.zoxide_results.len() {
                        assert(texts(self.zoxide_results@)[self.selected as int]
                            == self.zoxide_results@[self.selected as int]@);
                        EnterRequest::Visit(self.zoxide_results[self.selected].clone())
                    } else {
                        EnterRequest::Nothing
                    }
                } else if self.selected - *zoxide < filtered.len() {
                    let i: usize = filtered[self.selected - *zoxide];
                    if i < self.file_pane.entries.len() {
                        let e = &self.file_pane.entries[i];
                        if e.is_dir {
                            EnterRequest::Entry(i)
                        } else {
                            EnterRequest::Open(e.path.clone())
                        }
                    } else {
                        EnterRequest::Nothing
                    }
                } else {
                    EnterRequest::Nothing
                }
            },
        }
    }

    /// Enter or Ctrl+L: enters the selected row. `dir` is the raw listing of the directory
    /// that [`RofiApp::explorer_request`] asked for, where that is one. Returns the file to
    /// open, if a file was entered; the frame then ends.
    pub fn explorer_enter(
        &mut self,
        rows: &ExplorerRows,
        dir: Option<Option<Vec<FileEntry>>>,
    ) -> (r: Option<String>)
        requires
            old(self).wf(),
        ensures
            final(self)@ == row_entered(old(self)@, rows@, dir_view(dir)),
            opt_text(r) == match enter_request(old(self)@, rows@) {
                EnterModel::Open(path) => Some(path),
                _ => None,
            },
            final(self).wf(),
    {
        let request = self.explorer_request(rows);
        if let ExplorerRows::Normal { zoxide, filtered } = rows {
            if self.selected >= *zoxide && self.selected - *zoxide < filtered.len() {
                self.file_pane.selected = filtered[self.selected - *zoxide];
            }
        }
        match request {
            EnterRequest::Nothing => {
                assert(self@ =~= row_entered(old(self)@, rows@, dir_view(dir)));
                None
            },
            EnterRequest::Visit(path) => {
                if let Some(listing) = dir {
                    self.file_pane = Pane::new(path.as_str(), listing);
                }
                self.reset_search();
                assert(self@ =~= row_entered(old(self)@, rows@, dir_view(dir)));
                None
            },
            EnterRequest::Descend(path) => {
                let listing = match dir {
                    Some(l) => l,
                    None => None,
                };
                self.file_pane = Pane::new(path.as_str(), listing);
                self.reset_search();
                assert(self@ =~= row_entered(old(self)@, rows@, dir_view(dir)));
                None
            },
            EnterRequest::Entry(i) => {
                let listing = match dir {
                    Some(l) => l,
                    None => None,
                };
                let action = self.file_pane.enter_selected(listing);
                self.reset_search();
                assert(self@ =~= row_entered(old(self)@, rows@, dir_view(dir)));
                None
            },
            EnterRequest::Open(path) => {
                self.should_close = true;
                self.oneshot_result = Some(None);
                assert(self@ =~= row_entered(old(self)@, rows@, dir_view(dir)));
                Some(path)
            },
        }
    }

    /// Moves the selection within the rows.
    pub fn explorer_navigate(&mut self, rows: &ExplorerRows, down: usize, up: usize)
        requires
            old(self).wf(),
        ensures
            final(self)@ == (UiModel {
                selected: moved_up(
                    moved_down(old(self)@.selected, total_rows(rows@), down),
                    total_rows(rows@),
                    up,
                ),
                ..old(self)@
            }),
            final(self).wf(),
    {
        let total: u128 = rows.total();
        self.selected = move_down(self.selected, total, down);
        self.selected = move_up(self.selected, total, up);
    }
}

/// A drilled directory is released whenever the query holds no space, and by Ctrl+H.
pub proof fn law_drill_released(s: UiModel, listing: Option<Seq<FileEntry>>)
    ensures
        !lowercase(s.query).contains(' ') ==> drill_managed(s).drill_target is None,
        went_up(s, listing).drill_target is None,
{
}

// ── Path bar ──────────────────────────────────────────────────────────────────

/// The path that the path bar shows: that of the selected row, or else of the directory.
pub open spec fn shown_path(s: UiModel, rows: RowsModel) -> Seq<char> {
    match rows {
        RowsModel::Drill { path, children } => if s.selected > 0 && s.selected - 1
            < children.len() {
            children[s.selected - 1].path@
        } else {
            path
        },
        RowsModel::Normal { zoxide, filtered } => if s.selected < zoxide && s.selected
            < s.zoxide_results.len() {
            s.zoxide_results[s.selected as int]
        } else if s.selected >= zoxide && s.selected - zoxide < filtered.len()
            && filtered[s.selected - zoxide] < s.file_pane.entries.len() {
            s.file_pane.entries[filtered[s.selected - zoxide] as int].path@
        } else {
            s.file_pane.cwd
        },
    }
}

/// How many colours the components of the path bar take in turn.
pub const RAINBOW: usize = 7;

impl RofiApp {
    /// The path that the path bar shows.
    pub fn breadcrumb_path(&self, rows: &ExplorerRows) -> (r: String)
        ensures
            r@ == shown_path(self@, rows@),
    {
        match rows {
            ExplorerRows::Drill { path, children } => {
                if self.selected > 0 && self.selected - 1 < children.len() {
                    children[self.selected - 1].path.clone()
                } else {
                    path.clone()
                }
            },
            ExplorerRows::Normal { zoxide, filtered } => {
                if self.selected < *zoxide && self.selected < self.zoxide_results.len() {
                    assert(texts(self.zoxide_results@)[self.selected as int]
                        == self.zoxide_results@[self.selected as int]@);
                    return self.zoxide_results[self.selected].clone();
                }
                if self.selected >= *zoxide && self.selected - *zoxide < filtered.len() {
                    let i: usize = filtered[self.selected - *zoxide];
                    if i < self.file_pane.entries.len() {
                        return self.file_pane.entries[i].path.clone();
                    }
                }
                self.file_pane.cwd.clone()
            },
        }
    }
}

// ── Laws ──────────────────────────────────────────────────────────────────────

/// The children of a drilled directory are filtered by all words of the query but the first.
pub proof fn law_child_tokens(query: Seq<char>)
    ensures
        query_tokens(query).len() == 0 ==> child_tokens(query).len() == 0,
        query_tokens(query).len() > 0 ==> child_tokens(query).len() == query_tokens(query).len()
            - 1,
        forall|i: int|
            0 <= i < child_tokens(query).len() ==> #[trigger] child_tokens(query)[i]
                == query_tokens(query)[i + 1],
{
}

/// The words of a query are those of it in lower case, whole and in order.
pub proof fn law_query_tokens(query: Seq<char>, word: Seq<char>, c: char, rest: Seq<char>)
    requires
        word.len() > 0,
        forall|i: int| 0 <= i < word.len() ==> !crate::text::is_white(#[trigger] word[i]),
        crate::text::is_white(c),
        lowercase(query) == word + seq![c] + rest,
    ensures
        query_tokens(query) == seq![word] + words(rest),
{
    crate::text::law_words(word, c, rest);
}

/// Typing a space while a directory that zoxide knows is selected drills into that directory,
/// with its first child selected; a directory that is drilled into stays.
pub proof fn law_drill(s: UiModel)
    requires
        lowercase(s.query).contains(' '),
        words(lowercase(s.query)).len() > 0,
    ensures
        s.drill_target is None && s.selected < s.zoxide_results.len() ==> drill_managed(s) == (
        UiModel { drill_target: Some(s.zoxide_results[s.selected as int]), selected: 1, ..s }),
        s.drill_target is Some ==> drill_managed(s) == s,
        s.selected >= s.zoxide_results.len() ==> drill_managed(s) == s,
{
}

/// Without a drilled directory the rows are the directories that zoxide knows, while there is
/// a query, and the entries that the words of the query are in; with one, they are that and
/// those of its children that the words behind the first are in.
pub proof fn law_explorer_rows(s: UiModel, listing: Option<Seq<FileEntry>>)
    ensures
        s.drill_target matches Some(path) ==> rows_of(s, listing) == (RowsModel::Drill {
            path,
            children: children(listing, child_tokens(s.query)),
        }) && total_rows(rows_of(s, listing)) == 1 + children(
            listing,
            child_tokens(s.query),
        ).len(),
        s.drill_target is None && lowercase(s.query).len() > 0 ==> rows_of(s, listing) == (
        RowsModel::Normal {
            zoxide: s.zoxide_results.len(),
            filtered: matching(s.file_pane.entries, words(lowercase(s.query))),
        }),
        s.drill_target is None && lowercase(s.query).len() == 0 ==> rows_of(s, listing) == (
        RowsModel::Normal {
            zoxide: 0,
            filtered: matching(s.file_pane.entries, Seq::empty()),
        }),
{
    if lowercase(s.query).len() == 0 {
        assert(words(lowercase(s.query)) =~= Seq::empty());
    }
}

/// The first row of a drilled directory enters that, each row below enters or opens the child
/// on it.
pub proof fn law_enter_drilled(s: UiModel, path: Seq<char>, children: Seq<FileEntry>)
    ensures
        ({
            let r = enter_request(s, RowsModel::Drill { path, children });
            &&& s.selected == 0 ==> r == EnterModel::Visit(path)
            &&& 0 < s.selected <= children.len() && children[s.selected - 1].is_dir ==> r
                == EnterModel::Descend(children[s.selected - 1].path@)
            &&& 0 < s.selected <= children.len() && !children[s.selected - 1].is_dir ==> r
                == EnterModel::Open(children[s.selected - 1].path@)
            &&& s.selected > children.len() ==> r == EnterModel::Nothing
        }),
{
}

/// A row of a directory that zoxide knows visits it; each row below enters or opens the entry
/// on it.
pub proof fn law_enter_row(s: UiModel, filtered: Seq<usize>, row: int)
    requires
        forall|a: int|
            0 <= a < filtered.len() ==> (#[trigger] filtered[a]) < s.file_pane.entries.len(),
        0 <= row < filtered.len(),
    ensures
        ({
            let n = s.zoxide_results.len();
            let rows = RowsModel::Normal { zoxide: n, filtered };
            let e = s.file_pane.entries[filtered[row] as int];
            &&& s.selected < n ==> enter_request(s, rows) == EnterModel::Visit(
                s.zoxide_results[s.selected as int],
            )
            &&& s.selected == n + row && e.is_dir ==> enter_request(s, rows) == EnterModel::Entry(
                filtered[row],
            )
            &&& s.selected == n + row && !e.is_dir ==> enter_request(s, rows) == EnterModel::Open(
                e.path@,
            )
            &&& s.selected >= n + filtered.len() ==> enter_request(s, rows) == EnterModel::Nothing
        }),
{
    assert(filtered[row] < s.file_pane.entries.len());
}

/// Entering a directory shows it, with its listing in display order from the first entry on,
/// and starts the search anew. What is no directory is not shown. Opening a file closes the
/// window, and nothing else changes but where the pane points.
pub proof fn law_row_entered(s: UiModel, rows: RowsModel, l: Seq<FileEntry>)
    ensures
        ({
            let t = row_entered(s, rows, Some(Some(l)));
            let path = match enter_request(s, rows) {
                EnterModel::Visit(p) => Some(p),
                EnterModel::Descend(p) => Some(p),
                EnterModel::Entry(i) => Some(s.file_pane.entries[i as int].path@),
                _ => None,
            };
            path matches Some(p) ==> {
                &&& t.file_pane.cwd == p
                &&& t.file_pane.entries == crate::files::arranged(l)
                &&& t.file_pane.selected == 0
                &&& t.query.len() == 0 && t.zoxide_results.len() == 0 && t.drill_target is None
                &&& t.selected == 0 && t.should_close == s.should_close
                &&& t.items == s.items && t.mode == s.mode && t.theme == s.theme
            }
        }),
        enter_request(s, rows) is Visit ==> row_entered(s, rows, None).file_pane == s.file_pane,
        enter_request(s, rows) is Open ==> {
            let t = row_entered(s, rows, Some(Some(l)));
            &&& t.file_pane.cwd == s.file_pane.cwd && t.file_pane.entries == s.file_pane.entries
            &&& t == (UiModel {
                should_close: true,
                oneshot_result: Some(None),
                file_pane: t.file_pane,
                ..s
            })
        },
{
}

/// The path bar shows the path that Enter acts on; where it acts on none, the directory.
pub proof fn law_path_bar(s: UiModel, rows: RowsModel)
    ensures
        match enter_request(s, rows) {
            EnterModel::Visit(p) => shown_path(s, rows) == p,
            EnterModel::Descend(p) => shown_path(s, rows) == p,
            EnterModel::Open(p) => shown_path(s, rows) == p,
            EnterModel::Entry(i) => shown_path(s, rows) == s.file_pane.entries[i as int].path@,
            EnterModel::Nothing => match rows {
                RowsModel::Drill { path, .. } => shown_path(s, rows) == path,
                RowsModel::Normal { .. } => shown_path(s, rows) == s.file_pane.cwd,
            },
        },
{
}

/// A selection that points at a row stays; one behind the last row goes to the first row, and
/// in a drilled directory with children to the first of them.
pub proof fn law_clamped_exactly(s: UiModel, rows: RowsModel)
    ensures
        s.selected < total_rows(rows) ==> selection_clamped(s, rows) == s,
        s.selected >= total_rows(rows) && total_rows(rows) > 0 ==> selection_clamped(s, rows) == (
        UiModel {
            selected: if rows is Drill && total_rows(rows) > 1 {
                1
            } else {
                0
            },
            ..s
        }),
{
}

/// Going up shows the parent directory and starts the search anew, and changes nothing else.
pub proof fn law_went_up(s: UiModel, listing: Option<Seq<FileEntry>>)
    ensures
        ({
            let t = went_up(s, listing);
            &&& t.file_pane == gone_up(s.file_pane, listing)
            &&& t.query.len() == 0 && t.zoxide_results.len() == 0 && t.zoxide_last_query.len() == 0
            &&& t.selected == 0 && t.drill_target is None
            &&& t.items == s.items && t.mode == s.mode && t.theme == s.theme && t.visible
                == s.visible && t.should_close == s.should_close
        }),
{
}

} // verus!

//! One session of the window: opening it, switching tabs, choosing a row, dismissing it.

use vstd::prelude::*;

use crate::apps::{app_pairs, AppEntry, AppModel};
use crate::clipboard::{clips, with_entry, ClipModel, ClipboardEntry, ContentModel};
use crate::config::{theme_by_name, theme_list, theme_of, Config};
use crate::files::{listing_view, scanned, FileEntry, Pane, PaneModel};
use crate::frecency::{with_launch, FrecencyStore};
use crate::ipc::{
    law_theme_lines, picked_theme, theme_lines, theme_on_line, theme_picker, Slots, SlotsModel,
};
use crate::launcher::{
    fuzzy_matches, item_models, names_fit, ItemModel, LaunchItem, Launcher, ScoreTable,
};
use crate::order::{
    first_where, law_ranking_exists, lemma_first_where, lemma_first_where_found, lemma_picked,
};
use crate::pass::{pass_names, PassEntry};
use crate::text::{
    begins, chars_of, concat, opt_text, same, starts_with, string_of, texts, trim, trim_head_char,
    trim_start_char, trim_start_text, trimmed,
};
use crate::ui::{
    app_items, app_names_fit, apps_synced, clip_items, clips_synced, input_found, input_refiltered,
    lemma_app_items_fit, lemma_clip_items_fit, lemma_names_fit_add, pass_items, push_apps,
    refiltered, requested_mode, FileTime, Mode, RofiApp, UiModel,
};

verus! {

// ── Scrolling ─────────────────────────────────────────────────────────────────

/// The state with fresh scroll positions.
pub open spec fn scroll_reset(s: UiModel) -> UiModel {
    UiModel {
        scroll_generation: s.scroll_generation.wrapping_add(1),
        last_scroll_to: usize::MAX,
        ..s
    }
}

impl RofiApp {
    /// Starts the lists with fresh scroll positions.
    pub fn request_scroll_reset(&mut self)
        ensures
            final(self)@ == scroll_reset(old(self)@),
            old(self).wf() ==> final(self).wf(),
            old(self).sound() ==> final(self).sound(),
    {
        self.scroll_generation = self.scroll_generation.wrapping_add(1);
        self.last_scroll_to = usize::MAX;
    }

    /// Whether a row is to be scrolled to: it is the selected one, and was not scrolled to
    /// yet.
    pub fn scroll_to_row(&mut self, row: usize) -> (r: bool)
        ensures
            r == (row == old(self).selected && row != old(self).last_scroll_to),
            final(self)@ == if r {
                UiModel { last_scroll_to: row, ..old(self)@ }
            } else {
                old(self)@
            },
            old(self).wf() ==> final(self).wf(),
    {
        if row == self.selected && row != self.last_scroll_to {
            self.last_scroll_to = row;
            true
        } else {
            false
        }
    }

    /// Whether the message below the list is still to be shown at the time `now`, in
    /// milliseconds; otherwise it goes.
    pub fn toast_visible(&mut self, now: u64) -> (r: bool)
        ensures
            r == match old(self)@.toast {
                Some((_, since)) => now - since < crate::ui::TOAST_MS,
                None => false,
            },
            final(self)@ == if r {
                old(self)@
            } else {
                UiModel { toast: None, ..old(self)@ }
            },
            old(self).wf() ==> final(self).wf(),
    {
        let shown = match &self.toast {
            Some(t) => now < t.since || now - t.since < crate::ui::TOAST_MS,
            None => false,
        };
        if !shown {
            self.toast = None;
        }
        shown
    }
}

// ── Themes ────────────────────────────────────────────────────────────────────

/// The input item that is selected.
pub open spec fn selected_input(s: UiModel) -> Option<Seq<char>> {
    if s.selected < s.input_filtered.len() && s.input_filtered[s.selected as int]
        < s.input_items.len() {
        Some(s.input_items[s.input_filtered[s.selected as int] as int])
    } else {
        None
    }
}

/// The state with the selected theme applied as a preview.
pub open spec fn previewed(s: UiModel) -> UiModel {
    match selected_input(s) {
        Some(line) => UiModel { theme: theme_of(picked_theme(line)), ..s },
        None => s,
    }
}

/// Whether a line of the theme picker is marked.
pub open spec fn is_marked(lines: Seq<Seq<char>>) -> spec_fn(int) -> bool {
    |i: int| begins(lines[i], "* "@)
}

/// Whether a line of the theme picker is that of the theme.
pub open spec fn is_line_of(lines: Seq<Seq<char>>, theme: Seq<char>) -> spec_fn(int) -> bool {
    |i: int| picked_theme(lines[i]) == theme
}

/// The first of so many lines that is wanted; the first of all where none is.
pub open spec fn preselected(n: nat, wanted: spec_fn(int) -> bool) -> usize {
    let i = first_where(n as int, wanted);
    if i < n {
        i as usize
    } else {
        0
    }
}

/// The state after the theme picker opened with the theme `active` marked and selected.
pub open spec fn themes_entered(s: UiModel, active: Seq<char>) -> UiModel {
    let lines = theme_picker(active);
    let listed = input_refiltered(
        UiModel {
            input_items: lines,
            input_is_themes: true,
            theme_before_preview: Some(s.theme),
            mode: Mode::Themes,
            query: Seq::empty(),
            drill_target: None,
            ..scroll_reset(s)
        },
    );
    UiModel { selected: preselected(lines.len(), is_marked(lines)), ..listed }
}

/// Finds the marked line of the theme picker.
fn marked_line(lines: &Vec<String>) -> (r: usize)
    ensures
        r == preselected(lines@.len(), is_marked(texts(lines@))),
{
    let ghost all = texts(lines@);
    let mut i: usize = 0;
    while i < lines.len()
        invariant
            i <= lines@.len(),
            all == texts(lines@),
            forall|k: int| 0 <= k < i ==> !(#[trigger] is_marked(all)(k)),
        decreases lines@.len() - i,
    {
        let v = chars_of(lines[i].as_str());
        assert(all[i as int] == lines@[i as int]@);
        if starts_with(v.as_slice(), "* ") {
            proof {
                lemma_first_where(lines@.len() as int, is_marked(all), i as int);
            }
            return i;
        }
        i = i + 1;
    }
    proof {
        lemma_first_where(lines@.len() as int, is_marked(all), i as int);
    }
    0
}

/// Finds the line of a theme in the theme picker.
fn line_of(lines: &Vec<String>, theme: &str) -> (r: usize)
    ensures
        r == preselected(lines@.len(), is_line_of(texts(lines@), theme@)),
{
    let ghost all = texts(lines@);
    let mut i: usize = 0;
    while i < lines.len()
        invariant
            i <= lines@.len(),
            all == texts(lines@),
            forall|k: int| 0 <= k < i ==> !(#[trigger] is_line_of(all, theme@)(k)),
        decreases lines@.len() - i,
    {
        let name = theme_on_line(lines[i].as_str());
        assert(all[i as int] == lines@[i as int]@);
        if same(name.as_str(), theme) {
            proof {
                lemma_first_where(lines@.len() as int, is_line_of(all, theme@), i as int);
            }
            return i;
        }
        i = i + 1;
    }
    proof {
        lemma_first_where(lines@.len() as int, is_line_of(all, theme@), i as int);
    }
    0
}

/// The state after the configuration file was looked at: where it changed, its theme is
/// in force, except in the theme picker.
pub open spec fn theme_reloaded(s: UiModel, mtime: Option<FileTime>, active: Seq<char>) -> UiModel {
    if s.input_is_themes || mtime == s.config_mtime {
        s
    } else {
        UiModel { config_mtime: mtime, theme: theme_of(active), ..s }
    }
}

impl RofiApp {
    /// The input item that is selected.
    pub fn selected_input_item(&self) -> (r: Option<String>)
        ensures
            opt_text(r) == selected_input(self@),
    {
        if self.selected < self.input_filtered.len() {
            let i: usize = self.input_filtered[self.selected];
            if i < self.input_items.len() {
                assert(texts(self.input_items@)[i as int] == self.input_items@[i as int]@);
                return Some(self.input_items[i].clone());
            }
        }
        None
    }

    /// In the theme picker: instantly applies the theme at the current selection as a
    /// preview.
    pub fn preview_theme_at_selection(&mut self)
        ensures
            final(self)@ == previewed(old(self)@),
            old(self).wf() ==> final(self).wf(),
            old(self).sound() ==> final(self).sound(),
    {
        if let Some(line) = self.selected_input_item() {
            let name = theme_on_line(line.as_str());
            self.theme = theme_by_name(name.as_str());
        }
    }

    /// Switches into the theme picker.
    pub fn enter_themes_mode(&mut self, active: &str)
        requires
            old(self).wf(),
        ensures
            final(self)@ == themes_entered(old(self)@, active@),
            final(self).wf(),
    {
        self.request_scroll_reset();
        self.input_items = theme_lines(active);
        self.input_is_themes = true;
        self.theme_before_preview = Some(self.theme);
        self.mode = Mode::Themes;
        self.query = String::new();
        self.drill_target = None;
        self.refilter_input();
        self.selected = marked_line(&self.input_items);
        assert(self@ =~= themes_entered(old(self)@, active@));
    }

    /// Whether the configuration is to be read again.
    pub fn config_changed(&self, mtime: Option<FileTime>) -> (r: bool)
        ensures
            r == !(self@.input_is_themes || mtime == self@.config_mtime),
    {
        let same_time = match (mtime, self.config_mtime) {
            (Some(a), Some(b)) => a == b,
            (None, None) => true,
            _ => false,
        };
        !(self.input_is_themes || same_time)
    }

    /// Applies the theme of the configuration file where that changed.
    pub fn maybe_reload_theme(&mut self, mtime: Option<FileTime>, config: &Config)
        requires
            old(self).wf(),
        ensures
            final(self)@ == theme_reloaded(old(self)@, mtime, config.active()),
            final(self).wf(),
    {
        if self.config_changed(mtime) {
            self.config_mtime = mtime;
            self.theme = theme_by_name(config.active_theme_name());
        }
    }
}

// ── Choosing a row ────────────────────────────────────────────────────────────

/// What is left to do after a row was chosen.
#[derive(Debug)]
pub enum Action {
    /// Launch the application at this path, and save the launches.
    LaunchApp(String),
    /// Put the text into the clipboard.
    PasteText(String),
    /// Put the image, encoded as PNG, into the clipboard.
    PasteImage(Vec<u8>),
    /// Nothing more than to save the launches.
    SaveLaunches,
    /// Run the command in a shell.
    RunShell(String),
    /// Make this the theme in the configuration file.
    SaveTheme(String),
}

/// What an action holds.
#[verifier::ext_equal]
pub enum ActionModel {
    LaunchApp(Seq<char>),
    PasteText(Seq<char>),
    PasteImage(Seq<u8>),
    SaveLaunches,
    RunShell(Seq<char>),
    SaveTheme(Seq<char>),
}

impl View for Action {
    type V = ActionModel;

    open spec fn view(&self) -> ActionModel {
        match self {
            Action::LaunchApp(path) => ActionModel::LaunchApp(path@),
            Action::PasteText(text) => ActionModel::PasteText(text@),
            Action::PasteImage(png) => ActionModel::PasteImage(png@),
            Action::SaveLaunches => ActionModel::SaveLaunches,
            Action::RunShell(cmd) => ActionModel::RunShell(cmd@),
            Action::SaveTheme(name) => ActionModel::SaveTheme(name@),
        }
    }
}

/// What an optional action holds.
pub open spec fn opt_action(a: Option<Action>) -> Option<ActionModel> {
    match a {
        Some(a) => Some(a@),
        None => None,
    }
}

/// The query is a shell command.
pub open spec fn is_shell_query(s: UiModel) -> bool {
    s.mode == Mode::Apps && trimmed(s.query).len() > 0 && trimmed(s.query)[0] == '!'
}

/// The shell command that the query stands for.
pub open spec fn shell_query(query: Seq<char>) -> Seq<char> {
    trimmed(trim_start_char(trimmed(query), '!'))
}

/// The state, the shared state and what is left to do after the selected row was chosen.
pub open spec fn executed(s: UiModel, slots: SlotsModel, now: u64) -> (
    UiModel,
    SlotsModel,
    Option<ActionModel>,
) {
    if s.mode == Mode::Input {
        let result = selected_input(s);
        (
            UiModel { oneshot_result: Some(result), should_close: true, ..s },
            SlotsModel { input_result: Some(result), ..slots },
            None,
        )
    } else if s.mode == Mode::Themes {
        let result = selected_input(s);
        (
            UiModel {
                theme_before_preview: None,
                oneshot_result: Some(None),
                should_close: true,
                ..s
            },
            SlotsModel { input_result: Some(result), ..slots },
            match result {
                Some(line) => Some(ActionModel::SaveTheme(picked_theme(line))),
                None => None,
            },
        )
    } else if s.selected < s.filtered.len() {
        match s.items[s.filtered[s.selected as int] as int] {
            ItemModel::App { name, path } => (
                UiModel {
                    frecency: with_launch(s.frecency, name, now),
                    oneshot_result: Some(None),
                    should_close: true,
                    ..s
                },
                slots,
                Some(ActionModel::LaunchApp(path)),
            ),
            ItemModel::Clip(e) => (
                UiModel { oneshot_result: Some(None), should_close: true, ..s },
                slots,
                Some(
                    match e.content {
                        ContentModel::Text(text) => ActionModel::PasteText(text),
                        ContentModel::Image { png, .. } => ActionModel::PasteImage(png),
                    },
                ),
            ),
            ItemModel::Pass { name } => (
                UiModel {
                    frecency: with_launch(s.frecency, name, now),
                    oneshot_result: Some(Some(name)),
                    should_close: true,
                    ..s
                },
                SlotsModel { pending_entry: Some(Some(name)), ..slots },
                Some(ActionModel::SaveLaunches),
            ),
        }
    } else if is_shell_query(s) {
        (
            UiModel { oneshot_result: Some(None), should_close: true, ..s },
            slots,
            Some(ActionModel::RunShell(shell_query(s.query))),
        )
    } else {
        (s, slots, None)
    }
}

impl RofiApp {
    /// Whether the list ends with a row that runs the query in a shell.
    pub fn shows_shell_row(&self) -> (r: bool)
        ensures
            r == is_shell_query(self@),
    {
        let v = chars_of(self.query.as_str());
        let t = trim(v.as_slice());
        self.mode == Mode::Apps && t.len() > 0 && t[0] == '!'
    }

    /// The shell command that the query stands for.
    pub fn shell_command(&self) -> (r: String)
        ensures
            r@ == shell_query(self@.query),
    {
        let v = chars_of(self.query.as_str());
        string_of(trim(trim_head_char(trim(v.as_slice()), '!')))
    }

    /// The label of the row that runs the query in a shell.
    pub fn shell_row_label(&self) -> (r: String)
        ensures
            r@ == "Run: "@ + shell_query(self@.query),
    {
        let cmd = self.shell_command();
        concat("Run: ", cmd.as_str())
    }

    /// Chooses the selected row, at the time `now`. Returns what is left to do.
    pub fn execute_selected(&mut self, slots: &mut Slots, now: u64) -> (r: Option<Action>)
        requires
            old(self).wf(),
        ensures
            ({
                let e = executed(old(self)@, old(slots)@, now);
                &&& final(self)@ == e.0
                &&& final(slots)@ == e.1
                &&& opt_action(r) == e.2
            }),
            final(self).wf(),
    {
        let ghost e = executed(self@, slots@, now);
        if self.mode == Mode::Input || self.mode == Mode::Themes {
            let result = self.selected_input_item();
            if self.mode == Mode::Themes {
                self.theme_before_preview = None;
                let action = match &result {
                    Some(line) => Some(Action::SaveTheme(theme_on_line(line.as_str()))),
                    None => None,
                };
                slots.input_result = Some(result);
                self.oneshot_result = Some(None);
                self.should_close = true;
                assert(self@ =~= e.0);
                return action;
            }
            slots.input_result = Some(result.clone());
            self.oneshot_result = Some(result);
            self.should_close = true;
            assert(self@ =~= e.0);
            return None;
        }
        if self.selected < self.filtered.len() {
            let i: usize = self.filtered[self.selected];
            assert(i < self.items@.len());
            assert(self@.items[i as int] == self.items@[i as int]@);
            match &self.items[i] {
                LaunchItem::App(app) => {
                    let path = app.path.clone();
                    let name = app.name.clone();
                    self.frecency.record(name.as_str(), now);
                    self.oneshot_result = Some(None);
                    self.should_close = true;
                    assert(self@ =~= e.0);
                    Some(Action::LaunchApp(path))
                },
                LaunchItem::Clip(clip) => {
                    let copy = clip.clone();
                    self.oneshot_result = Some(None);
                    self.should_close = true;
                    assert(self@ =~= e.0);
                    match copy.content {
                        crate::clipboard::ClipboardContent::Text(text) => {
                            Some(Action::PasteText(text))
                        },
                        crate::clipboard::ClipboardContent::Image { png, .. } => {
                            Some(Action::PasteImage(png))
                        },
                    }
                },
                LaunchItem::Pass(entry) => {
                    let name = entry.name.clone();
                    self.frecency.record(name.as_str(), now);
                    slots.pending_entry = Some(Some(name.clone()));
                    self.oneshot_result = Some(Some(name));
                    self.should_close = true;
                    assert(self@ =~= e.0);
                    Some(Action::SaveLaunches)
                },
            }
        } else if self.shows_shell_row() {
            let cmd = self.shell_command();
            self.oneshot_result = Some(None);
            self.should_close = true;
            assert(self@ =~= e.0);
            Some(Action::RunShell(cmd))
        } else {
            None
        }
    }
}

// ── Dismissing ────────────────────────────────────────────────────────────────

/// The state after the window was hidden.
pub open spec fn hidden(s: UiModel) -> UiModel {
    let closed = refiltered(
        UiModel {
            visible: false,
            should_close: false,
            query: Seq::empty(),
            selected: 0,
            frame_count: 0,
            had_keyboard_focus_ever: false,
            toast: None,
            zoxide_results: Seq::empty(),
            zoxide_last_query: Seq::empty(),
            drill_target: None,
            theme: match s.theme_before_preview {
                Some(original) => original,
                None => s.theme,
            },
            theme_before_preview: None,
            input_is_themes: false,
            mode: Mode::Apps,
            ..scroll_reset(s)
        },
        true,
    );
    UiModel {
        oneshot_result: match s.oneshot_result {
            Some(r) => Some(r),
            None => Some(None),
        },
        input_items: Seq::empty(),
        input_filtered: Seq::empty(),
        ..closed
    }
}

/// The shared state after the window was hidden: whoever waits for a result that did not
/// come learns that it was dismissed.
pub open spec fn dismissed(s: UiModel, slots: SlotsModel) -> SlotsModel {
    SlotsModel {
        pending_entry: match slots.pending_entry {
            Some(r) => Some(r),
            None => Some(None),
        },
        input_result: match slots.input_result {
            Some(r) => Some(r),
            None => if s.input_items.len() > 0 {
                Some(None)
            } else {
                None
            },
        },
        ..slots
    }
}

impl RofiApp {
    /// Hides the window and makes it ready for the next session.
    pub fn dismiss(&mut self, slots: &mut Slots)
        requires
            old(self).wf(),
        ensures
            final(self)@ == hidden(old(self)@),
            final(slots)@ == dismissed(old(self)@, old(slots)@),
            final(self).wf(),
    {
        let ghost before = self@;
        let had_items = self.input_items.len() > 0;
        self.request_scroll_reset();
        self.visible = false;
        self.should_close = false;
        self.query = String::new();
        self.selected = 0;
        self.frame_count = 0;
        self.had_keyboard_focus_ever = false;
        self.toast = None;
        self.zoxide_results = Vec::new();
        self.zoxide_last_query = String::new();
        self.drill_target = None;
        if let Some(original) = self.theme_before_preview {
            self.theme = original;
        }
        self.theme_before_preview = None;
        self.input_is_themes = false;
        self.mode = Mode::Apps;
        assert(texts(self.zoxide_results@) =~= Seq::empty());
        self.refilter(true);
        if self.oneshot_result.is_none() {
            self.oneshot_result = Some(None);
        }
        if slots.pending_entry.is_none() {
            slots.pending_entry = Some(None);
        }
        if slots.input_result.is_none() && had_items {
            slots.input_result = Some(None);
        }
        self.input_items = Vec::new();
        self.input_filtered = Vec::new();
        assert(texts(self.input_items@) =~= Seq::empty());
        assert(self.input_filtered@ =~= Seq::empty());
        assert(self@ =~= hidden(before));
        assert(slots@ =~= dismissed(before, old(slots)@));
    }

    /// Whether the event loop is to end: in oneshot mode, once the window has hidden itself
    /// with a result.
    pub fn exit_requested(&self) -> (r: bool)
        ensures
            r == (self@.oneshot_mode && !self@.visible && self@.oneshot_result is Some),
    {
        self.oneshot_mode && !self.visible && self.oneshot_result.is_some()
    }
}

// ── Opening ───────────────────────────────────────────────────────────────────

/// What a tab shows that has to be gathered when it opens.
pub struct TabData {
    /// The installed applications.
    pub apps: Vec<AppEntry>,
    /// The clipboard history.
    pub clips: Vec<ClipboardEntry>,
    /// The raw listing of the explorer's directory.
    pub listing: Option<Vec<FileEntry>>,
}

/// What has been gathered for a tab.
pub struct TabModel {
    pub apps: Seq<AppModel>,
    pub clips: Seq<ClipModel>,
    pub listing: Option<Seq<FileEntry>>,
}

impl View for TabData {
    type V = TabModel;

    open spec fn view(&self) -> TabModel {
        TabModel {
            apps: app_pairs(self.apps@),
            clips: clips(self.clips@),
            listing: listing_view(self.listing),
        }
    }
}

/// What the next toggle does.
#[derive(PartialEq, Eq, Structural, Clone, Copy, Debug)]
pub enum TogglePlan {
    /// Show the window with the items that a client sent.
    ShowInput,
    /// Show the window on a tab.
    Show(Mode),
    /// Switch the window, which is visible, to a tab.
    Switch(Mode),
    /// Hide the window.
    Hide,
}

/// What a toggle does. A request for a tab always shows the window, so that a second one
/// while it is visible does not hide it and leave the client waiting.
pub open spec fn toggle_plan(s: UiModel, slots: SlotsModel) -> TogglePlan {
    if !s.visible {
        if slots.pending_input is Some {
            TogglePlan::ShowInput
        } else {
            TogglePlan::Show(requested_mode(slots.pending_mode))
        }
    } else if slots.pending_mode is Some {
        TogglePlan::Switch(requested_mode(slots.pending_mode))
    } else {
        TogglePlan::Hide
    }
}

/// The state at the start of a session.
pub open spec fn opened(s: UiModel) -> UiModel {
    UiModel {
        visible: true,
        query: Seq::empty(),
        frame_count: 0,
        toast: None,
        selected: 0,
        drill_target: None,
        ..scroll_reset(s)
    }
}

/// The state after the items that a client sent came up; those of the theme picker with the
/// theme in force selected.
pub open spec fn input_opened(s: UiModel, items: Seq<Seq<char>>, themes: bool) -> UiModel {
    let listed = input_refiltered(
        UiModel {
            input_items: items,
            input_is_themes: themes,
            theme_before_preview: if themes {
                Some(s.theme)
            } else {
                s.theme_before_preview
            },
            mode: if themes {
                Mode::Themes
            } else {
                Mode::Input
            },
            query: Seq::empty(),
            ..s
        },
    );
    if themes {
        UiModel { selected: preselected(items.len(), is_line_of(items, s.theme.name@)), ..listed }
    } else {
        listed
    }
}

/// The state after a tab came up.
pub open spec fn tab_opened(s: UiModel, mode: Mode, d: TabModel) -> UiModel {
    let a = UiModel { input_is_themes: false, mode, ..s };
    let b = if mode == Mode::Clipboard {
        clips_synced(a, d.clips)
    } else if mode == Mode::Files {
        UiModel { file_pane: scanned(a.file_pane, d.listing), ..a }
    } else {
        a
    };
    refiltered(apps_synced(b, d.apps), true)
}

/// The state after a toggle.
pub open spec fn toggled(s: UiModel, slots: SlotsModel, d: TabModel) -> UiModel {
    match toggle_plan(s, slots) {
        TogglePlan::ShowInput => input_opened(
            opened(s),
            slots.pending_input->0,
            slots.pending_input_is_themes,
        ),
        TogglePlan::Show(mode) => tab_opened(opened(s), mode, d),
        TogglePlan::Switch(mode) => tab_opened(opened(s), mode, d),
        TogglePlan::Hide => hidden(s),
    }
}

/// The shared state after a toggle: what was asked for is taken.
pub open spec fn toggle_slots(s: UiModel, slots: SlotsModel) -> SlotsModel {
    match toggle_plan(s, slots) {
        TogglePlan::ShowInput => SlotsModel {
            pending_input: None,
            pending_input_is_themes: false,
            ..slots
        },
        TogglePlan::Show(_) => SlotsModel {
            pending_mode: None,
            pending_input_is_themes: false,
            ..slots
        },
        TogglePlan::Switch(_) => SlotsModel { pending_mode: None, ..slots },
        TogglePlan::Hide => dismissed(s, slots),
    }
}

/// Items from a client come up in the window while it is visible on an ordinary tab.
pub open spec fn takes_input(s: UiModel, slots: SlotsModel) -> bool {
    s.visible && s.mode != Mode::Input && s.mode != Mode::Themes && slots.pending_input is Some
}

impl RofiApp {
    /// Decides what the next toggle does, so that what it needs can be gathered.
    pub fn plan_toggle(&self, slots: &Slots) -> (r: TogglePlan)
        ensures
            r == toggle_plan(self@, slots@),
    {
        if !self.visible {
            if slots.pending_input.is_some() {
                TogglePlan::ShowInput
            } else {
                TogglePlan::Show(crate::ui::mode_for_request(&slots.pending_mode))
            }
        } else if slots.pending_mode.is_some() {
            TogglePlan::Switch(crate::ui::mode_for_request(&slots.pending_mode))
        } else {
            TogglePlan::Hide
        }
    }

    fn open(&mut self)
        requires
            old(self).wf(),
        ensures
            final(self)@ == opened(old(self)@),
            final(self).wf(),
    {
        self.request_scroll_reset();
        self.visible = true;
        self.query = String::new();
        self.frame_count = 0;
        self.toast = None;
        self.selected = 0;
        self.drill_target = None;
        assert(self@ =~= opened(old(self)@));
    }

    fn open_input(&mut self, items: Vec<String>, themes: bool)
        requires
            old(self).wf(),
        ensures
            final(self)@ == input_opened(old(self)@, texts(items@), themes),
            final(self).wf(),
    {
        self.input_items = items;
        self.input_is_themes = themes;
        if themes {
            self.theme_before_preview = Some(self.theme);
            self.mode = Mode::Themes;
        } else {
            self.mode = Mode::Input;
        }
        self.query = String::new();
        self.refilter_input();
        if themes {
            self.selected = line_of(&self.input_items, self.theme.name);
        }
        assert(self@ =~= input_opened(old(self)@, texts(items@), themes));
    }

    fn open_tab(&mut self, mode: Mode, data: TabData)
        requires
            old(self).wf(),
            app_names_fit(data@.apps),
        ensures
            final(self)@ == tab_opened(old(self)@, mode, data@),
            final(self).wf(),
    {
        self.input_is_themes = false;
        self.mode = mode;
        if mode == Mode::Clipboard {
            self.sync_clipboard(&data.clips);
        } else if mode == Mode::Files {
            self.file_pane.scan(data.listing);
        }
        self.sync_apps(&data.apps);
        self.refilter(true);
        assert(self@ =~= tab_opened(old(self)@, mode, data@));
    }

    /// Toggles the window, with what was gathered for the tab that opens. Returns what was
    /// done.
    pub fn toggle(&mut self, slots: &mut Slots, data: TabData) -> (r: TogglePlan)
        requires
            old(self).wf(),
            app_names_fit(data@.apps),
        ensures
            r == toggle_plan(old(self)@, old(slots)@),
            final(self)@ == toggled(old(self)@, old(slots)@, data@),
            final(slots)@ == toggle_slots(old(self)@, old(slots)@),
            final(self).wf(),
    {
        let plan = self.plan_toggle(slots);
        match plan {
            TogglePlan::ShowInput => {
                self.open();
                let themes = slots.pending_input_is_themes;
                let taken = slots.pending_input.take();
                if let Some(items) = taken {
                    self.open_input(items, themes);
                }
                slots.pending_input_is_themes = false;
            },
            TogglePlan::Show(mode) => {
                self.open();
                slots.pending_mode = None;
                self.open_tab(mode, data);
                slots.pending_input_is_themes = false;
            },
            TogglePlan::Switch(mode) => {
                self.open();
                slots.pending_mode = None;
                self.open_tab(mode, data);
            },
            TogglePlan::Hide => {
                self.dismiss(slots);
            },
        }
        plan
    }

    /// Takes up items that a client sent while the window is visible on an ordinary tab.
    /// Returns whether there were any.
    pub fn poll_input(&mut self, slots: &mut Slots) -> (r: bool)
        requires
            old(self).wf(),
        ensures
            r == takes_input(old(self)@, old(slots)@),
            final(self)@ == if r {
                input_opened(
                    UiModel { drill_target: None, ..scroll_reset(old(self)@) },
                    old(slots)@.pending_input->0,
                    old(slots)@.pending_input_is_themes,
                )
            } else {
                old(self)@
            },
            final(slots)@ == if r {
                SlotsModel { pending_input: None, pending_input_is_themes: false, ..old(slots)@ }
            } else {
                old(slots)@
            },
            final(self).wf(),
    {
        if self.visible && self.mode != Mode::Input && self.mode != Mode::Themes {
            let taken = slots.pending_input.take();
            if let Some(items) = taken {
                let themes = slots.pending_input_is_themes;
                self.request_scroll_reset();
                self.drill_target = None;
                self.open_input(items, themes);
                slots.pending_input_is_themes = false;
                return true;
            }
        }
        false
    }
}

// ── Starting ──────────────────────────────────────────────────────────────────

/// What the window starts with.
pub struct Startup {
    pub apps: Vec<AppEntry>,
    pub clips: Vec<ClipboardEntry>,
    pub passes: Vec<PassEntry>,
    pub config: Config,
    pub config_mtime: Option<FileTime>,
    pub frecency: FrecencyStore,
    pub scores: ScoreTable,
    /// The directory that the explorer starts in.
    pub home: String,
    /// The raw listing of that directory.
    pub listing: Option<Vec<FileEntry>>,
}

impl Startup {
    /// The names can be matched, and the launches are well kept.
    pub open spec fn wf(&self) -> bool {
        &&& app_names_fit(app_pairs(self.apps@))
        &&& names_fit(pass_items(pass_names(self.passes@)))
        &&& self.frecency.wf()
    }

    /// The items to start with: applications, clipboard entries and pass entries.
    pub open spec fn items(&self) -> Seq<ItemModel> {
        app_items(app_pairs(self.apps@)) + clip_items(clips(self.clips@)) + pass_items(
            pass_names(self.passes@),
        )
    }

    /// The state to start with.
    pub open spec fn state(&self) -> UiModel {
        UiModel {
            query: Seq::empty(),
            items: self.items(),
            filtered: Seq::empty(),
            selected: 0,
            mode: Mode::Apps,
            should_close: false,
            oneshot_result: None,
            oneshot_mode: false,
            toast: None,
            frame_count: 0,
            had_keyboard_focus_ever: false,
            visible: false,
            input_items: Seq::empty(),
            input_filtered: Seq::empty(),
            input_is_themes: false,
            theme_before_preview: None,
            theme: theme_of(self.config.active()),
            config_mtime: self.config_mtime,
            frecency: self.frecency@,
            scores: self.scores@,
            last_scroll_to: usize::MAX,
            scroll_generation: 0,
            file_pane: scanned(
                PaneModel { cwd: self.home@, entries: seq![], selected: 0 },
                listing_view(self.listing),
            ),
            zoxide_results: Seq::empty(),
            zoxide_last_query: Seq::empty(),
            drill_target: None,
        }
    }
}

/// The items to start with, in one list.
fn all_items(apps: &Vec<AppEntry>, history: &Vec<ClipboardEntry>, passes: &Vec<PassEntry>) -> (r:
    Vec<LaunchItem>)
    requires
        app_names_fit(app_pairs(apps@)),
        names_fit(pass_items(pass_names(passes@))),
    ensures
        item_models(r@) == app_items(app_pairs(apps@)) + clip_items(clips(history@)) + pass_items(
            pass_names(passes@),
        ),
        names_fit(item_models(r@)),
{
    let mut r: Vec<LaunchItem> = Vec::new();
    let ghost a = app_items(app_pairs(apps@));
    let ghost b = clip_items(clips(history@));
    let ghost d = pass_items(pass_names(passes@));
    push_apps(&mut r, apps);
    assert(item_models(r@) =~= a);
    let mut k: usize = 0;
    assert(item_models(r@) =~= a + b.take(0));
    while k < history.len()
        invariant
            k <= history@.len(),
            b == clip_items(clips(history@)),
            item_models(r@) == a + b.take(k as int),
        decreases history@.len() - k,
    {
        let ghost prev = item_models(r@);
        r.push(LaunchItem::Clip(history[k].clone()));
        assert(item_models(r@) =~= prev.push(b[k as int]));
        k = k + 1;
        assert(item_models(r@) =~= a + b.take(k as int));
    }
    assert(b.take(k as int) =~= b);
    let mut j: usize = 0;
    assert(item_models(r@) =~= a + b + d.take(0));
    while j < passes.len()
        invariant
            j <= passes@.len(),
            d == pass_items(pass_names(passes@)),
            item_models(r@) == a + b + d.take(j as int),
        decreases passes@.len() - j,
    {
        let ghost prev = item_models(r@);
        r.push(LaunchItem::Pass(passes[j].clone()));
        assert(item_models(r@) =~= prev.push(d[j as int]));
        j = j + 1;
        assert(item_models(r@) =~= a + b + d.take(j as int));
    }
    assert(d.take(j as int) =~= d);
    proof {
        lemma_app_items_fit(app_pairs(apps@));
        lemma_clip_items_fit(clips(history@));
        lemma_names_fit_add(a, b);
        lemma_names_fit_add(a + b, d);
    }
    r
}

impl RofiApp {
    /// The window as the daemon starts it: hidden, on the Apps tab.
    pub fn new(start: Startup) -> (app: Self)
        requires
            start.wf(),
        ensures
            app@ == refiltered(start.state(), true),
            app.wf(),
    {
        let ghost first = start.state();
        let items = all_items(&start.apps, &start.clips, &start.passes);
        let theme = theme_by_name(start.config.active_theme_name());
        let pane = Pane::new(start.home.as_str(), start.listing);
        let mut app = RofiApp {
            query: String::new(),
            items,
            filtered: Vec::new(),
            selected: 0,
            launcher: Launcher::new(),
            mode: Mode::Apps,
            should_close: false,
            oneshot_result: None,
            oneshot_mode: false,
            toast: None,
            frame_count: 0,
            had_keyboard_focus_ever: false,
            visible: false,
            input_items: Vec::new(),
            input_filtered: Vec::new(),
            input_is_themes: false,
            theme_before_preview: None,
            theme,
            config_mtime: start.config_mtime,
            frecency: start.frecency,
            scores: start.scores,
            last_scroll_to: usize::MAX,
            scroll_generation: 0,
            file_pane: pane,
            zoxide_results: Vec::new(),
            zoxide_last_query: String::new(),
            drill_target: None,
        };
        assert(texts(app.input_items@) =~= Seq::empty());
        assert(texts(app.zoxide_results@) =~= Seq::empty());
        assert(app@ =~= first);
        app.refilter(true);
        app
    }

    /// The window of the daemonless one-shot mode: visible at once on the given tab.
    pub fn new_oneshot_with_mode(initial_mode: Mode, start: Startup) -> (app: Self)
        requires
            start.wf(),
        ensures
            app@ == refiltered(
                UiModel {
                    visible: true,
                    oneshot_mode: true,
                    mode: initial_mode,
                    ..refiltered(start.state(), true)
                },
                true,
            ),
            app.wf(),
    {
        let mut app = RofiApp::new(start);
        app.visible = true;
        app.oneshot_mode = true;
        app.mode = initial_mode;
        app.refilter(true);
        app
    }
}

// ── Laws ──────────────────────────────────────────────────────────────────────

/// Escape in the theme picker restores the theme that was in force when it opened, however
/// the selection moved in between, and whether the picker was opened in the window or by a
/// client.
pub proof fn law_escape_restores_theme(
    s: UiModel,
    active: Seq<char>,
    items: Seq<Seq<char>>,
    open: UiModel,
    preview: UiModel,
)
    requires
        open == themes_entered(s, active) || open == input_opened(s, items, true),
        preview == (UiModel {
            selected: preview.selected,
            query: preview.query,
            input_filtered: preview.input_filtered,
            theme: preview.theme,
            ..open
        }),
    ensures
        hidden(preview).theme == s.theme,
        hidden(preview).theme_before_preview is None,
{
}

/// The theme picker opens with the line of the theme in force selected, whether it was opened
/// in the window or by a client.
pub proof fn law_active_theme_selected(s: UiModel, active: Seq<char>)
    requires
        theme_list().contains(active),
    ensures
        selected_input(themes_entered(s, active)) == Some("* "@ + active),
        s.theme.name@ == active ==> selected_input(input_opened(s, theme_picker(active), true))
            == Some("* "@ + active),
{
    let lines = theme_picker(active);
    let n = lines.len() as int;
    let at = choose|k: int| 0 <= k < theme_list().len() && theme_list()[k] == active;
    reveal_strlit("* ");
    assert(lines[at] == "* "@ + active);
    assert(lines[at].take(2) =~= "* "@);
    assert forall|k: int| 0 <= k < n && #[trigger] is_marked(lines)(k) implies lines[k] == "* "@
        + active by {
        law_theme_lines(active, k);
        if theme_list()[k] != active {
            let name = theme_list()[k];
            assert(trim_start_text(name, "* "@) == trim_start_text(name.skip(2), "* "@));
            lemma_trimmed_len(name.skip(2), "* "@);
        }
    }
    assert forall|k: int| 0 <= k < n && #[trigger] is_line_of(lines, active)(
        k,
    ) implies lines[k] == "* "@ + active by {
        law_theme_lines(active, k);
    }
    assert(is_marked(lines)(at));
    law_theme_lines(active, at);
    assert(is_line_of(lines, active)(at));
    lemma_first_where_found(n, is_marked(lines), at);
    lemma_first_where_found(n, is_line_of(lines, active), at);
    lemma_all_found(lines);
}

/// Removing what stands in front of a text never makes it longer.
proof fn lemma_trimmed_len(s: Seq<char>, p: Seq<char>)
    ensures
        trim_start_text(s, p).len() <= s.len(),
    decreases s.len(),
{
    if p.len() > 0 && begins(s, p) {
        lemma_trimmed_len(s.skip(p.len() as int), p);
    }
}

/// Without a query all input items are found, in their order.
proof fn lemma_all_found(items: Seq<Seq<char>>)
    requires
        items.len() <= usize::MAX,
    ensures
        input_found(Seq::empty(), items) == Seq::new(items.len(), |i: int| i as usize),
{
    let q = Seq::<char>::empty();
    let ids = Seq::new(items.len(), |i: int| i as usize);
    let keep = |i: int| q.len() == 0 || fuzzy_matches(items[i], q);
    assert forall|k: usize| k < items.len() && keep(k as int) implies #[trigger] ids.contains(k) by {
        assert(ids[k as int] == k);
    }
    lemma_picked(ids, items.len() as int, keep);
}

/// A theme that was confirmed stays in force, and is the one that is saved.
pub proof fn law_confirmed_theme_stays(s: UiModel, slots: SlotsModel, now: u64, line: Seq<char>)
    requires
        s.mode == Mode::Themes,
        selected_input(s) == Some(line),
    ensures
        hidden(executed(previewed(s), slots, now).0).theme == theme_of(picked_theme(line)),
        executed(previewed(s), slots, now).2 == Some(ActionModel::SaveTheme(picked_theme(line))),
{
}

/// Whoever waits for an item learns which one was selected: hiding the window afterwards
/// does not change the result.
pub proof fn law_selection_is_reported(s: UiModel, slots: SlotsModel, now: u64)
    requires
        s.mode == Mode::Input || s.mode == Mode::Themes,
    ensures
        ({
            let e = executed(s, slots, now);
            dismissed(e.0, e.1).input_result == Some(selected_input(s))
        }),
{
}

/// Whoever waits for a pass entry learns which one was selected.
pub proof fn law_entry_is_reported(s: UiModel, slots: SlotsModel, now: u64, name: Seq<char>)
    requires
        s.mode != Mode::Input && s.mode != Mode::Themes,
        s.selected < s.filtered.len(),
        s.items[s.filtered[s.selected as int] as int] == (ItemModel::Pass { name }),
    ensures
        ({
            let e = executed(s, slots, now);
            &&& dismissed(e.0, e.1).pending_entry == Some(Some(name))
            &&& hidden(e.0).oneshot_result == Some(Some(name))
        }),
{
}

/// Whoever waits when the window is dismissed learns that nothing was selected.
pub proof fn law_dismissal_is_reported(s: UiModel, slots: SlotsModel)
    ensures
        slots.pending_entry is None ==> dismissed(s, slots).pending_entry == Some(
            None::<Seq<char>>,
        ),
        slots.input_result is None && s.input_items.len() > 0 ==> dismissed(s, slots).input_result
            == Some(None::<Seq<char>>),
        s.oneshot_result is None ==> hidden(s).oneshot_result == Some(None::<Seq<char>>),
{
}

/// A hidden window keeps nothing of the session but its items, its theme and where the
/// explorer was.
pub proof fn law_hidden_is_fresh(s: UiModel)
    ensures
        ({
            let h = hidden(s);
            &&& !h.visible && !h.should_close && h.mode == Mode::Apps && h.query.len() == 0
            &&& h.selected == 0 && h.input_items.len() == 0 && h.drill_target is None
            &&& h.zoxide_results.len() == 0 && !h.input_is_themes && h.toast is None
            &&& h.items == s.items && h.file_pane == s.file_pane && h.frecency == s.frecency
        }),
{
}

/// A request for a tab shows the window on that tab, whether it was visible or not, and
/// never hides it.
pub proof fn law_tab_request_shows(s: UiModel, slots: SlotsModel, d: TabModel, tab: Seq<char>)
    requires
        slots.pending_mode == Some(tab),
        slots.pending_input is None || s.visible,
    ensures
        toggled(s, slots, d).visible,
        toggled(s, slots, d).mode == requested_mode(Some(tab)),
        toggle_slots(s, slots).pending_mode is None,
{
}

/// A plain toggle shows a hidden window on the Apps tab, and hides a visible one.
pub proof fn law_plain_toggle(s: UiModel, slots: SlotsModel, d: TabModel)
    requires
        slots.pending_mode is None,
        slots.pending_input is None,
    ensures
        toggled(s, slots, d).visible == !s.visible,
        toggled(s, slots, d).mode == Mode::Apps,
        toggled(s, slots, d).query.len() == 0,
        toggled(s, slots, d).selected == 0,
{
}

/// Items that a client sent come up, all of them, with the first one selected, unless they
/// are those of the theme picker.
pub proof fn law_sent_items_come_up(
    s: UiModel,
    slots: SlotsModel,
    d: TabModel,
    items: Seq<Seq<char>>,
    i: usize,
)
    requires
        !s.visible,
        slots.pending_input == Some(items),
        i < items.len() <= usize::MAX,
    ensures
        ({
            let t = toggled(s, slots, d);
            &&& t.visible
            &&& t.input_items == items
            &&& t.input_filtered.contains(i)
            &&& !slots.pending_input_is_themes ==> t.selected == 0
            &&& t.mode == if slots.pending_input_is_themes {
                Mode::Themes
            } else {
                Mode::Input
            }
        }),
{
    let keep = |i: int|
        Seq::<char>::empty().len() == 0 || fuzzy_matches(items[i], Seq::<char>::empty());
    law_ranking_exists(items.len() as int, keep, |i: int, j: int| false);
    assert(keep(i as int));
}

/// Every show and every switch of the tab starts with fresh scroll positions, and releases
/// the drilled directory.
pub proof fn law_opening_is_fresh(s: UiModel, slots: SlotsModel, d: TabModel, active: Seq<char>)
    ensures
        ({
            let t = toggled(s, slots, d);
            &&& t.scroll_generation == s.scroll_generation.wrapping_add(1)
            &&& t.last_scroll_to == usize::MAX
            &&& t.drill_target is None
        }),
        themes_entered(s, active).scroll_generation == s.scroll_generation.wrapping_add(1),
        themes_entered(s, active).drill_target is None,
{
}

/// The row that is selected stands for the item.
pub open spec fn is_chosen(s: UiModel, item: ItemModel) -> bool {
    &&& s.mode != Mode::Input && s.mode != Mode::Themes
    &&& s.selected < s.filtered.len()
    &&& s.items[s.filtered[s.selected as int] as int] == item
}

/// Choosing a text of the clipboard history puts the whole of it into the clipboard, and does
/// nothing else but close the window.
pub proof fn law_chosen_text(s: UiModel, slots: SlotsModel, now: u64, text: Seq<char>, since: u64)
    requires
        is_chosen(
            s,
            ItemModel::Clip(ClipModel { content: ContentModel::Text(text), captured_at: since }),
        ),
    ensures
        executed(s, slots, now).2 == Some(ActionModel::PasteText(text)),
        executed(s, slots, now).1 == slots,
        executed(s, slots, now).0 == (UiModel {
            should_close: true,
            oneshot_result: Some(None),
            ..s
        }),
{
}

/// Choosing an image of the clipboard history puts its very bytes into the clipboard, and
/// does nothing else but close the window.
pub proof fn law_chosen_image(
    s: UiModel,
    slots: SlotsModel,
    now: u64,
    png: Seq<u8>,
    width: u32,
    height: u32,
    since: u64,
)
    requires
        is_chosen(
            s,
            ItemModel::Clip(
                ClipModel {
                    content: ContentModel::Image { png, width, height },
                    captured_at: since,
                },
            ),
        ),
    ensures
        executed(s, slots, now).2 == Some(ActionModel::PasteImage(png)),
        executed(s, slots, now).1 == slots,
        executed(s, slots, now).0 == (UiModel {
            should_close: true,
            oneshot_result: Some(None),
            ..s
        }),
{
}

/// What was copied is what is pasted: the newest entry of the history, chosen, gives back the
/// text that was captured last.
pub proof fn law_copied_is_pasted(
    s: UiModel,
    slots: SlotsModel,
    now: u64,
    history: Seq<ClipModel>,
    text: Seq<char>,
    then: u64,
)
    requires
        is_chosen(s, clip_items(with_entry(history, ContentModel::Text(text), then))[0]),
    ensures
        executed(s, slots, now).2 == Some(ActionModel::PasteText(text)),
{
    crate::clipboard::law_push_entry(history, ContentModel::Text(text), then);
}

/// Choosing an application launches what is at its path, and records the launch under its
/// name.
pub proof fn law_chosen_app(
    s: UiModel,
    slots: SlotsModel,
    now: u64,
    name: Seq<char>,
    path: Seq<char>,
    other: Seq<char>,
)
    requires
        is_chosen(s, ItemModel::App { name, path }),
        other != name,
    ensures
        executed(s, slots, now).2 == Some(ActionModel::LaunchApp(path)),
        executed(s, slots, now).1 == slots,
        ({
            let t = executed(s, slots, now).0;
            &&& t.frecency[name].len() > 0 && t.frecency[name].last() == now
            &&& t.frecency.dom().contains(other) == s.frecency.dom().contains(other)
            &&& s.frecency.dom().contains(other) ==> t.frecency[other] == s.frecency[other]
            &&& t == (UiModel {
                should_close: true,
                oneshot_result: Some(None),
                frecency: t.frecency,
                ..s
            })
        }),
{
    crate::frecency::law_record(s.frecency, name, now, other);
}

/// Choosing a pass entry names it to whoever waits for it, and records the launch under its
/// name.
pub proof fn law_chosen_entry(
    s: UiModel,
    slots: SlotsModel,
    now: u64,
    name: Seq<char>,
    other: Seq<char>,
)
    requires
        is_chosen(s, ItemModel::Pass { name }),
        other != name,
    ensures
        executed(s, slots, now).2 == Some(ActionModel::SaveLaunches),
        executed(s, slots, now).1 == (SlotsModel { pending_entry: Some(Some(name)), ..slots }),
        ({
            let t = executed(s, slots, now).0;
            &&& t.frecency[name].len() > 0 && t.frecency[name].last() == now
            &&& t.frecency.dom().contains(other) == s.frecency.dom().contains(other)
            &&& s.frecency.dom().contains(other) ==> t.frecency[other] == s.frecency[other]
            &&& t == (UiModel {
                should_close: true,
                oneshot_result: Some(Some(name)),
                frecency: t.frecency,
                ..s
            })
        }),
{
    crate::frecency::law_record(s.frecency, name, now, other);
}

/// Choosing an item that a client sent answers with that very item; where no row is selected
/// the answer is that nothing was.
pub proof fn law_chosen_input(s: UiModel, slots: SlotsModel, now: u64)
    requires
        s.mode == Mode::Input,
        s.selected < s.input_filtered.len() ==> s.input_filtered[s.selected as int]
            < s.input_items.len(),
    ensures
        ({
            let chosen = if s.selected < s.input_filtered.len() {
                Some(s.input_items[s.input_filtered[s.selected as int] as int])
            } else {
                None
            };
            &&& executed(s, slots, now).1 == (SlotsModel { input_result: Some(chosen), ..slots })
            &&& executed(s, slots, now).0 == (UiModel {
                should_close: true,
                oneshot_result: Some(chosen),
                ..s
            })
            &&& executed(s, slots, now).2 is None
        }),
{
}

/// Where no row is selected and the query is no shell command, choosing does nothing.
pub proof fn law_nothing_chosen(s: UiModel, slots: SlotsModel, now: u64)
    requires
        s.mode != Mode::Input && s.mode != Mode::Themes,
        s.selected >= s.filtered.len(),
        s.mode != Mode::Apps || s.query.len() == 0 || (!crate::text::is_white(s.query[0])
            && s.query[0] != '!'),
    ensures
        executed(s, slots, now) == (s, slots, None::<ActionModel>),
{
    if s.query.len() > 0 && !crate::text::is_white(s.query[0]) {
        assert(crate::text::trim_start(s.query) == s.query);
        lemma_trim_end_first(s.query);
    } else if s.query.len() == 0 {
        assert(crate::text::trim_start(s.query) == s.query);
        lemma_trim_end_first(s.query);
    }
}

/// Trimming the end leaves the first character, unless it leaves nothing.
proof fn lemma_trim_end_first(s: Seq<char>)
    ensures
        crate::text::trim_end(s).len() <= s.len(),
        crate::text::trim_end(s).len() > 0 ==> crate::text::trim_end(s)[0] == s[0],
    decreases s.len(),
{
    if s.len() > 0 && crate::text::is_white(s.last()) {
        lemma_trim_end_first(s.drop_last());
    }
}

/// A query that starts with exclamation marks, white space aside, is the shell command that
/// follows them; on the Apps tab, choosing it where it matches no application runs that.
pub proof fn law_shell_command(
    s: UiModel,
    slots: SlotsModel,
    now: u64,
    before: Seq<char>,
    marks: Seq<char>,
    between: Seq<char>,
    command: Seq<char>,
    after: Seq<char>,
)
    requires
        crate::text::all_white(before),
        crate::text::all_white(between),
        crate::text::all_white(after),
        marks.len() > 0,
        forall|i: int| 0 <= i < marks.len() ==> #[trigger] marks[i] == '!',
        command.len() > 0,
        !crate::text::is_white(command[0]) && !crate::text::is_white(command.last()),
        between.len() == 0 ==> command[0] != '!',
        s.query == before + marks + between + command + after,
        s.mode == Mode::Apps,
        s.selected >= s.filtered.len(),
    ensures
        executed(s, slots, now).2 == Some(ActionModel::RunShell(command)),
        executed(s, slots, now).1 == slots,
        executed(s, slots, now).0 == (UiModel {
            should_close: true,
            oneshot_result: Some(None),
            ..s
        }),
{
    let rest = between + command;
    let core = marks + rest;
    crate::text::law_white('!');
    assert(marks[0] == '!');
    assert(core[0] == marks[0]);
    assert(core.last() == command.last());
    assert(s.query =~= before + core + after);
    crate::text::law_trimmed(before, core, after);
    if between.len() > 0 {
        assert(crate::text::is_white(between[0]));
    }
    crate::text::law_trim_start_char(marks, '!', rest);
    crate::text::law_trimmed(between, command, Seq::empty());
    assert(between + command + Seq::<char>::empty() =~= rest);
}

/// In the theme picker, the selection previews and saves the theme that its line names,
/// marked or not.
pub proof fn law_preview_is_saved(s: UiModel, slots: SlotsModel, now: u64, active: Seq<char>, i: int)
    requires
        s.mode == Mode::Themes,
        0 <= i < theme_list().len(),
        selected_input(s) == Some(theme_picker(active)[i]),
    ensures
        previewed(s) == (UiModel { theme: theme_of(theme_list()[i]), ..s }),
        executed(s, slots, now).2 == Some(ActionModel::SaveTheme(theme_list()[i])),
{
    law_theme_lines(active, i);
}

/// A tab that opens shows what was gathered for it: the installed applications in place of
/// those before, and, on the Clipboard tab, the clipboard history.
pub proof fn law_opened_tab(s: UiModel, mode: Mode, d: TabModel)
    ensures
        ({
            let t = tab_opened(s, mode, d);
            &&& t.mode == mode && !t.input_is_themes
            &&& t.selected == 0
            &&& forall|k: int|
                0 <= k < d.apps.len() ==> t.items.contains(
                    ItemModel::App { name: (#[trigger] d.apps[k]).0, path: d.apps[k].1 },
                )
            &&& mode == Mode::Clipboard ==> forall|k: int|
                0 <= k < d.clips.len() ==> t.items.contains(
                    ItemModel::Clip(#[trigger] d.clips[k]),
                )
            &&& mode != Mode::Files ==> t.file_pane == s.file_pane
            &&& t.query == s.query && t.frecency == s.frecency && t.theme == s.theme
        }),
{
    let t = tab_opened(s, mode, d);
    let a = UiModel { input_is_themes: false, mode, ..s };
    let b = if mode == Mode::Clipboard {
        clips_synced(a, d.clips)
    } else if mode == Mode::Files {
        UiModel { file_pane: scanned(a.file_pane, d.listing), ..a }
    } else {
        a
    };
    let kept = crate::ui::without_apps(b.items);
    assert(t.items == kept + app_items(d.apps));
    assert forall|k: int| 0 <= k < d.apps.len() implies t.items.contains(
        ItemModel::App { name: (#[trigger] d.apps[k]).0, path: d.apps[k].1 },
    ) by {
        assert(t.items[kept.len() + k] == app_items(d.apps)[k]);
    }
    if mode == Mode::Clipboard {
        assert forall|k: int| 0 <= k < d.clips.len() implies t.items.contains(
            ItemModel::Clip(#[trigger] d.clips[k]),
        ) by {
            let x = ItemModel::Clip(d.clips[k]);
            let i = crate::ui::without_clips(a.items).len() + k;
            assert(b.items[i] == x);
            crate::ui::law_without(b.items);
            crate::ui::lemma_filtered_has(b.items, |y: ItemModel| !(y is App), i);
            let j = choose|j: int| 0 <= j < kept.len() && kept[j] == x;
            assert(t.items[j] == x);
        }
    }
}

/// Hiding the window touches nothing of the shared state but results that are waited for: a
/// result that is there stays, and one that nobody waits for does not come up.
pub proof fn law_dismissed(s: UiModel, slots: SlotsModel)
    ensures
        ({
            let d = dismissed(s, slots);
            &&& d == (SlotsModel {
                pending_entry: d.pending_entry,
                input_result: d.input_result,
                ..slots
            })
            &&& slots.pending_entry is Some ==> d.pending_entry == slots.pending_entry
            &&& slots.input_result is Some ==> d.input_result == slots.input_result
            &&& s.input_items.len() == 0 ==> d.input_result == slots.input_result
        }),
{
}

/// A hidden window lists the applications, all of them.
pub proof fn law_hidden_lists_apps(s: UiModel, i: usize)
    requires
        s.items.len() <= usize::MAX,
        i < s.items.len(),
    ensures
        hidden(s).filtered.contains(i) == s.items[i as int] is App,
{
    let before = UiModel {
        visible: false,
        should_close: false,
        query: Seq::empty(),
        selected: 0,
        frame_count: 0,
        had_keyboard_focus_ever: false,
        toast: None,
        zoxide_results: Seq::empty(),
        zoxide_last_query: Seq::empty(),
        drill_target: None,
        theme: match s.theme_before_preview {
            Some(original) => original,
            None => s.theme,
        },
        theme_before_preview: None,
        input_is_themes: false,
        mode: Mode::Apps,
        ..scroll_reset(s)
    };
    crate::ui::law_rows(before, true, i);
}

/// A configuration file that changed brings its theme into force, but for the theme picker;
/// one that did not changes nothing.
pub proof fn law_theme_reloaded(s: UiModel, mtime: Option<FileTime>, active: Seq<char>)
    ensures
        !s.input_is_themes && mtime != s.config_mtime ==> theme_reloaded(s, mtime, active) == (
        UiModel { config_mtime: mtime, theme: theme_of(active), ..s }),
        s.input_is_themes || mtime == s.config_mtime ==> theme_reloaded(s, mtime, active) == s,
        !s.input_is_themes ==> theme_reloaded(theme_reloaded(s, mtime, active), mtime, active)
            == theme_reloaded(s, mtime, active),
{
}

/// The window starts hidden on the Apps tab, with the applications, the clipboard entries and
/// the pass entries as its items, all of them and in their order.
pub proof fn law_startup(start: Startup, i: int)
    requires
        0 <= i,
    ensures
        ({
            let s = start.state();
            let (a, b, d) = (start.apps@, start.clips@, start.passes@);
            &&& s.items.len() == a.len() + b.len() + d.len()
            &&& i < a.len() ==> s.items[i] == (ItemModel::App {
                name: a[i].name@,
                path: a[i].path@,
            })
            &&& i < b.len() ==> s.items[a.len() + i] == ItemModel::Clip(b[i]@)
            &&& i < d.len() ==> s.items[a.len() + b.len() + i] == (ItemModel::Pass {
                name: d[i].name@,
            })
            &&& !s.visible && s.mode == Mode::Apps && s.query.len() == 0
            &&& s.oneshot_result is None && !s.should_close
            &&& s.frecency == start.frecency@ && s.scores == start.scores@
            &&& s.theme == theme_of(start.config.active()) && s.config_mtime == start.config_mtime
            &&& s.file_pane.cwd == start.home@
        }),
{
}

/// Items that a client sent come up as they are, with the first selected unless they are
/// themes; the theme in force is remembered for when themes are previewed.
pub proof fn law_input_opened(s: UiModel, items: Seq<Seq<char>>, themes: bool)
    ensures
        ({
            let t = input_opened(s, items, themes);
            &&& t.input_items == items
            &&& t.input_filtered == input_found(Seq::empty(), items)
            &&& t.query.len() == 0
            &&& !themes ==> t.mode == Mode::Input && t.selected == 0 && !t.input_is_themes
                && t.theme_before_preview == s.theme_before_preview
            &&& themes ==> t.mode == Mode::Themes && t.input_is_themes && t.theme_before_preview
                == Some(s.theme)
            &&& t.theme == s.theme && t.items == s.items && t.visible == s.visible
        }),
{
}

/// Opening the window changes nothing of what it lists, remembers or shows in the explorer.
pub proof fn law_opened_keeps(s: UiModel)
    ensures
        opened(s).visible,
        opened(s).items == s.items && opened(s).file_pane == s.file_pane,
        opened(s).frecency == s.frecency && opened(s).scores == s.scores,
        opened(s).theme == s.theme && opened(s).oneshot_result == s.oneshot_result,
        opened(s).mode == s.mode && opened(s).input_items == s.input_items,
{
}

/// A toggle takes what it acts on out of the shared state, and leaves the rest there: items
/// that were sent stay while a tab is asked for in a visible window.
pub proof fn law_toggle_slots(s: UiModel, slots: SlotsModel)
    ensures
        ({
            let t = toggle_slots(s, slots);
            &&& !s.visible && slots.pending_input is Some ==> t.pending_input is None
                && !t.pending_input_is_themes && t.pending_mode == slots.pending_mode
            &&& !s.visible && slots.pending_input is None ==> t.pending_mode is None
            &&& s.visible && slots.pending_mode is Some ==> t == (SlotsModel {
                pending_mode: None,
                ..slots
            })
            &&& !s.visible ==> t.pending_entry == slots.pending_entry && t.input_result
                == slots.input_result
            &&& s.visible && slots.pending_mode is None ==> t.pending_entry is Some
        }),
{
}

/// What stands for an action holds the whole of its text or its bytes.
pub proof fn law_action_view(text: String, png: Vec<u8>)
    ensures
        Action::PasteText(text)@ == ActionModel::PasteText(text@),
        Action::PasteImage(png)@ == ActionModel::PasteImage(png@),
        Action::LaunchApp(text)@ == ActionModel::LaunchApp(text@),
        Action::RunShell(text)@ == ActionModel::RunShell(text@),
        Action::SaveTheme(text)@ == ActionModel::SaveTheme(text@),
        Action::SaveLaunches@ == ActionModel::SaveLaunches,
{
}

} // verus!

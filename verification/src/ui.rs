//! The state of the launcher window, and what each event does to it.

use vstd::prelude::*;

use crate::apps::{app_pairs, AppEntry, AppModel};
use crate::clipboard::{clips, ClipModel, ClipboardEntry, ContentModel};
use crate::config::Theme;
use crate::files::{Pane, PaneModel};
use crate::frecency::FrecencyStore;
use crate::ipc::opt_result;
use crate::launcher::{
    fuzzy_matches, is_match, item_key, item_models, item_name, law_search_by_use,
    law_search_finds, law_search_in_range, law_search_order, least, names_fit, search_result,
    skim_score, Frecency, ItemModel, LaunchItem, Launcher, ScoreTable, MAX_NAME_LEN,
};
use crate::order::{law_ranking_exists, lemma_picked, lemma_picked_len, picked};
use crate::text::{opt_text, same, texts};

verus! {

// ── Mode ──────────────────────────────────────────────────────────────────────

#[derive(PartialEq, Eq, Structural, Clone, Copy, Debug)]
pub enum Mode {
    Apps,
    Clipboard,
    Pass,
    Files,
    About,
    /// Activated by `mofi --input`.
    Input,
    /// Activated by `mofi --themes`: same as `Input` but with live theme preview.
    Themes,
}

/// The tab that a request names.
pub open spec fn requested_mode(tab: Option<Seq<char>>) -> Mode {
    if tab == Some("pass"@) {
        Mode::Pass
    } else if tab == Some("clip"@) {
        Mode::Clipboard
    } else if tab == Some("files"@) {
        Mode::Files
    } else {
        Mode::Apps
    }
}

pub fn mode_for_request(tab: &Option<String>) -> (r: Mode)
    ensures
        r == requested_mode(opt_text(*tab)),
{
    match tab {
        Some(t) => {
            if same(t.as_str(), "pass") {
                Mode::Pass
            } else if same(t.as_str(), "clip") {
                Mode::Clipboard
            } else if same(t.as_str(), "files") {
                Mode::Files
            } else {
                Mode::Apps
            }
        },
        None => Mode::Apps,
    }
}

/// The tab that the Tab key leads to.
pub open spec fn next_mode(mode: Mode) -> Mode {
    match mode {
        Mode::Apps => Mode::Clipboard,
        Mode::Clipboard => Mode::Pass,
        Mode::Pass => Mode::Themes,
        Mode::Files => Mode::Themes,
        Mode::Themes => Mode::About,
        Mode::About => Mode::Apps,
        Mode::Input => Mode::Input,
    }
}

pub fn mode_after(mode: Mode) -> (r: Mode)
    ensures
        r == next_mode(mode),
{
    match mode {
        Mode::Apps => Mode::Clipboard,
        Mode::Clipboard => Mode::Pass,
        Mode::Pass => Mode::Themes,
        Mode::Files => Mode::Themes,
        Mode::Themes => Mode::About,
        Mode::About => Mode::Apps,
        Mode::Input => Mode::Input,
    }
}

/// The Tab key cycles through Apps, Clipboard, Pass, Themes and About, and back to Apps.
pub proof fn law_tab_cycle()
    ensures
        next_mode(Mode::Apps) == Mode::Clipboard,
        next_mode(next_mode(Mode::Apps)) == Mode::Pass,
        next_mode(next_mode(next_mode(Mode::Apps))) == Mode::Themes,
        next_mode(next_mode(next_mode(next_mode(Mode::Apps)))) == Mode::About,
        next_mode(next_mode(next_mode(next_mode(next_mode(Mode::Apps))))) == Mode::Apps,
{
}

/// The tabs that are shown, with their labels.
pub fn tabs(mode: Mode) -> (r: Vec<(Mode, &'static str)>)
    ensures
        mode == Mode::Input ==> r@.len() == 1 && r@[0].0 == Mode::Input && r@[0].1@ == "Input"@,
        mode != Mode::Input ==> {
            &&& r@.len() == 6
            &&& r@[0].0 == Mode::Apps && r@[0].1@ == "Apps"@
            &&& r@[1].0 == Mode::Clipboard && r@[1].1@ == "Clipboard"@
            &&& r@[2].0 == Mode::Pass && r@[2].1@ == "Pass"@
            &&& r@[3].0 == Mode::Files && r@[3].1@ == "Files"@
            &&& r@[4].0 == Mode::Themes && r@[4].1@ == "Themes"@
            &&& r@[5].0 == Mode::About && r@[5].1@ == "About"@
        },
{
    let mut r: Vec<(Mode, &'static str)> = Vec::new();
    if mode == Mode::Input {
        r.push((Mode::Input, "Input"));
    } else {
        r.push((Mode::Apps, "Apps"));
        r.push((Mode::Clipboard, "Clipboard"));
        r.push((Mode::Pass, "Pass"));
        r.push((Mode::Files, "Files"));
        r.push((Mode::Themes, "Themes"));
        r.push((Mode::About, "About"));
    }
    r
}

/// The hint in the empty search bar.
pub open spec fn hint(mode: Mode) -> Seq<char> {
    match mode {
        Mode::Apps => "Search apps\u{2026}"@,
        Mode::Clipboard => "Filter clipboard\u{2026}"@,
        Mode::Pass => "Search passwords\u{2026}"@,
        Mode::Files => "Filter files\u{2026}"@,
        Mode::Input => "Filter\u{2026}"@,
        Mode::Themes => "Filter themes\u{2026}"@,
        Mode::About => ""@,
    }
}

/// Picks the hint in the empty search bar.
pub fn search_hint(mode: Mode) -> (r: &'static str)
    ensures
        r@ == hint(mode),
{
    match mode {
        Mode::Apps => "Search apps\u{2026}",
        Mode::Clipboard => "Filter clipboard\u{2026}",
        Mode::Pass => "Search passwords\u{2026}",
        Mode::Files => "Filter files\u{2026}",
        Mode::Input => "Filter\u{2026}",
        Mode::Themes => "Filter themes\u{2026}",
        Mode::About => "",
    }
}

// ── State ─────────────────────────────────────────────────────────────────────

/// When a file was last modified.
#[derive(PartialEq, Eq, Structural, Clone, Copy, Debug)]
pub struct FileTime {
    pub secs: i64,
    pub nanos: u32,
}

/// A short message below the list.
#[derive(Debug)]
pub struct Toast {
    pub message: String,
    /// When it came up, in milliseconds.
    pub since: u64,
}

/// How long a message stays, in milliseconds.
pub const TOAST_MS: u64 = 1500;

/// The state of the launcher window.
pub struct RofiApp {
    pub query: String,
    pub items: Vec<LaunchItem>,
    pub filtered: Vec<usize>,
    pub selected: usize,
    pub launcher: Launcher,
    pub mode: Mode,
    pub should_close: bool,
    /// In oneshot (daemonless) mode, holds the result after the window closes.
    /// `Some(Some(name))`: pass entry selected, `Some(None)`: cancelled, `None`: not done.
    pub oneshot_result: Option<Option<String>>,
    /// True when running in daemonless oneshot mode; false in persistent daemon mode.
    pub oneshot_mode: bool,
    pub toast: Option<Toast>,
    pub frame_count: u32,
    /// True once keyboard focus has been reported at least once.
    pub had_keyboard_focus_ever: bool,
    pub visible: bool,
    pub input_items: Vec<String>,
    pub input_filtered: Vec<usize>,
    /// True when the current input session is a theme picker.
    pub input_is_themes: bool,
    /// Theme that was active when the themes picker opened (restored on Escape).
    pub theme_before_preview: Option<Theme>,
    pub theme: Theme,
    pub config_mtime: Option<FileTime>,
    /// Tracks launch frequency and recency for Apps and Pass items.
    pub frecency: FrecencyStore,
    /// What the launches tracked so far count for.
    pub scores: ScoreTable,
    /// The last selected index that was scrolled to.
    pub last_scroll_to: usize,
    /// Incremented on every show and tab-switch, so that each gets a fresh scroll state.
    pub scroll_generation: u64,
    /// Single-pane file explorer state.
    pub file_pane: Pane,
    /// Cached zoxide query results (directory paths).
    pub zoxide_results: Vec<String>,
    /// The query term that produced the current results.
    pub zoxide_last_query: String,
    /// When the user presses space while focused on a zoxide row, this locks the path so
    /// that children can be drilled into. Cleared on hide, tab-switch, Ctrl+H, or when the
    /// query no longer contains a space.
    pub drill_target: Option<String>,
}

/// What the window state holds.
#[verifier::ext_equal]
pub struct UiModel {
    pub query: Seq<char>,
    pub items: Seq<ItemModel>,
    pub filtered: Seq<usize>,
    pub selected: usize,
    pub mode: Mode,
    pub should_close: bool,
    pub oneshot_result: Option<Option<Seq<char>>>,
    pub oneshot_mode: bool,
    pub toast: Option<(Seq<char>, u64)>,
    pub frame_count: u32,
    pub had_keyboard_focus_ever: bool,
    pub visible: bool,
    pub input_items: Seq<Seq<char>>,
    pub input_filtered: Seq<usize>,
    pub input_is_themes: bool,
    pub theme_before_preview: Option<Theme>,
    pub theme: Theme,
    pub config_mtime: Option<FileTime>,
    pub frecency: Map<Seq<char>, Seq<u64>>,
    pub scores: spec_fn(Seq<char>) -> Frecency,
    pub last_scroll_to: usize,
    pub scroll_generation: u64,
    pub file_pane: PaneModel,
    pub zoxide_results: Seq<Seq<char>>,
    pub zoxide_last_query: Seq<char>,
    pub drill_target: Option<Seq<char>>,
}

impl View for RofiApp {
    type V = UiModel;

    open spec fn view(&self) -> UiModel {
        UiModel {
            query: self.query@,
            items: item_models(self.items@),
            filtered: self.filtered@,
            selected: self.selected,
            mode: self.mode,
            should_close: self.should_close,
            oneshot_result: opt_result(self.oneshot_result),
            oneshot_mode: self.oneshot_mode,
            toast: match self.toast {
                Some(t) => Some((t.message@, t.since)),
                None => None,
            },
            frame_count: self.frame_count,
            had_keyboard_focus_ever: self.had_keyboard_focus_ever,
            visible: self.visible,
            input_items: texts(self.input_items@),
            input_filtered: self.input_filtered@,
            input_is_themes: self.input_is_themes,
            theme_before_preview: self.theme_before_preview,
            theme: self.theme,
            config_mtime: self.config_mtime,
            frecency: self.frecency@,
            scores: self.scores@,
            last_scroll_to: self.last_scroll_to,
            scroll_generation: self.scroll_generation,
            file_pane: self.file_pane@,
            zoxide_results: texts(self.zoxide_results@),
            zoxide_last_query: self.zoxide_last_query@,
            drill_target: opt_text(self.drill_target),
        }
    }
}

/// Every position in a list of positions is below `n`.
pub open spec fn all_below(s: Seq<usize>, n: nat) -> bool {
    forall|a: int| 0 <= a < s.len() ==> (#[trigger] s[a]) < n
}

impl RofiApp {
    /// The names of the items can be matched, and the launches are well kept.
    pub open spec fn sound(&self) -> bool {
        &&& names_fit(self@.items)
        &&& self.frecency.wf()
    }

    /// The lists of rows point at items that are there.
    pub open spec fn wf(&self) -> bool {
        &&& self.sound()
        &&& all_below(self@.filtered, self@.items.len())
        &&& all_below(self@.input_filtered, self@.input_items.len())
    }
}

// ── Filtering ─────────────────────────────────────────────────────────────────

/// A tab lists an item.
pub open spec fn lists(mode: Mode, item: ItemModel) -> bool {
    match mode {
        Mode::Apps => item is App,
        Mode::Clipboard => item is Clip,
        Mode::Pass => item is Pass,
        _ => false,
    }
}

/// The positions of the items that a tab lists.
pub open spec fn listed(mode: Mode, items: Seq<ItemModel>) -> Seq<usize> {
    picked(items.len() as int, |i: int| lists(mode, items[i]))
}

/// The items at the given positions.
pub open spec fn at(items: Seq<ItemModel>, ids: Seq<usize>) -> Seq<ItemModel> {
    Seq::new(ids.len(), |k: int| items[ids[k] as int])
}

/// The positions of the items that a tab lists and the query finds, in ranked order.
pub open spec fn found(
    mode: Mode,
    query: Seq<char>,
    items: Seq<ItemModel>,
    scores: spec_fn(Seq<char>) -> Frecency,
) -> Seq<usize> {
    let ids = listed(mode, items);
    let m = search_result(query, at(items, ids), scores);
    Seq::new(m.len(), |k: int| ids[m[k] as int])
}

/// The state after the rows of the tab were filtered anew.
pub open spec fn refiltered(s: UiModel, reset_selection: bool) -> UiModel {
    let f = found(s.mode, s.query, s.items, s.scores);
    UiModel {
        filtered: f,
        selected: if reset_selection || f.len() == 0 {
            0
        } else if s.selected >= f.len() {
            (f.len() - 1) as usize
        } else {
            s.selected
        },
        ..s
    }
}

/// The positions of the input items that the query matches: its characters occur in them in
/// their order.
pub open spec fn input_found(query: Seq<char>, items: Seq<Seq<char>>) -> Seq<usize> {
    picked(items.len() as int, |i: int| query.len() == 0 || fuzzy_matches(items[i], query))
}

/// The state after the input items were filtered anew.
pub open spec fn input_refiltered(s: UiModel) -> UiModel {
    UiModel { input_filtered: input_found(s.query, s.input_items), selected: 0, ..s }
}

impl RofiApp {
    /// Filters the rows of the tab anew.
    pub fn refilter(&mut self, reset_selection: bool)
        requires
            old(self).sound(),
        ensures
            final(self)@ == refiltered(old(self)@, reset_selection),
            final(self).sound(),
            all_below(final(self)@.filtered, final(self)@.items.len()),
    {
        let ghost models = self@.items;
        let ghost mode = self.mode;
        let ghost keep = |i: int| lists(mode, models[i]);
        let mut ids: Vec<usize> = Vec::new();
        let mut search_items: Vec<LaunchItem> = Vec::new();
        let mut i: usize = 0;
        while i < self.items.len()
            invariant
                i <= self.items@.len(),
                models == item_models(self.items@),
                mode == self.mode,
                keep == (|i: int| lists(mode, models[i])),
                search_items@.len() == ids@.len(),
                forall|x: int| 0 <= x < ids@.len() ==> (#[trigger] ids@[x]) < i && keep(ids@[x] as int),
                forall|x: int|
                    0 <= x < ids@.len() ==> (#[trigger] search_items@[x])@ == models[ids@[x] as int],
                forall|k: usize| k < i && keep(k as int) ==> #[trigger] ids@.contains(k),
                forall|x: int, y: int| 0 <= x < y < ids@.len() ==> ids@[x] < ids@[y],
            decreases self.items@.len() - i,
        {
            let item = &self.items[i];
            let ghost prev = ids@;
            let wanted = match (self.mode, item) {
                (Mode::Apps, LaunchItem::App(_)) => true,
                (Mode::Clipboard, LaunchItem::Clip(_)) => true,
                (Mode::Pass, LaunchItem::Pass(_)) => true,
                _ => false,
            };
            assert(models[i as int] == item@);
            if wanted {
                ids.push(i);
                search_items.push(item.clone());
                assert(ids@[ids@.len() - 1] == i);
            }
            proof {
                assert forall|k: usize| k < i + 1 && keep(k as int) implies #[trigger] ids@.contains(
                    k,
                ) by {
                    if k < i {
                        assert(prev.contains(k));
                        let x = choose|x: int| 0 <= x < prev.len() && prev[x] == k;
                        assert(ids@[x] == k);
                    }
                }
            }
            i = i + 1;
        }
        proof {
            lemma_picked(ids@, models.len() as int, keep);
            assert(item_models(search_items@) =~= at(models, ids@));
            assert(names_fit(item_models(search_items@))) by {
                assert forall|x: int| 0 <= x < ids@.len() implies item_name(
                    #[trigger] item_models(search_items@)[x],
                ).len() <= MAX_NAME_LEN by {
                    assert(item_models(search_items@)[x] == models[ids@[x] as int]);
                }
            }
        }
        let matched = self.launcher.search(self.query.as_str(), &search_items, &self.scores);
        let ghost f = found(mode, self@.query, models, self@.scores);
        let mut filtered: Vec<usize> = Vec::new();
        let mut k: usize = 0;
        while k < matched.len()
            invariant
                k <= matched@.len(),
                forall|a: int| 0 <= a < matched@.len() ==> (#[trigger] matched@[a]) < ids@.len(),
                forall|x: int| 0 <= x < ids@.len() ==> (#[trigger] ids@[x]) < models.len(),
                f.len() == matched@.len(),
                forall|a: int|
                    0 <= a < matched@.len() ==> #[trigger] f[a] == ids@[matched@[a] as int],
                filtered@ == f.take(k as int),
            decreases matched@.len() - k,
        {
            filtered.push(ids[matched[k]]);
            k = k + 1;
            assert(filtered@ =~= f.take(k as int));
        }
        assert(f.take(k as int) =~= f);
        self.filtered = filtered;
        if reset_selection || self.filtered.len() == 0 {
            self.selected = 0;
        } else if self.selected >= self.filtered.len() {
            self.selected = self.filtered.len() - 1;
        }
        assert(self@ =~= refiltered(old(self)@, reset_selection));
        assert forall|a: int| 0 <= a < f.len() implies (#[trigger] f[a]) < models.len() by {
            assert(matched@[a] < ids@.len());
        }
    }

    /// Filters the input items anew.
    pub fn refilter_input(&mut self)
        ensures
            final(self)@ == input_refiltered(old(self)@),
            old(self).sound() ==> final(self).sound(),
            all_below(final(self)@.input_filtered, final(self)@.input_items.len()),
    {
        let ghost all = texts(self.input_items@);
        let ghost query = self.query@;
        let ghost keep = |i: int| query.len() == 0 || fuzzy_matches(all[i], query);
        let empty = self.query.as_str().is_empty();
        let mut r: Vec<usize> = Vec::new();
        let mut i: usize = 0;
        while i < self.input_items.len()
            invariant
                i <= self.input_items@.len(),
                all == texts(self.input_items@),
                query == self.query@,
                keep == (|i: int| query.len() == 0 || fuzzy_matches(all[i], query)),
                empty == (query.len() == 0),
                forall|x: int| 0 <= x < r@.len() ==> (#[trigger] r@[x]) < i && keep(r@[x] as int),
                forall|k: usize| k < i && keep(k as int) ==> #[trigger] r@.contains(k),
                forall|x: int, y: int| 0 <= x < y < r@.len() ==> r@[x] < r@[y],
            decreases self.input_items@.len() - i,
        {
            let ghost prev = r@;
            assert(all[i as int] == self.input_items@[i as int]@);
            if empty || is_match(self.input_items[i].as_str(), self.query.as_str()) {
                r.push(i);
                assert(r@[r@.len() - 1] == i);
            }
            proof {
                assert forall|k: usize| k < i + 1 && keep(k as int) implies #[trigger] r@.contains(
                    k,
                ) by {
                    if k < i {
                        assert(prev.contains(k));
                        let x = choose|x: int| 0 <= x < prev.len() && prev[x] == k;
                        assert(r@[x] == k);
                    }
                }
            }
            i = i + 1;
        }
        proof {
            lemma_picked(r@, all.len() as int, keep);
        }
        self.input_filtered = r;
        self.selected = 0;
        assert(self@ =~= input_refiltered(old(self)@));
    }
}

/// The rows of a tab are items that the tab lists, and the selection points at one of them,
/// where there are any.
pub proof fn law_rows_belong(s: UiModel, reset_selection: bool, a: int)
    requires
        s.items.len() <= usize::MAX,
        0 <= a < refiltered(s, reset_selection).filtered.len(),
    ensures
        ({
            let t = refiltered(s, reset_selection);
            &&& t.filtered[a] < s.items.len()
            &&& lists(s.mode, s.items[t.filtered[a] as int])
            &&& t.selected < t.filtered.len()
        }),
{
    let n = s.items.len() as int;
    let keep = |i: int| lists(s.mode, s.items[i]);
    let ids = listed(s.mode, s.items);
    law_ranking_exists(n, keep, |i: int, j: int| false);
    lemma_picked_len(n, keep);
    let sub = at(s.items, ids);
    law_search_in_range(s.query, sub, s.scores);
    let m = search_result(s.query, sub, s.scores);
    assert(m[a] < sub.len());
    assert(keep(ids[m[a] as int] as int));
}

/// Without a query, a tab lists all its items.
pub proof fn law_empty_query_lists_all(s: UiModel, reset_selection: bool, i: usize)
    requires
        s.items.len() <= usize::MAX,
        s.query.len() == 0,
        i < s.items.len(),
        lists(s.mode, s.items[i as int]),
    ensures
        refiltered(s, reset_selection).filtered.contains(i),
{
    let n = s.items.len() as int;
    let keep = |i: int| lists(s.mode, s.items[i]);
    let ids = listed(s.mode, s.items);
    law_ranking_exists(n, keep, |i: int, j: int| false);
    lemma_picked_len(n, keep);
    assert(keep(i as int));
    assert(ids.contains(i));
    let k = choose|k: int| 0 <= k < ids.len() && ids[k] == i;
    let sub = at(s.items, ids);
    law_search_finds(s.query, sub, s.scores, k as usize);
    let m = search_result(s.query, sub, s.scores);
    assert(m.contains(k as usize));
    let a = choose|a: int| 0 <= a < m.len() && m[a] == k as usize;
    assert(refiltered(s, reset_selection).filtered[a] == i);
}

// ── Syncing ───────────────────────────────────────────────────────────────────

/// The items that are no clipboard entries.
pub open spec fn without_clips(items: Seq<ItemModel>) -> Seq<ItemModel>
    decreases items.len(),
{
    if items.len() == 0 {
        items
    } else if items.last() is Clip {
        without_clips(items.drop_last())
    } else {
        without_clips(items.drop_last()).push(items.last())
    }
}

/// The items that are no applications.
pub open spec fn without_apps(items: Seq<ItemModel>) -> Seq<ItemModel>
    decreases items.len(),
{
    if items.len() == 0 {
        items
    } else if items.last() is App {
        without_apps(items.drop_last())
    } else {
        without_apps(items.drop_last()).push(items.last())
    }
}

/// Clipboard entries as items.
pub open spec fn clip_items(h: Seq<ClipModel>) -> Seq<ItemModel> {
    Seq::new(h.len(), |i: int| ItemModel::Clip(h[i]))
}

/// Applications as items.
pub open spec fn app_items(apps: Seq<AppModel>) -> Seq<ItemModel> {
    Seq::new(apps.len(), |i: int| ItemModel::App { name: apps[i].0, path: apps[i].1 })
}

/// Pass entries as items.
pub open spec fn pass_items(names: Seq<Seq<char>>) -> Seq<ItemModel> {
    Seq::new(names.len(), |i: int| ItemModel::Pass { name: names[i] })
}

/// The state after the clipboard entries were replaced by those of the history.
pub open spec fn clips_synced(s: UiModel, history: Seq<ClipModel>) -> UiModel {
    UiModel { items: without_clips(s.items) + clip_items(history), ..s }
}

/// The state after the applications were replaced.
pub open spec fn apps_synced(s: UiModel, apps: Seq<AppModel>) -> UiModel {
    UiModel { items: without_apps(s.items) + app_items(apps), ..s }
}

/// The names of the applications can be matched.
pub open spec fn app_names_fit(apps: Seq<AppModel>) -> bool {
    forall|i: int| 0 <= i < apps.len() ==> (#[trigger] apps[i]).0.len() <= MAX_NAME_LEN
}

/// A clipboard entry always has a short name.
pub proof fn lemma_clip_fits(e: ClipModel)
    ensures
        item_name(ItemModel::Clip(e)).len() <= MAX_NAME_LEN,
{
    match e.content {
        ContentModel::Text(text) => {},
        ContentModel::Image { width, height, .. } => {
            crate::text::lemma_decimal_len(width as nat);
            crate::text::lemma_decimal_len(height as nat);
            reveal_strlit("Screenshot ");
        },
    }
}

pub(crate) proof fn lemma_names_fit_add(a: Seq<ItemModel>, b: Seq<ItemModel>)
    requires
        names_fit(a),
        names_fit(b),
    ensures
        names_fit(a + b),
{
    assert forall|i: int| 0 <= i < (a + b).len() implies item_name(#[trigger] (a + b)[i]).len()
        <= MAX_NAME_LEN by {
        if i < a.len() {
            assert((a + b)[i] == a[i]);
        } else {
            assert((a + b)[i] == b[i - a.len()]);
        }
    }
}

proof fn lemma_without_fits(items: Seq<ItemModel>)
    requires
        names_fit(items),
    ensures
        names_fit(without_clips(items)),
        names_fit(without_apps(items)),
    decreases items.len(),
{
    if items.len() > 0 {
        assert forall|i: int| 0 <= i < items.drop_last().len() implies item_name(
            #[trigger] items.drop_last()[i],
        ).len() <= MAX_NAME_LEN by {
            assert(items[i] == items.drop_last()[i]);
        }
        lemma_without_fits(items.drop_last());
        assert(items[items.len() - 1] == items.last());
    }
}

pub(crate) proof fn lemma_clip_items_fit(h: Seq<ClipModel>)
    ensures
        names_fit(clip_items(h)),
{
    assert forall|i: int| 0 <= i < clip_items(h).len() implies item_name(
        #[trigger] clip_items(h)[i],
    ).len() <= MAX_NAME_LEN by {
        lemma_clip_fits(h[i]);
    }
}

impl RofiApp {
    /// Replaces the clipboard entries among the items by those of the history.
    pub fn sync_clipboard(&mut self, history: &Vec<ClipboardEntry>)
        requires
            old(self).sound(),
        ensures
            final(self)@ == clips_synced(old(self)@, clips(history@)),
            final(self).sound(),
    {
        let ghost before = self@.items;
        let mut kept: Vec<LaunchItem> = Vec::new();
        let mut i: usize = 0;
        assert(item_models(kept@) =~= without_clips(before.take(0)));
        while i < self.items.len()
            invariant
                i <= self.items@.len(),
                before == item_models(self.items@),
                item_models(kept@) == without_clips(before.take(i as int)),
            decreases self.items@.len() - i,
        {
            let ghost prev = item_models(kept@);
            let item = &self.items[i];
            assert(before.take(i as int + 1).drop_last() =~= before.take(i as int));
            assert(before.take(i as int + 1).last() == item@);
            let is_clip = match item {
                LaunchItem::Clip(_) => true,
                _ => false,
            };
            if !is_clip {
                kept.push(item.clone());
                assert(item_models(kept@) =~= prev.push(item@));
            }
            i = i + 1;
        }
        assert(before.take(i as int) =~= before);
        let ghost head = item_models(kept@);
        let ghost tail = clip_items(clips(history@));
        let mut k: usize = 0;
        assert(item_models(kept@) =~= head + tail.take(0));
        while k < history.len()
            invariant
                k <= history@.len(),
                tail == clip_items(clips(history@)),
                item_models(kept@) == head + tail.take(k as int),
            decreases history@.len() - k,
        {
            let ghost prev = item_models(kept@);
            kept.push(LaunchItem::Clip(history[k].clone()));
            assert(item_models(kept@) =~= prev.push(tail[k as int]));
            k = k + 1;
            assert(item_models(kept@) =~= head + tail.take(k as int));
        }
        assert(tail.take(k as int) =~= tail);
        self.items = kept;
        proof {
            lemma_without_fits(before);
            lemma_clip_items_fit(clips(history@));
            lemma_names_fit_add(head, tail);
        }
        assert(self@ =~= clips_synced(old(self)@, clips(history@)));
    }

    /// Replaces the applications among the items.
    pub fn sync_apps(&mut self, apps: &Vec<AppEntry>)
        requires
            old(self).sound(),
            app_names_fit(app_pairs(apps@)),
        ensures
            final(self)@ == apps_synced(old(self)@, app_pairs(apps@)),
            final(self).sound(),
    {
        let ghost before = self@.items;
        let mut kept: Vec<LaunchItem> = Vec::new();
        let mut i: usize = 0;
        assert(item_models(kept@) =~= without_apps(before.take(0)));
        while i < self.items.len()
            invariant
                i <= self.items@.len(),
                before == item_models(self.items@),
                item_models(kept@) == without_apps(before.take(i as int)),
            decreases self.items@.len() - i,
        {
            let ghost prev = item_models(kept@);
            let item = &self.items[i];
            assert(before.take(i as int + 1).drop_last() =~= before.take(i as int));
            assert(before.take(i as int + 1).last() == item@);
            let is_app = match item {
                LaunchItem::App(_) => true,
                _ => false,
            };
            if !is_app {
                kept.push(item.clone());
                assert(item_models(kept@) =~= prev.push(item@));
            }
            i = i + 1;
        }
        assert(before.take(i as int) =~= before);
        let ghost head = item_models(kept@);
        let ghost tail = app_items(app_pairs(apps@));
        push_apps(&mut kept, apps);
        self.items = kept;
        proof {
            lemma_without_fits(before);
            lemma_app_items_fit(app_pairs(apps@));
            lemma_names_fit_add(head, tail);
        }
        assert(self@ =~= apps_synced(old(self)@, app_pairs(apps@)));
    }
}

pub(crate) proof fn lemma_app_items_fit(apps: Seq<AppModel>)
    requires
        app_names_fit(apps),
    ensures
        names_fit(app_items(apps)),
{
    assert forall|i: int| 0 <= i < app_items(apps).len() implies item_name(
        #[trigger] app_items(apps)[i],
    ).len() <= MAX_NAME_LEN by {
        assert(apps[i].0.len() <= MAX_NAME_LEN);
    }
}

pub(crate) fn push_apps(items: &mut Vec<LaunchItem>, apps: &Vec<AppEntry>)
    ensures
        item_models(final(items)@) == item_models(old(items)@) + app_items(app_pairs(apps@)),
{
    let ghost head = item_models(items@);
    let ghost tail = app_items(app_pairs(apps@));
    let mut k: usize = 0;
    assert(item_models(items@) =~= head + tail.take(0));
    while k < apps.len()
        invariant
            k <= apps@.len(),
            tail == app_items(app_pairs(apps@)),
            item_models(items@) == head + tail.take(k as int),
        decreases apps@.len() - k,
    {
        let ghost prev = item_models(items@);
        items.push(LaunchItem::App(apps[k].clone()));
        assert(item_models(items@) =~= prev.push(tail[k as int]));
        k = k + 1;
        assert(item_models(items@) =~= head + tail.take(k as int));
    }
    assert(tail.take(k as int) =~= tail);
}

// ── Laws ──────────────────────────────────────────────────────────────────────

/// Syncing drops the entries of one kind, and keeps all others in their order.
pub proof fn law_without(items: Seq<ItemModel>)
    ensures
        without_clips(items) == items.filter(|x: ItemModel| !(x is Clip)),
        without_apps(items) == items.filter(|x: ItemModel| !(x is App)),
    decreases items.len(),
{
    reveal(Seq::filter);
    if items.len() > 0 {
        law_without(items.drop_last());
    } else {
        assert(without_clips(items) =~= items.filter(|x: ItemModel| !(x is Clip)));
        assert(without_apps(items) =~= items.filter(|x: ItemModel| !(x is App)));
    }
}

/// What passes a filter is in the filtered list.
pub(crate) proof fn lemma_filtered_has<A>(s: Seq<A>, p: spec_fn(A) -> bool, i: int)
    requires
        0 <= i < s.len(),
        p(s[i]),
    ensures
        s.filter(p).contains(s[i]),
    decreases s.len(),
{
    reveal(Seq::filter);
    let f = s.filter(p);
    let g = s.drop_last().filter(p);
    if i < s.len() - 1 {
        lemma_filtered_has(s.drop_last(), p, i);
        let k = choose|k: int| 0 <= k < g.len() && g[k] == s[i];
        assert(f[k] == s[i]);
    } else {
        assert(f[g.len() as int] == s[i]);
    }
}

/// After a sync with the clipboard history, the items are those that are no clipboard entries,
/// in their order, and behind them the entries of the history, in theirs.
pub proof fn law_clips_synced(s: UiModel, h: Seq<ClipModel>)
    ensures
        clips_synced(s, h) == (UiModel {
            items: s.items.filter(|x: ItemModel| !(x is Clip)) + h.map_values(
                |e: ClipModel| ItemModel::Clip(e),
            ),
            ..s
        }),
{
    law_without(s.items);
    assert(clip_items(h) =~= h.map_values(|e: ClipModel| ItemModel::Clip(e)));
}

/// After a sync with the installed applications, the items are those that are no
/// applications, in their order, and behind them the applications, in theirs.
pub proof fn law_apps_synced(s: UiModel, apps: Seq<AppModel>)
    ensures
        apps_synced(s, apps) == (UiModel {
            items: s.items.filter(|x: ItemModel| !(x is App)) + apps.map_values(
                |a: AppModel| ItemModel::App { name: a.0, path: a.1 },
            ),
            ..s
        }),
{
    law_without(s.items);
    assert(app_items(apps) =~= apps.map_values(
        |a: AppModel| ItemModel::App { name: a.0, path: a.1 },
    ));
}

/// The rows of a tab are exactly the items of its kind whose name the query has a fuzzy
/// score on, or all of its kind without a query: applications on Apps, clipboard entries on
/// Clipboard, pass entries on Pass, and none elsewhere.
pub proof fn law_rows(s: UiModel, reset_selection: bool, i: usize)
    requires
        s.items.len() <= usize::MAX,
        i < s.items.len(),
    ensures
        refiltered(s, reset_selection).filtered.contains(i) == {
            let item = s.items[i as int];
            &&& (s.mode == Mode::Apps && item is App) || (s.mode == Mode::Clipboard && item is Clip)
                || (s.mode == Mode::Pass && item is Pass)
            &&& s.query.len() == 0 || skim_score(item_name(item), s.query) is Some
        },
{
    let n = s.items.len() as int;
    let keep = |i: int| lists(s.mode, s.items[i]);
    let level = |i: int, j: int| false;
    let ids = listed(s.mode, s.items);
    law_ranking_exists(n, keep, level);
    lemma_picked_len(n, keep);
    let sub = at(s.items, ids);
    let m = search_result(s.query, sub, s.scores);
    let f = refiltered(s, reset_selection).filtered;
    law_search_in_range(s.query, sub, s.scores);
    if f.contains(i) {
        let a = choose|a: int| 0 <= a < f.len() && f[a] == i;
        let k = m[a];
        assert(k < sub.len());
        assert(ids[k as int] == i);
        assert(keep(ids[k as int] as int));
        law_search_finds(s.query, sub, s.scores, k);
        assert(m.contains(k));
        assert(sub[k as int] == s.items[i as int]);
    }
    if keep(i as int) {
        assert(ids.contains(i));
        let k = choose|k: int| 0 <= k < ids.len() && ids[k] == i;
        law_search_finds(s.query, sub, s.scores, k as usize);
        assert(sub[k] == s.items[i as int]);
        if m.contains(k as usize) {
            let a = choose|a: int| 0 <= a < m.len() && m[a] == k as usize;
            assert(f[a] == i);
        }
    }
}

/// No item has two rows. With a query, of two rows the one with more fuzzy score and bonus
/// together stands in front, a bonus above 50 counting as 50; without one, the one that is
/// more used. Level ones stand as the items do.
pub proof fn law_row_order(s: UiModel, reset_selection: bool, a: int, b: int)
    requires
        s.items.len() <= usize::MAX,
        0 <= a < b < refiltered(s, reset_selection).filtered.len(),
    ensures
        ({
            let f = refiltered(s, reset_selection).filtered;
            let p = s.items[f[a] as int];
            let q = s.items[f[b] as int];
            let u = (s.scores)(item_key(p));
            let v = (s.scores)(item_key(q));
            let x = if s.query.len() == 0 {
                u.order as int
            } else {
                skim_score(item_name(p), s.query)->0 + least(u.bonus as int, 50)
            };
            let y = if s.query.len() == 0 {
                v.order as int
            } else {
                skim_score(item_name(q), s.query)->0 + least(v.bonus as int, 50)
            };
            x > y || (x == y && f[a] < f[b])
        }),
{
    let n = s.items.len() as int;
    let keep = |i: int| lists(s.mode, s.items[i]);
    let level = |i: int, j: int| false;
    let ids = listed(s.mode, s.items);
    law_ranking_exists(n, keep, level);
    lemma_picked_len(n, keep);
    let sub = at(s.items, ids);
    let m = search_result(s.query, sub, s.scores);
    let f = refiltered(s, reset_selection).filtered;
    law_search_in_range(s.query, sub, s.scores);
    assert(m[a] < sub.len() && m[b] < sub.len());
    assert(f[a] == ids[m[a] as int] && f[b] == ids[m[b] as int]);
    if s.query.len() == 0 {
        assert(s.query =~= seq![]);
        law_search_by_use(sub, s.scores, a, b);
    } else {
        law_search_order(s.query, sub, s.scores, a, b);
    }
    assert(sub[m[a] as int] == s.items[f[a] as int]);
    assert(sub[m[b] as int] == s.items[f[b] as int]);
    if m[a] < m[b] {
        assert(crate::order::comes_first(level, ids[m[a] as int] as int, ids[m[b] as int] as int));
    }
}

/// Filtering changes the rows and the selection and nothing else. The selection goes to the
/// first row where that is asked for, and otherwise stays, unless there are not as many rows.
pub proof fn law_refilter_selection(s: UiModel, reset_selection: bool)
    ensures
        ({
            let t = refiltered(s, reset_selection);
            &&& t == (UiModel { filtered: t.filtered, selected: t.selected, ..s })
            &&& reset_selection ==> t.selected == 0
            &&& !reset_selection && s.selected < t.filtered.len() ==> t.selected == s.selected
            &&& !reset_selection && 0 < t.filtered.len() <= s.selected && t.filtered.len()
                <= usize::MAX ==> t.selected == t.filtered.len() - 1
        }),
{
}

/// The input items that a query finds are exactly those it matches, all without a query, in
/// the order in which they were sent.
pub proof fn law_input_rows(query: Seq<char>, items: Seq<Seq<char>>)
    requires
        items.len() <= usize::MAX,
    ensures
        forall|i: usize|
            i < items.len() ==> #[trigger] input_found(query, items).contains(i) == (query.len()
                == 0 || fuzzy_matches(items[i as int], query)),
        forall|a: int|
            0 <= a < input_found(query, items).len() ==> (#[trigger] input_found(query, items)[a])
                < items.len(),
        forall|a: int, b: int|
            0 <= a < b < input_found(query, items).len() ==> (#[trigger] input_found(
                query,
                items,
            )[a]) < (#[trigger] input_found(query, items)[b]),
{
    let keep = |i: int| query.len() == 0 || fuzzy_matches(items[i], query);
    let level = |i: int, j: int| false;
    law_ranking_exists(items.len() as int, keep, level);
    let r = input_found(query, items);
    assert forall|i: usize| i < items.len() implies #[trigger] r.contains(i) == (query.len() == 0
        || fuzzy_matches(items[i as int], query)) by {
        if r.contains(i) {
            let a = choose|a: int| 0 <= a < r.len() && r[a] == i;
            assert(keep(r[a] as int));
        }
        if keep(i as int) {
            assert(r.contains(i));
        }
    }
    assert forall|a: int, b: int| 0 <= a < b < r.len() implies (#[trigger] r[a]) < (
    #[trigger] r[b]) by {
        assert(crate::order::comes_first(level, r[a] as int, r[b] as int));
    }
}

/// Each tab that can be asked for by name opens under that name, and any other name opens
/// Apps.
pub proof fn law_requested_mode(tab: Seq<char>)
    ensures
        requested_mode(Some("pass"@)) == Mode::Pass,
        requested_mode(Some("clip"@)) == Mode::Clipboard,
        requested_mode(Some("files"@)) == Mode::Files,
        tab != "pass"@ && tab != "clip"@ && tab != "files"@ ==> requested_mode(Some(tab))
            == Mode::Apps,
        requested_mode(None) == Mode::Apps,
{
    reveal_strlit("pass");
    reveal_strlit("clip");
    reveal_strlit("files");
    assert("pass"@[0] == 'p' && "clip"@[0] == 'c' && "files"@[0] == 'f');
}

} // verus!

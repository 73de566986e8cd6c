//! The window switcher: Option+Tab cycles through the open windows, and releasing Option
//! activates the selected one.

use vstd::prelude::*;

use crate::config::{c, Rgb};
use crate::order::{first_where, lemma_first_where, lemma_first_where_bounds};
use crate::text::{
    chars_of, contains_text, lowercase, occurs, opt_text, same, string_of, texts, to_lower,
};

verus! {

// ── Keys ──────────────────────────────────────────────────────────────────────

/// What the key listener tells the switcher.
#[derive(PartialEq, Eq, Structural, Clone, Copy, Debug)]
pub enum KeyMsg {
    /// Option+Tab was pressed.
    TabPressed,
    /// The Option key was released: commit and dismiss.
    OptionReleased,
}

/// The bit of the Option key among the modifier flags of an event.
pub const OPTION_FLAG: u64 = 0x00080000;

/// The key code of the Tab key.
pub const TAB_KEYCODE: i64 = 48;

/// What the key listener remembers.
#[derive(PartialEq, Eq, Structural, Clone, Copy, Debug)]
pub struct TapState {
    pub option_down: bool,
}

impl TapState {
    /// Takes new modifier flags. Tells the switcher when the Option key was released.
    pub fn flags_changed(&mut self, flags: u64) -> (r: Option<KeyMsg>)
        ensures
            final(self).option_down == (flags & OPTION_FLAG != 0),
            r == if old(self).option_down && flags & OPTION_FLAG == 0 {
                Some(KeyMsg::OptionReleased)
            } else {
                None
            },
    {
        let now = flags & OPTION_FLAG != 0;
        let released = self.option_down && !now;
        self.option_down = now;
        if released {
            Some(KeyMsg::OptionReleased)
        } else {
            None
        }
    }

    /// Takes a key press. Option+Tab is told to the switcher, and swallowed: it does not
    /// reach the focused application.
    pub fn key_down(&self, keycode: i64) -> (r: Option<KeyMsg>)
        ensures
            r == if keycode == TAB_KEYCODE && self.option_down {
                Some(KeyMsg::TabPressed)
            } else {
                None
            },
    {
        if keycode == TAB_KEYCODE && self.option_down {
            Some(KeyMsg::TabPressed)
        } else {
            None
        }
    }
}

// ── Windows ───────────────────────────────────────────────────────────────────

/// An open window.
#[derive(Debug)]
pub struct WinEntry {
    pub pid: i32,
    /// Unique per window.
    pub wid: u32,
    pub app_name: String,
    pub win_title: String,
}

/// What is known of an open window.
#[verifier::ext_equal]
pub struct WinModel {
    pub pid: i32,
    pub wid: u32,
    pub app_name: Seq<char>,
    pub win_title: Seq<char>,
}

impl View for WinEntry {
    type V = WinModel;

    open spec fn view(&self) -> WinModel {
        WinModel {
            pid: self.pid,
            wid: self.wid,
            app_name: self.app_name@,
            win_title: self.win_title@,
        }
    }
}

impl Clone for WinEntry {
    fn clone(&self) -> (r: Self)
        ensures
            r == *self,
    {
        WinEntry {
            pid: self.pid,
            wid: self.wid,
            app_name: self.app_name.clone(),
            win_title: self.win_title.clone(),
        }
    }
}

/// What a list of windows holds.
pub open spec fn windows_view(w: Seq<WinEntry>) -> Seq<WinModel> {
    Seq::new(w.len(), |i: int| w[i]@)
}

/// A window as the system lists it; each part where it is given.
#[derive(Debug)]
pub struct RawWindow {
    pub layer: Option<i32>,
    pub pid: Option<i32>,
    pub app_name: Option<String>,
    pub wid: Option<i32>,
    pub title: Option<String>,
}

/// A window that is shown: an ordinary one, of another process that has a name.
pub open spec fn is_shown(w: RawWindow, our_pid: i32) -> bool {
    &&& w.layer == Some(0i32)
    &&& w.pid is Some && w.pid->0 != 0 && w.pid->0 != our_pid
    &&& w.app_name is Some && w.app_name->0@.len() > 0
}

/// The entry of a window that is shown.
pub open spec fn entry_of(w: RawWindow) -> WinModel {
    WinModel {
        pid: w.pid->0,
        wid: match w.wid {
            Some(id) => id as u32,
            None => 0,
        },
        app_name: w.app_name->0@,
        win_title: match w.title {
            Some(t) => t@,
            None => Seq::empty(),
        },
    }
}

/// The windows that are shown, front to back.
pub open spec fn shown_windows(raw: Seq<RawWindow>, our_pid: i32) -> Seq<WinModel>
    decreases raw.len(),
{
    if raw.len() == 0 {
        seq![]
    } else if is_shown(raw.last(), our_pid) {
        shown_windows(raw.drop_last(), our_pid).push(entry_of(raw.last()))
    } else {
        shown_windows(raw.drop_last(), our_pid)
    }
}

/// Collects the windows that are shown.
pub fn collect_windows(raw: &Vec<RawWindow>, our_pid: i32) -> (r: Vec<WinEntry>)
    ensures
        windows_view(r@) == shown_windows(raw@, our_pid),
{
    let mut out: Vec<WinEntry> = Vec::new();
    let mut i: usize = 0;
    assert(windows_view(out@) =~= shown_windows(raw@.take(0), our_pid));
    while i < raw.len()
        invariant
            i <= raw@.len(),
            windows_view(out@) == shown_windows(raw@.take(i as int), our_pid),
        decreases raw@.len() - i,
    {
        let w = &raw[i];
        let ghost prev = windows_view(out@);
        assert(raw@.take(i as int + 1).drop_last() =~= raw@.take(i as int));
        assert(raw@.take(i as int + 1).last() == *w);
        let ordinary = match w.layer {
            Some(l) => l == 0,
            None => false,
        };
        if ordinary {
            if let (Some(pid), Some(name)) = (w.pid, &w.app_name) {
                if pid != 0 && pid != our_pid && !name.as_str().is_empty() {
                    let wid: u32 = match w.wid {
                        Some(id) => #[verifier::truncate] (id as u32),
                        None => 0,
                    };
                    let win_title = match &w.title {
                        Some(t) => t.clone(),
                        None => String::new(),
                    };
                    let e = WinEntry { pid, wid, app_name: name.clone(), win_title };
                    assert(e@ =~= entry_of(*w));
                    out.push(e);
                    assert(windows_view(out@) =~= prev.push(entry_of(*w)));
                }
            }
        }
        i = i + 1;
    }
    assert(raw@.take(i as int) =~= raw@);
    out
}

/// How many of the windows are of the process and have no title.
pub open spec fn untitled_count(w: Seq<WinModel>, pid: i32) -> nat
    decreases w.len(),
{
    if w.len() == 0 {
        0
    } else {
        untitled_count(w.drop_last(), pid) + if w.last().pid == pid && w.last().win_title.len()
            == 0 {
            1nat
        } else {
            0nat
        }
    }
}

/// The titles that the accessibility interface gives for the windows of a process, front
/// to back.
#[derive(Debug)]
pub struct ProcessTitles {
    pub pid: i32,
    pub titles: Vec<String>,
}

/// The titles of the windows of a process; none where they were not asked for.
pub open spec fn titles_of(all: Seq<ProcessTitles>, pid: i32) -> Seq<Seq<char>> {
    let i = first_where(all.len() as int, has_pid(all, pid));
    if i < all.len() {
        texts(all[i].titles@)
    } else {
        Seq::empty()
    }
}

/// Whether the titles at a position are those of the process.
pub open spec fn has_pid(all: Seq<ProcessTitles>, pid: i32) -> spec_fn(int) -> bool {
    |i: int| all[i].pid == pid
}

/// A window without a title takes that of the same rank among those of its process.
pub open spec fn titled(w: Seq<WinModel>, all: Seq<ProcessTitles>, i: int) -> WinModel {
    let e = w[i];
    let rank = untitled_count(w.take(i), e.pid);
    let titles = titles_of(all, e.pid);
    if e.win_title.len() == 0 && rank < titles.len() {
        WinModel { win_title: titles[rank as int], ..e }
    } else {
        e
    }
}

/// The windows with missing titles filled in.
pub open spec fn with_titles(w: Seq<WinModel>, all: Seq<ProcessTitles>) -> Seq<WinModel> {
    Seq::new(w.len(), |i: int| titled(w, all, i))
}

/// How many of the windows are of the process.
pub open spec fn process_count(w: Seq<WinModel>, pid: i32) -> nat
    decreases w.len(),
{
    if w.len() == 0 {
        0
    } else {
        process_count(w.drop_last(), pid) + if w.last().pid == pid {
            1nat
        } else {
            0nat
        }
    }
}

/// A title that says no more than the name of the application goes, where that has one
/// window only.
pub open spec fn distinguished(w: Seq<WinModel>, i: int) -> WinModel {
    if process_count(w, w[i].pid) == 1 && w[i].win_title == w[i].app_name {
        WinModel { win_title: Seq::empty(), ..w[i] }
    } else {
        w[i]
    }
}

/// The windows without titles that say nothing.
pub open spec fn without_redundant(w: Seq<WinModel>) -> Seq<WinModel> {
    Seq::new(w.len(), |i: int| distinguished(w, i))
}

/// The processes whose titles are to be asked for: those with a window without a title.
pub fn untitled_processes(windows: &Vec<WinEntry>) -> (r: Vec<i32>)
    ensures
        forall|pid: i32| #[trigger]
            r@.contains(pid) == (untitled_count(windows_view(windows@), pid) > 0),
        r@.no_duplicates(),
{
    let ghost all = windows_view(windows@);
    let mut r: Vec<i32> = Vec::new();
    let mut i: usize = 0;
    while i < windows.len()
        invariant
            i <= windows@.len(),
            all == windows_view(windows@),
            forall|pid: i32| #[trigger]
                r@.contains(pid) == (untitled_count(all.take(i as int), pid) > 0),
            r@.no_duplicates(),
        decreases windows@.len() - i,
    {
        let w = &windows[i];
        let ghost prev = r@;
        let ghost more = all.take(i as int + 1);
        assert(more.drop_last() =~= all.take(i as int));
        assert(more.last() == w@);
        if w.win_title.as_str().is_empty() && !holds(&r, w.pid) {
            r.push(w.pid);
            proof {
                assert forall|pid: i32| #[trigger] r@.contains(pid) == (untitled_count(more, pid)
                    > 0) by {
                    lemma_push_has(prev, w.pid, pid);
                }
                assert(r@.no_duplicates()) by {
                    assert forall|a: int, b: int| 0 <= a < b < r@.len() implies r@[a] != r@[b] by {
                        if b == prev.len() {
                            assert(prev[a] == r@[a]);
                            assert(prev.contains(prev[a]));
                        }
                    }
                }
            }
        } else {
            assert forall|pid: i32| #[trigger] r@.contains(pid) == (untitled_count(more, pid) > 0) by {
                assert(r@.contains(pid) == (untitled_count(all.take(i as int), pid) > 0));
            }
        }
        i = i + 1;
    }
    assert(all.take(i as int) =~= all);
    r
}

fn holds(v: &Vec<i32>, x: i32) -> (r: bool)
    ensures
        r == v@.contains(x),
{
    let mut i: usize = 0;
    while i < v.len()
        invariant
            i <= v@.len(),
            forall|k: int| 0 <= k < i ==> v@[k] != x,
        decreases v@.len() - i,
    {
        if v[i] == x {
            return true;
        }
        i = i + 1;
    }
    false
}

proof fn lemma_push_has(s: Seq<i32>, p: i32, x: i32)
    ensures
        s.push(p).contains(x) == (s.contains(x) || x == p),
{
    let m = s.push(p);
    if s.contains(x) {
        let i = choose|i: int| 0 <= i < s.len() && s[i] == x;
        assert(m[i] == x);
    }
    if x == p {
        assert(m[s.len() as int] == x);
    }
    if m.contains(x) {
        let i = choose|i: int| 0 <= i < m.len() && m[i] == x;
        assert(i < s.len() ==> s[i] == x);
    }
}

fn count_untitled(windows: &Vec<WinEntry>, n: usize, pid: i32) -> (r: usize)
    requires
        n <= windows@.len(),
    ensures
        r == untitled_count(windows_view(windows@).take(n as int), pid),
{
    let ghost all = windows_view(windows@);
    let mut r: usize = 0;
    let mut i: usize = 0;
    while i < n
        invariant
            i <= n <= windows@.len(),
            all == windows_view(windows@),
            r <= i,
            r == untitled_count(all.take(i as int), pid),
        decreases n - i,
    {
        let w = &windows[i];
        assert(all.take(i as int + 1).drop_last() =~= all.take(i as int));
        assert(all.take(i as int + 1).last() == w@);
        if w.pid == pid && w.win_title.as_str().is_empty() {
            r = r + 1;
        }
        i = i + 1;
    }
    r
}

fn count_process(windows: &Vec<WinEntry>, pid: i32) -> (r: usize)
    ensures
        r == process_count(windows_view(windows@), pid),
{
    let ghost all = windows_view(windows@);
    let mut r: usize = 0;
    let mut i: usize = 0;
    while i < windows.len()
        invariant
            i <= windows@.len(),
            all == windows_view(windows@),
            r <= i,
            r == process_count(all.take(i as int), pid),
        decreases windows@.len() - i,
    {
        let w = &windows[i];
        assert(all.take(i as int + 1).drop_last() =~= all.take(i as int));
        assert(all.take(i as int + 1).last() == w@);
        if w.pid == pid {
            r = r + 1;
        }
        i = i + 1;
    }
    assert(all.take(i as int) =~= all);
    r
}

fn title_at(all: &Vec<ProcessTitles>, pid: i32, rank: usize) -> (r: Option<String>)
    ensures
        opt_text(r) == if rank < titles_of(all@, pid).len() {
            Some(titles_of(all@, pid)[rank as int])
        } else {
            None
        },
{
    let mut i: usize = 0;
    while i < all.len() && all[i].pid != pid
        invariant
            i <= all@.len(),
            forall|k: int| 0 <= k < i ==> (#[trigger] all@[k]).pid != pid,
        decreases all@.len() - i,
    {
        i = i + 1;
    }
    proof {
        lemma_first_where(all@.len() as int, has_pid(all@, pid), i as int);
    }
    if i < all.len() && rank < all[i].titles.len() {
        assert(texts(all@[i as int].titles@)[rank as int]
            == all@[i as int].titles@[rank as int]@);
        Some(all[i].titles[rank].clone())
    } else {
        None
    }
}

/// Fills in missing titles, then drops those that say nothing.
pub fn fill_titles(windows: &Vec<WinEntry>, all: &Vec<ProcessTitles>) -> (r: Vec<WinEntry>)
    ensures
        windows_view(r@) == without_redundant(with_titles(windows_view(windows@), all@)),
{
    let ghost w = windows_view(windows@);
    let mut filled: Vec<WinEntry> = Vec::new();
    let mut i: usize = 0;
    while i < windows.len()
        invariant
            i <= windows@.len(),
            w == windows_view(windows@),
            filled@.len() == i,
            forall|k: int| 0 <= k < i ==> (#[trigger] filled@[k])@ == titled(w, all@, k),
        decreases windows@.len() - i,
    {
        let mut e = windows[i].clone();
        assert(w[i as int] == windows@[i as int]@);
        if e.win_title.as_str().is_empty() {
            let rank: usize = count_untitled(windows, i, e.pid);
            if let Some(t) = title_at(all, e.pid, rank) {
                e.win_title = t;
            }
        }
        assert(e@ =~= titled(w, all@, i as int));
        filled.push(e);
        i = i + 1;
    }
    let ghost f = with_titles(w, all@);
    assert(windows_view(filled@) =~= f);
    let mut r: Vec<WinEntry> = Vec::new();
    let mut k: usize = 0;
    while k < filled.len()
        invariant
            k <= filled@.len(),
            f == windows_view(filled@),
            r@.len() == k,
            forall|x: int| 0 <= x < k ==> (#[trigger] r@[x])@ == distinguished(f, x),
        decreases filled@.len() - k,
    {
        let mut e = filled[k].clone();
        assert(f[k as int] == filled@[k as int]@);
        let alone = count_process(&filled, e.pid) == 1;
        if alone && same(e.win_title.as_str(), e.app_name.as_str()) {
            e.win_title = String::new();
        }
        assert(e@ =~= distinguished(f, k as int));
        r.push(e);
        k = k + 1;
    }
    assert(windows_view(r@) =~= without_redundant(f));
    r
}

// ── Order ─────────────────────────────────────────────────────────────────────

/// The list that starts with the element at position `i` and goes on with those behind it,
/// then with those before it.
pub open spec fn rotated(w: Seq<WinModel>, i: int) -> Seq<WinModel> {
    w.skip(i) + w.take(i)
}

/// Whether a window behind the front one is of the process.
pub open spec fn is_behind(w: Seq<WinModel>, pid: i32) -> spec_fn(int) -> bool {
    |i: int| i > 0 && w[i].pid == pid
}

/// The windows in the order in which they are shown: the one that had focus before the
/// front one comes first.
pub open spec fn display_order(w: Seq<WinModel>, prev_pid: i32) -> Seq<WinModel> {
    let i = first_where(w.len() as int, is_behind(w, prev_pid));
    if prev_pid > 0 && i < w.len() {
        rotated(w, i)
    } else {
        w
    }
}

/// Builds the list that is shown, and the position that is selected in it. `raw` holds the
/// open windows, the front one first. All windows are shown; the list is rotated so that
/// the window of `prev_pid` that had focus before the front one comes first, and is
/// selected.
pub fn build_window_list(raw: Vec<WinEntry>, prev_pid: i32) -> (r: (Vec<WinEntry>, usize))
    ensures
        windows_view(r.0@) == display_order(windows_view(raw@), prev_pid),
        r.1 == 0,
{
    let ghost w = windows_view(raw@);
    if prev_pid <= 0 || raw.len() < 2 {
        proof {
            if raw@.len() < 2 {
                lemma_first_where(w.len() as int, is_behind(w, prev_pid), w.len() as int);
            }
        }
        return (raw, 0);
    }
    let mut i: usize = 1;
    while i < raw.len() && raw[i].pid != prev_pid
        invariant
            1 <= i <= raw@.len(),
            w == windows_view(raw@),
            forall|k: int| 0 <= k < i ==> !(#[trigger] is_behind(w, prev_pid)(k)),
        decreases raw@.len() - i,
    {
        i = i + 1;
    }
    proof {
        lemma_first_where(w.len() as int, is_behind(w, prev_pid), i as int);
    }
    if i >= raw.len() {
        return (raw, 0);
    }
    let mut head = raw;
    let mut out = head.split_off(i);
    let ghost front = head@;
    let ghost back = out@;
    out.append(&mut head);
    assert(windows_view(out@) =~= rotated(w, i as int));
    (out, 0)
}

/// All windows are shown, each once: the list is only rotated.
pub proof fn law_nothing_filtered(w: Seq<WinModel>, prev_pid: i32)
    ensures
        display_order(w, prev_pid).len() == w.len(),
        exists|i: int|
            0 <= i <= w.len() && display_order(w, prev_pid) == #[trigger] rotated(w, i),
{
    let i = first_where(w.len() as int, is_behind(w, prev_pid));
    lemma_first_where_bounds(w.len() as int, is_behind(w, prev_pid));
    assert(rotated(w, 0) =~= w);
    assert(display_order(w, prev_pid) == rotated(
        w,
        if prev_pid > 0 && i < w.len() {
            i
        } else {
            0
        },
    ));
}

/// The window that had focus before the front one is the first in the list.
pub proof fn law_previous_window_first(w: Seq<WinModel>)
    requires
        w.len() >= 2,
        w[1].pid > 0,
    ensures
        display_order(w, w[1].pid)[0] == w[1],
{
    let p = is_behind(w, w[1].pid);
    assert(!p(0));
    assert(p(1));
    lemma_first_where(w.len() as int, p, 1);
}

// ── Colours and icons ─────────────────────────────────────────────────────────

/// The colours that the windows of an application take in turn.
pub open spec fn window_color(i: int) -> Rgb {
    if i == 0 {
        c(126, 156, 216)
    } else if i == 1 {
        c(152, 187, 108)
    } else if i == 2 {
        c(229, 183, 103)
    } else if i == 3 {
        c(210, 126, 153)
    } else if i == 4 {
        c(149, 127, 184)
    } else if i == 5 {
        c(127, 180, 202)
    } else if i == 6 {
        c(255, 160, 102)
    } else {
        c(106, 153, 85)
    }
}

fn color_at(i: usize) -> (r: Rgb)
    requires
        i < 8,
    ensures
        r == window_color(i as int),
{
    if i == 0 {
        c(126, 156, 216)
    } else if i == 1 {
        c(152, 187, 108)
    } else if i == 2 {
        c(229, 183, 103)
    } else if i == 3 {
        c(210, 126, 153)
    } else if i == 4 {
        c(149, 127, 184)
    } else if i == 5 {
        c(127, 180, 202)
    } else if i == 6 {
        c(255, 160, 102)
    } else {
        c(106, 153, 85)
    }
}

/// How many of the windows are of the application.
pub open spec fn app_count(w: Seq<WinModel>, name: Seq<char>) -> nat
    decreases w.len(),
{
    if w.len() == 0 {
        0
    } else {
        app_count(w.drop_last(), name) + if w.last().app_name == name {
            1nat
        } else {
            0nat
        }
    }
}

/// Gives each window a colour, so that the windows of one application differ.
pub fn build_window_colors(wins: &Vec<WinEntry>) -> (r: Vec<Rgb>)
    ensures
        r@.len() == wins@.len(),
        forall|i: int|
            0 <= i < wins@.len() ==> #[trigger] r@[i] == window_color(
                app_count(windows_view(wins@).take(i), wins@[i].app_name@) as int % 8,
            ),
{
    let ghost all = windows_view(wins@);
    let mut r: Vec<Rgb> = Vec::new();
    let mut i: usize = 0;
    while i < wins.len()
        invariant
            i <= wins@.len(),
            all == windows_view(wins@),
            r@.len() == i,
            forall|k: int|
                0 <= k < i ==> #[trigger] r@[k] == window_color(
                    app_count(all.take(k), wins@[k].app_name@) as int % 8,
                ),
        decreases wins@.len() - i,
    {
        let n: usize = count_app(wins, i, wins[i].app_name.as_str());
        r.push(color_at(n % 8));
        i = i + 1;
    }
    r
}

fn count_app(wins: &Vec<WinEntry>, n: usize, name: &str) -> (r: usize)
    requires
        n <= wins@.len(),
    ensures
        r == app_count(windows_view(wins@).take(n as int), name@),
{
    let ghost all = windows_view(wins@);
    let mut r: usize = 0;
    let mut i: usize = 0;
    while i < n
        invariant
            i <= n <= wins@.len(),
            all == windows_view(wins@),
            r <= i,
            r == app_count(all.take(i as int), name@),
        decreases n - i,
    {
        assert(all.take(i as int + 1).drop_last() =~= all.take(i as int));
        assert(all.take(i as int + 1).last() == wins@[i as int]@);
        if same(wins[i].app_name.as_str(), name) {
            r = r + 1;
        }
        i = i + 1;
    }
    r
}

/// Two windows of one application, with none of it between them, have different colours.
pub proof fn law_neighbours_differ(w: Seq<WinModel>, i: int, j: int)
    requires
        0 <= i < j < w.len(),
        w[i].app_name == w[j].app_name,
        forall|k: int| i < k < j ==> (#[trigger] w[k]).app_name != w[i].app_name,
    ensures
        colors_of(w)[i] != colors_of(w)[j],
{
    let name = w[i].app_name;
    lemma_next_of_app(w, i, j);
    let n = app_count(w.take(i), name);
    let k = n as int % 8;
    assert((n + 1) as int % 8 == if k == 7 {
        0
    } else {
        k + 1
    });
}

/// Up to the next window of an application, only one more of it is counted.
proof fn lemma_next_of_app(w: Seq<WinModel>, i: int, j: int)
    requires
        0 <= i < j <= w.len(),
        forall|k: int| i < k < j ==> (#[trigger] w[k]).app_name != w[i].app_name,
    ensures
        app_count(w.take(j), w[i].app_name) == app_count(w.take(i), w[i].app_name) + 1,
    decreases j,
{
    assert(w.take(j).drop_last() =~= w.take(j - 1));
    assert(w.take(j).last() == w[j - 1]);
    if j > i + 1 {
        lemma_next_of_app(w, i, j - 1);
    }
}

/// The icon for an application of the given lower-case name.
pub open spec fn window_glyph(n: Seq<char>) -> Seq<char> {
    if occurs(n, "safari"@) {
        "\u{E748}"@
    } else if occurs(n, "firefox"@) {
        "\u{E745}"@
    } else if occurs(n, "chrome"@) || occurs(n, "chromium"@) {
        "\u{E743}"@
    } else if occurs(n, "terminal"@) || occurs(n, "iterm"@) || occurs(n, "alacritty"@)
        || occurs(n, "warp"@) || occurs(n, "kitty"@) || occurs(n, "ghostty"@) {
        "\u{EA85}"@
    } else if occurs(n, "cursor"@) || occurs(n, "code"@) || occurs(n, "vscode"@) {
        "\u{E8DA}"@
    } else if occurs(n, "xcode"@) {
        "\u{E8E8}"@
    } else if occurs(n, "sublime"@) {
        "\u{E7AA}"@
    } else if occurs(n, "vim"@) || occurs(n, "neovim"@) {
        "\u{E6AC}"@
    } else if occurs(n, "slack"@) {
        "\u{F198}"@
    } else if occurs(n, "discord"@) {
        "\u{F099}"@
    } else if occurs(n, "telegram"@) {
        "\u{F2C6}"@
    } else if occurs(n, "whatsapp"@) {
        "\u{F232}"@
    } else if occurs(n, "mail"@) || occurs(n, "outlook"@) {
        "\u{F0E0}"@
    } else if occurs(n, "calendar"@) {
        "\u{F073}"@
    } else if occurs(n, "notes"@) {
        "\u{F249}"@
    } else if occurs(n, "finder"@) {
        "\u{F07C}"@
    } else if occurs(n, "spotify"@) {
        "\u{F1BC}"@
    } else if occurs(n, "music"@) || occurs(n, "itunes"@) {
        "\u{F001}"@
    } else if occurs(n, "system preferences"@) || occurs(n, "system settings"@) {
        "\u{F013}"@
    } else if occurs(n, "activity monitor"@) {
        "\u{F080}"@
    } else if occurs(n, "preview"@) {
        "\u{F1C5}"@
    } else if occurs(n, "figma"@) {
        "\u{E6AD}"@
    } else if occurs(n, "notion"@) {
        "\u{F46D}"@
    } else if occurs(n, "obsidian"@) {
        "\u{F040}"@
    } else if occurs(n, "1password"@) || occurs(n, "bitwarden"@) {
        "\u{F023}"@
    } else if occurs(n, "docker"@) {
        "\u{F308}"@
    } else if occurs(n, "postman"@) {
        "\u{F441}"@
    } else if occurs(n, "tableplus"@) || occurs(n, "sequel"@) {
        "\u{F1C0}"@
    } else {
        "\u{F108}"@
    }
}

/// Picks the icon for an application.
pub fn glyph_for(name: &str) -> (r: &'static str)
    ensures
        r@ == window_glyph(lowercase(name@)),
{
    let lower = to_lower(name);
    let v = chars_of(lower.as_str());
    let n = v.as_slice();
    if contains_text(n, "safari") {
        "\u{E748}"
    } else if contains_text(n, "firefox") {
        "\u{E745}"
    } else if contains_text(n, "chrome") || contains_text(n, "chromium") {
        "\u{E743}"
    } else if contains_text(n, "terminal") || contains_text(n, "iterm")
        || contains_text(n, "alacritty") || contains_text(n, "warp") || contains_text(n, "kitty")
        || contains_text(n, "ghostty") {
        "\u{EA85}"
    } else if contains_text(n, "cursor") || contains_text(n, "code") || contains_text(n, "vscode") {
        "\u{E8DA}"
    } else if contains_text(n, "xcode") {
        "\u{E8E8}"
    } else if contains_text(n, "sublime") {
        "\u{E7AA}"
    } else if contains_text(n, "vim") || contains_text(n, "neovim") {
        "\u{E6AC}"
    } else if contains_text(n, "slack") {
        "\u{F198}"
    } else if contains_text(n, "discord") {
        "\u{F099}"
    } else if contains_text(n, "telegram") {
        "\u{F2C6}"
    } else if contains_text(n, "whatsapp") {
        "\u{F232}"
    } else if contains_text(n, "mail") || contains_text(n, "outlook") {
        "\u{F0E0}"
    } else if contains_text(n, "calendar") {
        "\u{F073}"
    } else if contains_text(n, "notes") {
        "\u{F249}"
    } else if contains_text(n, "finder") {
        "\u{F07C}"
    } else if contains_text(n, "spotify") {
        "\u{F1BC}"
    } else if contains_text(n, "music") || contains_text(n, "itunes") {
        "\u{F001}"
    } else if contains_text(n, "system preferences") || contains_text(n, "system settings") {
        "\u{F013}"
    } else if contains_text(n, "activity monitor") {
        "\u{F080}"
    } else if contains_text(n, "preview") {
        "\u{F1C5}"
    } else if contains_text(n, "figma") {
        "\u{E6AD}"
    } else if contains_text(n, "notion") {
        "\u{F46D}"
    } else if contains_text(n, "obsidian") {
        "\u{F040}"
    } else if contains_text(n, "1password") || contains_text(n, "bitwarden") {
        "\u{F023}"
    } else if contains_text(n, "docker") {
        "\u{F308}"
    } else if contains_text(n, "postman") {
        "\u{F441}"
    } else if contains_text(n, "tableplus") || contains_text(n, "sequel") {
        "\u{F1C0}"
    } else {
        "\u{F108}"
    }
}

/// A text of at most `n` characters: a longer one ends with an ellipsis.
pub open spec fn truncated(s: Seq<char>, n: int) -> Seq<char> {
    if s.len() <= n {
        s
    } else {
        s.take(n - 1).push('\u{2026}')
    }
}

/// Cuts a text to at most `n` characters.
pub fn truncate(s: &str, n: usize) -> (r: String)
    requires
        n > 0 || s@.len() == 0,
    ensures
        r@ == truncated(s@, n as int),
{
    let v = chars_of(s);
    if v.len() <= n {
        s.to_owned()
    } else {
        let head = vstd::slice::slice_subrange(v.as_slice(), 0, n - 1);
        let mut r = string_of(head);
        r.push('\u{2026}');
        assert(r@ =~= truncated(s@, n as int));
        r
    }
}

/// A cut text is never longer than asked for.
pub proof fn law_truncated_fits(s: Seq<char>, n: int)
    requires
        n > 0,
    ensures
        truncated(s, n).len() <= n,
{
}

/// The title on a card; a dash where there is none.
pub fn card_title(title: &str) -> (r: String)
    ensures
        r@ == if title@.len() == 0 {
            "\u{2014}"@
        } else {
            truncated(title@, 14)
        },
{
    if title.is_empty() {
        "\u{2014}".to_owned()
    } else {
        truncate(title, 14)
    }
}

// ── Raising ───────────────────────────────────────────────────────────────────

/// A window as the accessibility interface lists it; each part where it is given.
#[derive(Debug)]
pub struct AxWindow {
    pub id: Option<i64>,
    pub title: Option<String>,
}

/// Whether the window at a position has the identifier.
pub open spec fn has_wid(w: Seq<AxWindow>, wid: u32) -> spec_fn(int) -> bool {
    |i: int| w[i].id is Some && w[i].id->0 as u32 == wid
}

/// Whether the window at a position has the title.
pub open spec fn has_title(w: Seq<AxWindow>, title: Seq<char>) -> spec_fn(int) -> bool {
    |i: int| opt_text(w[i].title) == Some(title)
}

/// The window to raise: the first one with the identifier, or else with the title, where
/// that is not empty.
pub open spec fn target_of(w: Seq<AxWindow>, wid: u32, title: Seq<char>) -> Option<int> {
    let a = first_where(w.len() as int, has_wid(w, wid));
    let b = first_where(w.len() as int, has_title(w, title));
    if a < w.len() {
        Some(a)
    } else if title.len() > 0 && b < w.len() {
        Some(b)
    } else {
        None
    }
}

/// Finds the window to raise.
pub fn raise_target(w: &Vec<AxWindow>, wid: u32, title: &str) -> (r: Option<usize>)
    ensures
        match r {
            Some(i) => target_of(w@, wid, title@) == Some(i as int),
            None => target_of(w@, wid, title@) is None,
        },
{
    let mut i: usize = 0;
    while i < w.len()
        invariant
            i <= w@.len(),
            forall|k: int| 0 <= k < i ==> !(#[trigger] has_wid(w@, wid)(k)),
        decreases w@.len() - i,
    {
        if let Some(id) = w[i].id {
            let low: u32 = #[verifier::truncate] (id as u32);
            if low == wid {
                proof {
                    lemma_first_where(w@.len() as int, has_wid(w@, wid), i as int);
                }
                return Some(i);
            }
        }
        i = i + 1;
    }
    proof {
        lemma_first_where(w@.len() as int, has_wid(w@, wid), i as int);
    }
    if title.is_empty() {
        return None;
    }
    let mut k: usize = 0;
    while k < w.len()
        invariant
            k <= w@.len(),
            first_where(w@.len() as int, has_wid(w@, wid)) == w@.len(),
            title@.len() > 0,
            forall|x: int| 0 <= x < k ==> !(#[trigger] has_title(w@, title@)(x)),
        decreases w@.len() - k,
    {
        if let Some(t) = &w[k].title {
            if same(t.as_str(), title) {
                proof {
                    lemma_first_where(w@.len() as int, has_title(w@, title@), k as int);
                }
                return Some(k);
            }
        }
        k = k + 1;
    }
    proof {
        lemma_first_where(w@.len() as int, has_title(w@, title@), k as int);
    }
    None
}

// ── Switcher ──────────────────────────────────────────────────────────────────

/// The state of the switcher.
#[derive(Debug)]
pub struct Switcher {
    pub visible: bool,
    pub selected: usize,
    pub windows: Vec<WinEntry>,
    pub win_colors: Vec<Rgb>,
}

/// What the state of the switcher holds.
#[verifier::ext_equal]
pub struct SwitcherModel {
    pub visible: bool,
    pub selected: usize,
    pub windows: Seq<WinModel>,
    pub win_colors: Seq<Rgb>,
}

impl View for Switcher {
    type V = SwitcherModel;

    open spec fn view(&self) -> SwitcherModel {
        SwitcherModel {
            visible: self.visible,
            selected: self.selected,
            windows: windows_view(self.windows@),
            win_colors: self.win_colors@,
        }
    }
}

/// What the switcher is to do after Option+Tab.
#[derive(Debug)]
pub enum TabStep {
    /// Nothing more than to draw.
    Draw,
    /// Show the overlay.
    Show,
    /// Raise the window, without an overlay.
    Raise(WinEntry),
}

/// The colours of windows.
pub open spec fn colors_of(w: Seq<WinModel>) -> Seq<Rgb> {
    Seq::new(w.len(), |i: int| window_color(app_count(w.take(i), w[i].app_name) as int % 8))
}

/// The process of the window that had focus before the front one.
pub open spec fn previous_pid(raw: Seq<WinModel>) -> i32 {
    if raw.len() > 1 {
        raw[1].pid
    } else {
        0
    }
}

/// The state after Option+Tab: the next window is selected, around the end. `raw` holds the
/// open windows, for when the overlay comes up; it does while Option is held.
pub open spec fn tab_stepped(
    s: SwitcherModel,
    raw: Seq<WinModel>,
    option_down: bool,
) -> SwitcherModel {
    if s.visible {
        if s.windows.len() > 0 {
            SwitcherModel { selected: ((s.selected + 1) % s.windows.len() as int) as usize, ..s }
        } else {
            s
        }
    } else {
        let w = display_order(raw, previous_pid(raw));
        SwitcherModel { visible: option_down, selected: 0, windows: w, win_colors: colors_of(w) }
    }
}

impl Default for Switcher {
    fn default() -> (s: Self)
        ensures
            !s.visible && s.selected == 0 && s.windows@.len() == 0 && s.win_colors@.len() == 0,
    {
        Switcher { visible: false, selected: 0, windows: Vec::new(), win_colors: Vec::new() }
    }
}

impl Switcher {
    /// Takes Option+Tab. `raw` holds the open windows, the front one first; it counts while
    /// the overlay is not shown. Where Option was released already, the window that had
    /// focus before is raised without an overlay.
    pub fn tab_pressed(&mut self, raw: Vec<WinEntry>, option_down: bool) -> (r: TabStep)
        requires
            old(self).selected < usize::MAX,
        ensures
            final(self)@ == tab_stepped(old(self)@, windows_view(raw@), option_down),
            if old(self).visible {
                r is Draw
            } else if option_down {
                r is Show
            } else if raw@.len() > 1 && raw@[1].pid > 0 {
                r matches TabStep::Raise(e) && e@ == raw@[1]@
            } else {
                r is Draw
            },
    {
        if self.visible {
            if self.windows.len() > 0 {
                self.selected = (self.selected + 1) % self.windows.len();
            }
            return TabStep::Draw;
        }
        let ghost w = windows_view(raw@);
        let previous = if raw.len() > 1 {
            Some(raw[1].clone())
        } else {
            None
        };
        let prev: i32 = match &previous {
            Some(e) => e.pid,
            None => 0,
        };
        assert(prev == previous_pid(w));
        let (wins, sel) = build_window_list(raw, prev);
        self.win_colors = build_window_colors(&wins);
        self.windows = wins;
        self.selected = sel;
        self.visible = option_down;
        assert(self.win_colors@ =~= colors_of(display_order(w, prev)));
        assert(self@ =~= tab_stepped(old(self)@, w, option_down));
        if option_down {
            TabStep::Show
        } else {
            match previous {
                Some(e) => {
                    if e.pid > 0 {
                        TabStep::Raise(e)
                    } else {
                        TabStep::Draw
                    }
                },
                None => TabStep::Draw,
            }
        }
    }

    /// Takes the release of Option: the overlay goes. Returns the window to raise.
    pub fn option_released(&mut self) -> (r: Option<WinEntry>)
        ensures
            final(self)@ == (SwitcherModel { visible: false, ..old(self)@ }),
            if old(self).visible && old(self).selected < old(self).windows@.len() {
                r matches Some(e) && e@ == old(self)@.windows[old(self).selected as int]
            } else {
                r is None
            },
    {
        if !self.visible {
            return None;
        }
        self.visible = false;
        if self.selected < self.windows.len() {
            Some(self.windows[self.selected].clone())
        } else {
            None
        }
    }
}

/// Whether Option is still held when a message is taken: it is now, or its release is among
/// the messages that follow.
pub open spec fn is_held(rest: Seq<KeyMsg>, option_down: bool) -> bool {
    option_down || rest.contains(KeyMsg::OptionReleased)
}

/// The windows that a message raises; `held` says whether Option is still held.
pub open spec fn raised_by(s: SwitcherModel, msg: KeyMsg, raw: Seq<WinModel>, held: bool) -> Seq<
    WinModel,
> {
    match msg {
        KeyMsg::TabPressed => if !s.visible && !held && raw.len() > 1 && raw[1].pid > 0 {
            seq![raw[1]]
        } else {
            seq![]
        },
        KeyMsg::OptionReleased => if s.visible && s.selected < s.windows.len() {
            seq![s.windows[s.selected as int]]
        } else {
            seq![]
        },
    }
}

/// The state after a message.
pub open spec fn message_taken(
    s: SwitcherModel,
    msg: KeyMsg,
    raw: Seq<WinModel>,
    held: bool,
) -> SwitcherModel {
    match msg {
        KeyMsg::TabPressed => tab_stepped(s, raw, held),
        KeyMsg::OptionReleased => SwitcherModel { visible: false, ..s },
    }
}

/// The state after all the messages that came in, one after the other.
pub open spec fn messages_taken(
    s: SwitcherModel,
    msgs: Seq<KeyMsg>,
    raw: Seq<WinModel>,
    option_down: bool,
) -> SwitcherModel
    decreases msgs.len(),
{
    if msgs.len() == 0 {
        s
    } else {
        let rest = msgs.skip(1);
        let t = message_taken(s, msgs[0], raw, is_held(rest, option_down));
        messages_taken(t, rest, raw, option_down)
    }
}

/// The windows that all the messages raise, one after the other.
pub open spec fn raised(
    s: SwitcherModel,
    msgs: Seq<KeyMsg>,
    raw: Seq<WinModel>,
    option_down: bool,
) -> Seq<WinModel>
    decreases msgs.len(),
{
    if msgs.len() == 0 {
        seq![]
    } else {
        let rest = msgs.skip(1);
        let held = is_held(rest, option_down);
        let t = message_taken(s, msgs[0], raw, held);
        raised_by(s, msgs[0], raw, held) + raised(t, rest, raw, option_down)
    }
}

fn releases_from(msgs: &Vec<KeyMsg>, from: usize) -> (r: bool)
    requires
        from <= msgs@.len(),
    ensures
        r == msgs@.skip(from as int).contains(KeyMsg::OptionReleased),
{
    let ghost rest = msgs@.skip(from as int);
    let mut i: usize = from;
    while i < msgs.len()
        invariant
            from <= i <= msgs@.len(),
            rest == msgs@.skip(from as int),
            forall|k: int| from <= k < i ==> msgs@[k] != KeyMsg::OptionReleased,
        decreases msgs@.len() - i,
    {
        if msgs[i] == KeyMsg::OptionReleased {
            assert(rest[i - from] == KeyMsg::OptionReleased);
            return true;
        }
        i = i + 1;
    }
    assert forall|k: int| 0 <= k < rest.len() implies rest[k] != KeyMsg::OptionReleased by {
        assert(rest[k] == msgs@[from + k]);
    }
    false
}

impl Switcher {
    /// Takes all the messages that came in, one after the other. `raw` holds the open
    /// windows, the front one first; it counts while the overlay is not shown. Returns the
    /// windows to raise.
    pub fn take_messages(&mut self, msgs: &Vec<KeyMsg>, raw: &Vec<WinEntry>, option_down: bool) -> (r:
        Vec<WinEntry>)
        requires
            old(self).selected < usize::MAX,
        ensures
            final(self)@ == messages_taken(old(self)@, msgs@, windows_view(raw@), option_down),
            windows_view(r@) == raised(old(self)@, msgs@, windows_view(raw@), option_down),
            final(self).selected < usize::MAX,
    {
        let ghost w = windows_view(raw@);
        let ghost start = self@;
        let ghost want = messages_taken(start, msgs@, w, option_down);
        let ghost all = raised(start, msgs@, w, option_down);
        let mut out: Vec<WinEntry> = Vec::new();
        let mut i: usize = 0;
        assert(msgs@.skip(0) =~= msgs@);
        assert(windows_view(out@) + all =~= all);
        while i < msgs.len()
            invariant
                i <= msgs@.len(),
                w == windows_view(raw@),
                self.selected < usize::MAX,
                messages_taken(self@, msgs@.skip(i as int), w, option_down) == want,
                windows_view(out@) + raised(self@, msgs@.skip(i as int), w, option_down) == all,
            decreases msgs@.len() - i,
        {
            let ghost s = self@;
            let ghost count = self.windows.len();
            let ghost before = windows_view(out@);
            let ghost rest = msgs@.skip(i as int + 1);
            assert(msgs@.skip(i as int).skip(1) =~= rest);
            assert(msgs@.skip(i as int)[0] == msgs@[i as int]);
            let held = option_down || releases_from(msgs, i + 1);
            let ghost now = raised_by(s, msgs@[i as int], w, held);
            if msgs[i] == KeyMsg::TabPressed {
                let step = self.tab_pressed(copied(raw), held);
                if let TabStep::Raise(e) = step {
                    out.push(e);
                }
            } else {
                if let Some(e) = self.option_released() {
                    out.push(e);
                }
            }
            assert(windows_view(out@) =~= before + now);
            assert(self@ == message_taken(s, msgs@[i as int], w, held));
            proof {
                let n = s.windows.len() as int;
                assert(n == count);
                if n > 0 {
                    assert(0 <= (s.selected + 1) % n < n) by (nonlinear_arith)
                        requires
                            n > 0,
                    ;
                }
            }
            i = i + 1;
            assert(windows_view(out@) + raised(self@, rest, w, option_down) =~= before + (now
                + raised(self@, rest, w, option_down)));
        }
        assert(windows_view(out@) + seq![] =~= windows_view(out@));
        out
    }
}

fn copied(windows: &Vec<WinEntry>) -> (r: Vec<WinEntry>)
    ensures
        windows_view(r@) == windows_view(windows@),
        r@.len() == windows@.len(),
        forall|i: int| 0 <= i < r@.len() ==> (#[trigger] r@[i])@ == windows@[i]@,
{
    let mut r: Vec<WinEntry> = Vec::new();
    let mut i: usize = 0;
    while i < windows.len()
        invariant
            i <= windows@.len(),
            r@.len() == i,
            forall|k: int| 0 <= k < i ==> (#[trigger] r@[k])@ == windows@[k]@,
        decreases windows@.len() - i,
    {
        r.push(windows[i].clone());
        i = i + 1;
    }
    assert(windows_view(r@) =~= windows_view(windows@));
    r
}

/// How many of the messages are a press of Option+Tab.
pub open spec fn tab_count(msgs: Seq<KeyMsg>) -> nat
    decreases msgs.len(),
{
    if msgs.len() == 0 {
        0
    } else {
        tab_count(msgs.skip(1)) + if msgs[0] == KeyMsg::TabPressed {
            1nat
        } else {
            0nat
        }
    }
}

/// Each press of Tab that came in advances by one window while the overlay is shown, and
/// raises nothing.
pub proof fn law_each_tab_advances(
    s: SwitcherModel,
    msgs: Seq<KeyMsg>,
    raw: Seq<WinModel>,
    option_down: bool,
)
    requires
        s.visible,
        s.selected < s.windows.len() <= usize::MAX,
        !msgs.contains(KeyMsg::OptionReleased),
    ensures
        messages_taken(s, msgs, raw, option_down) == tabs_pressed(s, tab_count(msgs)),
        messages_taken(s, msgs, raw, option_down) == (SwitcherModel {
            selected: ((s.selected + tab_count(msgs)) % s.windows.len() as int) as usize,
            ..s
        }),
        tab_count(msgs) == msgs.len(),
        raised(s, msgs, raw, option_down) == Seq::<WinModel>::empty(),
    decreases msgs.len(),
{
    law_tab_cycles(s, tab_count(msgs));
    if msgs.len() > 0 {
        let rest = msgs.skip(1);
        assert(msgs[0] == KeyMsg::TabPressed) by {
            assert(msgs.contains(msgs[0]));
        }
        assert(!rest.contains(KeyMsg::OptionReleased)) by {
            if rest.contains(KeyMsg::OptionReleased) {
                let k = choose|k: int| 0 <= k < rest.len() && rest[k] == KeyMsg::OptionReleased;
                assert(msgs[k + 1] == KeyMsg::OptionReleased);
            }
        }
        let t = tab_stepped(s, raw, is_held(rest, option_down));
        assert((s.selected + 1) % s.windows.len() as int >= 0 && (s.selected + 1)
            % s.windows.len() as int <= s.windows.len() - 1) by (nonlinear_arith)
            requires
                s.windows.len() > 0,
        ;
        law_each_tab_advances(t, rest, raw, option_down);
        lemma_tab_first(s, t, tab_count(rest));
        assert(raised_by(s, msgs[0], raw, is_held(rest, option_down)) =~= seq![]);
    }
}

/// Pressing Tab once and then so many times is pressing it once more than that.
proof fn lemma_tab_first(s: SwitcherModel, t: SwitcherModel, n: nat)
    requires
        s.visible,
        s.selected < s.windows.len() <= usize::MAX,
        t == tab_stepped(s, seq![], true),
    ensures
        tabs_pressed(t, n) == tabs_pressed(s, n + 1),
    decreases n,
{
    if n > 0 {
        lemma_tab_first(s, t, (n - 1) as nat);
    } else {
        assert(tabs_pressed(s, 1) == tab_stepped(tabs_pressed(s, 0), seq![], true));
    }
}

/// Pressing Option+Tab some times and releasing Option raises the window that as many presses
/// lead to, counted from the one that had focus before, and hides the overlay; however many
/// of the messages come in at once.
pub proof fn law_release_raises(
    s: SwitcherModel,
    tabs: Seq<KeyMsg>,
    raw: Seq<WinModel>,
    option_down: bool,
)
    requires
        !s.visible,
        tabs.len() > 0,
        !tabs.contains(KeyMsg::OptionReleased),
        raw.len() > 0,
        raw.len() <= usize::MAX,
    ensures
        ({
            let msgs = tabs.push(KeyMsg::OptionReleased);
            let shown = display_order(raw, previous_pid(raw));
            let at = (tabs.len() - 1) % shown.len() as int;
            &&& !messages_taken(s, msgs, raw, option_down).visible
            &&& raised(s, msgs, raw, option_down) == seq![shown[at]]
        }),
{
    let msgs = tabs.push(KeyMsg::OptionReleased);
    let rest = msgs.skip(1);
    let more = tabs.skip(1);
    assert(rest =~= more.push(KeyMsg::OptionReleased));
    assert(rest[rest.len() - 1] == KeyMsg::OptionReleased);
    assert(is_held(rest, option_down));
    assert(tabs[0] == KeyMsg::TabPressed) by {
        assert(tabs.contains(tabs[0]));
    }
    assert(!more.contains(KeyMsg::OptionReleased)) by {
        if more.contains(KeyMsg::OptionReleased) {
            let k = choose|k: int| 0 <= k < more.len() && more[k] == KeyMsg::OptionReleased;
            assert(tabs[k + 1] == KeyMsg::OptionReleased);
        }
    }
    law_nothing_filtered(raw, previous_pid(raw));
    let t = tab_stepped(s, raw, true);
    lemma_release_last(t, more, raw, option_down);
    assert(raised_by(s, msgs[0], raw, true) + raised(t, rest, raw, option_down) =~= raised(
        t,
        rest,
        raw,
        option_down,
    ));
}

/// Releasing Option behind some presses of Tab raises the window that they lead to.
proof fn lemma_release_last(
    s: SwitcherModel,
    tabs: Seq<KeyMsg>,
    raw: Seq<WinModel>,
    option_down: bool,
)
    requires
        s.visible,
        s.selected < s.windows.len() <= usize::MAX,
        !tabs.contains(KeyMsg::OptionReleased),
    ensures
        ({
            let msgs = tabs.push(KeyMsg::OptionReleased);
            let at = (s.selected + tabs.len()) % s.windows.len() as int;
            &&& !messages_taken(s, msgs, raw, option_down).visible
            &&& raised(s, msgs, raw, option_down) == seq![s.windows[at]]
        }),
    decreases tabs.len(),
{
    let msgs = tabs.push(KeyMsg::OptionReleased);
    let rest = msgs.skip(1);
    let len = s.windows.len() as int;
    let held = is_held(rest, option_down);
    if tabs.len() == 0 {
        let t = message_taken(s, msgs[0], raw, held);
        assert(rest =~= seq![]);
        assert(messages_taken(t, rest, raw, option_down) == t);
        assert(raised(t, rest, raw, option_down) == Seq::<WinModel>::empty());
        assert((s.selected as int) % len == s.selected) by (nonlinear_arith)
            requires
                0 <= s.selected as int,
                (s.selected as int) < len,
        ;
        assert(raised(s, msgs, raw, option_down) =~= seq![s.windows[s.selected as int]]);
    } else {
        let more = tabs.skip(1);
        assert(rest =~= more.push(KeyMsg::OptionReleased));
        assert(tabs[0] == KeyMsg::TabPressed) by {
            assert(tabs.contains(tabs[0]));
        }
        assert(!more.contains(KeyMsg::OptionReleased)) by {
            if more.contains(KeyMsg::OptionReleased) {
                let k = choose|k: int| 0 <= k < more.len() && more[k] == KeyMsg::OptionReleased;
                assert(tabs[k + 1] == KeyMsg::OptionReleased);
            }
        }
        let t = tab_stepped(s, raw, held);
        let next = (s.selected + 1) % len;
        assert(0 <= next < len) by (nonlinear_arith)
            requires
                len > 0,
                next == (s.selected + 1) % len,
        ;
        lemma_release_last(t, more, raw, option_down);
        assert((next + more.len()) % len == (s.selected + tabs.len()) % len) by {
            vstd::arithmetic::div_mod::lemma_add_mod_noop(
                s.selected as int + 1,
                more.len() as int,
                len,
            );
            vstd::arithmetic::div_mod::lemma_add_mod_noop(next, more.len() as int, len);
            vstd::arithmetic::div_mod::lemma_mod_twice(s.selected as int + 1, len);
        }
        assert(raised_by(s, msgs[0], raw, held) + raised(t, rest, raw, option_down) =~= raised(
            t,
            rest,
            raw,
            option_down,
        ));
    }
}

/// Pressing Option+Tab once and releasing Option goes back to the window that had focus
/// before.
pub proof fn law_quick_swap(s: SwitcherModel, raw: Seq<WinModel>)
    requires
        !s.visible,
        raw.len() >= 2,
        raw[1].pid > 0,
    ensures
        ({
            let t = tab_stepped(s, raw, true);
            t.visible && t.selected < t.windows.len() && t.windows[t.selected as int] == raw[1]
        }),
{
    law_previous_window_first(raw);
    law_nothing_filtered(raw, raw[1].pid);
}

/// The state after pressing Option+Tab so many times while the overlay is shown.
pub open spec fn tabs_pressed(s: SwitcherModel, n: nat) -> SwitcherModel
    decreases n,
{
    if n == 0 {
        s
    } else {
        tab_stepped(tabs_pressed(s, (n - 1) as nat), seq![], true)
    }
}

/// Pressing Tab again and again cycles through all windows and comes back.
pub proof fn law_tab_cycles(s: SwitcherModel, n: nat)
    requires
        s.visible,
        s.selected < s.windows.len() <= usize::MAX,
    ensures
        tabs_pressed(s, n) == (SwitcherModel {
            selected: ((s.selected + n) % s.windows.len() as int) as usize,
            ..s
        }),
        tabs_pressed(s, s.windows.len()) == s,
{
    lemma_tab_counts(s, n);
    lemma_tab_counts(s, s.windows.len());
    let len = s.windows.len() as int;
    assert((s.selected + len) % len == s.selected) by (nonlinear_arith)
        requires
            0 <= s.selected as int,
            (s.selected as int) < len,
    ;
}

/// Each press of Tab moves on by one window, around the end.
proof fn lemma_tab_counts(s: SwitcherModel, n: nat)
    requires
        s.visible,
        s.selected < s.windows.len() <= usize::MAX,
    ensures
        tabs_pressed(s, n) == (SwitcherModel {
            selected: ((s.selected + n) % s.windows.len() as int) as usize,
            ..s
        }),
    decreases n,
{
    let len = s.windows.len() as int;
    if n == 0 {
        assert((s.selected as int) % len == s.selected) by (nonlinear_arith)
            requires
                0 <= s.selected as int,
                (s.selected as int) < len,
        ;
    } else {
        lemma_tab_counts(s, (n - 1) as nat);
        let a = s.selected + n - 1;
        assert(0 <= a % len < len) by (nonlinear_arith)
            requires
                len > 0,
        ;
        assert((a % len + 1) % len == (a + 1) % len) by {
            vstd::arithmetic::div_mod::lemma_add_mod_noop(a, 1, len);
            vstd::arithmetic::div_mod::lemma_add_mod_noop(a % len, 1, len);
            vstd::arithmetic::div_mod::lemma_mod_twice(a, len);
        }
    }
}

// ── Laws ──────────────────────────────────────────────────────────────────────

/// The windows that are shown are the ordinary ones, on layer 0, of other processes that have
/// an id and a name, all of them and front to back; each with its process, its application and
/// its title, an empty one where it has none.
pub proof fn law_shown_windows(raw: Seq<RawWindow>, our_pid: i32)
    ensures
        shown_windows(raw, our_pid) == raw.filter(
            |w: RawWindow|
                w.layer == Some(0i32) && (w.pid matches Some(p) && p != 0 && p != our_pid) && (
                w.app_name matches Some(n) && n@.len() > 0),
        ).map_values(|w: RawWindow| entry_of(w)),
        forall|w: RawWindow|
            #![trigger entry_of(w)]
            (w.pid matches Some(p) ==> entry_of(w).pid == p) && (w.app_name matches Some(n) ==> {
                entry_of(w).app_name == n@
            }) && (w.title matches Some(t) ==> entry_of(w).win_title == t@) && (w.title is None
                ==> entry_of(w).win_title.len() == 0) && (w.wid matches Some(id) ==> 0 <= id
                ==> entry_of(w).wid == id),
    decreases raw.len(),
{
    reveal(Seq::filter);
    let keep = |w: RawWindow|
        w.layer == Some(0i32) && (w.pid matches Some(p) && p != 0 && p != our_pid) && (
        w.app_name matches Some(n) && n@.len() > 0);
    let entry = |w: RawWindow| entry_of(w);
    if raw.len() > 0 {
        let init = raw.drop_last();
        law_shown_windows(init, our_pid);
        let f = init.filter(keep);
        assert(f.push(raw.last()).map_values(entry) =~= f.map_values(entry).push(
            entry(raw.last()),
        ));
        assert(keep(raw.last()) == is_shown(raw.last(), our_pid));
    } else {
        assert(shown_windows(raw, our_pid) =~= raw.filter(keep).map_values(entry));
    }
}

/// The counts are of the windows of the process, of those of it without a title, and of those
/// of the application.
pub proof fn law_window_counts(w: Seq<WinModel>, pid: i32, name: Seq<char>)
    ensures
        process_count(w, pid) == w.filter(|e: WinModel| e.pid == pid).len(),
        untitled_count(w, pid) == w.filter(
            |e: WinModel| e.pid == pid && e.win_title.len() == 0,
        ).len(),
        app_count(w, name) == w.filter(|e: WinModel| e.app_name == name).len(),
    decreases w.len(),
{
    reveal(Seq::filter);
    if w.len() > 0 {
        law_window_counts(w.drop_last(), pid, name);
    }
}

/// A window with a title keeps it. Of the windows of a process without one, the first takes
/// the first title that was asked for, the next the next, as long as there are any.
pub proof fn law_titles_filled(w: Seq<WinModel>, all: Seq<ProcessTitles>, i: int, p: int)
    requires
        0 <= i < w.len(),
        0 <= p < all.len(),
        all[p].pid == w[i].pid,
        forall|q: int| 0 <= q < p ==> (#[trigger] all[q]).pid != w[i].pid,
    ensures
        with_titles(w, all).len() == w.len(),
        w[i].win_title.len() > 0 ==> with_titles(w, all)[i] == w[i],
        ({
            let rank = w.take(i).filter(
                |e: WinModel| e.pid == w[i].pid && e.win_title.len() == 0,
            ).len();
            let titles = all[p].titles@;
            w[i].win_title.len() == 0 ==> with_titles(w, all)[i] == if rank < titles.len() {
                WinModel { win_title: titles[rank as int]@, ..w[i] }
            } else {
                w[i]
            }
        }),
{
    let pid = w[i].pid;
    law_window_counts(w.take(i), pid, w[i].app_name);
    assert forall|q: int| 0 <= q < p implies !(#[trigger] has_pid(all, pid)(q)) by {
        assert(all[q].pid != pid);
    }
    lemma_first_where(all.len() as int, has_pid(all, pid), p);
    let own = |e: WinModel| e.pid == w[i].pid && e.win_title.len() == 0;
    let same = |e: WinModel| e.pid == pid && e.win_title.len() == 0;
    assert(own =~= same);
}

/// A title goes only where it is the name of the application and the process has no other
/// window; nothing else of a window ever changes.
pub proof fn law_titles_distinguish(w: Seq<WinModel>, i: int)
    requires
        0 <= i < w.len(),
    ensures
        without_redundant(w).len() == w.len(),
        ({
            let alone = w.filter(|e: WinModel| e.pid == w[i].pid).len() == 1;
            without_redundant(w)[i] == if alone && w[i].win_title == w[i].app_name {
                WinModel { win_title: Seq::empty(), ..w[i] }
            } else {
                w[i]
            }
        }),
{
    let pid = w[i].pid;
    law_window_counts(w, pid, w[i].app_name);
    let own = |e: WinModel| e.pid == w[i].pid;
    let same = |e: WinModel| e.pid == pid;
    assert(own =~= same);
}

/// A rotated list goes around: the window at each position is the one so many places on.
pub proof fn law_rotated(w: Seq<WinModel>, i: int, k: int)
    requires
        0 <= i < w.len(),
        0 <= k < w.len(),
    ensures
        rotated(w, i).len() == w.len(),
        rotated(w, i)[k] == w[(i + k) % w.len() as int],
{
    let n = w.len() as int;
    if i + k < n {
        assert((i + k) % n == i + k) by (nonlinear_arith)
            requires
                0 <= i + k < n,
        ;
    } else {
        assert((i + k) % n == i + k - n) by (nonlinear_arith)
            requires
                n <= i + k < 2 * n,
        ;
    }
}

/// The list starts with the nearest window behind the front one that is of the process that
/// had focus before; where there is none, with the front one.
pub proof fn law_display_order(w: Seq<WinModel>, prev_pid: i32, i: int)
    requires
        prev_pid > 0,
        0 < i <= w.len(),
        i < w.len() ==> w[i].pid == prev_pid,
        forall|k: int| 0 < k < i ==> (#[trigger] w[k]).pid != prev_pid,
    ensures
        i < w.len() ==> display_order(w, prev_pid) == rotated(w, i),
        i == w.len() ==> display_order(w, prev_pid) == w,
{
    let p = is_behind(w, prev_pid);
    assert forall|k: int| 0 <= k < i implies !(#[trigger] p(k)) by {
        if k > 0 {
            assert(w[k].pid != prev_pid);
        }
    }
    lemma_first_where(w.len() as int, p, i);
}

/// A text that fits is shown whole; of a longer one, its start and an ellipsis.
pub proof fn law_truncated(s: Seq<char>, n: int)
    requires
        n > 0,
    ensures
        s.len() <= n ==> truncated(s, n) == s,
        s.len() > n ==> truncated(s, n) == s.subrange(0, n - 1) + seq!['\u{2026}'],
{
    if s.len() > n {
        assert(truncated(s, n) =~= s.subrange(0, n - 1) + seq!['\u{2026}']);
    }
}

/// The window to raise is the first with the identifier; only where none has it, the first
/// with the title, which has to say something.
pub proof fn law_raise_target(w: Seq<AxWindow>, wid: u32, title: Seq<char>, i: int)
    requires
        0 <= i < w.len(),
    ensures
        w[i].id == Some(wid as i64) && (forall|k: int|
            0 <= k < i ==> (#[trigger] w[k]).id is None || w[k].id->0 as u32 != wid) ==> target_of(
            w,
            wid,
            title,
        ) == Some(i),
        (forall|k: int|
            0 <= k < w.len() ==> (#[trigger] w[k]).id is None || w[k].id->0 as u32 != wid) && (
        w[i].title matches Some(t) && t@ == title) && title.len() > 0 && (forall|k: int|
            0 <= k < i ==> opt_text((#[trigger] w[k]).title) != Some(title)) ==> target_of(
            w,
            wid,
            title,
        ) == Some(i),
        (forall|k: int|
            0 <= k < w.len() ==> (#[trigger] w[k]).id is None || w[k].id->0 as u32 != wid)
            && title.len() == 0 ==> target_of(w, wid, title) is None,
{
    let n = w.len() as int;
    if w[i].id == Some(wid as i64) && (forall|k: int|
        0 <= k < i ==> (#[trigger] w[k]).id is None || w[k].id->0 as u32 != wid) {
        assert forall|k: int| 0 <= k < i implies !(#[trigger] has_wid(w, wid)(k)) by {
            assert(w[k].id is None || w[k].id->0 as u32 != wid);
        }
        assert(wid as i64 as u32 == wid);
        lemma_first_where(n, has_wid(w, wid), i);
    }
    if forall|k: int| 0 <= k < w.len() ==> (#[trigger] w[k]).id is None || w[k].id->0 as u32 != wid {
        assert forall|k: int| 0 <= k < n implies !(#[trigger] has_wid(w, wid)(k)) by {
            assert(w[k].id is None || w[k].id->0 as u32 != wid);
        }
        lemma_first_where(n, has_wid(w, wid), n);
        if (w[i].title matches Some(t) && t@ == title) && (forall|k: int|
            0 <= k < i ==> opt_text((#[trigger] w[k]).title) != Some(title)) {
            assert forall|k: int| 0 <= k < i implies !(#[trigger] has_title(w, title)(k)) by {
                assert(opt_text(w[k].title) != Some(title));
            }
            lemma_first_where(n, has_title(w, title), i);
        }
    }
}

/// Where Option was released before the overlay could come up, the window that had focus
/// before is raised at once, and no overlay comes up.
pub proof fn law_raise_without_overlay(s: SwitcherModel, raw: Seq<WinModel>)
    requires
        !s.visible,
        raw.len() >= 2,
        raw[1].pid > 0,
    ensures
        raised(s, seq![KeyMsg::TabPressed], raw, false) == seq![raw[1]],
        !messages_taken(s, seq![KeyMsg::TabPressed], raw, false).visible,
{
    let msgs = seq![KeyMsg::TabPressed];
    let rest = msgs.skip(1);
    assert(rest =~= Seq::<KeyMsg>::empty());
    let t = message_taken(s, msgs[0], raw, false);
    assert(!is_held(rest, false));
    assert(raised(t, rest, raw, false) == Seq::<WinModel>::empty());
    assert(messages_taken(t, rest, raw, false) == t);
    assert(raised(s, msgs, raw, false) =~= seq![raw[1]]);
}

/// Launcher and switcher show the same icon for browsers, terminals and editors.
pub proof fn law_icons_agree(n: Seq<char>)
    requires
        occurs(n, "safari"@) || occurs(n, "firefox"@) || occurs(n, "chrome"@) || occurs(
            n,
            "chromium"@,
        ) || occurs(n, "terminal"@) || occurs(n, "kitty"@) || occurs(n, "alacritty"@) || occurs(
            n,
            "code"@,
        ) || occurs(n, "cursor"@) || occurs(n, "xcode"@) || occurs(n, "sublime"@),
    ensures
        window_glyph(n) == crate::glyphs::app_glyph(n),
{
}

} // verus!

//! One frame of the window: whether it stays open, and what keys and clicks do.

use vstd::prelude::*;

use crate::clipboard::{clips, ClipModel, ClipboardEntry};
use crate::config::{c, Config, Rgb};
use crate::glyphs::{
    glyph_color_for_item, glyph_for_item, item_color, item_glyph, theme_glyph, theme_glyph_for,
};
use crate::ipc::{picked_theme, theme_on_line, Slots, SlotsModel};
use crate::launcher::{ItemModel, LaunchItem};
use crate::session::{
    dismissed, executed, hidden, input_opened, is_shell_query, opt_action, previewed,
    scroll_reset, selected_input, takes_input, theme_reloaded, themes_entered, toggle_plan,
    toggle_slots, toggled, Action, ActionModel, TabData, TogglePlan,
};
use crate::text::{
    chars_of, concat, from_utf8_lossy, lines, opt_text, same, split_lines, texts, utf8_lossy,
};
use crate::ui::{
    app_names_fit, clips_synced, input_refiltered, mode_after, next_mode, refiltered, FileTime,
    Mode, RofiApp, UiModel,
};

verus! {

// ── Staying open ──────────────────────────────────────────────────────────────

/// How many frames may pass on macOS before a window without focus is hidden.
pub const FOCUS_GRACE_MACOS: u32 = 5;

/// How many frames may pass elsewhere before a window without focus is hidden: on Wayland
/// the focus arrives later.
pub const FOCUS_GRACE: u32 = 100;

/// What the start of a frame is told.
#[derive(PartialEq, Eq, Structural, Clone, Copy, Debug)]
pub struct FrameStart {
    /// The window has keyboard focus.
    pub focused: bool,
    /// Escape was pressed, or Cmd+R.
    pub escape: bool,
    /// How many frames may pass before a window without focus is hidden.
    pub grace: u32,
}

/// How a frame goes on.
#[derive(PartialEq, Eq, Structural, Clone, Copy, Debug)]
pub enum FrameGate {
    /// The window is hidden: there is nothing to draw.
    Idle,
    /// The window was just hidden.
    Closed,
    /// The window is drawn.
    Open,
}

/// The state with one more frame counted, and focus noted.
pub open spec fn frame_counted(s: UiModel, focused: bool) -> UiModel {
    UiModel {
        frame_count: if s.frame_count < u32::MAX {
            (s.frame_count + 1) as u32
        } else {
            u32::MAX
        },
        had_keyboard_focus_ever: s.had_keyboard_focus_ever || focused,
        ..s
    }
}

/// The window is hidden at the start of a frame: because a row was chosen, because focus
/// was lost, or on Escape. Focus cannot be lost before it was there, nor in the first
/// frames.
pub open spec fn closes(s: UiModel, f: FrameStart) -> bool {
    let n = frame_counted(s, f.focused);
    ||| s.should_close
    ||| n.had_keyboard_focus_ever && n.frame_count > f.grace && !f.focused
    ||| f.escape
}

/// The state after the start of a frame.
pub open spec fn frame_begun(s: UiModel, f: FrameStart) -> UiModel {
    if !s.visible {
        s
    } else if s.should_close {
        hidden(s)
    } else if closes(s, f) {
        hidden(frame_counted(s, f.focused))
    } else {
        frame_counted(s, f.focused)
    }
}

/// How a frame goes on.
pub open spec fn frame_gate(s: UiModel, f: FrameStart) -> FrameGate {
    if !s.visible {
        FrameGate::Idle
    } else if closes(s, f) {
        FrameGate::Closed
    } else {
        FrameGate::Open
    }
}

impl RofiApp {
    /// Starts a frame.
    pub fn begin_frame(&mut self, slots: &mut Slots, f: FrameStart) -> (r: FrameGate)
        requires
            old(self).wf(),
        ensures
            r == frame_gate(old(self)@, f),
            final(self)@ == frame_begun(old(self)@, f),
            final(slots)@ == if r == FrameGate::Closed {
                dismissed(old(self)@, old(slots)@)
            } else {
                old(slots)@
            },
            final(self).wf(),
    {
        if !self.visible {
            return FrameGate::Idle;
        }
        if self.should_close {
            self.dismiss(slots);
            return FrameGate::Closed;
        }
        self.frame_count = self.frame_count.saturating_add(1);
        if f.focused {
            self.had_keyboard_focus_ever = true;
        }
        assert(self@ =~= frame_counted(old(self)@, f.focused));
        if self.had_keyboard_focus_ever && self.frame_count > f.grace && !f.focused {
            self.dismiss(slots);
            return FrameGate::Closed;
        }
        if f.escape {
            self.dismiss(slots);
            return FrameGate::Closed;
        }
        FrameGate::Open
    }

    /// Keeps the Clipboard tab in step with the history while it is shown.
    pub fn refresh_clipboard(&mut self, history: &Vec<ClipboardEntry>)
        requires
            old(self).wf(),
        ensures
            final(self)@ == if old(self)@.mode == Mode::Clipboard {
                refiltered(clips_synced(old(self)@, clips(history@)), false)
            } else {
                old(self)@
            },
            final(self).wf(),
    {
        if self.mode == Mode::Clipboard {
            self.sync_clipboard(history);
            self.refilter(false);
        }
    }
}

// ── Start of an update ────────────────────────────────────────────────────────

/// What an update of the window starts with.
pub struct UpdateInput {
    /// When the configuration file was last modified.
    pub config_mtime: Option<FileTime>,
    /// What it holds.
    pub config: Config,
    /// The window was asked to toggle.
    pub toggled: bool,
    /// What was gathered for the tab that a toggle opens.
    pub data: TabData,
    pub start: FrameStart,
    /// The clipboard history.
    pub history: Vec<ClipboardEntry>,
}

/// What the start of an update did.
#[derive(PartialEq, Eq, Structural, Clone, Copy, Debug)]
pub struct UpdateOutcome {
    /// What the toggle did, where there was one.
    pub toggle: Option<TogglePlan>,
    /// Items that a client sent came up.
    pub input: bool,
    /// How the frame goes on.
    pub gate: FrameGate,
}

/// The state and the shared state after the toggle of an update, where there is one.
pub open spec fn update_toggled(s: UiModel, slots: SlotsModel, i: UpdateInput) -> (
    UiModel,
    SlotsModel,
) {
    let a = theme_reloaded(s, i.config_mtime, i.config.active());
    if i.toggled {
        (toggled(a, slots, i.data@), toggle_slots(a, slots))
    } else {
        (a, slots)
    }
}

/// The state and the shared state after items that a client sent came up, where there are
/// any.
pub open spec fn update_polled(s: UiModel, slots: SlotsModel) -> (UiModel, SlotsModel) {
    if takes_input(s, slots) {
        (
            input_opened(
                UiModel { drill_target: None, ..scroll_reset(s) },
                slots.pending_input->0,
                slots.pending_input_is_themes,
            ),
            SlotsModel { pending_input: None, pending_input_is_themes: false, ..slots },
        )
    } else {
        (s, slots)
    }
}

/// The state, the shared state and how the frame goes on after the start of an update: the
/// configuration is looked at, then at most one toggle is done, then items that a client
/// sent are taken up, then the frame starts, and the clipboard is kept in step.
pub open spec fn update_begun(s: UiModel, slots: SlotsModel, i: UpdateInput) -> (
    UiModel,
    SlotsModel,
    FrameGate,
) {
    let a = update_toggled(s, slots, i);
    let b = update_polled(a.0, a.1);
    let gate = frame_gate(b.0, i.start);
    let d = frame_begun(b.0, i.start);
    (
        if gate == FrameGate::Open && d.mode == Mode::Clipboard {
            refiltered(clips_synced(d, clips(i.history@)), false)
        } else {
            d
        },
        if gate == FrameGate::Closed {
            dismissed(b.0, b.1)
        } else {
            b.1
        },
        gate,
    )
}

impl RofiApp {
    /// Starts an update of the window.
    pub fn begin_update(&mut self, slots: &mut Slots, input: UpdateInput) -> (r: UpdateOutcome)
        requires
            old(self).wf(),
            app_names_fit(input.data@.apps),
        ensures
            ({
                let e = update_begun(old(self)@, old(slots)@, input);
                let a = update_toggled(old(self)@, old(slots)@, input);
                let t = theme_reloaded(old(self)@, input.config_mtime, input.config.active());
                &&& final(self)@ == e.0
                &&& final(slots)@ == e.1
                &&& r.gate == e.2
                &&& r.toggle == if input.toggled {
                    Some(toggle_plan(t, old(slots)@))
                } else {
                    None
                }
                &&& r.input == takes_input(a.0, a.1)
            }),
            final(self).wf(),
    {
        self.maybe_reload_theme(input.config_mtime, &input.config);
        let toggle = if input.toggled {
            Some(self.toggle(slots, input.data))
        } else {
            None
        };
        let taken = self.poll_input(slots);
        let gate = self.begin_frame(slots, input.start);
        if gate == FrameGate::Open {
            self.refresh_clipboard(&input.history);
        }
        UpdateOutcome { toggle, input: taken, gate }
    }
}

// ── Control keys ──────────────────────────────────────────────────────────────

/// A key that means something together with Ctrl.
#[derive(PartialEq, Eq, Structural, Clone, Copy, Debug)]
pub enum ControlKey {
    J,
    K,
    H,
    L,
    Other,
}

/// A key event.
#[derive(PartialEq, Eq, Structural, Clone, Copy, Debug)]
pub struct KeyEvent {
    pub key: ControlKey,
    pub pressed: bool,
    pub ctrl: bool,
}

/// The control keys that were pressed in a frame.
#[derive(PartialEq, Eq, Structural, Clone, Copy, Debug)]
pub struct ControlKeys {
    /// How often Ctrl+J was pressed, repeats included.
    pub j: usize,
    /// How often Ctrl+K was pressed, repeats included.
    pub k: usize,
    pub h: bool,
    pub l: bool,
}

/// The event is Ctrl and the given key.
pub open spec fn is_control(e: KeyEvent, key: ControlKey) -> bool {
    e.pressed && e.ctrl && e.key == key
}

/// How often the key was pressed with Ctrl.
pub open spec fn control_count(events: Seq<KeyEvent>, key: ControlKey) -> nat
    decreases events.len(),
{
    if events.len() == 0 {
        0
    } else {
        control_count(events.drop_last(), key) + if is_control(events.last(), key) {
            1nat
        } else {
            0nat
        }
    }
}

/// The event is taken before the search bar sees it.
pub open spec fn is_consumed(e: KeyEvent) -> bool {
    e.pressed && e.ctrl && e.key != ControlKey::Other
}

/// Whether the event is to be taken before the search bar sees it.
pub fn consumes(e: KeyEvent) -> (r: bool)
    ensures
        r == is_consumed(e),
{
    e.pressed && e.ctrl && e.key != ControlKey::Other
}

proof fn lemma_control_count(events: Seq<KeyEvent>, key: ControlKey)
    ensures
        control_count(events, key) <= events.len(),
    decreases events.len(),
{
    if events.len() > 0 {
        lemma_control_count(events.drop_last(), key);
    }
}

/// Counts the control keys among the key events of a frame.
pub fn control_keys(events: &Vec<KeyEvent>) -> (r: ControlKeys)
    ensures
        r.j == control_count(events@, ControlKey::J),
        r.k == control_count(events@, ControlKey::K),
        r.h == (control_count(events@, ControlKey::H) > 0),
        r.l == (control_count(events@, ControlKey::L) > 0),
{
    let mut r = ControlKeys { j: 0, k: 0, h: false, l: false };
    let mut i: usize = 0;
    while i < events.len()
        invariant
            i <= events@.len(),
            r.j <= i,
            r.k <= i,
            r.j == control_count(events@.take(i as int), ControlKey::J),
            r.k == control_count(events@.take(i as int), ControlKey::K),
            r.h == (control_count(events@.take(i as int), ControlKey::H) > 0),
            r.l == (control_count(events@.take(i as int), ControlKey::L) > 0),
        decreases events@.len() - i,
    {
        let e = events[i];
        assert(events@.take(i as int + 1).drop_last() =~= events@.take(i as int));
        assert(events@.take(i as int + 1).last() == e);
        if e.pressed && e.ctrl {
            if e.key == ControlKey::J {
                r.j = r.j + 1;
            } else if e.key == ControlKey::K {
                r.k = r.k + 1;
            } else if e.key == ControlKey::H {
                r.h = true;
            } else if e.key == ControlKey::L {
                r.l = true;
            }
        }
        i = i + 1;
    }
    assert(events@.take(i as int) =~= events@);
    r
}

// ── Tabs ──────────────────────────────────────────────────────────────────────

/// The state after a tab was switched to within a session.
pub open spec fn tab_switched(s: UiModel, mode: Mode, history: Seq<ClipModel>) -> UiModel {
    let a = UiModel { mode, query: Seq::empty(), drill_target: None, ..scroll_reset(s) };
    refiltered(
        if mode == Mode::Clipboard {
            clips_synced(a, history)
        } else {
            a
        },
        true,
    )
}

/// The state after a tab was clicked.
pub open spec fn tab_clicked(
    s: UiModel,
    mode: Mode,
    history: Seq<ClipModel>,
    active: Seq<char>,
) -> UiModel {
    if mode == Mode::Input {
        s
    } else if mode == Mode::Themes {
        themes_entered(s, active)
    } else {
        tab_switched(s, mode, history)
    }
}

/// The state after the Tab key was pressed.
pub open spec fn tab_pressed(s: UiModel, history: Seq<ClipModel>, active: Seq<char>) -> UiModel {
    let next = next_mode(s.mode);
    if s.mode == Mode::Input {
        s
    } else if next == Mode::Themes {
        themes_entered(s, active)
    } else {
        tab_switched(
            UiModel { zoxide_results: Seq::empty(), zoxide_last_query: Seq::empty(), ..s },
            next,
            history,
        )
    }
}

impl RofiApp {
    fn switch_tab(&mut self, mode: Mode, history: &Vec<ClipboardEntry>)
        requires
            old(self).wf(),
        ensures
            final(self)@ == tab_switched(old(self)@, mode, clips(history@)),
            final(self).wf(),
    {
        self.request_scroll_reset();
        self.mode = mode;
        self.query = String::new();
        self.drill_target = None;
        if mode == Mode::Clipboard {
            self.sync_clipboard(history);
        }
        self.refilter(true);
        assert(self@ =~= tab_switched(old(self)@, mode, clips(history@)));
    }

    /// Switches to the tab that was clicked. `active` is the theme in the configuration.
    pub fn click_tab(&mut self, mode: Mode, history: &Vec<ClipboardEntry>, active: &str)
        requires
            old(self).wf(),
        ensures
            final(self)@ == tab_clicked(old(self)@, mode, clips(history@), active@),
            final(self).wf(),
    {
        if mode == Mode::Input {
        } else if mode == Mode::Themes {
            self.enter_themes_mode(active);
        } else {
            self.switch_tab(mode, history);
        }
    }

    /// Cycles to the next tab. `active` is the theme in the configuration.
    pub fn press_tab(&mut self, history: &Vec<ClipboardEntry>, active: &str)
        requires
            old(self).wf(),
        ensures
            final(self)@ == tab_pressed(old(self)@, clips(history@), active@),
            final(self).wf(),
    {
        if self.mode == Mode::Input {
            return;
        }
        let next = mode_after(self.mode);
        if next == Mode::Themes {
            self.enter_themes_mode(active);
        } else {
            self.zoxide_results = Vec::new();
            self.zoxide_last_query = String::new();
            assert(texts(self.zoxide_results@) =~= Seq::empty());
            let ghost cleared = UiModel {
                zoxide_results: Seq::empty(),
                zoxide_last_query: Seq::empty(),
                ..old(self)@
            };
            assert(self@ =~= cleared);
            self.switch_tab(next, history);
        }
    }
}

/// Every switch of the tab starts with an empty query, the first row selected, but for the
/// theme picker, and fresh scroll positions, and releases the drilled directory.
pub proof fn law_tab_switch_is_fresh(
    s: UiModel,
    mode: Mode,
    history: Seq<ClipModel>,
    active: Seq<char>,
)
    requires
        mode != Mode::Input,
        s.mode != Mode::Input,
    ensures
        ({
            let t = tab_clicked(s, mode, history, active);
            &&& t.mode == mode && t.query.len() == 0
            &&& mode != Mode::Themes ==> t.selected == 0
            &&& t.scroll_generation == s.scroll_generation.wrapping_add(1)
            &&& t.drill_target is None
        }),
        ({
            let t = tab_pressed(s, history, active);
            &&& t.mode == next_mode(s.mode) && t.query.len() == 0
            &&& t.mode != Mode::Themes ==> t.selected == 0
            &&& t.scroll_generation == s.scroll_generation.wrapping_add(1)
            &&& t.drill_target is None
        }),
{
}

// ── Moving the selection ──────────────────────────────────────────────────────

/// A selection in a list after it moved down some rows, but not behind the last.
pub open spec fn moved_down(selected: usize, len: nat, down: usize) -> usize {
    if down > 0 && len > 0 {
        let to = if selected + down > len - 1 {
            len - 1
        } else {
            selected + down
        };
        if to > usize::MAX {
            usize::MAX
        } else {
            to as usize
        }
    } else {
        selected
    }
}

/// A selection in a list after it moved up some rows, but not before the first.
pub open spec fn moved_up(selected: usize, len: nat, up: usize) -> usize {
    if up > 0 && len > 0 {
        if selected > up {
            (selected - up) as usize
        } else {
            0
        }
    } else {
        selected
    }
}

/// Moves a selection down.
pub fn move_down(selected: usize, len: u128, down: usize) -> (r: usize)
    ensures
        r == moved_down(selected, len as nat, down),
{
    if down > 0 && len > 0 {
        let sum: u128 = selected as u128 + down as u128;
        let to: u128 = if sum > len - 1 {
            len - 1
        } else {
            sum
        };
        if to > usize::MAX as u128 {
            usize::MAX
        } else {
            to as usize
        }
    } else {
        selected
    }
}

/// Moves a selection up.
pub fn move_up(selected: usize, len: u128, up: usize) -> (r: usize)
    ensures
        r == moved_up(selected, len as nat, up),
{
    if up > 0 && len > 0 {
        if selected > up {
            selected - up
        } else {
            0
        }
    } else {
        selected
    }
}

/// A selection that was moved stays within its list.
pub proof fn law_selection_stays(selected: usize, len: nat, down: usize, up: usize)
    requires
        selected < len <= usize::MAX,
    ensures
        moved_down(selected, len, down) < len,
        moved_up(selected, len, up) < len,
        moved_up(moved_down(selected, len, down), len, up) < len,
{
}

/// Moving down and up again by as many rows comes back, where the list is long enough.
pub proof fn law_down_and_up(selected: usize, len: nat, n: usize)
    requires
        selected + n < len <= usize::MAX,
    ensures
        moved_up(moved_down(selected, len, n), len, n) == selected,
{
}

/// The number of rows of the list, but for the file explorer.
pub open spec fn row_count(s: UiModel) -> nat {
    if s.mode == Mode::Input || s.mode == Mode::Themes {
        s.input_filtered.len()
    } else {
        s.filtered.len() + if is_shell_query(s) {
            1nat
        } else {
            0nat
        }
    }
}

/// The state after the selection moved, but for the file explorer. In the theme picker
/// each move is previewed.
pub open spec fn navigated(s: UiModel, down: usize, up: usize) -> UiModel {
    let n = row_count(s);
    if s.mode == Mode::Files {
        s
    } else {
        let a = UiModel { selected: moved_down(s.selected, n, down), ..s };
        let b = if s.mode == Mode::Themes && down > 0 && n > 0 {
            previewed(a)
        } else {
            a
        };
        let d = UiModel { selected: moved_up(b.selected, n, up), ..b };
        if s.mode == Mode::Themes && up > 0 && n > 0 {
            previewed(d)
        } else {
            d
        }
    }
}

/// The keys that were pressed in a frame.
#[derive(PartialEq, Eq, Structural, Clone, Copy, Debug)]
pub struct FrameKeys {
    pub control: ControlKeys,
    pub arrow_down: bool,
    pub arrow_up: bool,
    pub tab: bool,
    pub enter: bool,
}

/// How many rows the selection moves down: as often as Ctrl+J was pressed, or one for the
/// arrow key.
pub open spec fn down_count(keys: FrameKeys) -> usize {
    if keys.control.j == 0 && keys.arrow_down {
        1
    } else {
        keys.control.j
    }
}

/// How many rows the selection moves up: as often as Ctrl+K was pressed, or one for the
/// arrow key.
pub open spec fn up_count(keys: FrameKeys) -> usize {
    if keys.control.k == 0 && keys.arrow_up {
        1
    } else {
        keys.control.k
    }
}

impl FrameKeys {
    /// How many rows the selection moves down.
    pub fn down(&self) -> (r: usize)
        ensures
            r == down_count(*self),
    {
        if self.control.j == 0 && self.arrow_down {
            1
        } else {
            self.control.j
        }
    }

    /// How many rows the selection moves up.
    pub fn up(&self) -> (r: usize)
        ensures
            r == up_count(*self),
    {
        if self.control.k == 0 && self.arrow_up {
            1
        } else {
            self.control.k
        }
    }
}

impl RofiApp {
    /// Moves the selection, but for the file explorer.
    pub fn navigate(&mut self, down: usize, up: usize)
        requires
            old(self).wf(),
        ensures
            final(self)@ == navigated(old(self)@, down, up),
            final(self).wf(),
    {
        if self.mode == Mode::Files {
            return;
        }
        let input = self.mode == Mode::Input || self.mode == Mode::Themes;
        let len: u128 = if input {
            self.input_filtered.len() as u128
        } else if self.shows_shell_row() {
            self.filtered.len() as u128 + 1
        } else {
            self.filtered.len() as u128
        };
        assert(len == row_count(self@));
        self.selected = move_down(self.selected, len, down);
        if self.mode == Mode::Themes && down > 0 && len > 0 {
            self.preview_theme_at_selection();
        }
        self.selected = move_up(self.selected, len, up);
        if self.mode == Mode::Themes && up > 0 && len > 0 {
            self.preview_theme_at_selection();
        }
        assert(self@ =~= navigated(old(self)@, down, up));
    }
}

/// The state after the keys of a frame, but for the file explorer's own: the Tab key first,
/// then the selection, then Enter.
pub open spec fn keys_handled(
    s: UiModel,
    slots: SlotsModel,
    keys: FrameKeys,
    history: Seq<ClipModel>,
    active: Seq<char>,
    now: u64,
) -> (UiModel, SlotsModel, Option<ActionModel>) {
    let a = if keys.tab {
        tab_pressed(s, history, active)
    } else {
        s
    };
    let b = navigated(a, down_count(keys), up_count(keys));
    if keys.enter && b.mode != Mode::Files {
        executed(b, slots, now)
    } else {
        (b, slots, None)
    }
}

/// The frame ends with Enter on a row, but for the file explorer.
pub open spec fn ends_with_enter(s: UiModel, keys: FrameKeys) -> bool {
    keys.enter && (if keys.tab {
        next_mode(s.mode)
    } else {
        s.mode
    }) != Mode::Files
}

impl RofiApp {
    /// Handles the keys of a frame, but for the file explorer's own. Returns whether Enter
    /// ended the frame, and what is left to do.
    pub fn handle_keys(
        &mut self,
        slots: &mut Slots,
        keys: FrameKeys,
        history: &Vec<ClipboardEntry>,
        active: &str,
        now: u64,
    ) -> (r: (bool, Option<Action>))
        requires
            old(self).wf(),
        ensures
            ({
                let e = keys_handled(
                    old(self)@,
                    old(slots)@,
                    keys,
                    clips(history@),
                    active@,
                    now,
                );
                &&& final(self)@ == e.0
                &&& final(slots)@ == e.1
                &&& r.0 == ends_with_enter(old(self)@, keys)
                &&& opt_action(r.1) == e.2
            }),
            final(self).wf(),
    {
        if keys.tab {
            self.press_tab(history, active);
        }
        assert(self@.mode == if keys.tab {
            next_mode(old(self)@.mode)
        } else {
            old(self)@.mode
        });
        self.navigate(keys.down(), keys.up());
        if keys.enter && self.mode != Mode::Files {
            let action = self.execute_selected(slots, now);
            (true, action)
        } else {
            (false, None)
        }
    }
}

// ── Typing ────────────────────────────────────────────────────────────────────

/// The state after the query was edited. In the theme picker the first theme found is
/// previewed.
pub open spec fn query_edited(s: UiModel) -> UiModel {
    if s.mode == Mode::Input {
        input_refiltered(s)
    } else if s.mode == Mode::Themes {
        previewed(input_refiltered(s))
    } else {
        refiltered(s, true)
    }
}

/// How many directories are shown that zoxide knows.
pub const MAX_ZOXIDE_ROWS: usize = 8;

/// The state after the directories for the query were asked for.
pub open spec fn zoxide_asked(s: UiModel) -> UiModel {
    if s.query == s.zoxide_last_query {
        s
    } else if s.query.len() == 0 {
        UiModel { zoxide_last_query: s.query, zoxide_results: Seq::empty(), ..s }
    } else {
        UiModel { zoxide_last_query: s.query, ..s }
    }
}

/// The first lines of a list, as many as are shown.
pub open spec fn first_rows(l: Seq<Seq<char>>) -> Seq<Seq<char>> {
    if l.len() > MAX_ZOXIDE_ROWS {
        l.take(MAX_ZOXIDE_ROWS as int)
    } else {
        l
    }
}

/// The directories in what zoxide printed; none where it failed.
pub open spec fn zoxide_rows(output: Option<Seq<u8>>) -> Seq<Seq<char>> {
    match output {
        Some(bytes) => first_rows(lines(utf8_lossy(bytes))),
        None => Seq::empty(),
    }
}

/// Takes the first lines of a text, as many as are shown.
pub fn rows_of_text(text: &str) -> (r: Vec<String>)
    ensures
        texts(r@) == first_rows(lines(text@)),
{
    let v = chars_of(text);
    let mut r = split_lines(v.as_slice());
    let ghost all = texts(r@);
    if r.len() > MAX_ZOXIDE_ROWS {
        r.truncate(MAX_ZOXIDE_ROWS);
    }
    assert(texts(r@) =~= first_rows(all));
    r
}

impl RofiApp {
    /// Takes note that the query was edited.
    pub fn query_changed(&mut self)
        requires
            old(self).wf(),
        ensures
            final(self)@ == query_edited(old(self)@),
            final(self).wf(),
    {
        if self.mode == Mode::Input || self.mode == Mode::Themes {
            self.refilter_input();
            if self.mode == Mode::Themes {
                self.preview_theme_at_selection();
            }
        } else {
            self.refilter(true);
        }
    }

    /// Returns the term to ask zoxide for, where the query changed since it was last asked
    /// and is not empty.
    pub fn update_zoxide(&mut self) -> (r: Option<String>)
        requires
            old(self).wf(),
        ensures
            final(self)@ == zoxide_asked(old(self)@),
            opt_text(r) == if old(self)@.query == old(self)@.zoxide_last_query
                || old(self)@.query.len() == 0 {
                None
            } else {
                Some(old(self)@.query)
            },
            final(self).wf(),
    {
        if same(self.query.as_str(), self.zoxide_last_query.as_str()) {
            return None;
        }
        self.zoxide_last_query = self.query.clone();
        if self.query.as_str().is_empty() {
            self.zoxide_results = Vec::new();
            assert(texts(self.zoxide_results@) =~= Seq::empty());
            assert(self@ =~= zoxide_asked(old(self)@));
            return None;
        }
        Some(self.query.clone())
    }

    /// Takes what zoxide printed, if it succeeded.
    pub fn zoxide_answered(&mut self, output: Option<&[u8]>)
        requires
            old(self).wf(),
        ensures
            final(self)@ == (UiModel {
                zoxide_results: zoxide_rows(
                    match output {
                        Some(b) => Some(b@),
                        None => None,
                    },
                ),
                ..old(self)@
            }),
            final(self).wf(),
    {
        match output {
            Some(bytes) => {
                let text = from_utf8_lossy(bytes);
                self.zoxide_results = rows_of_text(text.as_str());
            },
            None => {
                self.zoxide_results = Vec::new();
                assert(texts(self.zoxide_results@) =~= Seq::empty());
            },
        }
    }
}

// ── Tray ──────────────────────────────────────────────────────────────────────

/// What the tray icon is to show.
#[derive(Debug)]
pub struct TrayUpdate {
    pub glyph: String,
    pub fg: Rgb,
    pub label: String,
    pub visible: bool,
}

/// What a tray update holds.
#[verifier::ext_equal]
pub struct TrayModel {
    pub glyph: Seq<char>,
    pub fg: Rgb,
    pub label: Seq<char>,
    pub visible: bool,
}

impl View for TrayUpdate {
    type V = TrayModel;

    open spec fn view(&self) -> TrayModel {
        TrayModel {
            glyph: self.glyph@,
            fg: self.fg,
            label: self.label@,
            visible: self.visible,
        }
    }
}

/// The label of the tray icon for a subject.
pub open spec fn tray_label(subject: Seq<char>) -> Seq<char> {
    "mofi \u{2014} "@ + subject
}

/// The name of a tab in the tray.
pub open spec fn tray_mode_name(mode: Mode) -> Seq<char> {
    match mode {
        Mode::Apps => "Apps"@,
        Mode::Clipboard => "Clipboard"@,
        Mode::Pass => "Pass"@,
        Mode::Files => "Files"@,
        _ => "mofi"@,
    }
}

/// The icon of a tab in the tray; that of the selected row where it has none of its own.
pub open spec fn tray_mode_glyph(mode: Mode, item: ItemModel) -> Seq<char> {
    match mode {
        Mode::Apps => "\u{F0E7}"@,
        Mode::Clipboard => "\u{F0C6}"@,
        Mode::Files => "\u{F07B}"@,
        _ => item_glyph(item),
    }
}

/// What the tray icon shows for the state of the window.
pub open spec fn tray_of(s: UiModel) -> TrayModel {
    if !s.visible {
        TrayModel { glyph: Seq::empty(), fg: c(0, 0, 0), label: Seq::empty(), visible: false }
    } else if s.mode == Mode::Themes {
        let name = picked_theme(
            match selected_input(s) {
                Some(line) => line,
                None => Seq::empty(),
            },
        );
        TrayModel {
            glyph: theme_glyph(name),
            fg: s.theme.icon_sel,
            label: tray_label(name),
            visible: true,
        }
    } else if s.mode == Mode::Input {
        TrayModel {
            glyph: "\u{F0CA}"@,
            fg: s.theme.icon_sel,
            label: tray_label("Input"@),
            visible: true,
        }
    } else if s.selected < s.filtered.len() {
        let item = s.items[s.filtered[s.selected as int] as int];
        TrayModel {
            glyph: tray_mode_glyph(s.mode, item),
            fg: item_color(item, s.theme),
            label: tray_label(
                match item {
                    ItemModel::App { name, .. } => name,
                    ItemModel::Clip(_) => "Clipboard"@,
                    ItemModel::Pass { name } => name,
                },
            ),
            visible: true,
        }
    } else {
        TrayModel {
            glyph: "\u{F2D0}"@,
            fg: c(0x7E, 0x9C, 0xD8),
            label: tray_label(tray_mode_name(s.mode)),
            visible: true,
        }
    }
}

impl RofiApp {
    /// Tells what the tray icon is to show: the selected item's icon and colour.
    pub fn update_tray(&self) -> (r: TrayUpdate)
        requires
            self.wf(),
        ensures
            r@ == tray_of(self@),
    {
        if !self.visible {
            let r = TrayUpdate {
                glyph: String::new(),
                fg: c(0, 0, 0),
                label: String::new(),
                visible: false,
            };
            assert(r@ =~= tray_of(self@));
            return r;
        }
        if self.mode == Mode::Themes {
            let line = match self.selected_input_item() {
                Some(line) => line,
                None => String::new(),
            };
            let name = theme_on_line(line.as_str());
            let glyph = theme_glyph_for(name.as_str()).to_owned();
            let label = concat("mofi \u{2014} ", name.as_str());
            return TrayUpdate { glyph, fg: self.theme.icon_sel, label, visible: true };
        }
        if self.mode == Mode::Input {
            return TrayUpdate {
                glyph: "\u{F0CA}".to_owned(),
                fg: self.theme.icon_sel,
                label: concat("mofi \u{2014} ", "Input"),
                visible: true,
            };
        }
        if self.selected < self.filtered.len() {
            let i: usize = self.filtered[self.selected];
            assert(i < self.items@.len());
            let item = &self.items[i];
            assert(self@.items[i as int] == item@);
            let glyph = match self.mode {
                Mode::Apps => "\u{F0E7}",
                Mode::Clipboard => "\u{F0C6}",
                Mode::Files => "\u{F07B}",
                _ => glyph_for_item(item),
            };
            let subject = match item {
                LaunchItem::App(a) => a.name.as_str(),
                LaunchItem::Clip(_) => "Clipboard",
                LaunchItem::Pass(e) => e.name.as_str(),
            };
            return TrayUpdate {
                glyph: glyph.to_owned(),
                fg: glyph_color_for_item(item, &self.theme),
                label: concat("mofi \u{2014} ", subject),
                visible: true,
            };
        }
        let subject = match self.mode {
            Mode::Apps => "Apps",
            Mode::Clipboard => "Clipboard",
            Mode::Pass => "Pass",
            Mode::Files => "Files",
            _ => "mofi",
        };
        TrayUpdate {
            glyph: "\u{F2D0}".to_owned(),
            fg: c(0x7E, 0x9C, 0xD8),
            label: concat("mofi \u{2014} ", subject),
            visible: true,
        }
    }
}

// ── Laws ──────────────────────────────────────────────────────────────────────

/// A visible window goes when a row was chosen, on Escape, and when it has lost the focus that
/// it once had, once the first frames are over; otherwise it stays, and nothing changes but
/// the count of frames and whether there was focus.
pub proof fn law_window_closes(s: UiModel, f: FrameStart)
    requires
        s.frame_count < u32::MAX,
    ensures
        ({
            let lost = s.had_keyboard_focus_ever && !f.focused && s.frame_count >= f.grace;
            let goes = s.should_close || f.escape || lost;
            &&& !s.visible ==> frame_gate(s, f) == FrameGate::Idle && frame_begun(s, f) == s
            &&& s.visible && goes ==> frame_gate(s, f) == FrameGate::Closed && !frame_begun(
                s,
                f,
            ).visible
            &&& s.visible && !goes ==> frame_gate(s, f) == FrameGate::Open && frame_begun(s, f) == (
            UiModel {
                frame_count: (s.frame_count + 1) as u32,
                had_keyboard_focus_ever: s.had_keyboard_focus_ever || f.focused,
                ..s
            })
        }),
{
}

/// A key counts as often as it was pressed together with Ctrl, and its releases do not count.
pub proof fn law_control_count(events: Seq<KeyEvent>, key: ControlKey)
    ensures
        control_count(events, key) == events.filter(
            |e: KeyEvent| e.pressed && e.ctrl && e.key == key,
        ).len(),
    decreases events.len(),
{
    reveal(Seq::filter);
    if events.len() > 0 {
        law_control_count(events.drop_last(), key);
    }
}

/// The events that are taken away from the search bar are exactly those that count.
pub proof fn law_consumed(e: KeyEvent)
    ensures
        is_consumed(e) == (control_count(seq![e], ControlKey::J) > 0 || control_count(
            seq![e],
            ControlKey::K,
        ) > 0 || control_count(seq![e], ControlKey::H) > 0 || control_count(seq![e], ControlKey::L)
            > 0),
{
    let none = Seq::<KeyEvent>::empty();
    assert(seq![e].drop_last() =~= none);
    assert(control_count(none, ControlKey::J) == 0);
    assert(control_count(none, ControlKey::K) == 0);
    assert(control_count(none, ControlKey::H) == 0);
    assert(control_count(none, ControlKey::L) == 0);
}

/// The selection moves by as many rows as asked for, and stops at the last and at the first
/// row.
pub proof fn law_moves_exactly(selected: usize, len: nat, n: usize)
    requires
        0 < len <= usize::MAX,
        selected < len,
    ensures
        selected + n < len ==> moved_down(selected, len, n) == selected + n,
        selected + n >= len ==> moved_down(selected, len, n) == len - 1,
        n <= selected ==> moved_up(selected, len, n) == selected - n,
        n > selected ==> moved_up(selected, len, n) == 0,
{
}

/// One press of an arrow key moves by one row; where Ctrl+J or Ctrl+K was pressed too, as
/// often as these were.
pub proof fn law_key_counts(keys: FrameKeys)
    ensures
        keys.control.j > 0 ==> down_count(keys) == keys.control.j,
        keys.control.j == 0 ==> down_count(keys) == if keys.arrow_down {
            1usize
        } else {
            0
        },
        keys.control.k > 0 ==> up_count(keys) == keys.control.k,
        keys.control.k == 0 ==> up_count(keys) == if keys.arrow_up {
            1usize
        } else {
            0
        },
{
}

/// Outside the theme picker, moving the selection changes nothing else. The rows that it moves
/// in are those that were found, and on the Apps tab one more for a shell command.
pub proof fn law_navigate(s: UiModel, down: usize, up: usize)
    requires
        s.mode != Mode::Themes,
    ensures
        ({
            let t = navigated(s, down, up);
            let rows = if s.mode == Mode::Input {
                s.input_filtered.len()
            } else if is_shell_query(s) {
                s.filtered.len() + 1
            } else {
                s.filtered.len()
            };
            &&& t == (UiModel { selected: t.selected, ..s })
            &&& s.mode == Mode::Files ==> t == s
            &&& s.mode != Mode::Files ==> t.selected == moved_up(
                moved_down(s.selected, rows, down),
                rows,
                up,
            )
        }),
{
}

/// In the theme picker, the theme in force after a move is that of the line that is selected.
pub proof fn law_navigate_previews(s: UiModel, down: usize, up: usize)
    requires
        s.mode == Mode::Themes,
        0 < s.input_filtered.len() <= usize::MAX,
        s.selected < s.input_filtered.len(),
        forall|a: int|
            0 <= a < s.input_filtered.len() ==> (#[trigger] s.input_filtered[a])
                < s.input_items.len(),
        down > 0 || up > 0,
    ensures
        ({
            let t = navigated(s, down, up);
            let line = s.input_items[s.input_filtered[t.selected as int] as int];
            &&& t.selected < s.input_filtered.len()
            &&& t.theme == crate::config::theme_of(picked_theme(line))
            &&& t.theme_before_preview == s.theme_before_preview
        }),
{
    let n = s.input_filtered.len();
    let to = moved_up(moved_down(s.selected, n, down), n, up);
    assert(s.input_filtered[moved_down(s.selected, n, down) as int] < s.input_items.len());
    assert(s.input_filtered[to as int] < s.input_items.len());
}

/// Enter alone chooses the selected row; a frame without keys changes nothing; and the Tab key
/// counts before Enter, which chooses from the tab that it leads to.
pub proof fn law_keys(
    s: UiModel,
    slots: SlotsModel,
    keys: FrameKeys,
    history: Seq<ClipModel>,
    active: Seq<char>,
    now: u64,
)
    requires
        s.mode != Mode::Files,
        keys.control.j == 0 && keys.control.k == 0 && !keys.arrow_down && !keys.arrow_up,
    ensures
        !keys.tab && keys.enter ==> keys_handled(s, slots, keys, history, active, now) == executed(
            s,
            slots,
            now,
        ),
        !keys.tab && !keys.enter ==> keys_handled(s, slots, keys, history, active, now) == (
            s,
            slots,
            None::<ActionModel>,
        ),
        keys.tab && !keys.enter && next_mode(s.mode) != Mode::Files ==> keys_handled(
            s,
            slots,
            keys,
            history,
            active,
            now,
        ).0 == tab_pressed(s, history, active),
{
}

/// An edited query filters the list of the tab anew, from its first row on; in the theme
/// picker the first theme that is found is previewed.
pub proof fn law_query_edited(s: UiModel)
    ensures
        query_edited(s).selected == 0,
        query_edited(s).query == s.query,
        s.mode == Mode::Input || s.mode == Mode::Themes ==> query_edited(s).input_filtered
            == crate::ui::input_found(s.query, s.input_items),
        s.mode != Mode::Input && s.mode != Mode::Themes ==> query_edited(s) == refiltered(s, true),
        s.mode == Mode::Themes && query_edited(s).input_filtered.len() > 0
            && query_edited(s).input_filtered[0] < s.input_items.len() ==> query_edited(s).theme
            == crate::config::theme_of(
            picked_theme(s.input_items[query_edited(s).input_filtered[0] as int]),
        ),
{
}

/// The directories that are shown are the lines that zoxide printed, whole and in order, up to
/// eight of them.
pub proof fn law_first_rows(l: Seq<Seq<char>>)
    ensures
        first_rows(l).len() == if l.len() < 8 {
            l.len()
        } else {
            8
        },
        forall|i: int| 0 <= i < first_rows(l).len() ==> #[trigger] first_rows(l)[i] == l[i],
        zoxide_rows(None).len() == 0,
{
}

/// Zoxide is asked once for each query: what was asked for is noted, and an empty query shows
/// no directories.
pub proof fn law_zoxide_asked(s: UiModel)
    ensures
        zoxide_asked(s).zoxide_last_query == s.query,
        zoxide_asked(zoxide_asked(s)) == zoxide_asked(s),
        s.query != s.zoxide_last_query && s.query.len() == 0 ==> zoxide_asked(
            s,
        ).zoxide_results.len() == 0,
        s.query == s.zoxide_last_query || s.query.len() > 0 ==> zoxide_asked(s).zoxide_results
            == s.zoxide_results,
        zoxide_asked(s).selected == s.selected,
{
}

/// The tray names what is selected: an application or a pass entry by its whole name. While
/// the window is hidden it names nothing.
pub proof fn law_tray_label(s: UiModel, name: Seq<char>, path: Seq<char>)
    requires
        s.visible,
        s.mode != Mode::Themes && s.mode != Mode::Input,
        s.selected < s.filtered.len(),
    ensures
        s.items[s.filtered[s.selected as int] as int] == (ItemModel::App { name, path })
            || s.items[s.filtered[s.selected as int] as int] == (ItemModel::Pass { name }) ==> {
            &&& tray_of(s).label == "mofi \u{2014} "@ + name
            &&& tray_of(s).visible
        },
        !tray_of(UiModel { visible: false, ..s }).visible,
        tray_of(UiModel { visible: false, ..s }).label.len() == 0,
{
}

/// While nothing is asked for and nothing has happened to the configuration, an update on any
/// tab but Clipboard is the start of a frame and nothing more, unless the window goes.
pub proof fn law_quiet_update(s: UiModel, slots: SlotsModel, i: UpdateInput)
    requires
        !i.toggled,
        i.config_mtime == s.config_mtime,
        slots.pending_input is None,
        s.mode != Mode::Clipboard,
        frame_gate(s, i.start) != FrameGate::Closed,
    ensures
        update_begun(s, slots, i) == (frame_begun(s, i.start), slots, frame_gate(s, i.start)),
{
}

/// Items that a client sent come up in a visible window on any tab but those of items, all of
/// them, and are taken; a window that is hidden or shows items already leaves them.
pub proof fn law_sent_items_taken(s: UiModel, slots: SlotsModel, items: Seq<Seq<char>>)
    requires
        slots.pending_input == Some(items),
    ensures
        s.visible && s.mode != Mode::Input && s.mode != Mode::Themes ==> {
            let t = update_polled(s, slots);
            &&& t.0.input_items == items
            &&& t.0.mode == if slots.pending_input_is_themes {
                Mode::Themes
            } else {
                Mode::Input
            }
            &&& t.0.visible && t.0.drill_target is None
            &&& t.1 == (SlotsModel {
                pending_input: None,
                pending_input_is_themes: false,
                ..slots
            })
        },
        !s.visible || s.mode == Mode::Input || s.mode == Mode::Themes ==> update_polled(s, slots)
            == (s, slots),
{
}

/// Switching to the Clipboard tab takes up the history; switching to any other tab leaves the
/// items as they are.
pub proof fn law_switch_items(
    s: UiModel,
    mode: Mode,
    history: Seq<ClipModel>,
    active: Seq<char>,
)
    requires
        mode != Mode::Input,
    ensures
        mode == Mode::Clipboard ==> tab_clicked(s, mode, history, active).items == clips_synced(
            s,
            history,
        ).items,
        mode != Mode::Clipboard ==> tab_clicked(s, mode, history, active).items == s.items,
        tab_clicked(s, mode, history, active).theme == s.theme,
        tab_clicked(s, mode, history, active).file_pane == s.file_pane,
        tab_clicked(s, mode, history, active).frecency == s.frecency,
        tab_clicked(s, Mode::Input, history, active) == s,
{
}

/// Clicking a tab and reaching it with the Tab key come to the same, but for the directories
/// that zoxide knew.
pub proof fn law_tab_key_is_click(s: UiModel, history: Seq<ClipModel>, active: Seq<char>)
    requires
        s.mode != Mode::Input,
        s.zoxide_results.len() == 0,
        s.zoxide_last_query.len() == 0,
    ensures
        tab_pressed(s, history, active) == tab_clicked(s, next_mode(s.mode), history, active),
{
    let cleared = UiModel { zoxide_results: Seq::empty(), zoxide_last_query: Seq::empty(), ..s };
    assert(cleared =~= s);
}

/// A toggle in an update acts before items that were sent are taken up, on the configuration
/// as it is then.
pub proof fn law_update_toggles(s: UiModel, slots: SlotsModel, i: UpdateInput)
    requires
        i.config_mtime == s.config_mtime,
    ensures
        i.toggled ==> update_toggled(s, slots, i) == (
            toggled(s, slots, i.data@),
            toggle_slots(s, slots),
        ),
        !i.toggled ==> update_toggled(s, slots, i) == (s, slots),
        update_begun(s, slots, i).2 == frame_gate(
            update_polled(update_toggled(s, slots, i).0, update_toggled(s, slots, i).1).0,
            i.start,
        ),
{
}

/// The tray takes its colour from the selected row: clipboard entries and pass entries have
/// those of the theme, and in the theme picker the theme that is previewed shows.
pub proof fn law_tray_color(s: UiModel)
    requires
        s.visible,
    ensures
        s.mode == Mode::Themes || s.mode == Mode::Input ==> tray_of(s).fg == s.theme.icon_sel,
        s.mode != Mode::Themes && s.mode != Mode::Input && s.selected < s.filtered.len() ==> match
            s.items[s.filtered[s.selected as int] as int] {
            ItemModel::Clip(_) => tray_of(s).fg == s.theme.accent2 && tray_of(s).label
                == "mofi \u{2014} "@ + "Clipboard"@,
            ItemModel::Pass { .. } => tray_of(s).fg == s.theme.toast,
            ItemModel::App { name, .. } => tray_of(s).fg == crate::glyphs::name_accent(name),
        },
        s.mode == Mode::Themes ==> (selected_input(s) matches Some(line) ==> tray_of(s).label
            == "mofi \u{2014} "@ + picked_theme(line)),
{
}

/// A frame ends with Enter wherever that chooses a row: on any tab but Files, the tab counting
/// that the Tab key leads to.
pub proof fn law_enter_ends_frame(s: UiModel, keys: FrameKeys)
    ensures
        !keys.enter ==> !ends_with_enter(s, keys),
        keys.enter && !keys.tab ==> ends_with_enter(s, keys) == (s.mode != Mode::Files),
        keys.enter && keys.tab ==> ends_with_enter(s, keys),
{
}

} // verus!

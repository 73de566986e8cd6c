//! The layer-shell surface: when it is mapped, where it stands, and which keys it gets.

use vstd::prelude::*;

use crate::text::{chars_of, opt_text};

verus! {

/// Width of the window when it is first made.
pub const WIN_W: u32 = 810;

/// Height of the window when it is first made.
pub const WIN_H: u32 = 550;

// ── Monitors ──────────────────────────────────────────────────────────────────

/// What is known of a monitor: whether it has focus, its width and height in pixels, and
/// the bits of its scale factor, a double-precision number; each where it is given.
pub type Monitor = (Option<bool>, Option<i64>, Option<i64>, Option<u64>);

/// What `serde_json` reads out of a JSON array: for each element the members of the given
/// names, a truth value, two whole numbers and the bits of a number, where they have that
/// type; nothing where the bytes are no JSON array.
pub uninterp spec fn members_in(
    json: Seq<u8>,
    flag: Seq<char>,
    first: Seq<char>,
    second: Seq<char>,
    number: Seq<char>,
) -> Option<Seq<Monitor>>;

/// The monitors in the output of `hyprctl monitors -j`.
pub open spec fn monitors_in(json: Seq<u8>) -> Option<Seq<Monitor>> {
    members_in(json, "focused"@, "width"@, "height"@, "scale"@)
}

/// What a list of monitors holds.
pub open spec fn monitor_list(r: Option<Vec<Monitor>>) -> Option<Seq<Monitor>> {
    match r {
        Some(v) => Some(v@),
        None => None,
    }
}

/// Calls `serde_json::from_slice` for an array of values, and `Value::get`, `as_bool`,
/// `as_i64` and `as_f64` on each of them. What they give depends on the bytes and the names
/// alone; nothing more is claimed of it.
#[verifier::external_body]
fn read_members(json: &[u8], flag: &str, first: &str, second: &str, number: &str) -> (r: Option<
    Vec<Monitor>,
>)
    ensures
        monitor_list(r) == members_in(json@, flag@, first@, second@, number@),
{
    let values: Vec<serde_json::Value> = serde_json::from_slice(json).ok()?;
    Some(
        values.iter().map(|m| (
            m.get(flag).and_then(|v| v.as_bool()),
            m.get(first).and_then(|v| v.as_i64()),
            m.get(second).and_then(|v| v.as_i64()),
            m.get(number).and_then(|v| v.as_f64()).map(|v| v.to_bits()),
        )).collect(),
    )
}

/// The width, height and scale of the first monitor that has focus; nothing where there is
/// none, or where its width or height is not given.
pub open spec fn focused_in(monitors: Seq<Monitor>) -> Option<(i64, i64, Option<u64>)>
    decreases monitors.len(),
{
    if monitors.len() == 0 {
        None
    } else if monitors[0].0 == Some(true) {
        match (monitors[0].1, monitors[0].2) {
            (Some(w), Some(h)) => Some((w, h, monitors[0].3)),
            _ => None,
        }
    } else {
        focused_in(monitors.skip(1))
    }
}

/// Finds the first monitor that has focus.
pub fn focused_among(monitors: &Vec<Monitor>) -> (r: Option<(i64, i64, Option<u64>)>)
    ensures
        r == focused_in(monitors@),
{
    let mut i: usize = 0;
    assert(monitors@.skip(0) =~= monitors@);
    while i < monitors.len()
        invariant
            i <= monitors@.len(),
            focused_in(monitors@.skip(i as int)) == focused_in(monitors@),
        decreases monitors@.len() - i,
    {
        let m = monitors[i];
        assert(monitors@.skip(i as int)[0] == m);
        assert(monitors@.skip(i as int).skip(1) =~= monitors@.skip(i as int + 1));
        if let Some(true) = m.0 {
            return match (m.1, m.2) {
                (Some(w), Some(h)) => Some((w, h, m.3)),
                _ => None,
            };
        }
        i = i + 1;
    }
    None
}

/// Finds the monitor that has focus in the output of `hyprctl monitors -j`.
pub fn focused_monitor(json: &[u8]) -> (r: Option<(i64, i64, Option<u64>)>)
    ensures
        r == match monitors_in(json@) {
            Some(m) => focused_in(m),
            None => None,
        },
{
    match read_members(json, "focused", "width", "height", "scale") {
        Some(m) => focused_among(&m),
        None => None,
    }
}

/// The margin that centres an extent on a screen; none where it does not fit.
pub open spec fn margin(screen: i32, extent: u32) -> int {
    if screen > extent {
        (screen - extent) / 2
    } else {
        0
    }
}

/// The top and left margins that centre the window on a screen of the given logical size.
pub fn centre_margins(screen: (i32, i32), w: u32, h: u32) -> (r: (i32, i32))
    ensures
        r.0 == margin(screen.1, h),
        r.1 == margin(screen.0, w),
{
    let left: i64 = if screen.0 as i64 > w as i64 {
        (screen.0 as i64 - w as i64) / 2
    } else {
        0
    };
    let top: i64 = if screen.1 as i64 > h as i64 {
        (screen.1 as i64 - h as i64) / 2
    } else {
        0
    };
    (top as i32, left as i32)
}

/// A centred window has as much space before it as behind it, but for one pixel.
pub proof fn law_centred(screen: i32, extent: u32)
    requires
        screen >= extent,
    ensures
        0 <= screen - extent - 2 * margin(screen, extent) <= 1,
{
}

// ── Surface ───────────────────────────────────────────────────────────────────

/// A key that is held down.
#[derive(Debug)]
pub struct RepeatState {
    pub keysym: u32,
    /// When the key was first pressed, in milliseconds.
    pub pressed_at: u64,
    /// When a repeat was last sent, in milliseconds.
    pub last_repeat: u64,
    /// Text that the key stands for.
    pub utf8: Option<String>,
}

/// What a held key is known by.
#[verifier::ext_equal]
pub struct RepeatModel {
    pub keysym: u32,
    pub pressed_at: u64,
    pub last_repeat: u64,
    pub utf8: Option<Seq<char>>,
}

impl View for RepeatState {
    type V = RepeatModel;

    open spec fn view(&self) -> RepeatModel {
        RepeatModel {
            keysym: self.keysym,
            pressed_at: self.pressed_at,
            last_repeat: self.last_repeat,
            utf8: opt_text(self.utf8),
        }
    }
}

/// Delay before the first repeat, in milliseconds.
pub const REPEAT_DELAY_MS: u64 = 300;

/// Interval between further repeats, in milliseconds.
pub const REPEAT_INTERVAL_MS: u64 = 30;

/// The state of the surface.
#[derive(Debug)]
pub struct LayerState {
    pub keyboard_focus: bool,
    /// True once the compositor has granted keyboard focus at least once.
    pub had_focus: bool,
    /// Logical width.
    pub width: u32,
    /// Logical height.
    pub height: u32,
    pub mapped: bool,
    /// True when the surface is to be mapped but the compositor has not acknowledged it yet.
    /// Nothing is rendered until it does.
    pub mapping_pending: bool,
    pub should_close: bool,
    pub pending_resize: Option<(u32, u32)>,
    /// The key that is held down, if it repeats.
    pub repeat_key: Option<RepeatState>,
}

/// What the state of the surface holds.
#[verifier::ext_equal]
pub struct LayerModel {
    pub keyboard_focus: bool,
    pub had_focus: bool,
    pub width: u32,
    pub height: u32,
    pub mapped: bool,
    pub mapping_pending: bool,
    pub should_close: bool,
    pub pending_resize: Option<(u32, u32)>,
    pub repeat_key: Option<RepeatModel>,
}

impl View for LayerState {
    type V = LayerModel;

    open spec fn view(&self) -> LayerModel {
        LayerModel {
            keyboard_focus: self.keyboard_focus,
            had_focus: self.had_focus,
            width: self.width,
            height: self.height,
            mapped: self.mapped,
            mapping_pending: self.mapping_pending,
            should_close: self.should_close,
            pending_resize: self.pending_resize,
            repeat_key: match self.repeat_key {
                Some(r) => Some(r@),
                None => None,
            },
        }
    }
}

/// What is to be done with the surface for a new window size.
#[derive(PartialEq, Eq, Structural, Clone, Copy, Debug)]
pub enum SurfaceStep {
    /// Nothing.
    Keep,
    /// Unmap it.
    Unmap,
    /// Map it, or resize it, to this size.
    Present(u32, u32),
}

/// What a new window size asks for: a tiny one hides the window. A mapping that is on its
/// way is waited for, and a size that is there already asks for nothing.
pub open spec fn size_step(s: LayerModel, w: u32, h: u32) -> SurfaceStep {
    if w <= 4 || h <= 4 {
        SurfaceStep::Unmap
    } else if !s.mapping_pending && (!s.mapped || s.width != w || s.height != h) {
        SurfaceStep::Present(w, h)
    } else {
        SurfaceStep::Keep
    }
}

/// The state while the surface is being mapped.
pub open spec fn mapping(s: LayerModel, w: u32, h: u32) -> LayerModel {
    LayerModel { width: w, height: h, mapping_pending: true, ..s }
}

/// The state after the surface was unmapped.
pub open spec fn unmapped(s: LayerModel) -> LayerModel {
    LayerModel { mapped: false, mapping_pending: false, repeat_key: None, ..s }
}

/// The state after the compositor sent a size. The first one after a mapping completes it;
/// an empty one, as it comes after an unmapping, is ignored.
pub open spec fn configured(s: LayerModel, w: u32, h: u32) -> LayerModel {
    if w == 0 || h == 0 {
        s
    } else if s.mapping_pending {
        LayerModel { mapping_pending: false, mapped: true, width: w, height: h, ..s }
    } else {
        LayerModel { pending_resize: Some((w, h)), ..s }
    }
}

/// The state after a size that the compositor sent was taken up.
pub open spec fn resize_taken(s: LayerModel) -> LayerModel {
    match s.pending_resize {
        Some((w, h)) => if w > 0 && h > 0 {
            LayerModel { width: w, height: h, pending_resize: None, ..s }
        } else {
            LayerModel { pending_resize: None, ..s }
        },
        None => s,
    }
}

impl Default for LayerState {
    fn default() -> (s: Self)
        ensures
            s@ == (LayerModel {
                keyboard_focus: false,
                had_focus: false,
                width: WIN_W,
                height: WIN_H,
                mapped: false,
                mapping_pending: false,
                should_close: false,
                pending_resize: None,
                repeat_key: None,
            }),
    {
        LayerState {
            keyboard_focus: false,
            had_focus: false,
            width: WIN_W,
            height: WIN_H,
            mapped: false,
            mapping_pending: false,
            should_close: false,
            pending_resize: None,
            repeat_key: None,
        }
    }
}

impl LayerState {
    /// Starts to map the surface.
    pub fn map_surface(&mut self, w: u32, h: u32)
        ensures
            final(self)@ == mapping(old(self)@, w, h),
    {
        self.width = w;
        self.height = h;
        self.mapping_pending = true;
    }

    /// Unmaps the surface.
    pub fn unmap_surface(&mut self)
        ensures
            final(self)@ == unmapped(old(self)@),
    {
        self.mapped = false;
        self.mapping_pending = false;
        self.repeat_key = None;
    }

    /// Takes a new window size. Returns what is to be done with the surface.
    pub fn resize_to(&mut self, w: u32, h: u32) -> (r: SurfaceStep)
        ensures
            r == size_step(old(self)@, w, h),
            final(self)@ == match r {
                SurfaceStep::Keep => old(self)@,
                SurfaceStep::Unmap => unmapped(old(self)@),
                SurfaceStep::Present(w, h) => mapping(old(self)@, w, h),
            },
    {
        if w <= 4 || h <= 4 {
            self.unmap_surface();
            SurfaceStep::Unmap
        } else if !self.mapping_pending && (!self.mapped || self.width != w || self.height != h) {
            self.map_surface(w, h);
            SurfaceStep::Present(w, h)
        } else {
            SurfaceStep::Keep
        }
    }

    /// Takes a size that the compositor sent. Returns whether it completed a mapping, so
    /// that the buffer is to be resized at once.
    pub fn configure(&mut self, w: u32, h: u32) -> (r: bool)
        ensures
            final(self)@ == configured(old(self)@, w, h),
            r == (w != 0 && h != 0 && old(self).mapping_pending),
    {
        if w != 0 && h != 0 {
            if self.mapping_pending {
                self.mapping_pending = false;
                self.mapped = true;
                self.width = w;
                self.height = h;
                return true;
            }
            self.pending_resize = Some((w, h));
        }
        false
    }

    /// Takes up a size that the compositor sent. Returns whether the buffer is to be
    /// resized.
    pub fn take_resize(&mut self) -> (r: bool)
        ensures
            final(self)@ == resize_taken(old(self)@),
            r == match old(self)@.pending_resize {
                Some((w, h)) => w > 0 && h > 0,
                None => false,
            },
    {
        let taken = self.pending_resize.take();
        match taken {
            Some((w, h)) => {
                if w > 0 && h > 0 {
                    self.width = w;
                    self.height = h;
                    true
                } else {
                    false
                }
            },
            None => false,
        }
    }

    /// Whether a frame is drawn: only while the surface is mapped.
    pub fn renders(&self) -> (r: bool)
        ensures
            r == (self@.mapped && !self@.mapping_pending),
    {
        self.mapped && !self.mapping_pending
    }

    /// Takes note that keyboard focus came.
    pub fn focus_gained(&mut self)
        ensures
            final(self)@ == (LayerModel { keyboard_focus: true, had_focus: true, ..old(self)@ }),
    {
        self.keyboard_focus = true;
        self.had_focus = true;
    }

    /// Takes note that keyboard focus went.
    pub fn focus_lost(&mut self)
        ensures
            final(self)@ == (LayerModel { keyboard_focus: false, repeat_key: None, ..old(self)@ }),
    {
        self.keyboard_focus = false;
        self.repeat_key = None;
    }
}

/// Showing a window that was hidden takes a mapping and the compositor's answer to it; the
/// window then has the size that the compositor gave.
pub proof fn law_show_completes(s: LayerModel, w: u32, h: u32, cw: u32, ch: u32)
    requires
        w > 4,
        h > 4,
        cw > 0,
        ch > 0,
        !s.mapped,
        !s.mapping_pending,
    ensures
        size_step(s, w, h) == SurfaceStep::Present(w, h),
        ({
            let t = configured(mapping(s, w, h), cw, ch);
            &&& t.mapped && !t.mapping_pending
            &&& t.width == cw && t.height == ch
        }),
{
}

/// A hidden window renders nothing and repeats no key.
pub proof fn law_unmapped_is_quiet(s: LayerModel)
    ensures
        !unmapped(s).mapped,
        !unmapped(s).mapping_pending,
        unmapped(s).repeat_key is None,
{
}

// ── Keys ──────────────────────────────────────────────────────────────────────

/// A key that the window knows.
#[derive(PartialEq, Eq, Structural, Clone, Copy, Debug)]
pub enum Key {
    Escape,
    Enter,
    Tab,
    Backspace,
    Delete,
    ArrowUp,
    ArrowDown,
    ArrowLeft,
    ArrowRight,
    Home,
    End,
    PageUp,
    PageDown,
    /// A function key, from 1 to 12.
    Function(u32),
    /// A letter, by its place in the alphabet from 0 to 25.
    Letter(u32),
    /// A digit.
    Digit(u32),
}

/// The key of an X keysym.
pub open spec fn key_of(sym: u32) -> Option<Key> {
    if sym == 0xff1b {
        Some(Key::Escape)
    } else if sym == 0xff0d || sym == 0xff8d {
        Some(Key::Enter)
    } else if sym == 0xff09 {
        Some(Key::Tab)
    } else if sym == 0xff08 {
        Some(Key::Backspace)
    } else if sym == 0xffff {
        Some(Key::Delete)
    } else if sym == 0xff52 {
        Some(Key::ArrowUp)
    } else if sym == 0xff54 {
        Some(Key::ArrowDown)
    } else if sym == 0xff51 {
        Some(Key::ArrowLeft)
    } else if sym == 0xff53 {
        Some(Key::ArrowRight)
    } else if sym == 0xff50 {
        Some(Key::Home)
    } else if sym == 0xff57 {
        Some(Key::End)
    } else if sym == 0xff55 {
        Some(Key::PageUp)
    } else if sym == 0xff56 {
        Some(Key::PageDown)
    } else if 0xffbe <= sym <= 0xffc9 {
        Some(Key::Function((sym - 0xffbe + 1) as u32))
    } else if 0x61 <= sym <= 0x7a {
        Some(Key::Letter((sym - 0x61) as u32))
    } else if 0x41 <= sym <= 0x5a {
        Some(Key::Letter((sym - 0x41) as u32))
    } else if 0x30 <= sym <= 0x39 {
        Some(Key::Digit((sym - 0x30) as u32))
    } else if 0xffb0 <= sym <= 0xffb9 {
        Some(Key::Digit((sym - 0xffb0) as u32))
    } else {
        None
    }
}

/// Finds the key of an X keysym.
pub fn key_for_keysym(sym: u32) -> (r: Option<Key>)
    ensures
        r == key_of(sym),
{
    if sym == 0xff1b {
        Some(Key::Escape)
    } else if sym == 0xff0d || sym == 0xff8d {
        Some(Key::Enter)
    } else if sym == 0xff09 {
        Some(Key::Tab)
    } else if sym == 0xff08 {
        Some(Key::Backspace)
    } else if sym == 0xffff {
        Some(Key::Delete)
    } else if sym == 0xff52 {
        Some(Key::ArrowUp)
    } else if sym == 0xff54 {
        Some(Key::ArrowDown)
    } else if sym == 0xff51 {
        Some(Key::ArrowLeft)
    } else if sym == 0xff53 {
        Some(Key::ArrowRight)
    } else if sym == 0xff50 {
        Some(Key::Home)
    } else if sym == 0xff57 {
        Some(Key::End)
    } else if sym == 0xff55 {
        Some(Key::PageUp)
    } else if sym == 0xff56 {
        Some(Key::PageDown)
    } else if 0xffbe <= sym && sym <= 0xffc9 {
        Some(Key::Function(sym - 0xffbe + 1))
    } else if 0x61 <= sym && sym <= 0x7a {
        Some(Key::Letter(sym - 0x61))
    } else if 0x41 <= sym && sym <= 0x5a {
        Some(Key::Letter(sym - 0x41))
    } else if 0x30 <= sym && sym <= 0x39 {
        Some(Key::Digit(sym - 0x30))
    } else if 0xffb0 <= sym && sym <= 0xffb9 {
        Some(Key::Digit(sym - 0xffb0))
    } else {
        None
    }
}

/// Text that a key press types: not empty, and free of control characters but for the tab.
pub open spec fn is_typed_text(s: Seq<char>) -> bool {
    s.len() > 0 && forall|i: int|
        0 <= i < s.len() ==> (#[trigger] s[i] as int) >= ' ' as int || s[i] == '\t'
}

/// Whether a key press types the text.
pub fn types_text(s: &str) -> (r: bool)
    ensures
        r == is_typed_text(s@),
{
    let v = chars_of(s);
    let space: u32 = crate::text::code_point(' ');
    let mut i: usize = 0;
    while i < v.len()
        invariant
            i <= v@.len(),
            v@ == s@,
            space == ' ' as int,
            forall|k: int| 0 <= k < i ==> (#[trigger] v@[k] as int) >= ' ' as int || v@[k] == '\t',
        decreases v@.len() - i,
    {
        let u: u32 = crate::text::code_point(v[i]);
        if !(u >= space || v[i] == '\t') {
            assert(!((s@[i as int] as int) >= ' ' as int || s@[i as int] == '\t'));
            return false;
        }
        i = i + 1;
    }
    v.len() > 0
}

/// A held key repeats: with Ctrl or Alt, or where it moves or deletes. Plain text does not.
pub open spec fn repeats(sym: u32, ctrl: bool, alt: bool) -> bool {
    ctrl || alt || match key_of(sym) {
        Some(Key::ArrowUp)
        | Some(Key::ArrowDown)
        | Some(Key::ArrowLeft)
        | Some(Key::ArrowRight)
        | Some(Key::Backspace)
        | Some(Key::Delete)
        | Some(Key::Tab)
        | Some(Key::Home)
        | Some(Key::End)
        | Some(Key::PageUp)
        | Some(Key::PageDown) => true,
        _ => false,
    }
}

/// The text that a key press types, if any.
pub open spec fn typed(utf8: Option<Seq<char>>) -> Option<Seq<char>> {
    match utf8 {
        Some(s) => if is_typed_text(s) {
            Some(s)
        } else {
            None
        },
        None => None,
    }
}

impl LayerState {
    /// Takes a key press at the time `now`. Returns the text that it types, if any.
    pub fn press_key(
        &mut self,
        sym: u32,
        utf8: Option<String>,
        ctrl: bool,
        alt: bool,
        now: u64,
    ) -> (r: Option<String>)
        ensures
            opt_text(r) == typed(opt_text(utf8)),
            final(self)@ == (LayerModel {
                repeat_key: if repeats(sym, ctrl, alt) {
                    Some(
                        RepeatModel {
                            keysym: sym,
                            pressed_at: now,
                            last_repeat: now,
                            utf8: typed(opt_text(utf8)),
                        },
                    )
                } else {
                    None
                },
                ..old(self)@
            }),
    {
        let text = match utf8 {
            Some(s) => {
                if types_text(s.as_str()) {
                    Some(s)
                } else {
                    None
                }
            },
            None => None,
        };
        let moves = match key_for_keysym(sym) {
            Some(Key::ArrowUp)
            | Some(Key::ArrowDown)
            | Some(Key::ArrowLeft)
            | Some(Key::ArrowRight)
            | Some(Key::Backspace)
            | Some(Key::Delete)
            | Some(Key::Tab)
            | Some(Key::Home)
            | Some(Key::End)
            | Some(Key::PageUp)
            | Some(Key::PageDown) => true,
            _ => false,
        };
        if ctrl || alt || moves {
            self.repeat_key = Some(
                RepeatState {
                    keysym: sym,
                    pressed_at: now,
                    last_repeat: now,
                    utf8: text.clone(),
                },
            );
        } else {
            self.repeat_key = None;
        }
        text
    }

    /// Takes the release of a key: it stops to repeat.
    pub fn release_key(&mut self, sym: u32)
        ensures
            final(self)@ == match old(self)@.repeat_key {
                Some(r) => if r.keysym == sym {
                    LayerModel { repeat_key: None, ..old(self)@ }
                } else {
                    old(self)@
                },
                None => old(self)@,
            },
    {
        let same_key = match &self.repeat_key {
            Some(r) => r.keysym == sym,
            None => false,
        };
        if same_key {
            self.repeat_key = None;
        }
    }

    /// Tells which key, with the text that it types, is to be sent again at the time `now`:
    /// the held one, where the delay is over and the last repeat is long enough ago.
    pub fn pump_key_repeat(&mut self, now: u64) -> (r: Option<(u32, Option<String>)>)
        ensures
            match old(self)@.repeat_key {
                Some(k) => if now - k.pressed_at >= REPEAT_DELAY_MS && now - k.last_repeat
                    >= REPEAT_INTERVAL_MS {
                    &&& r matches Some(p) && p.0 == k.keysym && opt_text(p.1) == k.utf8
                    &&& final(self)@ == (LayerModel {
                        repeat_key: Some(RepeatModel { last_repeat: now, ..k }),
                        ..old(self)@
                    })
                } else {
                    r is None && final(self)@ == old(self)@
                },
                None => r is None && final(self)@ == old(self)@,
            },
    {
        let due = match &self.repeat_key {
            Some(k) => {
                now >= k.pressed_at && now - k.pressed_at >= REPEAT_DELAY_MS && now
                    >= k.last_repeat && now - k.last_repeat >= REPEAT_INTERVAL_MS
            },
            None => false,
        };
        if !due {
            return None;
        }
        let taken = self.repeat_key.take();
        match taken {
            Some(k) => {
                let text = k.utf8.clone();
                let sym: u32 = k.keysym;
                self.repeat_key = Some(
                    RepeatState {
                        keysym: k.keysym,
                        pressed_at: k.pressed_at,
                        last_repeat: now,
                        utf8: k.utf8,
                    },
                );
                Some((sym, text))
            },
            None => None,
        }
    }
}

/// A button of the pointer.
#[derive(PartialEq, Eq, Structural, Clone, Copy, Debug)]
pub enum PointerButton {
    Primary,
    Secondary,
    Middle,
}

/// Finds the button of a Linux input event code.
pub fn button_for_code(code: u32) -> (r: Option<PointerButton>)
    ensures
        r == if code == 0x110 {
            Some(PointerButton::Primary)
        } else if code == 0x111 {
            Some(PointerButton::Secondary)
        } else if code == 0x112 {
            Some(PointerButton::Middle)
        } else {
            None
        },
{
    if code == 0x110 {
        Some(PointerButton::Primary)
    } else if code == 0x111 {
        Some(PointerButton::Secondary)
    } else if code == 0x112 {
        Some(PointerButton::Middle)
    } else {
        None
    }
}

// ── Laws ──────────────────────────────────────────────────────────────────────

/// The monitor is the first that has focus, with the width, height and scale that are given of
/// it; where its width or height is not given, and where none has focus, there is none.
pub proof fn law_focused_monitor(monitors: Seq<Monitor>, i: int)
    requires
        0 <= i <= monitors.len(),
        forall|k: int| 0 <= k < i ==> (#[trigger] monitors[k]).0 != Some(true),
        i < monitors.len() ==> monitors[i].0 == Some(true),
    ensures
        i == monitors.len() ==> focused_in(monitors) is None,
        i < monitors.len() ==> match (monitors[i].1, monitors[i].2) {
            (Some(w), Some(h)) => focused_in(monitors) == Some((w, h, monitors[i].3)),
            _ => focused_in(monitors) is None,
        },
    decreases monitors.len(),
{
    if i > 0 {
        let rest = monitors.skip(1);
        assert(monitors[0].0 != Some(true));
        assert forall|k: int| 0 <= k < i - 1 implies (#[trigger] rest[k]).0 != Some(true) by {
            assert(monitors[k + 1].0 != Some(true));
        }
        law_focused_monitor(rest, i - 1);
    }
}

/// A window that does not fit gets no margin, and a margin never moves a window out.
pub proof fn law_margin_fits(screen: i32, extent: u32)
    ensures
        screen <= extent ==> margin(screen, extent) == 0,
        margin(screen, extent) >= 0,
        screen > extent ==> margin(screen, extent) + extent <= screen,
{
}

/// A window of at most four pixels in either direction is hidden. Any other size is presented
/// as it was asked for, unless it is there already or a mapping is on its way.
pub proof fn law_size_step(s: LayerModel, w: u32, h: u32)
    ensures
        w <= 4 || h <= 4 <==> size_step(s, w, h) == SurfaceStep::Unmap,
        w > 4 && h > 4 && !s.mapping_pending && (!s.mapped || (s.width, s.height) != (w, h))
            ==> size_step(s, w, h) == SurfaceStep::Present(w, h),
        w > 4 && h > 4 && s.mapping_pending ==> size_step(s, w, h) == SurfaceStep::Keep,
        w > 4 && h > 4 && s.mapped && (s.width, s.height) == (w, h) ==> size_step(s, w, h)
            == SurfaceStep::Keep,
{
}

/// A size that the compositor sends to a mapped surface is the size after it was taken up, and
/// nothing waits any more; an empty one changes nothing.
pub proof fn law_resize(s: LayerModel, w: u32, h: u32)
    requires
        !s.mapping_pending,
        w > 0,
        h > 0,
    ensures
        resize_taken(configured(s, w, h)) == (LayerModel {
            width: w,
            height: h,
            pending_resize: None,
            ..s
        }),
        configured(s, 0, h) == s,
        configured(s, w, 0) == s,
{
}

/// A letter is the same key in either case, a digit the same on both blocks, and Enter the
/// same too; the function keys are numbered from one.
pub proof fn law_keys_agree(i: u32)
    ensures
        i < 26 ==> key_of((0x61 + i) as u32) == Some(Key::Letter(i)) && key_of((0x41 + i) as u32)
            == Some(Key::Letter(i)),
        i < 10 ==> key_of((0x30 + i) as u32) == Some(Key::Digit(i)) && key_of((0xffb0 + i) as u32)
            == Some(Key::Digit(i)),
        i < 12 ==> key_of((0xffbe + i) as u32) == Some(Key::Function((i + 1) as u32)),
        key_of(0xff0d) == Some(Key::Enter) && key_of(0xff8d) == Some(Key::Enter),
{
}

/// No two keys share a keysym, but for letters in two cases and the keys that stand on the
/// keyboard twice.
pub proof fn law_keys_differ(a: u32, b: u32)
    requires
        a < b,
        key_of(a) is Some,
        key_of(a) == key_of(b),
    ensures
        (0x41 <= a <= 0x5a && b == a + 0x20) || (0x30 <= a <= 0x39 && b == a + 0xff80) || (a
            == 0xff0d && b == 0xff8d),
{
}

/// A key press types its text, the whole of it, where that is not empty and holds no control
/// character but tabs; otherwise it types nothing.
pub proof fn law_typed(s: Seq<char>, i: int)
    ensures
        s.len() > 0 && (forall|k: int| 0 <= k < s.len() ==> (#[trigger] s[k] as int) >= 32 || s[k]
            == '\t') ==> typed(Some(s)) == Some(s),
        s.len() == 0 ==> typed(Some(s)) is None,
        0 <= i < s.len() && (s[i] as int) < 32 && s[i] != '\t' ==> typed(Some(s)) is None,
        typed(None) is None,
{
}

/// A plain letter or digit does not repeat; with Ctrl or Alt every key does.
pub proof fn law_repeats(sym: u32)
    ensures
        repeats(sym, true, false) && repeats(sym, false, true),
        (key_of(sym) matches Some(k) ==> k is Letter || k is Digit) ==> !repeats(
            sym,
            false,
            false,
        ),
{
}

/// The monitors are read by the names that the compositor gives their properties.
pub proof fn law_monitor_names(json: Seq<u8>)
    ensures
        monitors_in(json) == members_in(json, "focused"@, "width"@, "height"@, "scale"@),
{
}

} // verus!

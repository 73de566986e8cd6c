use mofi::config::Rgb;
use mofi::layer::{
    button_for_code, centre_margins, focused_among, focused_monitor, key_for_keysym, types_text,
    Key, LayerState, PointerButton, SurfaceStep, REPEAT_DELAY_MS,
};
use mofi::switcher::{
    build_window_colors, build_window_list, card_title, collect_windows, fill_titles, glyph_for,
    raise_target, truncate, untitled_processes, AxWindow, KeyMsg, ProcessTitles,
    RawWindow, Switcher, TabStep, TapState, WinEntry, OPTION_FLAG,
};
use mofi::tray::{render_icon, Bitmap, MofiTray, ICON_SIZE, PIXELS};

// ── Tray ──────────────────────────────────────────────────────────────────────

const RED: Rgb = Rgb { r: 255, g: 0, b: 0 };
const INK: Rgb = Rgb { r: 0x1F, g: 0x1F, b: 0x28 };

fn pixel(data: &[u8], x: usize, y: usize) -> [u8; 4] {
    let i = (y * ICON_SIZE + x) * 4;
    [data[i], data[i + 1], data[i + 2], data[i + 3]]
}

#[test]
fn tray_icon_idle_and_active() {
    let mut t = MofiTray::new();
    assert_eq!((t.glyph.as_str(), t.label.as_str()), ("M", "mofi"));
    t.set_icon("X", RED, "mofi — X", true);
    assert_eq!((t.glyph.as_str(), t.label.as_str()), ("X", "mofi — X"));
    assert_eq!((t.fg, t.bg, t.glyph_px), (RED, INK, 16));
    t.set_icon("X", RED, "mofi — X", false);
    assert_eq!((t.glyph.as_str(), t.label.as_str(), t.glyph_px), ("M", "mofi", 18));
}

#[test]
fn icon_layers() {
    let mut outer = vec![255u8; PIXELS];
    let mut inner = vec![0u8; PIXELS];
    outer[0] = 0;
    inner[23] = 255;
    inner[24] = 128;
    outer[25] = 100;
    inner[25] = 100;
    let data = render_icon(&outer, &inner, &None, RED, INK);
    assert_eq!(data.len(), PIXELS * 4);
    assert_eq!(pixel(&data, 0, 0), [0, 0, 0, 0]);
    assert_eq!(pixel(&data, 1, 0), [255, 0x7E, 0x6B, 0xA8]);
    assert_eq!(pixel(&data, 1, 1), [255, 0x1F, 0x1F, 0x28]);
    let blend = |a: u32, b: u32| ((a * 127 + b * 128) / 255) as u8;
    assert_eq!(
        pixel(&data, 2, 1),
        [255, blend(0x7E, 0x1F), blend(0x6B, 0x1F), blend(0xA8, 0x28)]
    );
    let part = |a: u32, b: u32| ((a * 61 + b * 39) / 100) as u8;
    assert_eq!(
        pixel(&data, 3, 1),
        [100, part(0x7E, 0x1F), part(0x6B, 0x1F), part(0xA8, 0x28)]
    );
}

#[test]
fn icon_glyph_is_centred() {
    let outer = vec![255u8; PIXELS];
    let inner = vec![255u8; PIXELS];
    let glyph = Some(Bitmap { width: 2, height: 1, coverage: vec![255, 51] });
    let data = render_icon(&outer, &inner, &glyph, RED, INK);
    assert_eq!(pixel(&data, 10, 10), [255, 255, 0, 0]);
    let mix = |f: u32, b: u32| ((f * 51 + b * 255 * 204 / 255) / 255) as u8;
    assert_eq!(pixel(&data, 11, 10), [255, mix(255, 0x1F), mix(0, 0x1F), mix(0, 0x28)]);
    assert_eq!(pixel(&data, 12, 10), [255, 0x1F, 0x1F, 0x28]);
    let large = Some(Bitmap { width: 25, height: 25, coverage: vec![255; 625] });
    let data = render_icon(&outer, &inner, &large, RED, INK);
    assert_eq!(pixel(&data, 0, 0), [255, 255, 0, 0]);
    assert_eq!(pixel(&data, 21, 21), [255, 255, 0, 0]);
}

// ── Layer ─────────────────────────────────────────────────────────────────────

#[test]
fn focused_monitor_in_json() {
    let json = br#"[{"focused":false,"width":1,"height":2},
        {"focused":true,"width":2560,"height":1440,"scale":1.5,"name":"DP-1"}]"#;
    let (w, h, scale) = focused_monitor(json).unwrap();
    assert_eq!((w, h), (2560, 1440));
    assert_eq!(f64::from_bits(scale.unwrap()), 1.5);
    assert_eq!(focused_monitor(b"[]"), None);
    assert_eq!(focused_monitor(b"{}"), None);
    assert_eq!(focused_monitor(br#"[{"focused":true,"width":"x","height":1}]"#), None);
    assert_eq!(
        focused_among(&vec![(None, Some(1), Some(1), None), (Some(true), Some(3), Some(4), None)]),
        Some((3, 4, None))
    );
}

#[test]
fn window_is_centred() {
    assert_eq!(centre_margins((1920, 1080), 810, 550), (265, 555));
    assert_eq!(centre_margins((800, 500), 810, 550), (0, 0));
    assert_eq!(centre_margins((i32::MIN, i32::MAX), u32::MAX, 1), ((i32::MAX - 1) / 2, 0));
}

#[test]
fn surface_is_mapped_and_unmapped() {
    let mut s = LayerState::default();
    assert!(!s.renders());
    assert_eq!(s.resize_to(1280, 550), SurfaceStep::Present(1280, 550));
    assert_eq!(s.resize_to(1280, 551), SurfaceStep::Keep);
    assert!(!s.renders());
    assert!(!s.configure(0, 0));
    assert!(s.configure(1280, 540));
    assert!(s.renders());
    assert_eq!((s.width, s.height), (1280, 540));
    assert_eq!(s.resize_to(1280, 540), SurfaceStep::Keep);
    assert!(!s.configure(900, 500));
    assert!(s.take_resize());
    assert!(!s.take_resize());
    assert_eq!((s.width, s.height), (900, 500));
    assert_eq!(s.resize_to(1, 1), SurfaceStep::Unmap);
    assert!(!s.renders());
}

#[test]
fn keys_of_keysyms() {
    assert_eq!(key_for_keysym(0xff1b), Some(Key::Escape));
    assert_eq!(key_for_keysym(0xff8d), Some(Key::Enter));
    assert_eq!(key_for_keysym(0xffc9), Some(Key::Function(12)));
    assert_eq!(key_for_keysym('j' as u32), Some(Key::Letter(9)));
    assert_eq!(key_for_keysym('J' as u32), Some(Key::Letter(9)));
    assert_eq!(key_for_keysym('7' as u32), Some(Key::Digit(7)));
    assert_eq!(key_for_keysym(0xffb0), Some(Key::Digit(0)));
    assert_eq!(key_for_keysym(0xffe1), None);
    assert_eq!(button_for_code(0x110), Some(PointerButton::Primary));
    assert_eq!(button_for_code(0x112), Some(PointerButton::Middle));
    assert_eq!(button_for_code(0x113), None);
}

#[test]
fn typed_text_has_no_control_characters() {
    assert!(types_text("a"));
    assert!(types_text("\t"));
    assert!(types_text("é"));
    assert!(!types_text(""));
    assert!(!types_text("\u{b}"));
}

#[test]
fn held_keys_repeat() {
    let mut s = LayerState::default();
    s.focus_gained();
    assert!(s.keyboard_focus && s.had_focus);
    assert_eq!(s.press_key('a' as u32, Some("a".into()), false, false, 0), Some("a".into()));
    assert!(s.repeat_key.is_none());
    assert_eq!(s.press_key(0xff54, None, false, false, 1000), None);
    assert_eq!(s.pump_key_repeat(1000 + REPEAT_DELAY_MS - 1), None);
    assert_eq!(s.pump_key_repeat(1000 + REPEAT_DELAY_MS), Some((0xff54, None)));
    assert_eq!(s.pump_key_repeat(1000 + REPEAT_DELAY_MS + 29), None);
    assert_eq!(s.pump_key_repeat(1000 + REPEAT_DELAY_MS + 30), Some((0xff54, None)));
    s.release_key(1);
    assert!(s.repeat_key.is_some());
    s.release_key(0xff54);
    assert!(s.repeat_key.is_none());
    s.press_key('k' as u32, Some("\u{b}".into()), true, false, 0);
    assert_eq!(s.pump_key_repeat(5000), Some(('k' as u32, None)));
    s.focus_lost();
    assert!(s.repeat_key.is_none() && !s.keyboard_focus);
}

// ── Switcher ──────────────────────────────────────────────────────────────────

fn win(pid: i32, wid: u32, app: &str, title: &str) -> WinEntry {
    WinEntry { pid, wid, app_name: app.into(), win_title: title.into() }
}

fn raw(layer: i32, pid: i32, app: &str, wid: i32, title: Option<&str>) -> RawWindow {
    RawWindow {
        layer: Some(layer),
        pid: Some(pid),
        app_name: Some(app.into()),
        wid: Some(wid),
        title: title.map(String::from),
    }
}

#[test]
fn option_tab_is_swallowed() {
    let mut t = TapState { option_down: false };
    assert_eq!(t.key_down(48), None);
    assert_eq!(t.flags_changed(OPTION_FLAG | 1), None);
    assert_eq!(t.key_down(48), Some(KeyMsg::TabPressed));
    assert_eq!(t.key_down(49), None);
    assert_eq!(t.flags_changed(1), Some(KeyMsg::OptionReleased));
    assert_eq!(t.flags_changed(0), None);
}

#[test]
fn ordinary_windows_of_others_are_collected() {
    let list = vec![
        raw(0, 10, "Term", 1, Some("sh")),
        raw(3, 11, "Menu", 2, None),
        raw(0, 99, "mofisw", 3, None),
        raw(0, 12, "", 4, None),
        RawWindow { layer: None, ..raw(0, 13, "X", 5, None) },
        raw(0, 14, "Mail", -1, None),
    ];
    let w = collect_windows(&list, 99);
    let seen: Vec<_> = w.iter().map(|e| (e.pid, e.wid, e.app_name.as_str())).collect();
    assert_eq!(seen, vec![(10, 1, "Term"), (14, u32::MAX, "Mail")]);
}

#[test]
fn missing_titles_are_filled_in_order() {
    let w = vec![
        win(1, 1, "Term", ""),
        win(2, 2, "Mail", "Inbox"),
        win(1, 3, "Term", ""),
        win(3, 4, "Solo", ""),
        win(1, 5, "Term", ""),
    ];
    assert_eq!(untitled_processes(&w), vec![1, 3]);
    let titles = vec![
        ProcessTitles { pid: 1, titles: vec!["one".into(), "two".into()] },
        ProcessTitles { pid: 3, titles: vec!["Solo".into()] },
    ];
    let t: Vec<String> = fill_titles(&w, &titles).into_iter().map(|e| e.win_title).collect();
    assert_eq!(t, vec!["one", "Inbox", "two", "", ""]);
}

#[test]
fn previous_window_comes_first() {
    let w = vec![win(1, 1, "A", ""), win(2, 2, "B", ""), win(3, 3, "C", "")];
    let (out, sel) = build_window_list(w.clone(), 3);
    assert_eq!(sel, 0);
    assert_eq!(out.iter().map(|e| e.wid).collect::<Vec<_>>(), vec![3, 1, 2]);
    let (out, _) = build_window_list(w.clone(), 0);
    assert_eq!(out.iter().map(|e| e.wid).collect::<Vec<_>>(), vec![1, 2, 3]);
    let (out, _) = build_window_list(w, 77);
    assert_eq!(out.len(), 3);
    let twins = vec![win(1, 1, "A", ""), win(1, 2, "A", ""), win(2, 3, "B", "")];
    let (out, _) = build_window_list(twins, 1);
    assert_eq!(out[0].wid, 2);
    assert!(build_window_list(vec![], 5).0.is_empty());
}

#[test]
fn windows_of_one_application_differ_in_colour() {
    let w: Vec<WinEntry> = (0..9).map(|i| win(1, i, "A", "")).chain([win(2, 99, "B", "")]).collect();
    let c = build_window_colors(&w);
    assert_eq!(c[0], Rgb { r: 126, g: 156, b: 216 });
    assert_eq!(c[7], Rgb { r: 106, g: 153, b: 85 });
    assert_eq!(c[8], c[0]);
    assert_eq!(c[9], c[0]);
    for i in 0..8 {
        assert_ne!(c[i], c[i + 1]);
    }
}

#[test]
fn cards_are_cut_to_size() {
    assert_eq!(truncate("short", 13), "short");
    assert_eq!(truncate("a long application", 13), "a long appli…");
    assert_eq!(truncate("", 0), "");
    assert_eq!(card_title(""), "—");
    assert_eq!(card_title("fifteen letters"), "fifteen lette…");
    assert_eq!(glyph_for("iTerm2"), "\u{EA85}");
    assert_eq!(glyph_for("Something"), "\u{F108}");
}

#[test]
fn window_to_raise() {
    let w = vec![
        AxWindow { id: None, title: Some("a".into()) },
        AxWindow { id: Some(7), title: Some("b".into()) },
        AxWindow { id: Some((1 << 32) + 8), title: None },
    ];
    assert_eq!(raise_target(&w, 7, "a"), Some(1));
    assert_eq!(raise_target(&w, 8, ""), Some(2));
    assert_eq!(raise_target(&w, 9, "a"), Some(0));
    assert_eq!(raise_target(&w, 9, ""), None);
    assert_eq!(raise_target(&w, 9, "zzz"), None);
}

#[test]
fn quick_swap_and_cycling() {
    let raw = || vec![win(1, 1, "A", ""), win(2, 2, "B", ""), win(3, 3, "C", "")];
    let mut s = Switcher::default();
    assert!(matches!(s.tab_pressed(raw(), true), TabStep::Show));
    assert_eq!(s.option_released().unwrap().wid, 2);
    assert!(!s.visible);
    assert!(s.option_released().is_none());
    s.tab_pressed(raw(), true);
    let mut seen = Vec::new();
    for _ in 0..4 {
        seen.push(s.windows[s.selected].wid);
        assert!(matches!(s.tab_pressed(vec![], true), TabStep::Draw));
    }
    assert_eq!(seen, vec![2, 3, 1, 2]);
    let mut s = Switcher::default();
    assert!(matches!(s.tab_pressed(raw(), false), TabStep::Raise(e) if e.wid == 2));
    assert!(!s.visible);
    assert!(matches!(s.tab_pressed(vec![win(1, 1, "A", "")], false), TabStep::Draw));
}

#[test]
fn queued_messages_are_taken_one_by_one() {
    let tab = KeyMsg::TabPressed;
    let up = KeyMsg::OptionReleased;
    let raw: Vec<WinEntry> = (1..6).map(|i| win(i as i32, i, "A", "")).collect();
    let ids = |v: Vec<WinEntry>| v.iter().map(|e| e.wid).collect::<Vec<_>>();
    for k in 1..12usize {
        // Shown already: each press advances.
        let mut s = Switcher::default();
        s.take_messages(&vec![tab], &raw, true);
        assert!(s.visible && s.selected == 0);
        assert!(s.take_messages(&vec![tab; k], &vec![], true).is_empty());
        assert!(s.visible);
        assert_eq!(s.selected, k % 5);
        // All at once: the window that as many presses lead to is raised.
        let order: Vec<u32> = s.windows.iter().map(|e| e.wid).collect();
        let mut msgs = vec![tab; k];
        msgs.push(up);
        let mut s = Switcher::default();
        assert_eq!(ids(s.take_messages(&msgs, &raw, false)), vec![order[(k - 1) % 5]]);
        assert!(!s.visible);
    }
    let mut s = Switcher::default();
    assert_eq!(ids(s.take_messages(&vec![tab], &raw, false)), vec![2]);
    assert!(!s.visible);
    assert!(s.take_messages(&vec![up], &raw, false).is_empty());
    assert!(s.take_messages(&vec![], &raw, true).is_empty());
}

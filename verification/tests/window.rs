use mofi::apps::AppEntry;
use mofi::clipboard::{ClipboardContent, ClipboardEntry};
use mofi::config::{theme_by_name, Config, Rgb};
use mofi::explorer::{tokens_of, EnterRequest, ExplorerRows};
use mofi::files::FileEntry;
use mofi::frame::{
    consumes, control_keys, move_down, move_up, rows_of_text, ControlKey, ControlKeys, FrameGate,
    FrameKeys, FrameStart, KeyEvent, UpdateInput, FOCUS_GRACE,
};
use mofi::frecency::FrecencyStore;
use mofi::glyphs::{
    accent_for_name, dim_color, glyph_color_for_item, glyph_for_app, glyph_for_clip,
    glyph_for_item, glyph_for_pass, theme_glyph_for,
};
use mofi::highlight::{highlight_mask, segments, Segment};
use mofi::ipc::Slots;
use mofi::launcher::{Frecency, LaunchItem, ScoreTable};
use mofi::pass::PassEntry;
use mofi::session::{Action, Startup, TabData, TogglePlan};
use mofi::ui::{search_hint, tabs, FileTime, Mode, RofiApp, Toast};

fn app(name: &str) -> AppEntry {
    AppEntry { name: name.into(), path: format!("/apps/{name}.desktop") }
}

fn clip(text: &str) -> ClipboardEntry {
    ClipboardEntry { content: ClipboardContent::Text(text.into()), captured_at: 0 }
}

fn entry(name: &str, is_dir: bool) -> FileEntry {
    FileEntry {
        name: name.into(),
        path: format!("/home/u/{name}"),
        is_dir,
        size: 0,
        modified: 0,
        owner: "u".into(),
    }
}

fn startup() -> Startup {
    Startup {
        apps: vec![app("Alacritty"), app("Firefox"), app("Files")],
        clips: vec![clip("hello"), clip("world")],
        passes: vec![PassEntry { name: "mail/work".into() }],
        config: Config { theme: "nord".into() },
        config_mtime: None,
        frecency: FrecencyStore::default(),
        scores: ScoreTable::default(),
        home: "/home/u".into(),
        listing: Some(vec![entry("src", true), entry("notes.txt", false), entry("pic.png", false)]),
    }
}

fn data() -> TabData {
    TabData {
        apps: vec![app("Alacritty"), app("Firefox"), app("Files")],
        clips: vec![clip("hello"), clip("world"), clip("new")],
        listing: Some(vec![entry("src", true)]),
    }
}

fn shown() -> (RofiApp, Slots) {
    let mut a = RofiApp::new(startup());
    let mut s = Slots::default();
    assert_eq!(a.toggle(&mut s, data()), TogglePlan::Show(Mode::Apps));
    (a, s)
}

fn rows(a: &RofiApp) -> Vec<String> {
    a.filtered.iter().map(|&i| a.items[i].display_name()).collect()
}

const NO_KEYS: FrameKeys = FrameKeys {
    control: ControlKeys { j: 0, k: 0, h: false, l: false },
    arrow_down: false,
    arrow_up: false,
    tab: false,
    enter: false,
};

fn press(a: &mut RofiApp, s: &mut Slots, keys: FrameKeys) -> (bool, Option<Action>) {
    a.handle_keys(s, keys, &vec![clip("hello")], "nord", 1000)
}

#[test]
fn starts_hidden_on_the_apps_tab() {
    let a = RofiApp::new(startup());
    assert!(!a.visible);
    assert_eq!(a.mode, Mode::Apps);
    assert_eq!(rows(&a), vec!["Alacritty", "Firefox", "Files"]);
    assert_eq!(a.theme.name, "nord");
    let one = RofiApp::new_oneshot_with_mode(Mode::Pass, startup());
    assert!(one.visible && one.oneshot_mode);
    assert_eq!(rows(&one), vec!["mail/work"]);
}

#[test]
fn toggling_shows_and_hides() {
    let (mut a, mut s) = shown();
    assert!(a.visible);
    a.query = "fire".into();
    a.query_changed();
    assert_eq!(rows(&a), vec!["Firefox"]);
    assert_eq!(a.toggle(&mut s, data()), TogglePlan::Hide);
    assert!(!a.visible);
    assert_eq!(a.query, "");
    assert_eq!(s.pending_entry, Some(None));
    assert_eq!(s.input_result, None);
}

#[test]
fn a_requested_tab_is_always_shown() {
    let (mut a, mut s) = shown();
    s.pending_mode = Some("clip".into());
    assert_eq!(a.plan_toggle(&s), TogglePlan::Switch(Mode::Clipboard));
    let generation = a.scroll_generation;
    a.drill_target = Some("/x".into());
    assert_eq!(a.toggle(&mut s, data()), TogglePlan::Switch(Mode::Clipboard));
    assert!(a.visible);
    assert_eq!(rows(&a), vec!["hello", "world", "new"]);
    assert_eq!(s.pending_mode, None);
    assert_eq!(a.scroll_generation, generation + 1);
    assert_eq!(a.drill_target, None);
    a.dismiss(&mut s);
    s.pending_mode = Some("files".into());
    assert_eq!(a.toggle(&mut s, data()), TogglePlan::Show(Mode::Files));
    assert_eq!(a.file_pane.entries.len(), 1);
}

#[test]
fn launching_an_application() {
    let (mut a, mut s) = shown();
    let keys = FrameKeys { arrow_down: true, enter: true, ..NO_KEYS };
    match press(&mut a, &mut s, keys) {
        (true, Some(Action::LaunchApp(path))) => assert_eq!(path, "/apps/Firefox.desktop"),
        _ => panic!("expected a launch"),
    }
    assert!(a.should_close);
    assert_eq!(a.oneshot_result, Some(None));
    assert_eq!(a.frecency.times("Firefox"), vec![1000]);
    let start = FrameStart { focused: true, escape: false, grace: FOCUS_GRACE };
    assert_eq!(a.begin_frame(&mut s, start), FrameGate::Closed);
    assert!(!a.visible);
}

#[test]
fn a_pass_entry_is_reported() {
    let (mut a, mut s) = shown();
    a.click_tab(Mode::Pass, &vec![], "nord");
    match press(&mut a, &mut s, FrameKeys { enter: true, ..NO_KEYS }) {
        (true, Some(Action::SaveLaunches)) => {}
        _ => panic!("expected launches to be saved"),
    }
    assert_eq!(s.pending_entry, Some(Some("mail/work".into())));
    a.dismiss(&mut s);
    assert_eq!(s.pending_entry, Some(Some("mail/work".into())));
    assert_eq!(a.oneshot_result, Some(Some("mail/work".into())));
}

#[test]
fn pasting_from_the_clipboard() {
    let (mut a, mut s) = shown();
    a.click_tab(Mode::Clipboard, &vec![clip("x"), clip("y")], "nord");
    let keys = FrameKeys {
        control: ControlKeys { j: 1, k: 0, h: false, l: false },
        enter: true,
        ..NO_KEYS
    };
    match press(&mut a, &mut s, keys) {
        (true, Some(Action::PasteText(t))) => assert_eq!(t, "y"),
        _ => panic!("expected text"),
    }
    let img = ClipboardEntry {
        content: ClipboardContent::Image { png: vec![7], width: 1, height: 1 },
        captured_at: 0,
    };
    a.click_tab(Mode::Clipboard, &vec![img], "nord");
    match press(&mut a, &mut s, FrameKeys { enter: true, ..NO_KEYS }) {
        (true, Some(Action::PasteImage(b))) => assert_eq!(b, vec![7]),
        _ => panic!("expected an image"),
    }
}

#[test]
fn shell_row_runs_the_query() {
    let (mut a, mut s) = shown();
    a.query = " !killall waybar ".into();
    a.query_changed();
    assert!(a.shows_shell_row());
    assert_eq!(a.shell_row_label(), "Run: killall waybar");
    match press(&mut a, &mut s, FrameKeys { enter: true, ..NO_KEYS }) {
        (true, Some(Action::RunShell(cmd))) => assert_eq!(cmd, "killall waybar"),
        _ => panic!("expected a command"),
    }
    a.query = "zzzz".into();
    a.query_changed();
    assert!(!a.shows_shell_row());
    assert!(press(&mut a, &mut s, FrameKeys { enter: true, ..NO_KEYS }).1.is_none());
}

#[test]
fn tab_cycles_through_the_tabs() {
    let (mut a, mut s) = shown();
    let mut seen = vec![a.mode];
    for _ in 0..5 {
        press(&mut a, &mut s, FrameKeys { tab: true, ..NO_KEYS });
        seen.push(a.mode);
    }
    assert_eq!(
        seen,
        vec![Mode::Apps, Mode::Clipboard, Mode::Pass, Mode::Themes, Mode::About, Mode::Apps]
    );
    a.mode = Mode::Files;
    a.press_tab(&vec![], "nord");
    assert_eq!(a.mode, Mode::Themes);
}

#[test]
fn themes_are_previewed_and_restored() {
    let (mut a, mut s) = shown();
    a.enter_themes_mode("nord");
    assert_eq!(a.input_items[2], "* nord");
    assert_eq!(a.selected, 2);
    assert_eq!(a.input_filtered, (0..10).collect::<Vec<_>>());
    press(&mut a, &mut s, FrameKeys { arrow_down: true, ..NO_KEYS });
    assert_eq!(a.theme.name, "tokyonight");
    let start = FrameStart { focused: true, escape: true, grace: FOCUS_GRACE };
    assert_eq!(a.begin_frame(&mut s, start), FrameGate::Closed);
    assert_eq!(a.theme.name, "nord");
    assert_eq!(s.input_result, Some(None));
}

#[test]
fn the_theme_in_force_is_selected() {
    let (mut a, mut s) = shown();
    a.enter_themes_mode("rosepine");
    assert_eq!(a.selected, 9);
    a.enter_themes_mode("no such theme");
    assert_eq!(a.selected, 0);
    a.dismiss(&mut s);
    assert_eq!(a.theme.name, "nord");
    s.pending_input = Some(vec!["kanagawa".into(), "gruvbox".into(), "* nord".into()]);
    s.pending_input_is_themes = true;
    assert_eq!(a.toggle(&mut s, data()), TogglePlan::ShowInput);
    assert_eq!(a.mode, Mode::Themes);
    assert_eq!(a.selected, 2);
}

#[test]
fn input_lines_are_searched_fuzzily() {
    let (mut a, mut s) = shown();
    s.pending_input = Some(vec!["main".into(), "dev".into(), "Moon".into()]);
    assert!(a.poll_input(&mut s));
    a.query = "mn".into();
    a.query_changed();
    assert_eq!(a.input_filtered, vec![0, 2]);
    a.query = "Mn".into();
    a.query_changed();
    assert_eq!(a.input_filtered, vec![2]);
}

#[test]
fn a_confirmed_theme_stays() {
    let (mut a, mut s) = shown();
    a.enter_themes_mode("nord");
    a.query = "drac".into();
    a.query_changed();
    assert_eq!(a.theme.name, "dracula");
    match press(&mut a, &mut s, FrameKeys { enter: true, ..NO_KEYS }) {
        (true, Some(Action::SaveTheme(n))) => assert_eq!(n, "dracula"),
        _ => panic!("expected a theme"),
    }
    a.dismiss(&mut s);
    assert_eq!(a.theme.name, "dracula");
    assert_eq!(s.input_result, Some(Some("dracula".into())));
}

#[test]
fn items_from_a_client_are_chosen_from() {
    let mut a = RofiApp::new(startup());
    let mut s = Slots {
        pending_input: Some(vec!["One".into(), "Two".into(), "Three".into()]),
        ..Slots::default()
    };
    assert_eq!(a.toggle(&mut s, data()), TogglePlan::ShowInput);
    assert_eq!(a.mode, Mode::Input);
    assert_eq!(a.input_filtered, vec![0, 1, 2]);
    a.query = "T".into();
    a.query_changed();
    assert_eq!(a.input_filtered, vec![1, 2]);
    press(&mut a, &mut s, FrameKeys { arrow_down: true, ..NO_KEYS });
    press(&mut a, &mut s, FrameKeys { enter: true, ..NO_KEYS });
    assert_eq!(s.input_result, Some(Some("Three".into())));
    a.dismiss(&mut s);
    assert_eq!(s.input_result, Some(Some("Three".into())));
}

#[test]
fn items_come_up_while_the_window_is_visible() {
    let (mut a, mut s) = shown();
    assert!(!a.poll_input(&mut s));
    s.pending_input = Some(vec!["x".into()]);
    s.pending_input_is_themes = true;
    assert!(a.poll_input(&mut s));
    assert_eq!(a.mode, Mode::Themes);
    assert_eq!(s.pending_input, None);
    assert!(!s.pending_input_is_themes);
    s.pending_input = Some(vec!["y".into()]);
    assert!(!a.poll_input(&mut s));
}

#[test]
fn focus_loss_hides_after_the_grace_frames() {
    let (mut a, mut s) = shown();
    let at = |focused: bool| FrameStart { focused, escape: false, grace: 2 };
    for _ in 0..5 {
        assert_eq!(a.begin_frame(&mut s, at(false)), FrameGate::Open);
    }
    assert_eq!(a.begin_frame(&mut s, at(true)), FrameGate::Open);
    assert_eq!(a.begin_frame(&mut s, at(false)), FrameGate::Closed);
    assert_eq!(a.begin_frame(&mut s, at(false)), FrameGate::Idle);
}

#[test]
fn configuration_changes_are_picked_up() {
    let (mut a, mut s) = shown();
    let t = Some(FileTime { secs: 5, nanos: 0 });
    assert!(a.config_changed(t));
    let input = UpdateInput {
        config_mtime: t,
        config: Config { theme: "monokai".into() },
        toggled: false,
        data: data(),
        start: FrameStart { focused: true, escape: false, grace: FOCUS_GRACE },
        history: vec![clip("only")],
    };
    let out = a.begin_update(&mut s, input);
    assert_eq!(out.gate, FrameGate::Open);
    assert_eq!(out.toggle, None);
    assert_eq!(a.theme.name, "monokai");
    assert!(!a.config_changed(t));
    a.input_is_themes = true;
    assert!(!a.config_changed(None));
}

#[test]
fn clipboard_tab_follows_the_history() {
    let (mut a, _) = shown();
    a.click_tab(Mode::Clipboard, &vec![clip("x"), clip("y"), clip("z")], "nord");
    a.selected = 2;
    a.refresh_clipboard(&vec![clip("n")]);
    assert_eq!(rows(&a), vec!["n"]);
    assert_eq!(a.selected, 0);
}

#[test]
fn control_keys_are_counted() {
    let e = |key, pressed, ctrl| KeyEvent { key, pressed, ctrl };
    let events = vec![
        e(ControlKey::J, true, true),
        e(ControlKey::J, true, true),
        e(ControlKey::J, true, false),
        e(ControlKey::K, false, true),
        e(ControlKey::H, true, true),
        e(ControlKey::Other, true, true),
    ];
    assert_eq!(control_keys(&events), ControlKeys { j: 2, k: 0, h: true, l: false });
    let kept: Vec<bool> = events.iter().map(|e| !consumes(*e)).collect();
    assert_eq!(kept, vec![false, false, true, true, false, true]);
}

#[test]
fn selection_stays_in_the_list() {
    assert_eq!(move_down(0, 3, 1), 1);
    assert_eq!(move_down(1, 3, 9), 2);
    assert_eq!(move_down(5, 3, 1), 2);
    assert_eq!(move_down(5, 0, 1), 5);
    assert_eq!(move_up(2, 3, 1), 1);
    assert_eq!(move_up(1, 3, 9), 0);
    assert_eq!(move_up(1, 0, 1), 1);
    assert_eq!(move_up(move_down(4, 100, 7), 100, 7), 4);
}

#[test]
fn scrolling_once_per_row() {
    let (mut a, _) = shown();
    assert!(a.scroll_to_row(0));
    assert!(!a.scroll_to_row(0));
    assert!(!a.scroll_to_row(1));
    a.request_scroll_reset();
    assert!(a.scroll_to_row(0));
}

#[test]
fn toasts_expire() {
    let (mut a, _) = shown();
    assert!(!a.toast_visible(0));
    a.toast = Some(Toast { message: "hi".into(), since: 100 });
    assert!(a.toast_visible(1599));
    assert!(!a.toast_visible(1600));
    assert!(a.toast.is_none());
}

#[test]
fn oneshot_ends_with_a_result() {
    let mut a = RofiApp::new_oneshot_with_mode(Mode::Apps, startup());
    let mut s = Slots::default();
    assert!(!a.exit_requested());
    a.dismiss(&mut s);
    assert!(a.exit_requested());
    assert_eq!(a.oneshot_result, Some(None));
}

#[test]
fn frecency_reorders_the_apps() {
    let mut start = startup();
    start.scores.set_score("Files", Frecency { order: 3, bonus: 3 });
    let a = RofiApp::new(start);
    assert_eq!(rows(&a), vec!["Files", "Alacritty", "Firefox"]);
}

#[test]
fn explorer_enters_directories_and_files() {
    let (mut a, _) = shown();
    a.click_tab(Mode::Files, &vec![], "nord");
    let r = a.explorer_rows(None);
    assert_eq!(r.total(), 3);
    assert!(matches!(a.explorer_request(&r), EnterRequest::Entry(0)));
    assert_eq!(a.breadcrumb_path(&r), "/home/u/src");
    assert_eq!(a.explorer_enter(&r, Some(Some(vec![entry("main.rs", false)]))), None);
    assert_eq!(a.file_pane.cwd, "/home/u/src");
    let r = a.explorer_rows(None);
    assert_eq!(a.explorer_enter(&r, None), Some("/home/u/main.rs".into()));
    assert!(a.should_close);
    a.explorer_up(Some(vec![entry("b", true), entry("src", true)]));
    assert_eq!(a.file_pane.cwd, "/home/u");
    assert_eq!(a.file_pane.selected, 1);
}

#[test]
fn explorer_filters_by_every_word() {
    let (mut a, _) = shown();
    a.click_tab(Mode::Files, &vec![], "nord");
    a.query = "HOME txt".into();
    match a.explorer_rows(None) {
        ExplorerRows::Normal { zoxide, filtered } => {
            assert_eq!(zoxide, 0);
            assert_eq!(filtered.len(), 1);
            assert_eq!(a.file_pane.entries[filtered[0]].name, "notes.txt");
        }
        _ => panic!("expected entries"),
    }
    assert_eq!(tokens_of("  A  bC "), vec!["a", "bc"]);
}

#[test]
fn zoxide_rows_are_asked_for_once_per_query() {
    let (mut a, _) = shown();
    a.click_tab(Mode::Files, &vec![], "nord");
    assert_eq!(a.update_zoxide(), None);
    a.query = "pro".into();
    assert_eq!(a.update_zoxide(), Some("pro".into()));
    assert_eq!(a.update_zoxide(), None);
    let text: String = (0..12).map(|i| format!("/p/{i}\n")).collect();
    a.zoxide_answered(Some(text.as_bytes()));
    assert_eq!(a.zoxide_results.len(), 8);
    assert_eq!(rows_of_text("a\nb"), vec!["a", "b"]);
    let r = a.explorer_rows(None);
    assert!(matches!(a.explorer_request(&r), EnterRequest::Visit(p) if p == "/p/0"));
    a.query.clear();
    assert_eq!(a.update_zoxide(), None);
    assert!(a.zoxide_results.is_empty());
    a.query = "x".into();
    a.update_zoxide();
    a.zoxide_answered(Some(&[b'/', 0xff]));
    assert_eq!(a.zoxide_results, vec!["/\u{FFFD}"]);
    a.zoxide_answered(None);
    assert!(a.zoxide_results.is_empty());
}

#[test]
fn drilling_into_a_zoxide_row() {
    let (mut a, _) = shown();
    a.click_tab(Mode::Files, &vec![], "nord");
    a.zoxide_results = vec!["/p/one".into(), "/p/two".into()];
    a.selected = 1;
    a.query = "pro ".into();
    a.manage_drill();
    assert_eq!(a.drill_target.as_deref(), Some("/p/two"));
    assert_eq!(a.selected, 1);
    a.query = "pro sr".into();
    a.manage_drill();
    let r = a.explorer_rows(Some(vec![entry("src", true), entry("doc", true)]));
    assert_eq!(r.total(), 2);
    assert!(matches!(a.explorer_request(&r), EnterRequest::Descend(p) if p == "/home/u/src"));
    a.explorer_navigate(&r, 0, 1);
    assert!(matches!(a.explorer_request(&r), EnterRequest::Visit(p) if p == "/p/two"));
    a.selected = 9;
    a.clamp_selection(&r);
    assert_eq!(a.selected, 1);
    a.query = "pro".into();
    a.manage_drill();
    assert_eq!(a.drill_target, None);
}

#[test]
fn visiting_needs_a_directory() {
    let (mut a, _) = shown();
    a.click_tab(Mode::Files, &vec![], "nord");
    a.zoxide_results = vec!["/p/one".into()];
    a.query = "one".into();
    let r = a.explorer_rows(None);
    a.explorer_enter(&r, None);
    assert_eq!(a.file_pane.cwd, "/home/u");
    assert_eq!(a.query, "");
    a.zoxide_results = vec!["/p/one".into()];
    a.query = "one".into();
    let r = a.explorer_rows(None);
    a.explorer_enter(&r, Some(Some(vec![])));
    assert_eq!(a.file_pane.cwd, "/p/one");
}

#[test]
fn tray_follows_the_selection() {
    let (mut a, _) = shown();
    let t = a.update_tray();
    assert_eq!((t.glyph.as_str(), t.label.as_str()), ("\u{F0E7}", "mofi — Alacritty"));
    a.click_tab(Mode::Pass, &vec![], "nord");
    let t = a.update_tray();
    assert_eq!((t.glyph.as_str(), t.label.as_str()), ("\u{F0E0}", "mofi — mail/work"));
    a.click_tab(Mode::About, &vec![], "nord");
    let t = a.update_tray();
    assert_eq!((t.glyph.as_str(), t.label.as_str()), ("\u{F2D0}", "mofi — mofi"));
    assert_eq!(t.fg, Rgb { r: 0x7E, g: 0x9C, b: 0xD8 });
    a.enter_themes_mode("kanagawa");
    let t = a.update_tray();
    assert_eq!((t.glyph.as_str(), t.label.as_str()), ("\u{E6AC}", "mofi — kanagawa"));
    a.visible = false;
    assert!(!a.update_tray().visible);
}

#[test]
fn icons_of_clipboard_text() {
    assert_eq!(glyph_for_clip(" https://x.y "), "\u{F0AC}");
    assert_eq!(glyph_for_clip("me@example.org"), "\u{F0E0}");
    assert_eq!(glyph_for_clip("/etc/hosts"), "\u{F15B}");
    assert_eq!(glyph_for_clip("~/x"), "\u{F15B}");
    assert_eq!(glyph_for_clip("550e8400-e29b-41d4-a716-446655440000"), "\u{F0CB2}");
    assert_eq!(glyph_for_clip("0xDEAD_BEEF"), "\u{F0CB2}");
    assert_eq!(glyph_for_clip(""), "\u{F0CB2}");
    assert_eq!(glyph_for_clip("one\ntwo"), "\u{F0219}");
    assert_eq!(glyph_for_clip("a short note"), "\u{F0F6}");
    assert_eq!(glyph_for_clip(&"ä ".repeat(20)), "\u{F0F6}");
    assert_eq!(glyph_for_clip(&"ä ".repeat(21)), "\u{F0219}");
}

#[test]
fn icons_and_accents_of_items() {
    assert_eq!(glyph_for_pass("work/SSH-key"), "\u{F0306}");
    assert_eq!(glyph_for_pass("a/b"), "\u{F023}");
    assert_eq!(glyph_for_pass("plain"), "\u{F09C0}");
    assert_eq!(glyph_for_app("Mozilla Firefox"), "\u{E745}");
    assert_eq!(glyph_for_app("Xcode"), "\u{E8DA}");
    assert_eq!(glyph_for_app("Unknown"), "\u{F2D0}");
    assert_eq!(theme_glyph_for("dracula"), "\u{F0B4B}");
    assert_eq!(theme_glyph_for("x"), "\u{F53F}");
    let img = LaunchItem::Clip(ClipboardEntry {
        content: ClipboardContent::Image { png: vec![], width: 1, height: 1 },
        captured_at: 0,
    });
    assert_eq!(glyph_for_item(&img), "\u{F03E}");
    let t = theme_by_name("nord");
    assert_eq!(glyph_color_for_item(&img, &t), t.accent2);
    assert_eq!(accent_for_name(""), Rgb { r: 0x7E, g: 0x9C, b: 0xD8 });
    assert_eq!(accent_for_name("A"), Rgb { r: 0xFF, g: 0xA0, b: 0x66 });
    assert_eq!(accent_for_name("Ä"), accent_for_name("\u{c5}"));
    assert_eq!(dim_color(Rgb { r: 255, g: 1, b: 3 }), Rgb { r: 170, g: 0, b: 2 });
}

#[test]
fn matches_are_highlighted() {
    let mask = highlight_mask("ReadMe.md", &vec!["me".into(), "d".into()]);
    assert_eq!(
        mask,
        vec![false, false, false, true, true, true, false, false, true]
    );
    let s = |start, end, highlighted| Segment { start, end, highlighted };
    assert_eq!(
        segments(&mask),
        vec![s(0, 3, false), s(3, 6, true), s(6, 8, false), s(8, 9, true)]
    );
    assert_eq!(highlight_mask("aaaa", &vec!["aa".into()]), vec![true; 4]);
    assert_eq!(highlight_mask("é", &vec![]), vec![false; 2]);
    assert!(segments(&vec![]).is_empty());
}

#[test]
fn tabs_and_hints() {
    assert_eq!(tabs(Mode::Input), vec![(Mode::Input, "Input")]);
    let labels: Vec<&str> = tabs(Mode::Apps).into_iter().map(|t| t.1).collect();
    assert_eq!(labels, vec!["Apps", "Clipboard", "Pass", "Files", "Themes", "About"]);
    assert_eq!(search_hint(Mode::Apps), "Search apps…");
    assert_eq!(search_hint(Mode::About), "");
}

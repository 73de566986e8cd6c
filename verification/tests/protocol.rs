use mofi::cli::{
    already_running_message, launchd_plist, parse_command, skhd_addition, systemd_service, Command,
    Tab, DEFAULT_CONFIG,
};
use mofi::ipc::{
    entry_to_decrypt, input_items, message_for_items, parse_request, poll_input, selected_entry,
    selected_item, tab_message, theme_choice, theme_lines, EntryWait, Request, Slots, SocketMsg,
    ThemeChoice, WaitFor, WaitStep,
};

#[test]
fn requests_are_parsed() {
    assert!(matches!(parse_request("ready\n"), Request::Ready));
    assert!(matches!(parse_request("show:pass\n"), Request::Show(t) if t == "pass"));
    assert!(matches!(parse_request("tab:clip\n"), Request::Tab(t) if t == "clip"));
    assert!(matches!(parse_request("nonsense"), Request::Other));
    assert!(matches!(parse_request("inputs"), Request::Other));
    match parse_request("input\ta\t\tb c\n") {
        Request::Input(items, themes) => {
            assert_eq!(items, vec!["a", "", "b c"]);
            assert!(!themes);
        }
        _ => panic!("expected items"),
    }
    assert!(matches!(parse_request("themes\tx\n"), Request::Input(_, true)));
}

#[test]
fn items_arrive_with_tabs_replaced() {
    let items: Vec<String> = vec!["one".into(), "two\tthree".into(), "".into()];
    let msg = message_for_items(&items, false);
    assert_eq!(msg, "input\tone\ttwo three\t\n");
    match parse_request(&msg) {
        Request::Input(got, false) => assert_eq!(got, vec!["one", "two three", ""]),
        _ => panic!("expected items"),
    }
    assert_eq!(message_for_items(&vec!["x".into()], true), "themes\tx\n");
    assert_eq!(tab_message("pass"), "tab:pass\n");
}

#[test]
fn empty_lines_are_no_items() {
    assert_eq!(input_items(vec!["a".into(), "".into(), "b".into()]), vec!["a", "b"]);
    assert!(input_items(vec!["".into()]).is_empty());
}

#[test]
fn posting_a_request() {
    let mut s = Slots {
        pending_entry: Some(Some("stale".into())),
        input_result: Some(None),
        ..Slots::default()
    };
    assert_eq!(parse_request("tab:pass").post(&mut s), (true, WaitFor::Entry));
    assert_eq!(s.pending_mode.as_deref(), Some("pass"));
    assert_eq!(s.pending_entry, None);
    assert_eq!(parse_request("themes\ta\tb").post(&mut s), (true, WaitFor::Input));
    assert_eq!(s.input_result, None);
    assert_eq!(s.pending_input, Some(vec!["a".to_string(), "b".to_string()]));
    assert!(s.pending_input_is_themes);
    s.pending_entry = Some(None);
    assert_eq!(parse_request("show:clip").post(&mut s), (true, WaitFor::Nothing));
    assert_eq!(s.pending_entry, Some(None));
    assert_eq!(parse_request("ready").post(&mut s), (true, WaitFor::Entry));
    assert_eq!(s.pending_entry, None);
    assert_eq!(parse_request("?").post(&mut s), (false, WaitFor::Entry));
    assert!(matches!(parse_request("input\ta").message(), SocketMsg::InputItems(v) if v == ["a"]));
    assert!(matches!(parse_request("ready").message(), SocketMsg::Ready));
}

#[test]
fn answers_to_items() {
    let mut s = Slots::default();
    assert_eq!(poll_input(&mut s), None);
    s.input_result = Some(Some("two words".into()));
    assert_eq!(poll_input(&mut s), Some("ok:two words\n".into()));
    assert_eq!(s.input_result, None);
    s.input_result = Some(None);
    assert_eq!(poll_input(&mut s), Some("cancel\n".into()));
}

#[test]
fn selection_arrives_at_the_client() {
    assert_eq!(selected_item("ok:  main\n"), Some("  main".into()));
    assert_eq!(selected_item("cancel\n"), None);
    assert_eq!(selected_item(""), None);
    assert_eq!(selected_entry("a/b\n"), Some("a/b".into()));
    assert_eq!(selected_entry("\n"), None);
    assert_eq!(entry_to_decrypt("pass", "a/b\n"), Some("a/b".into()));
    assert_eq!(entry_to_decrypt("clip", "a/b\n"), None);
}

#[test]
fn waiting_ends_with_an_entry_or_after_thirty_seconds() {
    let mut s = Slots::default();
    let mut w = EntryWait::default();
    assert!(matches!(w.step(&mut s), WaitStep::Sleep));
    s.pending_entry = Some(Some("x".into()));
    assert!(matches!(w.step(&mut s), WaitStep::Answer(a) if a == "x\n"));
    assert_eq!(s.pending_entry, None);
    let mut w = EntryWait::default();
    let mut sleeps = 0;
    loop {
        match w.step(&mut s) {
            WaitStep::Sleep => sleeps += 1,
            WaitStep::Answer(a) => {
                assert_eq!(a, "\n");
                break;
            }
        }
    }
    assert_eq!(sleeps, 601);
    let mut w = EntryWait::default();
    s.pending_entry = Some(None);
    assert!(matches!(w.step(&mut s), WaitStep::Answer(a) if a == "\n"));
}

#[test]
fn theme_picker_lines() {
    let lines = theme_lines("nord");
    assert_eq!(lines.len(), 10);
    assert_eq!(lines[0], "kanagawa");
    assert_eq!(lines[2], "* nord");
    assert!(matches!(theme_choice("ok:* nord\n"), ThemeChoice::Save(n) if n == "nord"));
    assert!(matches!(theme_choice("ok:vim\n"), ThemeChoice::Unknown(n) if n == "vim"));
    assert!(matches!(theme_choice("cancel\n"), ThemeChoice::Nothing));
}

#[test]
fn commands() {
    assert_eq!(parse_command(None, true), Command::Daemon);
    assert_eq!(parse_command(Some("--daemon"), true), Command::Daemon);
    assert_eq!(parse_command(Some("--client"), true), Command::StartTab(Tab::Apps));
    assert_eq!(parse_command(Some("--client"), false), Command::Client);
    assert_eq!(parse_command(Some("--password"), true), Command::StartTab(Tab::Pass));
    assert_eq!(parse_command(Some("--clipboard"), false), Command::ShowTab(Tab::Clip));
    assert_eq!(parse_command(Some("--files"), true), Command::StartTab(Tab::Files));
    assert_eq!(parse_command(Some("--pass"), true), Command::ShowTab(Tab::Pass));
    assert_eq!(parse_command(Some("--clip"), true), Command::ShowTab(Tab::Clip));
    assert_eq!(parse_command(Some("--input"), true), Command::Input);
    assert_eq!(parse_command(Some("--themes"), true), Command::Themes);
    assert_eq!(parse_command(Some("--install"), true), Command::Install);
    assert_eq!(parse_command(Some("--restart"), true), Command::Restart);
    assert_eq!(Tab::Files.name(), "files");
    assert_eq!(
        already_running_message(" 42\n"),
        "mofi: daemon already running (pid 42). Not starting a second instance."
    );
}

#[test]
fn installed_files() {
    let plist = launchd_plist("/opt/mofi");
    assert!(plist.starts_with("<?xml version=\"1.0\" encoding=\"UTF-8\"?>\n<!DOCTYPE plist"));
    assert!(plist.contains("        <string>/opt/mofi</string>\n        <string>--daemon</string>\n"));
    assert!(plist.ends_with("</dict>\n</plist>\n"));
    let service = systemd_service("/opt/mofi");
    assert!(service.starts_with("[Unit]\nDescription=mofi launcher daemon\n"));
    assert!(service.contains("\nExecStart=/opt/mofi --daemon\nRestart=on-failure\n"));
    assert_eq!(DEFAULT_CONFIG, "theme = \"kanagawa\"\n");
}

#[test]
fn hotkeys_are_added_once() {
    let block = skhd_addition("", "/m").unwrap();
    assert_eq!(
        block,
        "\n# mofi\ncmd - space : /m --client\ncmd + shift - p : /m --pass\ncmd + shift - y : /m --clip\n"
    );
    assert_eq!(skhd_addition(&format!("old{block}"), "/m"), None);
}

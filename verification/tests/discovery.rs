use mofi::apps::{
    bundle_dirs, collect_app, discover_apps, discover_bundles, is_bundle, parse_desktop_file,
    scan_bundles, search_dirs, BundleCandidate, DesktopFile,
};
use mofi::config::join_path;
use mofi::fonts::{font_candidates, font_search_dirs, font_search_dirs_macos, is_font_file};
use mofi::pass::{
    clear_script, copy_step, discover_pass_entries, gnupg_home, password_from_output,
    path_env_linux, path_env_macos, relative_name, skips, CopyStep, CopyTool, StoreNode,
};

const FIREFOX: &str = "[Desktop Entry]\nType=Application\nName=Firefox\nName[de]=Feuerfuchs\nExec=firefox %u\n[Desktop Action new]\nName=New Window\nNoDisplay=true\n";

fn file(path: &str, content: &str) -> DesktopFile {
    DesktopFile { path: path.into(), content: Some(content.into()) }
}

#[test]
fn desktop_file_of_an_application() {
    let mut seen = Vec::new();
    let app = parse_desktop_file("/a/firefox.desktop", FIREFOX, &mut seen).unwrap();
    assert_eq!(app.name, "Firefox");
    assert_eq!(app.path, "/a/firefox.desktop");
    assert_eq!(seen, vec!["/a/firefox.desktop"]);
    assert!(parse_desktop_file("/a/firefox.desktop", FIREFOX, &mut seen).is_none());
}

#[test]
fn desktop_files_that_are_not_shown() {
    let parse = |c: &str| parse_desktop_file("/x.desktop", c, &mut Vec::new()).map(|a| a.name);
    assert_eq!(parse("[Desktop Entry]\nType=Application\nName=A\nNoDisplay=true"), None);
    assert_eq!(parse("[Desktop Entry]\nType=Application\nName=A\nHidden=true"), None);
    assert_eq!(parse("[Desktop Entry]\nType=Link\nName=A"), None);
    assert_eq!(parse("[Desktop Entry]\nName=A"), None);
    assert_eq!(parse("[Desktop Entry]\nType=Application"), None);
    assert_eq!(parse("Type=Application\nName=A"), None);
    assert_eq!(parse(""), None);
    assert_eq!(
        parse("[Other]\nName=B\n  [Desktop Entry]  \n  Type=Application\n Name=A\nName=C"),
        Some("A".into())
    );
    assert_eq!(
        parse("[Desktop Entry]\nType=Link\nType=Application\nName=A"),
        Some("A".into())
    );
    assert_eq!(
        parse("[Desktop Entry]\nType=Application\n[Desktop Entry]\nName=A"),
        Some("A".into())
    );
}

#[test]
fn applications_are_sorted_without_case() {
    let make = |n: &str| format!("[Desktop Entry]\nType=Application\nName={n}\n");
    let files = vec![
        file("/a/zed.desktop", &make("zed")),
        file("/a/Alpha.desktop", &make("Alpha")),
        file("/a/notes.txt", &make("Notes")),
        file("/b/beta.desktop", &make("beta")),
        file("/a/Alpha.desktop", &make("Other")),
        DesktopFile { path: "/a/unreadable.desktop".into(), content: None },
    ];
    let names: Vec<_> = discover_apps(&files).into_iter().map(|a| a.name).collect();
    assert_eq!(names, vec!["Alpha", "beta", "zed"]);
}

#[test]
fn search_directories() {
    assert_eq!(
        search_dirs(Some("/home/u".into()), None),
        vec![
            "/home/u/.local/share/applications",
            "/usr/local/share/applications",
            "/usr/share/applications"
        ]
    );
    assert_eq!(
        search_dirs(None, Some("/x:/y".into())),
        vec!["/x/applications", "/y/applications"]
    );
    assert_eq!(
        bundle_dirs("/Users/u"),
        vec!["/Applications", "/System/Applications", "/Users/u/Applications"]
    );
}

#[test]
fn bundles_one_level_down() {
    assert!(is_bundle("/Applications/Safari.app"));
    assert!(!is_bundle("/Applications/Utilities"));
    let entries = vec![
        BundleCandidate { path: "/Applications/Safari.app".into(), children: None },
        BundleCandidate {
            path: "/Applications/Utilities".into(),
            children: Some(vec![
                "/Applications/Utilities/Terminal.app".into(),
                "/Applications/Utilities/readme.txt".into(),
            ]),
        },
    ];
    let paths = scan_bundles(&entries);
    assert_eq!(paths, vec!["/Applications/Safari.app", "/Applications/Utilities/Terminal.app"]);
    let twice: Vec<String> = paths.iter().rev().chain(paths.iter()).cloned().collect();
    let names: Vec<_> = discover_bundles(&twice).into_iter().map(|a| a.name).collect();
    assert_eq!(names, vec!["Safari", "Terminal"]);
    let (mut seen, mut apps) = (Vec::new(), Vec::new());
    collect_app("/x/Foo.app", &mut seen, &mut apps);
    collect_app("/x/Foo.app", &mut seen, &mut apps);
    assert_eq!(apps.len(), 1);
    assert_eq!(apps[0].name, "Foo");
}

#[test]
fn pass_entries_of_a_store() {
    let root = "/home/u/.password-store";
    let f = |p: &str| StoreNode::File(format!("{root}/{p}"));
    let nodes = vec![
        f(".gpg-id"),
        f("Zeta.gpg"),
        f("notes.txt"),
        StoreNode::Directory(
            format!("{root}/disney"),
            vec![StoreNode::Directory(
                format!("{root}/disney/aws"),
                vec![f("disney/aws/accesskey.gpg")],
            )],
        ),
        StoreNode::Directory(format!("{root}/.git"), vec![f(".git/x.gpg")]),
        f("alpha.gpg"),
    ];
    let names: Vec<_> = discover_pass_entries(root, &nodes).into_iter().map(|e| e.name).collect();
    assert_eq!(names, vec!["alpha", "disney/aws/accesskey", "Zeta"]);
    assert_eq!(relative_name(root, "/elsewhere/x.gpg"), None);
    assert_eq!(relative_name(root, &format!("{root}/a/b.gpg")), Some("a/b".into()));
    assert!(skips("/x/.git"));
    assert!(!skips("/x/git"));
}

#[test]
fn an_entry_is_named_by_its_path_in_the_store() {
    for root in ["/home/u/.password-store", "/", "", ".", "store", "/a//b", "/a/..", "../s"] {
        for name in ["x", "a/b", "a/b/c d", ".x", "a.b/c.d", "...", "b.", "a/..b", "ä/ö"] {
            let file = join_path(root, &format!("{name}.gpg"));
            assert_eq!(relative_name(root, &file).as_deref(), Some(name), "{root} {name}");
        }
    }
    assert_eq!(relative_name("/s", "/s/x"), Some("x".into()));
    assert_eq!(relative_name("/s", "/st/x.gpg"), None);
}

#[test]
fn password_is_the_first_line() {
    assert_eq!(password_from_output(b"s3cret\nuser: me\n"), Some("s3cret".into()));
    assert_eq!(password_from_output("pässwort".as_bytes()), Some("pässwort".into()));
    assert_eq!(password_from_output(b"\nsecond"), None);
    assert_eq!(password_from_output(b""), None);
    assert_eq!(password_from_output(&[0xff, 0xfe]), None);
}

#[test]
fn environment_of_pass() {
    assert_eq!(gnupg_home(None, "/home/u"), "/home/u/.gnupg");
    assert_eq!(gnupg_home(Some("/g".into()), "/home/u"), "/g");
    assert_eq!(
        path_env_linux("/h"),
        "/usr/local/bin:/usr/bin:/bin:/usr/sbin:/sbin:/h/.local/bin:/h/.local/share/mise/shims"
    );
    assert_eq!(
        path_env_macos("/h"),
        "/opt/homebrew/bin:/opt/homebrew/sbin:/usr/local/bin:/usr/bin:/bin:/usr/sbin:/sbin:/h/.local/bin"
    );
}

#[test]
fn copy_tools_are_tried_in_turn() {
    assert_eq!(copy_step(&vec![]), CopyStep::Run(CopyTool::WlCopy));
    assert_eq!(copy_step(&vec![true]), CopyStep::Copied);
    assert_eq!(copy_step(&vec![false]), CopyStep::Run(CopyTool::Xclip));
    assert_eq!(copy_step(&vec![false, true]), CopyStep::Copied);
    assert_eq!(copy_step(&vec![false, false]), CopyStep::Failed);
}

#[test]
fn clipboard_is_cleared_after_45_seconds() {
    assert_eq!(
        clear_script(),
        "sleep 45\ncurrent=\"$(wl-paste --no-newline 2>/dev/null)\"\nif [ \"$current\" = \"$MOFI_CLIP_EXPECT\" ]; then\n  wl-copy --clear 2>/dev/null\nfi"
    );
}

#[test]
fn fonts_exact_then_similar() {
    let dirs = font_search_dirs(Some("/h".into()));
    assert_eq!(dirs[0], "/h/.local/share/fonts");
    assert_eq!(dirs.len(), 6);
    assert_eq!(font_search_dirs(None).len(), 4);
    assert_eq!(font_search_dirs_macos(Some("/h".into())), vec!["/h/Library/Fonts"]);
    assert!(font_search_dirs_macos(None).is_empty());
    assert_eq!(
        font_candidates("M", &vec!["/a".into(), "/b".into()]),
        vec!["/a/M.ttf", "/b/M.ttf", "/a/M.otf", "/b/M.otf"]
    );
    assert!(is_font_file("MapleMono-NF-Regular(1).ttf", "MapleMono-NF-Regular"));
    assert!(!is_font_file("MapleMono-NF-Regular.woff", "MapleMono-NF-Regular"));
    assert!(!is_font_file("Other.ttf", "MapleMono-NF-Regular"));
}

#[test]
fn pass_names_are_sorted_without_case() {
    let file = |n: &str| StoreNode::File(format!("/store/{n}.gpg"));
    let nodes = vec![
        file("zebra"),
        StoreNode::Directory("/store/Bank".into(), vec![
            StoreNode::File("/store/Bank/visa.gpg".into()),
        ]),
        file("alpha"),
        file("Alpha"),
    ];
    let names: Vec<String> = discover_pass_entries("/store", &nodes)
        .into_iter()
        .map(|e| e.name)
        .collect();
    assert_eq!(names, vec!["alpha", "Alpha", "Bank/visa", "zebra"]);
}

#[test]
fn a_bundle_counts_once() {
    let paths: Vec<String> = ["/B.app", "/a.app", "/B.app", "/x/B.app"]
        .iter()
        .map(|p| p.to_string())
        .collect();
    let apps: Vec<(String, String)> = discover_bundles(&paths)
        .into_iter()
        .map(|a| (a.name, a.path))
        .collect();
    let pair = |n: &str, p: &str| (n.to_string(), p.to_string());
    assert_eq!(apps, vec![pair("a", "/a.app"), pair("B", "/B.app"), pair("B", "/x/B.app")]);
}

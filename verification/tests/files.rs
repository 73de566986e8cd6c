use mofi::config::join_path;
use mofi::files::{
    arrange, dir_children, filter_entries, format_time, glyph_for_file, is_image, owner_name,
    EnterAction, FileEntry, LocalTime, Pane,
};

fn entry(name: &str, is_dir: bool, modified: i64) -> FileEntry {
    FileEntry {
        name: name.into(),
        path: format!("/home/u/{name}"),
        is_dir,
        size: 10,
        modified,
        owner: "u".into(),
    }
}

fn names(v: &[FileEntry]) -> Vec<&str> {
    v.iter().map(|e| e.name.as_str()).collect()
}

#[test]
fn directories_first_newest_first() {
    let raw = vec![
        entry("old.txt", false, 1),
        entry(".hidden", false, 99),
        entry("new.txt", false, 5),
        entry("src", true, 2),
        entry("doc", true, 9),
        entry("same.txt", false, 5),
    ];
    assert_eq!(names(&arrange(&raw)), vec!["doc", "src", "new.txt", "same.txt", "old.txt"]);
}

#[test]
fn scan_failure_clears_entries() {
    let mut p = Pane::new("/home/u", Some(vec![entry("a", false, 1), entry("b", false, 2)]));
    assert_eq!(p.selected, 0);
    p.selected = 1;
    p.scan(None);
    assert!(p.entries.is_empty());
    assert_eq!(p.selected, 1);
}

#[test]
fn entering_a_directory_or_a_file() {
    let mut p = Pane::new("/home/u", Some(vec![entry("src", true, 1), entry("a.txt", false, 2)]));
    assert_eq!(p.enter_target(), Some("/home/u/src".to_string()));
    assert!(matches!(
        p.enter_selected(Some(vec![entry("main.rs", false, 1)])),
        Some(EnterAction::NavigatedDir)
    ));
    assert_eq!(p.cwd, "/home/u/src");
    assert_eq!(names(&p.entries), vec!["main.rs"]);
    match p.enter_selected(None) {
        Some(EnterAction::OpenFile(path)) => assert_eq!(path, "/home/u/main.rs"),
        _ => panic!("expected a file"),
    }
    p.selected = 7;
    assert!(p.enter_selected(None).is_none());
}

#[test]
fn going_up_selects_where_it_came_from() {
    let mut p = Pane::new("/home/u", None);
    assert_eq!(p.up_target(), Some("/home".to_string()));
    assert!(p.go_up(Some(vec![entry("x", true, 3), entry("u", true, 1)])));
    assert_eq!(p.cwd, "/home");
    assert_eq!(p.selected, 1);
    assert!(p.go_up(Some(vec![entry("x", true, 3)])));
    assert_eq!(p.cwd, "/");
    assert_eq!(p.selected, 0);
    assert!(!p.go_up(None));
    assert_eq!(p.cwd, "/");
}

#[test]
fn going_up_comes_back_to_where_a_directory_was_entered() {
    for dir in ["/", "/home/u", "/a/../b", "/x/./y", "rel", ".", "..", "/tail.", ""] {
        for name in ["src", ".hidden", "a b", "x.y", "..."] {
            let path = join_path(dir, name);
            let listing = |p: &str| {
                Some(vec![
                    FileEntry { path: join_path(dir, "zzz"), ..entry("zzz", true, 9) },
                    FileEntry { path: p.to_string(), ..entry(name, true, 1) },
                ])
            };
            let mut p = Pane::new(dir, listing(&path));
            if name == ".hidden" || name == "..." {
                p = Pane::new(&path, None);
            } else {
                p.selected = 1;
                assert!(matches!(p.enter_selected(None), Some(EnterAction::NavigatedDir)));
            }
            assert_eq!(p.cwd, path);
            assert!(p.go_up(listing(&path)), "{path}");
            assert_eq!(p.cwd, dir, "{path}");
            if name != ".hidden" && name != "..." {
                assert_eq!(p.entries[p.selected].name, name);
            }
        }
    }
}

#[test]
fn every_token_has_to_occur() {
    let v = vec![entry("Main.rs", false, 1), entry("lib.rs", false, 1), entry("Main.py", false, 1)];
    let t = |s: &str| s.split(' ').filter(|x| !x.is_empty()).map(String::from).collect::<Vec<_>>();
    assert_eq!(filter_entries(&v, &t("main rs")), vec![0]);
    assert_eq!(filter_entries(&v, &t("")), vec![0, 1, 2]);
    assert_eq!(filter_entries(&v, &t("home .rs")), vec![0, 1]);
    let children = dir_children(Some(v), &t("main"));
    assert_eq!(names(&children), vec!["Main.rs", "Main.py"]);
    assert!(dir_children(None, &t("main")).is_empty());
}

#[test]
fn images_by_extension() {
    assert!(is_image(&entry("A.PNG", false, 0)));
    assert!(is_image(&entry("logo.svg", false, 0)));
    assert!(!is_image(&entry("svg", false, 0)));
    assert!(!is_image(&entry("png", false, 0)));
    assert!(!is_image(&entry("a.png", true, 0)));
    assert!(!is_image(&entry("a.txt", false, 0)));
}

#[test]
fn file_icons() {
    assert_eq!(glyph_for_file(&entry("src", true, 0)), "\u{F07B}");
    assert_eq!(glyph_for_file(&entry("main.rs", false, 0)), "\u{E7A8}");
    assert_eq!(glyph_for_file(&entry("Photo.JPEG", false, 0)), "\u{F03E}");
    assert_eq!(glyph_for_file(&entry("Makefile", false, 0)), "\u{E673}");
    assert_eq!(glyph_for_file(&entry("CMakeLists.txt", false, 0)), "\u{F0219}");
    assert_eq!(glyph_for_file(&entry("Dockerfile", false, 0)), "\u{E7B0}");
    assert_eq!(glyph_for_file(&entry("LICENSE-MIT", false, 0)), "\u{F0219}");
    assert_eq!(glyph_for_file(&entry("unknown.xyz", false, 0)), "\u{F15B}");
}

#[test]
fn times_with_hour_or_year() {
    let t = LocalTime { month: 0, day: 5, hour: 14, minute: 30, year: 124 };
    assert_eq!(format_time(1_000_000, t, 1_000_100), "Jan 05 14:30");
    assert_eq!(format_time(1_000_000, t, 1_000_000 + 15_552_000), "Jan 05  2024");
    assert_eq!(format_time(1_000_000, t, 1_000_000 + 15_551_999), "Jan 05 14:30");
    let d = LocalTime { month: 11, day: 31, hour: 9, minute: 7, year: 99 };
    assert_eq!(format_time(20_000_000, d, 0), "Dec 31  1999");
}

#[test]
fn owners_by_name_or_number() {
    assert_eq!(owner_name(Some("root".into()), 0), "root");
    assert_eq!(owner_name(None, 1000), "1000");
}

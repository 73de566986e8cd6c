use fuzzy_matcher::skim::SkimMatcherV2;
use fuzzy_matcher::FuzzyMatcher;
use mofi::apps::AppEntry;
use mofi::clipboard::{ClipboardContent, ClipboardEntry};
use mofi::frecency::{store_path, FrecencyStore, MAX_AGE_SECS, MAX_TIMESTAMPS};
use mofi::launcher::{
    is_match, rank_by_score, rank_by_use, rankable_name, shell_command, Frecency, LaunchItem,
    Launcher, ScoreTable, MAX_NAME_LEN,
};
use mofi::pass::PassEntry;

fn app(name: &str) -> LaunchItem {
    LaunchItem::App(AppEntry { name: name.into(), path: format!("/a/{name}") })
}

fn found(query: &str, items: &Vec<LaunchItem>, table: &ScoreTable) -> Vec<String> {
    Launcher::new()
        .search(query, items, table)
        .into_iter()
        .map(|i| items[i].display_name())
        .collect()
}

#[test]
fn names_and_subtitles_of_items() {
    assert_eq!(app("Firefox").display_name(), "Firefox");
    assert_eq!(app("Firefox").subtitle(), None);
    assert_eq!(app("Firefox").key(), "Firefox");
    let clip = LaunchItem::Clip(ClipboardEntry {
        content: ClipboardContent::Text("a\nb".into()),
        captured_at: 0,
    });
    assert_eq!(clip.display_name(), "a");
    assert_eq!(clip.subtitle(), Some("2 lines · 3 chars".into()));
    assert_eq!(clip.key(), "");
    let pass = LaunchItem::Pass(PassEntry { name: "x/y".into() });
    assert_eq!(pass.display_name(), "x/y");
    assert_eq!(pass.clone().key(), "x/y");
}

#[test]
fn empty_query_ranks_by_use() {
    let items = vec![app("a"), app("b"), app("c"), app("d")];
    let mut table = ScoreTable::default();
    assert_eq!(found("", &items, &table), vec!["a", "b", "c", "d"]);
    table.set_score("c", Frecency { order: 5, bonus: 1 });
    table.set_score("d", Frecency { order: 9, bonus: 1 });
    assert_eq!(found("", &items, &table), vec!["d", "c", "a", "b"]);
    table.set_score("d", Frecency { order: 0, bonus: 0 });
    assert_eq!(found("", &items, &table), vec!["c", "a", "b", "d"]);
}

#[test]
fn query_finds_subsequences() {
    let items = vec![app("Firefox"), app("Files"), app("Terminal")];
    let table = ScoreTable::default();
    let mut f = found("fl", &items, &table);
    f.sort();
    assert_eq!(f, vec!["Files"]);
    assert_eq!(found("zzz", &items, &table), Vec::<String>::new());
    assert_eq!(found("TERM", &items, &table), Vec::<String>::new());
    assert_eq!(found("Term", &items, &table), vec!["Terminal"]);
    assert_eq!(found("term", &items, &table), vec!["Terminal"]);
}

#[test]
fn query_ranks_as_the_matcher_scores() {
    let names = ["code", "Visual Studio Code", "decode", "c-o-d-e", "xcode", "Calculator"];
    let items: Vec<LaunchItem> = names.iter().map(|n| app(n)).collect();
    let mut expected: Vec<(i64, usize)> = names
        .iter()
        .enumerate()
        .filter_map(|(i, n)| SkimMatcherV2::default().fuzzy_match(n, "code").map(|s| (s, i)))
        .collect();
    expected.sort_by(|a, b| b.0.cmp(&a.0));
    let expected: Vec<usize> = expected.into_iter().map(|(_, i)| i).collect();
    assert_eq!(Launcher::new().search("code", &items, &ScoreTable::default()), expected);
}

#[test]
fn bonus_breaks_ties_only() {
    let items = vec![app("alpha one"), app("alpha two")];
    let mut table = ScoreTable::default();
    table.set_score("alpha two", Frecency { order: 1, bonus: 20 });
    assert_eq!(found("alpha", &items, &table), vec!["alpha two", "alpha one"]);
    let scores = vec![Some(200), Some(140), None, Some(150)];
    let f = |b: u64| Frecency { order: 0, bonus: b };
    assert_eq!(rank_by_score(&scores, &vec![f(0), f(1_000_000), f(7), f(0)]), vec![0, 1, 3]);
    assert_eq!(rank_by_score(&scores, &vec![f(0), f(10), f(0), f(0)]), vec![0, 1, 3]);
    assert_eq!(rank_by_score(&scores, &vec![f(0), f(9), f(0), f(0)]), vec![0, 3, 1]);
    assert_eq!(rank_by_use(&vec![Frecency { order: 1, bonus: 0 }, f(0)]), vec![0, 1]);
}

#[test]
fn shell_commands_are_trimmed() {
    assert_eq!(shell_command("  htop "), Some("htop".into()));
    assert_eq!(shell_command("   "), None);
    assert_eq!(shell_command(""), None);
}

#[test]
fn launches_are_recorded_and_pruned() {
    let mut s = FrecencyStore::default();
    assert!(s.times("x").is_empty());
    for t in 0..150u64 {
        s.record("x", t);
    }
    s.record("y", 7);
    let times = s.times("x");
    assert_eq!(times.len(), MAX_TIMESTAMPS);
    assert_eq!(times[0], 50);
    assert_eq!(times[99], 149);
    assert_eq!(s.times("y"), vec![7]);
    let mut keys = s.keys();
    keys.sort();
    assert_eq!(keys, vec!["x", "y"]);
}

#[test]
fn only_recent_launches_count() {
    let mut s = FrecencyStore::default();
    let now = 10_000_000;
    s.set_times("x", vec![now - MAX_AGE_SECS - 1, now - MAX_AGE_SECS, now - 5, now + 9]);
    assert_eq!(s.ages("x", now), vec![MAX_AGE_SECS, 5, 0]);
    assert!(s.ages("unknown", now).is_empty());
}

#[test]
fn store_location() {
    assert_eq!(store_path("/h", Some("/d")), "/d/mofi/frecency.json");
    assert_eq!(store_path("/h", Some("d")), "/h/.local/share/mofi/frecency.json");
    assert_eq!(store_path("/h", None), "/h/.local/share/mofi/frecency.json");
}

#[test]
fn long_lines_match_like_short_ones() {
    assert!(is_match("main", "mn"));
    assert!(!is_match("dev", "mn"));
    assert!(is_match("Main", "MN") == is_match("MaiN", "mN"));
    let long = format!("{}main", "-".repeat(MAX_NAME_LEN));
    for (pattern, found) in [("mn", true), ("nm", false), ("MN", false), ("", true), ("-mai", true)] {
        assert_eq!(is_match(&long, pattern), found, "{pattern}");
        assert_eq!(is_match(&long[MAX_NAME_LEN - 3..], pattern), found, "{pattern}");
    }
    assert_eq!(rankable_name(&long).len(), MAX_NAME_LEN);
    assert_eq!(rankable_name("short"), "short");
}

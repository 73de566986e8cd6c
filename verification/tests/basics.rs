use mofi::config::{
    config_path, is_theme_name, join_path, theme_by_name, theme_names, Config, Rgb,
};
use mofi::measure::{format_size, kib};
use mofi::order::{rank_all, Alphabetical, Descending};
use mofi::paths::{components, extension, extension_of_name, stem, stem_of_name};
use mofi::text::{
    chars_of, contains_text, ends_with, head_line, join, push_decimal, push_decimal_int,
    push_two_digits, replace_char, same, split, split_lines, split_words, starts_with, string_of,
    strip_prefix, trim, trim_head_char, trim_head_text, white,
};
use std::path::Path;

const SAMPLES: &[&str] = &[
    "",
    " ",
    "a",
    "  hello world  ",
    "one\ntwo\r\nthree",
    "tab\tand\u{a0}nbsp\u{2003}em",
    "\u{3000}wide\u{3000}",
    "line\n",
    "\n\n",
    "a\r",
    "::x::y:",
    "!!ls -la",
    "* * theme",
    "ünïcödé ☃ snow",
    "\u{85}next\u{1680}",
];

#[test]
fn white_space_agrees_with_std() {
    for u in 0..0x11_0000u32 {
        if let Some(c) = char::from_u32(u) {
            assert_eq!(white(c), c.is_whitespace(), "{u:x}");
        }
    }
}

#[test]
fn text_helpers_agree_with_std() {
    for s in SAMPLES {
        let v = chars_of(s);
        assert_eq!(string_of(&v), *s);
        assert_eq!(string_of(trim(&v)), s.trim());
        assert_eq!(string_of(trim_head_char(&v, '!')), s.trim_start_matches('!'));
        assert_eq!(string_of(trim_head_text(&v, "* ")), s.trim_start_matches("* "));
        assert_eq!(string_of(head_line(&v)), s.lines().next().unwrap_or(""));
        let lines: Vec<String> = s.lines().map(|l| l.to_string()).collect();
        assert_eq!(split_lines(&v), lines);
        let words: Vec<String> = s.split_whitespace().map(|l| l.to_string()).collect();
        assert_eq!(split_words(&v), words);
        let pieces: Vec<String> = s.split(':').map(|l| l.to_string()).collect();
        assert_eq!(split(&v, ':'), pieces);
        assert_eq!(join(&pieces, ':'), *s);
        assert_eq!(replace_char(s, '\t', ' '), s.replace('\t', " "));
        for p in SAMPLES {
            assert_eq!(starts_with(&v, p), s.starts_with(p));
            assert_eq!(ends_with(&v, p), s.ends_with(p));
            assert_eq!(contains_text(&v, p), s.contains(p));
            assert_eq!(strip_prefix(&v, p).map(string_of), s.strip_prefix(p).map(String::from));
            assert_eq!(same(s, p), s == p);
            assert_eq!(mofi::text::concat(s, p), format!("{s}{p}"));
        }
    }
}

#[test]
fn decimal_agrees_with_std() {
    for n in [0u64, 1, 9, 10, 99, 100, 4711, u32::MAX as u64, u64::MAX] {
        let mut s = String::from("x");
        push_decimal(&mut s, n);
        assert_eq!(s, format!("x{n}"));
        let mut t = String::new();
        push_two_digits(&mut t, n);
        assert_eq!(t, format!("{n:02}"));
    }
    for n in [0i64, -1, 7, -10, i64::MAX, i64::MIN] {
        let mut s = String::new();
        push_decimal_int(&mut s, n);
        assert_eq!(s, format!("{n}"));
    }
}

#[test]
fn split_undoes_join() {
    let pieces: Vec<String> = vec!["a".into(), "".into(), "b c".into()];
    let joined = join(&pieces, '\t');
    assert_eq!(joined, "a\t\tb c");
    assert_eq!(split(&chars_of(&joined), '\t'), pieces);
}

#[test]
fn ranking_is_stable() {
    let keys = vec![Descending(3), Descending(7), Descending(3), Descending(-1), Descending(7)];
    assert_eq!(rank_all(&keys), vec![1, 4, 0, 2, 3]);
    let names = vec![
        Alphabetical(chars_of("pear")),
        Alphabetical(chars_of("apple")),
        Alphabetical(chars_of("app")),
        Alphabetical(chars_of("pear")),
    ];
    assert_eq!(rank_all(&names), vec![2, 1, 0, 3]);
    assert_eq!(rank_all::<Descending>(&vec![]), Vec::<usize>::new());
}

#[test]
fn ranking_agrees_with_std_sort() {
    let values: Vec<i64> = (0..200).map(|i| (i * 7919) % 31).collect();
    let keys: Vec<Descending> = values.iter().map(|v| Descending(*v)).collect();
    let mut expected: Vec<usize> = (0..values.len()).collect();
    expected.sort_by(|a, b| values[*b].cmp(&values[*a]));
    assert_eq!(rank_all(&keys), expected);
}

fn size_by_floats(bytes: u64) -> String {
    if bytes < 1024 {
        format!("{} B", bytes)
    } else if bytes < 1024 * 1024 {
        format!("{:.1} K", bytes as f64 / 1024.0)
    } else if bytes < 1024 * 1024 * 1024 {
        format!("{:.1} M", bytes as f64 / (1024.0 * 1024.0))
    } else {
        format!("{:.1} G", bytes as f64 / (1024.0 * 1024.0 * 1024.0))
    }
}

#[test]
fn sizes_agree_with_floating_point() {
    assert_eq!(format_size(0), "0 B");
    assert_eq!(format_size(1023), "1023 B");
    assert_eq!(format_size(1024), "1.0 K");
    assert_eq!(format_size(1536), "1.5 K");
    assert_eq!(format_size(1024 * 1024), "1.0 M");
    let mut n: u64 = 1;
    for _ in 0..20_000 {
        assert_eq!(format_size(n), size_by_floats(n), "{n}");
        n = n.wrapping_mul(6364136223846793005).wrapping_add(1442695040888963407);
        let m = n >> (n % 60);
        assert_eq!(format_size(m), size_by_floats(m), "{m}");
    }
    for m in 1000..110_000u64 {
        assert_eq!(format_size(m), size_by_floats(m), "{m}");
        assert_eq!(format_size(m * 1024), size_by_floats(m * 1024), "{m} K");
    }
    for m in [u64::MAX, u64::MAX - 1, 1 << 53, (1 << 53) + 1, (1 << 62) + 513] {
        assert_eq!(format_size(m), size_by_floats(m), "{m}");
    }
}

#[test]
fn kib_agrees_with_floating_point() {
    for n in 0..10_000u64 {
        assert_eq!(kib(n), (n as f64 / 1024.0).round() as u64);
    }
    assert_eq!(kib(511), 0);
    assert_eq!(kib(512), 1);
    assert_eq!(kib(1536), 2);
}

#[test]
fn paths_agree_with_std() {
    for p in ["/a/b.tar.gz", "/a/.hidden", "/a/..", "noext", "/x/y.", "", "/", "a/b/c.d/e"] {
        assert_eq!(
            extension(p),
            Path::new(p).extension().map(|e| e.to_string_lossy().into_owned()),
            "{p}"
        );
        assert_eq!(stem(p), Path::new(p).file_stem().map(|e| e.to_string_lossy().into_owned()));
    }
    assert_eq!(extension_of_name("a.b.c"), Some("c".into()));
    assert_eq!(stem_of_name("a.b.c"), "a.b");
    assert_eq!(components("/usr//local/bin/"), vec!["usr", "local", "bin"]);
    for (a, b) in [("/a", "b"), ("/a/", "b"), ("", "b"), ("/a", "/b"), ("a/b", "c/d")] {
        assert_eq!(join_path(a, b), Path::new(a).join(b).to_string_lossy());
    }
}

#[test]
fn configuration_path() {
    assert_eq!(config_path(Some("/home/u"), None), "/home/u/.config/mofi/config.toml");
    assert_eq!(config_path(Some("/home/u"), Some("/x")), "/x/mofi/config.toml");
    assert_eq!(config_path(Some("/home/u"), Some("x")), "/home/u/.config/mofi/config.toml");
    assert_eq!(config_path(Some("/home/u"), Some("")), "/home/u/.config/mofi/config.toml");
    assert_eq!(config_path(None, None), "~/.config/mofi/config.toml");
}

#[test]
fn default_theme_is_kanagawa() {
    assert_eq!(Config::default().active_theme_name(), "kanagawa");
    assert_eq!(Config::load(None).active_theme_name(), "kanagawa");
    let cfg = Config::load(Some(Config { theme: "nord".into() }));
    assert_eq!(cfg.active_theme_name(), "nord");
}

#[test]
fn ten_themes_by_name() {
    let names = theme_names();
    assert_eq!(
        names,
        vec![
            "kanagawa",
            "gruvbox",
            "nord",
            "tokyonight",
            "dracula",
            "solarized",
            "monokai",
            "catppuccin",
            "onedark",
            "rosepine"
        ]
    );
    for n in &names {
        assert!(is_theme_name(n));
        assert_eq!(theme_by_name(n).name, *n);
    }
    assert!(!is_theme_name("vim"));
    assert_eq!(theme_by_name("vim").name, "kanagawa");
    assert_eq!(theme_by_name("kanagawa").bg, Rgb { r: 0x16, g: 0x16, b: 0x1D });
}

//! Configuration and colour themes.

use vstd::prelude::*;

use crate::text::same;

verus! {

// ── Paths ─────────────────────────────────────────────────────────────────────

/// A path joined with a further part, as a file system joins them: an absolute part
/// replaces the path, and a slash is put between them where none stands.
pub open spec fn joined_path(base: Seq<char>, part: Seq<char>) -> Seq<char> {
    if part.len() > 0 && part[0] == '/' {
        part
    } else if base.len() == 0 || base.last() == '/' {
        base + part
    } else {
        base.push('/') + part
    }
}

/// Joins a path with a further part.
pub fn join_path(base: &str, part: &str) -> (r: String)
    ensures
        r@ == joined_path(base@, part@),
{
    let b = crate::text::chars_of(base);
    let p = crate::text::chars_of(part);
    let mut r = String::new();
    if p.len() > 0 && p[0] == '/' {
        r.append(part);
    } else {
        r.append(base);
        if b.len() > 0 && b[b.len() - 1] != '/' {
            r.push('/');
        }
        r.append(part);
    }
    assert(r@ =~= joined_path(base@, part@));
    r
}

/// The directory that a variable of the XDG base directory standard names, which counts only
/// where it is absolute, or else the one of that kind in the home directory.
pub open spec fn base_dir(xdg: Option<Seq<char>>, home: Seq<char>, usual: Seq<char>) -> Seq<char> {
    match xdg {
        Some(d) => if d.len() > 0 && d[0] == '/' {
            d
        } else {
            joined_path(home, usual)
        },
        None => joined_path(home, usual),
    }
}

/// Finds the directory that a variable names, or else the one in the home directory.
pub fn find_base_dir(xdg: Option<&str>, home: &str, usual: &str) -> (r: String)
    ensures
        r@ == base_dir(opt_view(xdg), home@, usual@),
{
    if let Some(d) = xdg {
        let v = crate::text::chars_of(d);
        if v.len() > 0 && v[0] == '/' {
            return d.to_owned();
        }
    }
    join_path(home, usual)
}

/// What an optional text holds.
pub open spec fn opt_view(s: Option<&str>) -> Option<Seq<char>> {
    match s {
        Some(t) => Some(t@),
        None => None,
    }
}

/// The configuration file: `.config/mofi/config.toml` in the home directory, unless
/// `XDG_CONFIG_HOME` names another directory than `.config`.
pub open spec fn config_file(home: Option<Seq<char>>, xdg_config_home: Option<Seq<char>>) -> Seq<
    char,
> {
    let home = match home {
        Some(h) => h,
        None => "~"@,
    };
    let base = base_dir(xdg_config_home, home, ".config"@);
    joined_path(joined_path(base, "mofi"@), "config.toml"@)
}

/// Path of the configuration file.
pub fn config_path(home: Option<&str>, xdg_config_home: Option<&str>) -> (r: String)
    ensures
        r@ == config_file(opt_view(home), opt_view(xdg_config_home)),
{
    let home = match home {
        Some(h) => h,
        None => "~",
    };
    let base = find_base_dir(xdg_config_home, home, ".config");
    let dir = join_path(base.as_str(), "mofi");
    join_path(dir.as_str(), "config.toml")
}

// ── On-disk schema ────────────────────────────────────────────────────────────

/// What the configuration file holds.
pub struct Config {
    /// Name of the theme; empty for the default one.
    pub theme: String,
}

impl Default for Config {
    fn default() -> (c: Self)
        ensures
            c.theme@ == Seq::<char>::empty(),
    {
        Config { theme: String::new() }
    }
}

impl Config {
    /// The configuration to work with, given what the file holds if it could be read
    /// and understood.
    pub fn load(parsed: Option<Config>) -> (c: Config)
        ensures
            parsed matches Some(p) ==> c == p,
            parsed is None ==> c.theme@ == Seq::<char>::empty(),
    {
        match parsed {
            Some(p) => p,
            None => Config::default(),
        }
    }

    /// Name of the theme in force.
    pub open spec fn active(&self) -> Seq<char> {
        if self.theme@.len() == 0 {
            "kanagawa"@
        } else {
            self.theme@
        }
    }

    /// Name of the theme in force: the configured one, or the default.
    pub fn active_theme_name(&self) -> (r: &str)
        ensures
            r@ == self.active(),
    {
        if self.theme.as_str().is_empty() {
            "kanagawa"
        } else {
            self.theme.as_str()
        }
    }
}

// ── Theme palette ─────────────────────────────────────────────────────────────

/// An opaque colour.
#[derive(Clone, Copy, Debug, PartialEq, Eq, Structural)]
pub struct Rgb {
    pub r: u8,
    pub g: u8,
    pub b: u8,
}

/// All colours needed to draw the window.
#[derive(Clone, Copy, Debug)]
pub struct Theme {
    pub name: &'static str,
    /// Window fill.
    pub bg: Rgb,
    /// Opacity of the window fill.
    pub bg_alpha: u8,
    /// Row under the pointer.
    pub row_hover: Rgb,
    /// Selected row.
    pub row_sel: Rgb,
    /// Window border.
    pub border: Rgb,
    /// Horizontal rule.
    pub separator: Rgb,
    /// Main text.
    pub fg: Rgb,
    /// Secondary text.
    pub fg_dim: Rgb,
    /// Comments and hints.
    pub fg_muted: Rgb,
    /// Active tab label, selection bar, titles.
    pub accent: Rgb,
    /// Subtitle of the selected row.
    pub accent2: Rgb,
    /// Active tab fill.
    pub tab_active_bg: Rgb,
    /// Icon of the selected row.
    pub icon_sel: Rgb,
    /// Icon of another row.
    pub icon_dim: Rgb,
    /// Toast message.
    pub toast: Rgb,
    /// Program name in the tab bar.
    pub brand: Rgb,
}

/// The colour with the given channels.
#[verifier::allow_in_spec]
pub fn c(r: u8, g: u8, b: u8) -> Rgb
    returns
        (Rgb { r, g, b }),
{
    Rgb { r, g, b }
}

// ── Built-in themes ───────────────────────────────────────────────────────────

/// Names of the built-in themes, in the order in which they are offered.
pub open spec fn theme_list() -> Seq<Seq<char>> {
    seq![
        "kanagawa"@,
        "gruvbox"@,
        "nord"@,
        "tokyonight"@,
        "dracula"@,
        "solarized"@,
        "monokai"@,
        "catppuccin"@,
        "onedark"@,
        "rosepine"@,
    ]
}

/// Names of the built-in themes.
pub fn theme_names() -> (r: Vec<&'static str>)
    ensures
        r@.len() == theme_list().len(),
        forall|i: int| 0 <= i < r@.len() ==> (#[trigger] r@[i])@ == theme_list()[i],
{
    let mut r: Vec<&'static str> = Vec::new();
    r.push("kanagawa");
    r.push("gruvbox");
    r.push("nord");
    r.push("tokyonight");
    r.push("dracula");
    r.push("solarized");
    r.push("monokai");
    r.push("catppuccin");
    r.push("onedark");
    r.push("rosepine");
    r
}

/// Whether `name` names a built-in theme.
pub fn is_theme_name(name: &str) -> (r: bool)
    ensures
        r == theme_list().contains(name@),
{
    let all = theme_names();
    let mut i: usize = 0;
    while i < all.len()
        invariant
            i <= all@.len(),
            all@.len() == theme_list().len(),
            forall|k: int| 0 <= k < all@.len() ==> (#[trigger] all@[k])@ == theme_list()[k],
            forall|k: int| 0 <= k < i ==> #[trigger] theme_list()[k] != name@,
        decreases all@.len() - i,
    {
        if same(all[i], name) {
            assert(theme_list()[i as int] == name@);
            return true;
        }
        i = i + 1;
    }
    false
}

/// The theme of the given name; any other name stands for the default theme.
pub open spec fn theme_of(name: Seq<char>) -> Theme {
    if name == "gruvbox"@ {
        gruvbox()
    } else if name == "nord"@ {
        nord()
    } else if name == "tokyonight"@ {
        tokyonight()
    } else if name == "dracula"@ {
        dracula()
    } else if name == "solarized"@ {
        solarized()
    } else if name == "monokai"@ {
        monokai()
    } else if name == "catppuccin"@ {
        catppuccin()
    } else if name == "onedark"@ {
        onedark()
    } else if name == "rosepine"@ {
        rosepine()
    } else {
        kanagawa()
    }
}

/// Looks a theme up by its name.
pub fn theme_by_name(name: &str) -> (t: Theme)
    ensures
        t == theme_of(name@),
{
    if same(name, "gruvbox") {
        gruvbox()
    } else if same(name, "nord") {
        nord()
    } else if same(name, "tokyonight") {
        tokyonight()
    } else if same(name, "dracula") {
        dracula()
    } else if same(name, "solarized") {
        solarized()
    } else if same(name, "monokai") {
        monokai()
    } else if same(name, "catppuccin") {
        catppuccin()
    } else if same(name, "onedark") {
        onedark()
    } else if same(name, "rosepine") {
        rosepine()
    } else {
        kanagawa()
    }
}

/// Kanagawa, the default theme.
#[verifier::allow_in_spec]
pub fn kanagawa() -> Theme
    returns
        (Theme {
            name: "kanagawa",
            bg: c(0x16, 0x16, 0x1D),
            bg_alpha: 210,
            row_hover: c(0x2A, 0x2A, 0x37),
            row_sel: c(0x2D, 0x4F, 0x67),
            border: c(0x54, 0x54, 0x6D),
            separator: c(0x36, 0x36, 0x46),
            fg: c(0xDC, 0xD7, 0xBA),
            fg_dim: c(0xC8, 0xC0, 0x93),
            fg_muted: c(0x72, 0x71, 0x69),
            accent: c(0x7E, 0x9C, 0xD8),
            accent2: c(0x93, 0x8A, 0xA9),
            tab_active_bg: c(0x22, 0x32, 0x49),
            icon_sel: c(0x7E, 0x9C, 0xD8),
            icon_dim: c(0x54, 0x54, 0x6D),
            toast: c(0x98, 0xBB, 0x6C),
            brand: c(0x54, 0x54, 0x6D),
        }),
{
    Theme {
        name: "kanagawa",
        bg: c(0x16, 0x16, 0x1D),
        bg_alpha: 210,
        row_hover: c(0x2A, 0x2A, 0x37),
        row_sel: c(0x2D, 0x4F, 0x67),
        border: c(0x54, 0x54, 0x6D),
        separator: c(0x36, 0x36, 0x46),
        fg: c(0xDC, 0xD7, 0xBA),
        fg_dim: c(0xC8, 0xC0, 0x93),
        fg_muted: c(0x72, 0x71, 0x69),
        accent: c(0x7E, 0x9C, 0xD8),
        accent2: c(0x93, 0x8A, 0xA9),
        tab_active_bg: c(0x22, 0x32, 0x49),
        icon_sel: c(0x7E, 0x9C, 0xD8),
        icon_dim: c(0x54, 0x54, 0x6D),
        toast: c(0x98, 0xBB, 0x6C),
        brand: c(0x54, 0x54, 0x6D),
    }
}

/// Gruvbox Dark.
#[verifier::allow_in_spec]
pub fn gruvbox() -> Theme
    returns
        (Theme {
            name: "gruvbox",
            bg: c(0x28, 0x28, 0x28),
            bg_alpha: 220,
            row_hover: c(0x3C, 0x38, 0x36),
            row_sel: c(0x50, 0x49, 0x45),
            border: c(0x66, 0x5C, 0x54),
            separator: c(0x3C, 0x38, 0x36),
            fg: c(0xEB, 0xDB, 0xB2),
            fg_dim: c(0xD5, 0xC4, 0xA1),
            fg_muted: c(0x92, 0x83, 0x74),
            accent: c(0xFB, 0xBF, 0x2E),
            accent2: c(0x83, 0xA5, 0x98),
            tab_active_bg: c(0x45, 0x40, 0x3D),
            icon_sel: c(0xFB, 0xBF, 0x2E),
            icon_dim: c(0x66, 0x5C, 0x54),
            toast: c(0xB8, 0xBB, 0x26),
            brand: c(0x66, 0x5C, 0x54),
        }),
{
    Theme {
        name: "gruvbox",
        bg: c(0x28, 0x28, 0x28),
        bg_alpha: 220,
        row_hover: c(0x3C, 0x38, 0x36),
        row_sel: c(0x50, 0x49, 0x45),
        border: c(0x66, 0x5C, 0x54),
        separator: c(0x3C, 0x38, 0x36),
        fg: c(0xEB, 0xDB, 0xB2),
        fg_dim: c(0xD5, 0xC4, 0xA1),
        fg_muted: c(0x92, 0x83, 0x74),
        accent: c(0xFB, 0xBF, 0x2E),
        accent2: c(0x83, 0xA5, 0x98),
        tab_active_bg: c(0x45, 0x40, 0x3D),
        icon_sel: c(0xFB, 0xBF, 0x2E),
        icon_dim: c(0x66, 0x5C, 0x54),
        toast: c(0xB8, 0xBB, 0x26),
        brand: c(0x66, 0x5C, 0x54),
    }
}

/// Nord.
#[verifier::allow_in_spec]
pub fn nord() -> Theme
    returns
        (Theme {
            name: "nord",
            bg: c(0x2E, 0x34, 0x40),
            bg_alpha: 220,
            row_hover: c(0x3B, 0x42, 0x52),
            row_sel: c(0x43, 0x4C, 0x5E),
            border: c(0x4C, 0x56, 0x6A),
            separator: c(0x3B, 0x42, 0x52),
            fg: c(0xEC, 0xEF, 0xF4),
            fg_dim: c(0xD8, 0xDE, 0xE9),
            fg_muted: c(0x61, 0x6E, 0x88),
            accent: c(0x88, 0xC0, 0xD0),
            accent2: c(0x81, 0xA1, 0xC1),
            tab_active_bg: c(0x3B, 0x42, 0x52),
            icon_sel: c(0x88, 0xC0, 0xD0),
            icon_dim: c(0x4C, 0x56, 0x6A),
            toast: c(0xA3, 0xBE, 0x8C),
            brand: c(0x4C, 0x56, 0x6A),
        }),
{
    Theme {
        name: "nord",
        bg: c(0x2E, 0x34, 0x40),
        bg_alpha: 220,
        row_hover: c(0x3B, 0x42, 0x52),
        row_sel: c(0x43, 0x4C, 0x5E),
        border: c(0x4C, 0x56, 0x6A),
        separator: c(0x3B, 0x42, 0x52),
        fg: c(0xEC, 0xEF, 0xF4),
        fg_dim: c(0xD8, 0xDE, 0xE9),
        fg_muted: c(0x61, 0x6E, 0x88),
        accent: c(0x88, 0xC0, 0xD0),
        accent2: c(0x81, 0xA1, 0xC1),
        tab_active_bg: c(0x3B, 0x42, 0x52),
        icon_sel: c(0x88, 0xC0, 0xD0),
        icon_dim: c(0x4C, 0x56, 0x6A),
        toast: c(0xA3, 0xBE, 0x8C),
        brand: c(0x4C, 0x56, 0x6A),
    }
}

/// Tokyo Night.
#[verifier::allow_in_spec]
pub fn tokyonight() -> Theme
    returns
        (Theme {
            name: "tokyonight",
            bg: c(0x1A, 0x1B, 0x26),
            bg_alpha: 215,
            row_hover: c(0x24, 0x28, 0x3A),
            row_sel: c(0x28, 0x3A, 0x57),
            border: c(0x41, 0x4A, 0x67),
            separator: c(0x2A, 0x2D, 0x3E),
            fg: c(0xC0, 0xCA, 0xF5),
            fg_dim: c(0xA9, 0xB1, 0xD6),
            fg_muted: c(0x56, 0x5F, 0x89),
            accent: c(0x7A, 0xA2, 0xF7),
            accent2: c(0x9D, 0x7C, 0xD8),
            tab_active_bg: c(0x24, 0x28, 0x3A),
            icon_sel: c(0x7A, 0xA2, 0xF7),
            icon_dim: c(0x41, 0x4A, 0x67),
            toast: c(0x9E, 0xCE, 0x6A),
            brand: c(0x41, 0x4A, 0x67),
        }),
{
    Theme {
        name: "tokyonight",
        bg: c(0x1A, 0x1B, 0x26),
        bg_alpha: 215,
        row_hover: c(0x24, 0x28, 0x3A),
        row_sel: c(0x28, 0x3A, 0x57),
        border: c(0x41, 0x4A, 0x67),
        separator: c(0x2A, 0x2D, 0x3E),
        fg: c(0xC0, 0xCA, 0xF5),
        fg_dim: c(0xA9, 0xB1, 0xD6),
        fg_muted: c(0x56, 0x5F, 0x89),
        accent: c(0x7A, 0xA2, 0xF7),
        accent2: c(0x9D, 0x7C, 0xD8),
        tab_active_bg: c(0x24, 0x28, 0x3A),
        icon_sel: c(0x7A, 0xA2, 0xF7),
        icon_dim: c(0x41, 0x4A, 0x67),
        toast: c(0x9E, 0xCE, 0x6A),
        brand: c(0x41, 0x4A, 0x67),
    }
}

/// Dracula.
#[verifier::allow_in_spec]
pub fn dracula() -> Theme
    returns
        (Theme {
            name: "dracula",
            bg: c(0x28, 0x2A, 0x36),
            bg_alpha: 220,
            row_hover: c(0x38, 0x3A, 0x4A),
            row_sel: c(0x44, 0x47, 0x5A),
            border: c(0x62, 0x72, 0xA4),
            separator: c(0x38, 0x3A, 0x4A),
            fg: c(0xF8, 0xF8, 0xF2),
            fg_dim: c(0xCC, 0xCC, 0xCC),
            fg_muted: c(0x62, 0x72, 0xA4),
            accent: c(0xBD, 0x93, 0xF9),
            accent2: c(0xFF, 0x79, 0xC6),
            tab_active_bg: c(0x44, 0x47, 0x5A),
            icon_sel: c(0xBD, 0x93, 0xF9),
            icon_dim: c(0x62, 0x72, 0xA4),
            toast: c(0x50, 0xFA, 0x7B),
            brand: c(0x62, 0x72, 0xA4),
        }),
{
    Theme {
        name: "dracula",
        bg: c(0x28, 0x2A, 0x36),
        bg_alpha: 220,
        row_hover: c(0x38, 0x3A, 0x4A),
        row_sel: c(0x44, 0x47, 0x5A),
        border: c(0x62, 0x72, 0xA4),
        separator: c(0x38, 0x3A, 0x4A),
        fg: c(0xF8, 0xF8, 0xF2),
        fg_dim: c(0xCC, 0xCC, 0xCC),
        fg_muted: c(0x62, 0x72, 0xA4),
        accent: c(0xBD, 0x93, 0xF9),
        accent2: c(0xFF, 0x79, 0xC6),
        tab_active_bg: c(0x44, 0x47, 0x5A),
        icon_sel: c(0xBD, 0x93, 0xF9),
        icon_dim: c(0x62, 0x72, 0xA4),
        toast: c(0x50, 0xFA, 0x7B),
        brand: c(0x62, 0x72, 0xA4),
    }
}

/// Solarized Dark.
#[verifier::allow_in_spec]
pub fn solarized() -> Theme
    returns
        (Theme {
            name: "solarized",
            bg: c(0x00, 0x2B, 0x36),
            bg_alpha: 220,
            row_hover: c(0x07, 0x36, 0x42),
            row_sel: c(0x0D, 0x3D, 0x4E),
            border: c(0x58, 0x6E, 0x75),
            separator: c(0x07, 0x36, 0x42),
            fg: c(0x83, 0x94, 0x96),
            fg_dim: c(0x65, 0x7B, 0x83),
            fg_muted: c(0x58, 0x6E, 0x75),
            accent: c(0x26, 0x8B, 0xD2),
            accent2: c(0x2A, 0xA1, 0x98),
            tab_active_bg: c(0x07, 0x36, 0x42),
            icon_sel: c(0x26, 0x8B, 0xD2),
            icon_dim: c(0x58, 0x6E, 0x75),
            toast: c(0x85, 0x99, 0x00),
            brand: c(0x58, 0x6E, 0x75),
        }),
{
    Theme {
        name: "solarized",
        bg: c(0x00, 0x2B, 0x36),
        bg_alpha: 220,
        row_hover: c(0x07, 0x36, 0x42),
        row_sel: c(0x0D, 0x3D, 0x4E),
        border: c(0x58, 0x6E, 0x75),
        separator: c(0x07, 0x36, 0x42),
        fg: c(0x83, 0x94, 0x96),
        fg_dim: c(0x65, 0x7B, 0x83),
        fg_muted: c(0x58, 0x6E, 0x75),
        accent: c(0x26, 0x8B, 0xD2),
        accent2: c(0x2A, 0xA1, 0x98),
        tab_active_bg: c(0x07, 0x36, 0x42),
        icon_sel: c(0x26, 0x8B, 0xD2),
        icon_dim: c(0x58, 0x6E, 0x75),
        toast: c(0x85, 0x99, 0x00),
        brand: c(0x58, 0x6E, 0x75),
    }
}

/// Monokai.
#[verifier::allow_in_spec]
pub fn monokai() -> Theme
    returns
        (Theme {
            name: "monokai",
            bg: c(0x27, 0x28, 0x22),
            bg_alpha: 220,
            row_hover: c(0x38, 0x39, 0x30),
            row_sel: c(0x49, 0x49, 0x3E),
            border: c(0x75, 0x71, 0x5E),
            separator: c(0x38, 0x39, 0x30),
            fg: c(0xF8, 0xF8, 0xF2),
            fg_dim: c(0xCC, 0xCC, 0xBB),
            fg_muted: c(0x75, 0x71, 0x5E),
            accent: c(0x66, 0xD9, 0xE8),
            accent2: c(0xAE, 0x81, 0xFF),
            tab_active_bg: c(0x49, 0x49, 0x3E),
            icon_sel: c(0x66, 0xD9, 0xE8),
            icon_dim: c(0x75, 0x71, 0x5E),
            toast: c(0xA6, 0xE2, 0x2E),
            brand: c(0x75, 0x71, 0x5E),
        }),
{
    Theme {
        name: "monokai",
        bg: c(0x27, 0x28, 0x22),
        bg_alpha: 220,
        row_hover: c(0x38, 0x39, 0x30),
        row_sel: c(0x49, 0x49, 0x3E),
        border: c(0x75, 0x71, 0x5E),
        separator: c(0x38, 0x39, 0x30),
        fg: c(0xF8, 0xF8, 0xF2),
        fg_dim: c(0xCC, 0xCC, 0xBB),
        fg_muted: c(0x75, 0x71, 0x5E),
        accent: c(0x66, 0xD9, 0xE8),
        accent2: c(0xAE, 0x81, 0xFF),
        tab_active_bg: c(0x49, 0x49, 0x3E),
        icon_sel: c(0x66, 0xD9, 0xE8),
        icon_dim: c(0x75, 0x71, 0x5E),
        toast: c(0xA6, 0xE2, 0x2E),
        brand: c(0x75, 0x71, 0x5E),
    }
}

/// Catppuccin Mocha.
#[verifier::allow_in_spec]
pub fn catppuccin() -> Theme
    returns
        (Theme {
            name: "catppuccin",
            bg: c(0x1E, 0x1E, 0x2E),
            bg_alpha: 215,
            row_hover: c(0x31, 0x32, 0x44),
            row_sel: c(0x45, 0x47, 0x5A),
            border: c(0x58, 0x5B, 0x70),
            separator: c(0x31, 0x32, 0x44),
            fg: c(0xCD, 0xD6, 0xF4),
            fg_dim: c(0xBA, 0xC2, 0xDE),
            fg_muted: c(0x6C, 0x70, 0x86),
            accent: c(0x89, 0xB4, 0xFA),
            accent2: c(0xCB, 0xA6, 0xF7),
            tab_active_bg: c(0x31, 0x32, 0x44),
            icon_sel: c(0x89, 0xB4, 0xFA),
            icon_dim: c(0x58, 0x5B, 0x70),
            toast: c(0xA6, 0xE3, 0xA1),
            brand: c(0x58, 0x5B, 0x70),
        }),
{
    Theme {
        name: "catppuccin",
        bg: c(0x1E, 0x1E, 0x2E),
        bg_alpha: 215,
        row_hover: c(0x31, 0x32, 0x44),
        row_sel: c(0x45, 0x47, 0x5A),
        border: c(0x58, 0x5B, 0x70),
        separator: c(0x31, 0x32, 0x44),
        fg: c(0xCD, 0xD6, 0xF4),
        fg_dim: c(0xBA, 0xC2, 0xDE),
        fg_muted: c(0x6C, 0x70, 0x86),
        accent: c(0x89, 0xB4, 0xFA),
        accent2: c(0xCB, 0xA6, 0xF7),
        tab_active_bg: c(0x31, 0x32, 0x44),
        icon_sel: c(0x89, 0xB4, 0xFA),
        icon_dim: c(0x58, 0x5B, 0x70),
        toast: c(0xA6, 0xE3, 0xA1),
        brand: c(0x58, 0x5B, 0x70),
    }
}

/// One Dark.
#[verifier::allow_in_spec]
pub fn onedark() -> Theme
    returns
        (Theme {
            name: "onedark",
            bg: c(0x28, 0x2C, 0x34),
            bg_alpha: 220,
            row_hover: c(0x33, 0x37, 0x3E),
            row_sel: c(0x3E, 0x44, 0x51),
            border: c(0x4B, 0x52, 0x63),
            separator: c(0x33, 0x37, 0x3E),
            fg: c(0xAB, 0xB2, 0xBF),
            fg_dim: c(0x9D, 0xA5, 0xB4),
            fg_muted: c(0x5C, 0x63, 0x70),
            accent: c(0x61, 0xAF, 0xEF),
            accent2: c(0xC6, 0x78, 0xDD),
            tab_active_bg: c(0x3E, 0x44, 0x51),
            icon_sel: c(0x61, 0xAF, 0xEF),
            icon_dim: c(0x4B, 0x52, 0x63),
            toast: c(0x98, 0xC3, 0x79),
            brand: c(0x4B, 0x52, 0x63),
        }),
{
    Theme {
        name: "onedark",
        bg: c(0x28, 0x2C, 0x34),
        bg_alpha: 220,
        row_hover: c(0x33, 0x37, 0x3E),
        row_sel: c(0x3E, 0x44, 0x51),
        border: c(0x4B, 0x52, 0x63),
        separator: c(0x33, 0x37, 0x3E),
        fg: c(0xAB, 0xB2, 0xBF),
        fg_dim: c(0x9D, 0xA5, 0xB4),
        fg_muted: c(0x5C, 0x63, 0x70),
        accent: c(0x61, 0xAF, 0xEF),
        accent2: c(0xC6, 0x78, 0xDD),
        tab_active_bg: c(0x3E, 0x44, 0x51),
        icon_sel: c(0x61, 0xAF, 0xEF),
        icon_dim: c(0x4B, 0x52, 0x63),
        toast: c(0x98, 0xC3, 0x79),
        brand: c(0x4B, 0x52, 0x63),
    }
}

/// Rose Pine.
#[verifier::allow_in_spec]
pub fn rosepine() -> Theme
    returns
        (Theme {
            name: "rosepine",
            bg: c(0x19, 0x17, 0x24),
            bg_alpha: 215,
            row_hover: c(0x26, 0x23, 0x33),
            row_sel: c(0x40, 0x3D, 0x52),
            border: c(0x6E, 0x6A, 0x86),
            separator: c(0x26, 0x23, 0x33),
            fg: c(0xE0, 0xDE, 0xF4),
            fg_dim: c(0xC4, 0xC1, 0xD9),
            fg_muted: c(0x6E, 0x6A, 0x86),
            accent: c(0x9C, 0xCF, 0xD8),
            accent2: c(0xC4, 0xA7, 0xE7),
            tab_active_bg: c(0x26, 0x23, 0x33),
            icon_sel: c(0x9C, 0xCF, 0xD8),
            icon_dim: c(0x6E, 0x6A, 0x86),
            toast: c(0x31, 0x74, 0x8F),
            brand: c(0x6E, 0x6A, 0x86),
        }),
{
    Theme {
        name: "rosepine",
        bg: c(0x19, 0x17, 0x24),
        bg_alpha: 215,
        row_hover: c(0x26, 0x23, 0x33),
        row_sel: c(0x40, 0x3D, 0x52),
        border: c(0x6E, 0x6A, 0x86),
        separator: c(0x26, 0x23, 0x33),
        fg: c(0xE0, 0xDE, 0xF4),
        fg_dim: c(0xC4, 0xC1, 0xD9),
        fg_muted: c(0x6E, 0x6A, 0x86),
        accent: c(0x9C, 0xCF, 0xD8),
        accent2: c(0xC4, 0xA7, 0xE7),
        tab_active_bg: c(0x26, 0x23, 0x33),
        icon_sel: c(0x9C, 0xCF, 0xD8),
        icon_dim: c(0x6E, 0x6A, 0x86),
        toast: c(0x31, 0x74, 0x8F),
        brand: c(0x6E, 0x6A, 0x86),
    }
}

/// Each name in the list of built-in themes leads to the theme of that name.
pub proof fn law_theme_names(i: int)
    requires
        0 <= i < theme_list().len(),
    ensures
        theme_of(theme_list()[i]).name@ == theme_list()[i],
{
}

/// A name that is not in the list leads to the first theme in it.
pub proof fn law_unknown_theme(name: Seq<char>)
    requires
        !theme_list().contains(name),
    ensures
        theme_of(name) == theme_of(theme_list()[0]),
{
    reveal_strlit("kanagawa");
    reveal_strlit("gruvbox");
    reveal_strlit("nord");
    reveal_strlit("tokyonight");
    reveal_strlit("dracula");
    reveal_strlit("solarized");
    reveal_strlit("monokai");
    reveal_strlit("catppuccin");
    reveal_strlit("onedark");
    reveal_strlit("rosepine");
    assert("kanagawa"@[0] != "gruvbox"@[0]);
    assert("kanagawa"@[0] != "nord"@[0]);
    assert("kanagawa"@[0] != "tokyonight"@[0]);
    assert("kanagawa"@[0] != "dracula"@[0]);
    assert("kanagawa"@[0] != "solarized"@[0]);
    assert("kanagawa"@[0] != "monokai"@[0]);
    assert("kanagawa"@[0] != "catppuccin"@[0]);
    assert("kanagawa"@[0] != "onedark"@[0]);
    assert("kanagawa"@[0] != "rosepine"@[0]);
    assert forall|i: int| 0 <= i < theme_list().len() implies name != #[trigger] theme_list()[i] by {
        assert(theme_list().contains(theme_list()[i]));
    }
    assert(theme_list()[0] == "kanagawa"@);
    assert(theme_list()[1] == "gruvbox"@);
    assert(theme_list()[2] == "nord"@);
    assert(theme_list()[3] == "tokyonight"@);
    assert(theme_list()[4] == "dracula"@);
    assert(theme_list()[5] == "solarized"@);
    assert(theme_list()[6] == "monokai"@);
    assert(theme_list()[7] == "catppuccin"@);
    assert(theme_list()[8] == "onedark"@);
    assert(theme_list()[9] == "rosepine"@);
}

/// A relative part is put behind a directory with one slash between them, whether the
/// directory was written with a slash at its end or not; an absolute part stands for itself.
pub proof fn law_joined_path(dir: Seq<char>, part: Seq<char>)
    requires
        part.len() > 0,
        dir.len() > 0,
        dir.last() != '/',
    ensures
        part[0] != '/' ==> joined_path(dir, part) == dir + seq!['/'] + part,
        part[0] != '/' ==> joined_path(dir + seq!['/'], part) == dir + seq!['/'] + part,
        part[0] != '/' ==> joined_path(seq!['/'], part) == seq!['/'] + part,
        part[0] == '/' ==> joined_path(dir, part) == part,
{
    assert(dir.push('/') =~= dir + seq!['/']);
    assert((dir + seq!['/']).last() == '/');
}

/// An absolute directory in the variable is taken as it is; without one, or with a relative
/// one, it is the usual directory in the home directory.
pub proof fn law_base_dir(home: Seq<char>, xdg: Seq<char>, usual: Seq<char>)
    requires
        home.len() > 0,
        home.last() != '/',
        usual.len() > 0,
        usual[0] != '/',
    ensures
        base_dir(Some(seq!['/'] + xdg), home, usual) == seq!['/'] + xdg,
        base_dir(None, home, usual) == home + seq!['/'] + usual,
        xdg.len() == 0 || xdg[0] != '/' ==> base_dir(Some(xdg), home, usual) == home + seq!['/']
            + usual,
{
    law_joined_path(home, usual);
    assert((seq!['/'] + xdg)[0] == '/');
}

/// The configuration file stands in `mofi` below the directory of configurations.
pub proof fn law_config_file(home: Seq<char>, dir: Seq<char>)
    requires
        home.len() > 0,
        home.last() != '/',
        dir.len() > 0,
        dir[0] == '/',
        dir.last() != '/',
    ensures
        config_file(Some(home), None) == home + "/.config/mofi/config.toml"@,
        config_file(Some(home), Some(dir)) == dir + "/mofi/config.toml"@,
{
    reveal_strlit(".config");
    reveal_strlit("mofi");
    reveal_strlit("config.toml");
    reveal_strlit("/.config/mofi/config.toml");
    reveal_strlit("/mofi/config.toml");
    let usual = home + seq!['/'] + ".config"@;
    law_base_dir(home, dir, ".config"@);
    assert(base_dir(Some(dir), home, ".config"@) == dir);
    lemma_below(usual);
    lemma_below(dir);
    assert(usual + seq!['/'] + "mofi"@ + seq!['/'] + "config.toml"@ =~= home
        + "/.config/mofi/config.toml"@);
    assert(dir + seq!['/'] + "mofi"@ + seq!['/'] + "config.toml"@ =~= dir + "/mofi/config.toml"@);
}

proof fn lemma_below(dir: Seq<char>)
    requires
        dir.len() > 0,
        dir.last() != '/',
    ensures
        joined_path(joined_path(dir, "mofi"@), "config.toml"@) == dir + seq!['/'] + "mofi"@
            + seq!['/'] + "config.toml"@,
{
    reveal_strlit("mofi");
    reveal_strlit("config.toml");
    law_joined_path(dir, "mofi"@);
    let d = dir + seq!['/'] + "mofi"@;
    assert(d.last() == 'i');
    law_joined_path(d, "config.toml"@);
}

/// The theme that the configuration names is in force; without a name, the first of the list
/// is.
pub proof fn law_active(config: Config)
    ensures
        config.theme@.len() > 0 ==> config.active() == config.theme@,
        config.theme@.len() == 0 ==> config.active() == theme_list()[0],
{
}

} // verus!

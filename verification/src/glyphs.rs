//! Icons and accent colours of the rows.

use vstd::prelude::*;
use vstd::utf8::encode_utf8;

use crate::clipboard::ContentModel;
use crate::config::{c, Rgb, Theme};
use crate::launcher::{ItemModel, LaunchItem};
use crate::text::{
    all_white, begins, chars_of, contains_char, contains_text, is_white, joined, law_prefix,
    law_split_joined, law_trimmed, law_white, lowercase, occurs, same, split, split_on,
    starts_with, string_of, texts, to_lower, trim, trimmed,
};

verus! {

// ── Clipboard text ────────────────────────────────────────────────────────────

/// An ASCII hexadecimal digit.
pub open spec fn is_hex(c: char) -> bool {
    ||| '0' as int <= c as int <= '9' as int
    ||| 'a' as int <= c as int <= 'f' as int
    ||| 'A' as int <= c as int <= 'F' as int
}

fn hex(c: char) -> (r: bool)
    ensures
        r == is_hex(c),
{
    let u: u32 = crate::text::code_point(c);
    let zero: u32 = crate::text::code_point('0');
    let nine: u32 = crate::text::code_point('9');
    let a: u32 = crate::text::code_point('a');
    let f: u32 = crate::text::code_point('f');
    let big_a: u32 = crate::text::code_point('A');
    let big_f: u32 = crate::text::code_point('F');
    (zero <= u && u <= nine) || (a <= u && u <= f) || (big_a <= u && u <= big_f)
}

/// Nothing but hexadecimal digits.
pub open spec fn all_hex(s: Seq<char>) -> bool {
    forall|i: int| 0 <= i < s.len() ==> is_hex(#[trigger] s[i])
}

fn every_hex(s: &str) -> (r: bool)
    ensures
        r == all_hex(s@),
{
    let v = chars_of(s);
    let mut i: usize = 0;
    while i < v.len()
        invariant
            i <= v@.len(),
            v@ == s@,
            forall|k: int| 0 <= k < i ==> is_hex(#[trigger] v@[k]),
        decreases v@.len() - i,
    {
        if !hex(v[i]) {
            return false;
        }
        i = i + 1;
    }
    true
}

/// A UUID, as in `550e8400-e29b-41d4-a716-446655440000`.
pub open spec fn is_uuid(s: Seq<char>) -> bool {
    let p = split_on(s, '-');
    &&& p.len() == 5
    &&& p[0].len() == 8
    &&& p[1].len() == 4
    &&& p[2].len() == 4
    &&& p[3].len() == 4
    &&& p[4].len() == 12
    &&& forall|i: int| 0 <= i < 5 ==> all_hex(#[trigger] p[i])
}

fn uuid(s: &[char]) -> (r: bool)
    ensures
        r == is_uuid(s@),
{
    let p = split(s, '-');
    let ghost pieces = texts(p@);
    if p.len() != 5 {
        return false;
    }
    assert forall|i: int| 0 <= i < 5 implies #[trigger] pieces[i] == p@[i]@ by {}
    let mut i: usize = 0;
    while i < 5
        invariant
            i <= 5,
            p@.len() == 5,
            pieces == texts(p@),
            pieces == split_on(s@, '-'),
            forall|k: int| 0 <= k < i ==> all_hex(#[trigger] pieces[k]),
            i > 0 ==> pieces[0].len() == 8,
            i > 1 ==> pieces[1].len() == 4,
            i > 2 ==> pieces[2].len() == 4,
            i > 3 ==> pieces[3].len() == 4,
            i > 4 ==> pieces[4].len() == 12,
        decreases 5 - i,
    {
        let want: usize = if i == 0 {
            8
        } else if i == 4 {
            12
        } else {
            4
        };
        assert(pieces[i as int] == p@[i as int]@);
        if chars_of(p[i].as_str()).len() != want || !every_hex(p[i].as_str()) {
            return false;
        }
        i = i + 1;
    }
    true
}

/// A character of a numeric or hexadecimal token.
pub open spec fn is_token_char(c: char) -> bool {
    is_hex(c) || c == 'x' || c == 'X' || c == '-' || c == '_'
}

/// A short token of digits.
pub open spec fn is_numeric_token(s: Seq<char>) -> bool {
    s.len() <= 64 && forall|i: int| 0 <= i < s.len() ==> is_token_char(#[trigger] s[i])
}

fn numeric_token(s: &[char]) -> (r: bool)
    ensures
        r == is_numeric_token(s@),
{
    if s.len() > 64 {
        return false;
    }
    let mut i: usize = 0;
    while i < s.len()
        invariant
            i <= s@.len(),
            s@.len() == s.len(),
            forall|k: int| 0 <= k < i ==> is_token_char(#[trigger] s@[k]),
        decreases s@.len() - i,
    {
        let d = s[i];
        if !(hex(d) || d == 'x' || d == 'X' || d == '-' || d == '_') {
            assert(!is_token_char(s@[i as int]));
            return false;
        }
        i = i + 1;
    }
    true
}

/// The icon for a text: by what kind of text it looks like, then by its length.
pub open spec fn clip_glyph(text: Seq<char>) -> Seq<char> {
    let t = trimmed(text);
    if begins(t, "http://"@) || begins(t, "https://"@) || begins(t, "ftp://"@) {
        "\u{F0AC}"@
    } else if !t.contains('\n') && t.contains('@') && t.contains('.') {
        "\u{F0E0}"@
    } else if (t.len() > 0 && t[0] == '/') || begins(t, "~/"@) {
        "\u{F15B}"@
    } else if is_uuid(t) {
        "\u{F0CB2}"@
    } else if !t.contains('\n') && is_numeric_token(t) {
        "\u{F0CB2}"@
    } else if t.contains('\n') {
        "\u{F0219}"@
    } else if encode_utf8(t).len() <= 60 {
        "\u{F0F6}"@
    } else {
        "\u{F0219}"@
    }
}

/// Picks an icon based on clipboard text content.
pub fn glyph_for_clip(text: &str) -> (r: &'static str)
    ensures
        r@ == clip_glyph(text@),
{
    let v = chars_of(text);
    let t = trim(v.as_slice());
    if starts_with(t, "http://") || starts_with(t, "https://") || starts_with(t, "ftp://") {
        return "\u{F0AC}";
    }
    let several = contains_char(t, '\n');
    if !several && contains_char(t, '@') && contains_char(t, '.') {
        return "\u{F0E0}";
    }
    if (t.len() > 0 && t[0] == '/') || starts_with(t, "~/") {
        return "\u{F15B}";
    }
    if uuid(t) {
        return "\u{F0CB2}";
    }
    if !several && numeric_token(t) {
        return "\u{F0CB2}";
    }
    if several {
        return "\u{F0219}";
    }
    let s = string_of(t);
    if s.as_str().as_bytes().len() <= 60 {
        return "\u{F0F6}";
    }
    "\u{F0219}"
}

// ── Passwords ─────────────────────────────────────────────────────────────────

/// The icon for a pass entry: by a hint in its name, then by whether it is nested.
pub open spec fn pass_glyph(name: Seq<char>) -> Seq<char> {
    let lower = lowercase(name);
    if occurs(lower, "ssh"@) || occurs(lower, "gpg"@) || occurs(lower, "key"@) {
        "\u{F0306}"@
    } else if occurs(lower, "bank"@) || occurs(lower, "finance"@) || occurs(lower, "credit"@) {
        "\u{F024B}"@
    } else if occurs(lower, "email"@) || occurs(lower, "mail"@) || occurs(lower, "smtp"@) {
        "\u{F0E0}"@
    } else if occurs(lower, "wifi"@) || occurs(lower, "network"@) || occurs(lower, "vpn"@) {
        "\u{F0A72}"@
    } else if occurs(lower, "github"@) || occurs(lower, "gitlab"@) || occurs(lower, "git"@) {
        "\u{F0A70}"@
    } else if occurs(lower, "work"@) || occurs(lower, "corp"@) || occurs(lower, "office"@) {
        "\u{F0A75}"@
    } else if name.contains('/') {
        "\u{F023}"@
    } else {
        "\u{F09C0}"@
    }
}

/// Picks a padlock icon based on the pass entry path.
pub fn glyph_for_pass(name: &str) -> (r: &'static str)
    ensures
        r@ == pass_glyph(name@),
{
    let v = chars_of(name);
    let lower = to_lower(name);
    let w = chars_of(lower.as_str());
    let l = w.as_slice();
    if contains_text(l, "ssh") || contains_text(l, "gpg") || contains_text(l, "key") {
        "\u{F0306}"
    } else if contains_text(l, "bank") || contains_text(l, "finance")
        || contains_text(l, "credit") {
        "\u{F024B}"
    } else if contains_text(l, "email") || contains_text(l, "mail") || contains_text(l, "smtp") {
        "\u{F0E0}"
    } else if contains_text(l, "wifi") || contains_text(l, "network") || contains_text(l, "vpn") {
        "\u{F0A72}"
    } else if contains_text(l, "github") || contains_text(l, "gitlab") || contains_text(l, "git") {
        "\u{F0A70}"
    } else if contains_text(l, "work") || contains_text(l, "corp") || contains_text(l, "office") {
        "\u{F0A75}"
    } else if contains_char(v.as_slice(), '/') {
        "\u{F023}"
    } else {
        "\u{F09C0}"
    }
}

// ── Themes ────────────────────────────────────────────────────────────────────

/// The icon for a theme.
pub open spec fn theme_glyph(name: Seq<char>) -> Seq<char> {
    if name == "kanagawa"@ {
        "\u{E6AC}"@
    } else if name == "gruvbox"@ {
        "\u{F0043}"@
    } else if name == "nord"@ {
        "\u{F0599}"@
    } else if name == "tokyonight"@ {
        "\u{F0E7B}"@
    } else if name == "dracula"@ {
        "\u{F0B4B}"@
    } else if name == "solarized"@ {
        "\u{F0438}"@
    } else if name == "monokai"@ {
        "\u{F0A71}"@
    } else if name == "catppuccin"@ {
        "\u{F028B}"@
    } else if name == "onedark"@ {
        "\u{F04A6}"@
    } else if name == "rosepine"@ {
        "\u{F04CB}"@
    } else {
        "\u{F53F}"@
    }
}

/// Picks a representative icon for each built-in theme name.
pub fn theme_glyph_for(name: &str) -> (r: &'static str)
    ensures
        r@ == theme_glyph(name@),
{
    if same(name, "kanagawa") {
        "\u{E6AC}"
    } else if same(name, "gruvbox") {
        "\u{F0043}"
    } else if same(name, "nord") {
        "\u{F0599}"
    } else if same(name, "tokyonight") {
        "\u{F0E7B}"
    } else if same(name, "dracula") {
        "\u{F0B4B}"
    } else if same(name, "solarized") {
        "\u{F0438}"
    } else if same(name, "monokai") {
        "\u{F0A71}"
    } else if same(name, "catppuccin") {
        "\u{F028B}"
    } else if same(name, "onedark") {
        "\u{F04A6}"
    } else if same(name, "rosepine") {
        "\u{F04CB}"
    } else {
        "\u{F53F}"
    }
}

// ── Applications ──────────────────────────────────────────────────────────────

/// The icon for an application of the given lower-case name.
pub open spec fn app_glyph(n: Seq<char>) -> Seq<char> {
    if occurs(n, "safari"@) {
        "\u{E748}"@
    } else if occurs(n, "firefox"@) {
        "\u{E745}"@
    } else if occurs(n, "chrome"@) || occurs(n, "chromium"@) {
        "\u{E743}"@
    } else if occurs(n, "terminal"@) || occurs(n, "iterm"@) || occurs(n, "alacritty"@)
        || occurs(n, "warp"@) || occurs(n, "kitty"@) || occurs(n, "ghostty"@) {
        "\u{EA85}"@
    } else if occurs(n, "code"@) || occurs(n, "vscode"@) || occurs(n, "cursor"@) {
        "\u{E8DA}"@
    } else if occurs(n, "xcode"@) {
        "\u{E8E8}"@
    } else if occurs(n, "sublime"@) {
        "\u{E7AA}"@
    } else if occurs(n, "finder"@) {
        "\u{F0036}"@
    } else if occurs(n, "mail"@) {
        "\u{F0E0}"@
    } else if occurs(n, "messages"@) {
        "\u{F27A}"@
    } else if occurs(n, "calendar"@) {
        "\u{F073}"@
    } else if occurs(n, "music"@) {
        "\u{F001}"@
    } else if occurs(n, "spotify"@) {
        "\u{F1BC}"@
    } else if occurs(n, "discord"@) {
        "\u{F1FF}"@
    } else if occurs(n, "slack"@) {
        "\u{E8A4}"@
    } else if occurs(n, "docker"@) {
        "\u{E7B0}"@
    } else if occurs(n, "github desktop"@) || occurs(n, "github"@) {
        "\u{E709}"@
    } else if occurs(n, "figma"@) {
        "\u{E7DA}"@
    } else if occurs(n, "system preferences"@) || occurs(n, "system settings"@) {
        "\u{EB52}"@
    } else if occurs(n, "app store"@) {
        "\u{F0BD}"@
    } else if occurs(n, "photos"@) {
        "\u{F03E}"@
    } else if occurs(n, "notes"@) {
        "\u{F249}"@
    } else if occurs(n, "maps"@) {
        "\u{F279}"@
    } else if occurs(n, "calculator"@) {
        "\u{F1EC}"@
    } else if occurs(n, "disk utility"@) {
        "\u{F02CA}"@
    } else if occurs(n, "activity monitor"@) {
        "\u{F0128}"@
    } else if occurs(n, "time machine"@) {
        "\u{F006F}"@
    } else if occurs(n, "vlc"@) {
        "\u{F057C}"@
    } else if occurs(n, "steam"@) {
        "\u{F1B6}"@
    } else if occurs(n, "postman"@) {
        "\u{E86B}"@
    } else if occurs(n, "1password"@) || occurs(n, "onepassword"@) {
        "\u{F0881}"@
    } else if occurs(n, "dropbox"@) {
        "\u{E707}"@
    } else {
        "\u{F2D0}"@
    }
}

/// Picks an icon for an application.
pub fn glyph_for_app(name: &str) -> (r: &'static str)
    ensures
        r@ == app_glyph(lowercase(name@)),
{
    let lower = to_lower(name);
    let v = chars_of(lower.as_str());
    let n = v.as_slice();
    if contains_text(n, "safari") {
        "\u{E748}"
    } else if contains_text(n, "firefox") {
        "\u{E745}"
    } else if contains_text(n, "chrome") || contains_text(n, "chromium") {
        "\u{E743}"
    } else if contains_text(n, "terminal") || contains_text(n, "iterm")
        || contains_text(n, "alacritty") || contains_text(n, "warp") || contains_text(n, "kitty")
        || contains_text(n, "ghostty") {
        "\u{EA85}"
    } else if contains_text(n, "code") || contains_text(n, "vscode") || contains_text(n, "cursor") {
        "\u{E8DA}"
    } else if contains_text(n, "xcode") {
        "\u{E8E8}"
    } else if contains_text(n, "sublime") {
        "\u{E7AA}"
    } else if contains_text(n, "finder") {
        "\u{F0036}"
    } else if contains_text(n, "mail") {
        "\u{F0E0}"
    } else if contains_text(n, "messages") {
        "\u{F27A}"
    } else if contains_text(n, "calendar") {
        "\u{F073}"
    } else if contains_text(n, "music") {
        "\u{F001}"
    } else if contains_text(n, "spotify") {
        "\u{F1BC}"
    } else if contains_text(n, "discord") {
        "\u{F1FF}"
    } else if contains_text(n, "slack") {
        "\u{E8A4}"
    } else if contains_text(n, "docker") {
        "\u{E7B0}"
    } else if contains_text(n, "github desktop") || contains_text(n, "github") {
        "\u{E709}"
    } else if contains_text(n, "figma") {
        "\u{E7DA}"
    } else if contains_text(n, "system preferences") || contains_text(n, "system settings") {
        "\u{EB52}"
    } else if contains_text(n, "app store") {
        "\u{F0BD}"
    } else if contains_text(n, "photos") {
        "\u{F03E}"
    } else if contains_text(n, "notes") {
        "\u{F249}"
    } else if contains_text(n, "maps") {
        "\u{F279}"
    } else if contains_text(n, "calculator") {
        "\u{F1EC}"
    } else if contains_text(n, "disk utility") {
        "\u{F02CA}"
    } else if contains_text(n, "activity monitor") {
        "\u{F0128}"
    } else if contains_text(n, "time machine") {
        "\u{F006F}"
    } else if contains_text(n, "vlc") {
        "\u{F057C}"
    } else if contains_text(n, "steam") {
        "\u{F1B6}"
    } else if contains_text(n, "postman") {
        "\u{E86B}"
    } else if contains_text(n, "1password") || contains_text(n, "onepassword") {
        "\u{F0881}"
    } else if contains_text(n, "dropbox") {
        "\u{E707}"
    } else {
        "\u{F2D0}"
    }
}

// ── Items ─────────────────────────────────────────────────────────────────────

/// The icon for an item.
pub open spec fn item_glyph(item: ItemModel) -> Seq<char> {
    match item {
        ItemModel::Clip(e) => match e.content {
            ContentModel::Image { .. } => "\u{F03E}"@,
            ContentModel::Text(text) => clip_glyph(text),
        },
        ItemModel::Pass { name } => pass_glyph(name),
        ItemModel::App { name, .. } => app_glyph(lowercase(name)),
    }
}

/// Picks the icon for an item.
pub fn glyph_for_item(item: &LaunchItem) -> (r: &'static str)
    ensures
        r@ == item_glyph(item@),
{
    match item {
        LaunchItem::Clip(e) => match e.text() {
            Some(text) => glyph_for_clip(text),
            None => "\u{F03E}",
        },
        LaunchItem::Pass(e) => glyph_for_pass(e.name.as_str()),
        LaunchItem::App(a) => glyph_for_app(a.name.as_str()),
    }
}

/// The accent colours that applications share out among them.
pub open spec fn accent(i: int) -> Rgb {
    if i == 0 {
        c(0x7E, 0x9C, 0xD8)
    } else if i == 1 {
        c(0x95, 0x7F, 0xB8)
    } else if i == 2 {
        c(0x98, 0xBB, 0x6C)
    } else if i == 3 {
        c(0x7A, 0xA8, 0x9F)
    } else if i == 4 {
        c(0xD2, 0x7E, 0x99)
    } else if i == 5 {
        c(0xFF, 0xA0, 0x66)
    } else if i == 6 {
        c(0xE6, 0xC3, 0x84)
    } else if i == 7 {
        c(0xE4, 0x68, 0x76)
    } else if i == 8 {
        c(0x7F, 0xB4, 0xCA)
    } else {
        c(0xC0, 0xA3, 0x6E)
    }
}

/// The accent colour of a name: by its first byte.
pub open spec fn name_accent(name: Seq<char>) -> Rgb {
    let bytes = encode_utf8(name);
    accent(
        if bytes.len() > 0 {
            bytes[0] as int % 10
        } else {
            0
        },
    )
}

/// Picks the accent colour of a name.
pub fn accent_for_name(name: &str) -> (r: Rgb)
    ensures
        r == name_accent(name@),
{
    let bytes = name.as_bytes();
    let i: u8 = if bytes.len() > 0 {
        bytes[0] % 10
    } else {
        0
    };
    if i == 0 {
        c(0x7E, 0x9C, 0xD8)
    } else if i == 1 {
        c(0x95, 0x7F, 0xB8)
    } else if i == 2 {
        c(0x98, 0xBB, 0x6C)
    } else if i == 3 {
        c(0x7A, 0xA8, 0x9F)
    } else if i == 4 {
        c(0xD2, 0x7E, 0x99)
    } else if i == 5 {
        c(0xFF, 0xA0, 0x66)
    } else if i == 6 {
        c(0xE6, 0xC3, 0x84)
    } else if i == 7 {
        c(0xE4, 0x68, 0x76)
    } else if i == 8 {
        c(0x7F, 0xB4, 0xCA)
    } else {
        c(0xC0, 0xA3, 0x6E)
    }
}

/// The icon colour of an item.
pub open spec fn item_color(item: ItemModel, t: Theme) -> Rgb {
    match item {
        ItemModel::Clip(_) => t.accent2,
        ItemModel::Pass { .. } => t.toast,
        ItemModel::App { name, .. } => name_accent(name),
    }
}

/// Picks the icon colour of an item.
pub fn glyph_color_for_item(item: &LaunchItem, t: &Theme) -> (r: Rgb)
    ensures
        r == item_color(item@, *t),
{
    match item {
        LaunchItem::Clip(_) => t.accent2,
        LaunchItem::Pass(_) => t.toast,
        LaunchItem::App(a) => accent_for_name(a.name.as_str()),
    }
}

/// Two thirds of a colour component.
pub open spec fn dimmed(x: u8) -> u8 {
    (x * 2 / 3) as u8
}

/// A darker shade of a colour, for rows that are not selected.
pub fn dim_color(x: Rgb) -> (r: Rgb)
    ensures
        r == (Rgb { r: dimmed(x.r), g: dimmed(x.g), b: dimmed(x.b) }),
{
    let r: u16 = x.r as u16 * 2 / 3;
    let g: u16 = x.g as u16 * 2 / 3;
    let b: u16 = x.b as u16 * 2 / 3;
    Rgb { r: r as u8, g: g as u8, b: b as u8 }
}

// ── Laws ──────────────────────────────────────────────────────────────────────

/// A UUID is five groups of hexadecimal digits with a hyphen between each two, of 8, 4, 4, 4
/// and 12 digits, and nothing else is.
pub proof fn law_uuid(groups: Seq<Seq<char>>)
    requires
        groups.len() > 0,
        forall|i: int| 0 <= i < groups.len() ==> !(#[trigger] groups[i]).contains('-'),
    ensures
        is_uuid(joined(groups, '-')) == {
            &&& groups.len() == 5
            &&& groups[0].len() == 8 && groups[1].len() == 4 && groups[2].len() == 4
            &&& groups[3].len() == 4 && groups[4].len() == 12
            &&& forall|i: int, k: int|
                0 <= i < 5 && 0 <= k < groups[i].len() ==> is_hex(#[trigger] groups[i][k])
        },
{
    law_split_joined(groups, '-');
    if is_uuid(joined(groups, '-')) {
        assert forall|i: int, k: int| 0 <= i < 5 && 0 <= k < groups[i].len() implies is_hex(
            #[trigger] groups[i][k],
        ) by {
            assert(all_hex(groups[i]));
        }
    }
}

/// The hexadecimal digits are the ten digits and the first six letters in either case.
pub proof fn law_hex(c: char)
    ensures
        is_hex(c) == "0123456789abcdefABCDEF"@.contains(c),
{
    let all = "0123456789abcdefABCDEF"@;
    reveal_strlit("0123456789abcdefABCDEF");
    if is_hex(c) {
        let u = c as int;
        let i = if u <= '9' as int {
            u - '0' as int
        } else if u >= 'a' as int {
            u - 'a' as int + 10
        } else {
            u - 'A' as int + 16
        };
        assert(all[i] as int == u);
    }
    if all.contains(c) {
        let i = choose|i: int| 0 <= i < all.len() && all[i] == c;
        assert(is_hex(all[i]));
    }
}

/// White space around a text does not change its icon.
pub proof fn law_clip_glyph_trims(before: Seq<char>, core: Seq<char>, after: Seq<char>)
    requires
        all_white(before),
        all_white(after),
        core.len() > 0,
        !is_white(core[0]) && !is_white(core.last()),
    ensures
        clip_glyph(before + core + after) == clip_glyph(core),
{
    law_trimmed(before, core, after);
}

/// Every address of a page has the same icon, and every path has the same icon.
pub proof fn law_clip_glyph_kinds(rest: Seq<char>, other: Seq<char>)
    requires
        rest.len() > 0 && !is_white(rest.last()),
        other.len() > 0 && !is_white(other.last()),
    ensures
        clip_glyph("http://"@ + rest) == clip_glyph("https://"@ + other),
        clip_glyph("ftp://"@ + rest) == clip_glyph("https://"@ + other),
        !rest.contains('@') && !other.contains('@') ==> clip_glyph("/"@ + rest) == clip_glyph(
            "~/"@ + other,
        ),
{
    lemma_kept("http://"@, rest);
    lemma_kept("ftp://"@, rest);
    lemma_kept("https://"@, other);
    lemma_kept("/"@, rest);
    lemma_kept("~/"@, other);
    reveal_strlit("http://");
    reveal_strlit("https://");
    reveal_strlit("ftp://");
    reveal_strlit("/");
    reveal_strlit("~/");
    let a = "/"@ + rest;
    let b = "~/"@ + other;
    assert(a[0] == '/' && b[0] == '~');
    assert("http://"@[0] == 'h' && "https://"@[0] == 'h' && "ftp://"@[0] == 'f');
    assert(!begins(a, "http://"@) && !begins(a, "https://"@) && !begins(a, "ftp://"@)) by {
        assert(begins(a, "http://"@) ==> a.take(7)[0] == a[0]);
        assert(begins(a, "https://"@) ==> a.take(8)[0] == a[0]);
        assert(begins(a, "ftp://"@) ==> a.take(6)[0] == a[0]);
    }
    assert(!begins(b, "http://"@) && !begins(b, "https://"@) && !begins(b, "ftp://"@)) by {
        assert(begins(b, "http://"@) ==> b.take(7)[0] == b[0]);
        assert(begins(b, "https://"@) ==> b.take(8)[0] == b[0]);
        assert(begins(b, "ftp://"@) ==> b.take(6)[0] == b[0]);
    }
    if !rest.contains('@') && a.contains('@') {
        let i = choose|i: int| 0 <= i < a.len() && a[i] == '@';
        assert(rest[i - 1] == '@');
    }
    if !other.contains('@') && b.contains('@') {
        let i = choose|i: int| 0 <= i < b.len() && b[i] == '@';
        if i >= 2 {
            assert(other[i - 2] == '@');
        }
    }
}

proof fn lemma_kept(p: Seq<char>, rest: Seq<char>)
    requires
        p == "http://"@ || p == "https://"@ || p == "ftp://"@ || p == "/"@ || p == "~/"@,
        rest.len() > 0,
        !is_white(rest.last()),
    ensures
        trimmed(p + rest) == p + rest,
        begins(p + rest, p),
{
    reveal_strlit("http://");
    reveal_strlit("https://");
    reveal_strlit("ftp://");
    reveal_strlit("/");
    reveal_strlit("~/");
    let s = p + rest;
    assert(s[0] == p[0]);
    law_white(s[0]);
    assert(s.last() == rest.last());
    law_trimmed(Seq::empty(), s, Seq::empty());
    law_prefix(p, rest);
}

/// Case does not matter for the icon of an application or a pass entry.
pub proof fn law_glyphs_ignore_case(a: Seq<char>, b: Seq<char>, path: Seq<char>)
    requires
        lowercase(a) == lowercase(b),
        a.contains('/') == b.contains('/'),
    ensures
        item_glyph(ItemModel::App { name: a, path }) == item_glyph(ItemModel::App { name: b, path }),
        item_glyph(ItemModel::Pass { name: a }) == item_glyph(ItemModel::Pass { name: b }),
{
}

/// A dimmed component is two thirds of it, rounded down.
pub proof fn law_dimmed(x: u8)
    ensures
        3 * dimmed(x) <= 2 * x,
        2 * x < 3 * dimmed(x) + 3,
{
}

/// Names that start with the same byte share their accent colour, which is one of the ten.
pub proof fn law_name_accent(a: Seq<char>, b: Seq<char>)
    requires
        encode_utf8(a).len() > 0,
        encode_utf8(b).len() > 0,
        encode_utf8(a)[0] as int % 10 == encode_utf8(b)[0] as int % 10,
    ensures
        name_accent(a) == name_accent(b),
        name_accent(a) == accent(encode_utf8(a)[0] as int % 10),
{
}

/// No two themes share an icon.
pub proof fn law_theme_glyphs_differ(i: int, j: int)
    requires
        0 <= i < j < crate::config::theme_list().len(),
    ensures
        theme_glyph(crate::config::theme_list()[i]) != theme_glyph(crate::config::theme_list()[j]),
{
    reveal_strlit("kanagawa");
    reveal_strlit("gruvbox");
    reveal_strlit("nord");
    reveal_strlit("tokyonight");
    reveal_strlit("dracula");
    reveal_strlit("solarized");
    reveal_strlit("monokai");
    reveal_strlit("catppuccin");
    reveal_strlit("onedark");
    reveal_strlit("rosepine");
    reveal_strlit("\u{E6AC}");
    reveal_strlit("\u{F0043}");
    reveal_strlit("\u{F0599}");
    reveal_strlit("\u{F0E7B}");
    reveal_strlit("\u{F0B4B}");
    reveal_strlit("\u{F0438}");
    reveal_strlit("\u{F0A71}");
    reveal_strlit("\u{F028B}");
    reveal_strlit("\u{F04A6}");
    reveal_strlit("\u{F04CB}");
    assert(crate::config::theme_list()[i][0] != crate::config::theme_list()[j][0]);
    assert(theme_glyph(crate::config::theme_list()[i])[0] != theme_glyph(
        crate::config::theme_list()[j],
    )[0]);
}

} // verus!
